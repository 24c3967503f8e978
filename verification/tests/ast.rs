use sateko::ast::{ASTNode, ASTNodeKind, ErrorKind, SyntaxError, AST};
use sateko::token::{tokenize, InputPosition};

#[test]
fn empty() {
    let raw = "";
    let val = AST::from_tokens(&tokenize(raw));
    let expect = Ok(AST(vec![]));

    assert_eq!(val, expect);
}

#[test]
fn scalar() {
    let raw = "><+-,.";
    let val = AST::from_tokens(&tokenize(raw));
    let expect = Ok(AST(vec![
        ASTNode::new_scalar(ASTNodeKind::IncTape, 1, 1),
        ASTNode::new_scalar(ASTNodeKind::DecTape, 1, 2),
        ASTNode::new_scalar(ASTNodeKind::IncVal, 1, 3),
        ASTNode::new_scalar(ASTNodeKind::DecVal, 1, 4),
        ASTNode::new_scalar(ASTNodeKind::Read, 1, 5),
        ASTNode::new_scalar(ASTNodeKind::Write, 1, 6),
    ]));

    assert_eq!(val, expect);
}

#[test]
fn empty_loop() {
    let raw = "[]";
    let val = AST::from_tokens(&tokenize(raw));
    let expect = Ok(AST(vec![ASTNode::new_loop(1, 1, vec![])]));

    assert_eq!(val, expect);
}

#[test]
fn simple_loop() {
    let raw = "+[-]";
    let val = AST::from_tokens(&tokenize(raw));
    let expect = Ok(AST(vec![
        ASTNode::new_scalar(ASTNodeKind::IncVal, 1, 1),
        ASTNode::new_loop(1, 2, vec![ASTNode::new_scalar(ASTNodeKind::DecVal, 1, 3)]),
    ]));

    assert_eq!(val, expect);
}

#[test]
fn nested_loop() {
    let raw = "+[+[-]-]";
    let val = AST::from_tokens(&tokenize(raw));
    let expect = Ok(AST(vec![
        ASTNode::new_scalar(ASTNodeKind::IncVal, 1, 1),
        ASTNode::new_loop(
            1,
            2,
            vec![
                ASTNode::new_scalar(ASTNodeKind::IncVal, 1, 3),
                ASTNode::new_loop(1, 4, vec![ASTNode::new_scalar(ASTNodeKind::DecVal, 1, 5)]),
                ASTNode::new_scalar(ASTNodeKind::DecVal, 1, 7),
            ],
        ),
    ]));

    assert_eq!(val, expect);
}

#[test]
fn unopened_loop() {
    let raw = "]";
    let val = AST::from_tokens(&tokenize(raw));
    let expect = Err(SyntaxError {
        pos: InputPosition { line: 1, pos: 1 },
        kind: ErrorKind::UnopenedLoop,
    });

    assert_eq!(val, expect);
}

#[test]
fn unclosed_loop() {
    let raw = "[";
    let val = AST::from_tokens(&tokenize(raw));
    let expect = Err(SyntaxError {
        pos: InputPosition { line: 1, pos: 1 },
        kind: ErrorKind::UnclosedLoop,
    });

    assert_eq!(val, expect);
}

#[test]
fn unclosed_loop_reports_outermost() {
    let raw = "+[[";
    let val = AST::from_tokens(&tokenize(raw));
    let expect = Err(SyntaxError {
        pos: InputPosition { line: 1, pos: 2 },
        kind: ErrorKind::UnclosedLoop,
    });

    assert_eq!(val, expect);
}

#[test]
fn unopened_loop_after_closed_pair() {
    let raw = "[]]";
    let val = AST::from_tokens(&tokenize(raw));
    let expect = Err(SyntaxError {
        pos: InputPosition { line: 1, pos: 3 },
        kind: ErrorKind::UnopenedLoop,
    });

    assert_eq!(val, expect);
}

#[test]
fn comments_are_dropped() {
    let raw = "a+b\nc-d";
    let val = AST::from_tokens(&tokenize(raw));
    let expect = Ok(AST(vec![
        ASTNode::new_scalar(ASTNodeKind::IncVal, 1, 2),
        ASTNode::new_scalar(ASTNodeKind::DecVal, 2, 2),
    ]));

    assert_eq!(val, expect);
}
