use sateko::token::{InputPosition, Token, TokenKind};

#[test]
fn start_loop() {
    assert_eq!(TokenKind::StartLoop, TokenKind::from('['));
}

#[test]
fn end_loop() {
    assert_eq!(TokenKind::EndLoop, TokenKind::from(']'));
}

#[test]
fn inc_tape() {
    assert_eq!(TokenKind::IncTape, TokenKind::from('>'));
}

#[test]
fn dec_tape() {
    assert_eq!(TokenKind::DecTape, TokenKind::from('<'));
}

#[test]
fn inc_val() {
    assert_eq!(TokenKind::IncVal, TokenKind::from('+'));
}

#[test]
fn dec_val() {
    assert_eq!(TokenKind::DecVal, TokenKind::from('-'));
}

#[test]
fn read() {
    assert_eq!(TokenKind::Read, TokenKind::from(','));
}

#[test]
fn write() {
    assert_eq!(TokenKind::Write, TokenKind::from('.'));
}

#[test]
fn comment() {
    for d in 0..255u8 {
        let c = d as char;
        if !"[]><+-,.".contains(c) {
            assert_eq!(TokenKind::Comment, TokenKind::from(c));
        } else {
            assert_ne!(TokenKind::Comment, TokenKind::from(c));
        }
    }
}

#[test]
fn tokenize() {
    let s = "[>+,\n .-<]";
    let tokens = sateko::token::tokenize(s);
    let expect: Vec<Token> = vec![
        Token { kind: TokenKind::StartLoop, pos: InputPosition { line: 1, pos: 1 } },
        Token { kind: TokenKind::IncTape, pos: InputPosition { line: 1, pos: 2 } },
        Token { kind: TokenKind::IncVal, pos: InputPosition { line: 1, pos: 3 } },
        Token { kind: TokenKind::Read, pos: InputPosition { line: 1, pos: 4 } },
        Token { kind: TokenKind::Comment, pos: InputPosition { line: 2, pos: 1 } },
        Token { kind: TokenKind::Write, pos: InputPosition { line: 2, pos: 2 } },
        Token { kind: TokenKind::DecVal, pos: InputPosition { line: 2, pos: 3 } },
        Token { kind: TokenKind::DecTape, pos: InputPosition { line: 2, pos: 4 } },
        Token { kind: TokenKind::EndLoop, pos: InputPosition { line: 2, pos: 5 } },
    ];
    assert_eq!(tokens, expect);
}

#[test]
fn tokenize_from_u8() {
    assert_eq!(TokenKind::StartLoop, TokenKind::from(b'['));
    assert_eq!(TokenKind::Comment, TokenKind::from(b' '));
}

#[test]
fn tokenize_empty() {
    assert_eq!(sateko::token::tokenize(""), vec![]);
}

#[test]
fn tokenize_newline_only() {
    assert_eq!(sateko::token::tokenize("\n\n"), vec![]);
}
