//! Parser: consumes the token stream once, validates bracket nesting, and
//! builds the syntax tree. A closing bracket with no matching open fails with
//! `UnopenedLoop` at that bracket; an opening bracket never matched before
//! the input ends fails with `UnclosedLoop` at the outermost such bracket.

use vstd::prelude::*;

use crate::token::{InputPosition, Token, TokenKind};

verus! {

/// A parsed program: the ordered top-level nodes of the syntax tree.
#[derive(Debug, PartialEq)]
pub struct AST(pub Vec<ASTNode>);

/// One node of the syntax tree. Scalar nodes carry no body (`ops` is
/// `None`); a `Loop` node owns its body in `ops`, and its position is that
/// of the opening bracket.
#[derive(Debug, PartialEq)]
pub struct ASTNode {
    pub kind: ASTNodeKind,
    pub pos: InputPosition,
    pub ops: Option<Vec<ASTNode>>,
}

/// The kind of a syntax-tree node: the six scalar instructions, or a loop.
#[derive(Clone, Copy, Debug, PartialEq, Eq, Structural)]
pub enum ASTNodeKind {
    Loop,
    IncTape,
    DecTape,
    IncVal,
    DecVal,
    Read,
    Write,
}

/// A structural parse error.
#[derive(Clone, Copy, Debug, PartialEq, Eq, Structural)]
pub struct SyntaxError {
    pub pos: InputPosition,
    pub kind: ErrorKind,
}

/// The two ways bracket nesting can be wrong.
#[derive(Clone, Copy, Debug, PartialEq, Eq, Structural)]
pub enum ErrorKind {
    UnclosedLoop,
    UnopenedLoop,
}

impl SyntaxError {
    /// A short human-readable account of the error kind.
    pub fn description(&self) -> (r: &'static str)
        ensures
            self.kind is UnopenedLoop ==> r@ == "Unopened loop"@,
            self.kind is UnclosedLoop ==> r@ == "Unclosed loop"@,
    {
        match self.kind {
            ErrorKind::UnopenedLoop => "Unopened loop",
            ErrorKind::UnclosedLoop => "Unclosed loop",
        }
    }
}

/// The mathematical shape of a syntax-tree node: its kind, its source
/// position, and (for loops) the shapes of its children in order.
#[verifier::ext_equal]
pub struct NodeV {
    pub kind: ASTNodeKind,
    pub pos: InputPosition,
    pub children: Seq<NodeV>,
}

/// The shape of a node: a scalar node has no children; a loop node's
/// children are the shapes of its body.
pub open spec fn node_view(n: ASTNode) -> NodeV
    decreases n,
{
    NodeV {
        kind: n.kind,
        pos: n.pos,
        children: match n.ops {
            Option::None => Seq::empty(),
            Option::Some(v) => nodes_view(v@),
        },
    }
}

/// The shapes of a node sequence, in order.
pub open spec fn nodes_view(ns: Seq<ASTNode>) -> Seq<NodeV>
    decreases ns,
{
    if ns.len() == 0 {
        Seq::empty()
    } else {
        seq![node_view(ns[0])] + nodes_view(ns.drop_first())
    }
}

impl View for ASTNode {
    type V = NodeV;

    open spec fn view(&self) -> NodeV {
        node_view(*self)
    }
}

impl View for AST {
    type V = Seq<NodeV>;

    open spec fn view(&self) -> Seq<NodeV> {
        nodes_view(self.0@)
    }
}

/// A node is well formed when exactly the `Loop` nodes carry a body, at
/// every nesting level.
pub open spec fn wf_node(n: ASTNode) -> bool
    decreases n,
{
    match n.ops {
        Option::None => n.kind != ASTNodeKind::Loop,
        Option::Some(v) => n.kind == ASTNodeKind::Loop && wf_nodes(v@),
    }
}

/// Every node of the sequence is well formed.
pub open spec fn wf_nodes(ns: Seq<ASTNode>) -> bool
    decreases ns,
{
    ns.len() == 0 || (wf_node(ns[0]) && wf_nodes(ns.drop_first()))
}

pub proof fn lemma_nodes_view_len(ns: Seq<ASTNode>)
    ensures
        nodes_view(ns).len() == ns.len(),
        forall|i: int| 0 <= i < ns.len() ==> nodes_view(ns)[i] == node_view(ns[i]),
    decreases ns,
{
    if ns.len() > 0 {
        lemma_nodes_view_len(ns.drop_first());
    }
}

proof fn lemma_nodes_view_push(ns: Seq<ASTNode>, n: ASTNode)
    ensures
        nodes_view(ns.push(n)) == nodes_view(ns).push(node_view(n)),
    decreases ns,
{
    reveal_with_fuel(nodes_view, 2);
    if ns.len() == 0 {
        assert(ns.push(n)[0] == n);
        assert(ns.push(n).drop_first() =~= Seq::<ASTNode>::empty());
        assert(nodes_view(ns.push(n)) =~= nodes_view(ns).push(node_view(n)));
    } else {
        assert(ns.push(n)[0] == ns[0]);
        assert(ns.push(n).drop_first() =~= ns.drop_first().push(n));
        lemma_nodes_view_push(ns.drop_first(), n);
        assert(nodes_view(ns.push(n)) =~= nodes_view(ns).push(node_view(n)));
    }
}

proof fn lemma_wf_nodes_push(ns: Seq<ASTNode>, n: ASTNode)
    requires
        wf_nodes(ns),
        wf_node(n),
    ensures
        wf_nodes(ns.push(n)),
    decreases ns,
{
    reveal_with_fuel(wf_nodes, 2);
    if ns.len() == 0 {
        assert(ns.push(n)[0] == n);
        assert(ns.push(n).drop_first() =~= Seq::<ASTNode>::empty());
    } else {
        assert(ns.push(n)[0] == ns[0]);
        assert(ns.push(n).drop_first() =~= ns.drop_first().push(n));
        lemma_wf_nodes_push(ns.drop_first(), n);
    }
}

pub proof fn lemma_wf_nodes_index(ns: Seq<ASTNode>, i: int)
    requires
        wf_nodes(ns),
        0 <= i < ns.len(),
    ensures
        wf_node(ns[i]),
    decreases ns,
{
    if i > 0 {
        lemma_wf_nodes_index(ns.drop_first(), i - 1);
    }
}

/// The scalar node kind a token stands for, or `None` for the brackets and
/// comments, which build no scalar node.
pub open spec fn kind_of_token(k: TokenKind) -> Option<ASTNodeKind> {
    match k {
        TokenKind::IncTape => Option::Some(ASTNodeKind::IncTape),
        TokenKind::DecTape => Option::Some(ASTNodeKind::DecTape),
        TokenKind::IncVal => Option::Some(ASTNodeKind::IncVal),
        TokenKind::DecVal => Option::Some(ASTNodeKind::DecVal),
        TokenKind::Read => Option::Some(ASTNodeKind::Read),
        TokenKind::Write => Option::Some(ASTNodeKind::Write),
        _ => Option::None,
    }
}

/// The outcome of scanning a token suffix at one bracket-nesting depth.
#[verifier::ext_equal]
pub enum Scan {
    /// The suffix ran out with every bracket of this depth matched: `nodes`
    /// are the nodes built from the whole suffix.
    Ended { nodes: Seq<NodeV> },
    /// A closing bracket was met at this depth: `nodes` are the nodes built
    /// before it, `close` the bracket token, `rest` what follows it.
    Closed { nodes: Seq<NodeV>, close: Token, rest: Seq<Token> },
    /// An opening bracket in the suffix is never matched; `err` reports the
    /// outermost such bracket.
    Failed { err: SyntaxError },
}

/// Put one node in front of whatever a scan built.
pub open spec fn prepend(n: NodeV, s: Scan) -> Scan {
    match s {
        Scan::Ended { nodes } => Scan::Ended { nodes: seq![n] + nodes },
        Scan::Closed { nodes, close, rest } => Scan::Closed {
            nodes: seq![n] + nodes,
            close,
            rest,
        },
        Scan::Failed { err } => Scan::Failed { err },
    }
}

/// Put a node sequence in front of whatever a scan built.
pub open spec fn prepend_all(ns: Seq<NodeV>, s: Scan) -> Scan {
    match s {
        Scan::Ended { nodes } => Scan::Ended { nodes: ns + nodes },
        Scan::Closed { nodes, close, rest } => Scan::Closed { nodes: ns + nodes, close, rest },
        Scan::Failed { err } => Scan::Failed { err },
    }
}

/// The single left-to-right pass of the parser, scanning one nesting depth:
/// scalar tokens become scalar nodes, comments are skipped, a closing
/// bracket ends the depth, and an opening bracket swallows a nested scan up
/// to its matching close and becomes a `Loop` node.
///
/// What a closing bracket leaves behind is always a strict suffix of what
/// was scanned; the length test on it below only keeps the recursion
/// measure visibly decreasing.
pub open spec fn scan(ts: Seq<Token>) -> Scan
    decreases ts.len(),
{
    if ts.len() == 0 {
        Scan::Ended { nodes: Seq::empty() }
    } else {
        let t = ts[0];
        let tail = ts.drop_first();
        match kind_of_token(t.kind) {
            Option::Some(k) => prepend(
                NodeV { kind: k, pos: t.pos, children: Seq::empty() },
                scan(tail),
            ),
            Option::None => {
                if t.kind == TokenKind::Comment {
                    scan(tail)
                } else if t.kind == TokenKind::EndLoop {
                    Scan::Closed { nodes: Seq::empty(), close: t, rest: tail }
                } else {
                    match scan(tail) {
                        Scan::Closed { nodes, close, rest } => prepend(
                            NodeV { kind: ASTNodeKind::Loop, pos: t.pos, children: nodes },
                            scan(
                                if rest.len() < ts.len() {
                                    rest
                                } else {
                                    Seq::empty()
                                },
                            ),
                        ),
                        _ => Scan::Failed {
                            err: SyntaxError { pos: t.pos, kind: ErrorKind::UnclosedLoop },
                        },
                    }
                }
            },
        }
    }
}

/// What a closing bracket leaves behind is a strict suffix: fewer tokens
/// than were scanned.
proof fn lemma_scan_rest_shorter(ts: Seq<Token>)
    ensures
        match scan(ts) {
            Scan::Closed { rest, .. } => rest.len() < ts.len(),
            _ => true,
        },
    decreases ts.len(),
{
    if ts.len() > 0 {
        let t = ts[0];
        let tail = ts.drop_first();
        lemma_scan_rest_shorter(tail);
        if kind_of_token(t.kind) is None && t.kind == TokenKind::StartLoop {
            match scan(tail) {
                Scan::Closed { rest, .. } => {
                    lemma_scan_rest_shorter(rest);
                },
                _ => {},
            }
        }
    }
}

/// The brackets of `ts` are balanced when scanned with `depth` opens already
/// pending: every close has a pending open, and no open is left pending at
/// the end.
pub open spec fn balanced_from(ts: Seq<Token>, depth: int) -> bool
    decreases ts.len(),
{
    if ts.len() == 0 {
        depth == 0
    } else if ts[0].kind == TokenKind::StartLoop {
        balanced_from(ts.drop_first(), depth + 1)
    } else if ts[0].kind == TokenKind::EndLoop {
        depth > 0 && balanced_from(ts.drop_first(), depth - 1)
    } else {
        balanced_from(ts.drop_first(), depth)
    }
}

/// Every closing bracket of `ts` has a matching open before it, and every
/// open a matching close after it.
pub open spec fn balanced(ts: Seq<Token>) -> bool {
    balanced_from(ts, 0)
}

proof fn lemma_scan_balanced_from(ts: Seq<Token>, depth: int)
    requires
        depth >= 0,
    ensures
        match scan(ts) {
            Scan::Ended { .. } => balanced_from(ts, depth) <==> depth == 0,
            Scan::Closed { rest, .. } => balanced_from(ts, depth) <==> depth > 0
                && balanced_from(rest, depth - 1),
            Scan::Failed { .. } => !balanced_from(ts, depth),
        },
    decreases ts.len(),
{
    if ts.len() > 0 {
        let t = ts[0];
        let tail = ts.drop_first();
        match kind_of_token(t.kind) {
            Option::Some(k) => {
                lemma_scan_balanced_from(tail, depth);
            },
            Option::None => {
                if t.kind == TokenKind::Comment {
                    lemma_scan_balanced_from(tail, depth);
                } else if t.kind == TokenKind::EndLoop {
                } else {
                    lemma_scan_balanced_from(tail, depth + 1);
                    match scan(tail) {
                        Scan::Closed { rest, .. } => {
                            lemma_scan_rest_shorter(tail);
                            lemma_scan_balanced_from(rest, depth);
                        },
                        _ => {},
                    }
                }
            },
        }
    }
}

/// Law: the parser succeeds exactly on the token sequences whose brackets
/// are balanced.
pub proof fn lemma_parse_succeeds_iff_balanced(ts: Seq<Token>)
    ensures
        scan(ts) is Ended <==> balanced(ts),
{
    lemma_scan_balanced_from(ts, 0);
}

/// The scalar nodes of a node-shape sequence, left to right and depth first,
/// with the `Loop` wrappers themselves discarded.
pub open spec fn flatten(ns: Seq<NodeV>) -> Seq<NodeV>
    decreases ns,
{
    if ns.len() == 0 {
        Seq::empty()
    } else {
        flatten_node(ns[0]) + flatten(ns.drop_first())
    }
}

/// The scalar nodes under one node: the node itself when scalar, else the
/// flattened body of the loop.
pub open spec fn flatten_node(n: NodeV) -> Seq<NodeV>
    decreases n,
{
    if n.kind == ASTNodeKind::Loop {
        flatten(n.children)
    } else {
        seq![n]
    }
}

/// The scalar nodes a token sequence spells out directly, brackets and
/// comments removed.
pub open spec fn scalar_nodes(ts: Seq<Token>) -> Seq<NodeV>
    decreases ts.len(),
{
    if ts.len() == 0 {
        Seq::empty()
    } else {
        (match kind_of_token(ts[0].kind) {
            Option::Some(k) => seq![NodeV { kind: k, pos: ts[0].pos, children: Seq::empty() }],
            Option::None => Seq::empty(),
        }) + scalar_nodes(ts.drop_first())
    }
}

proof fn lemma_flatten_cons(n: NodeV, ns: Seq<NodeV>)
    ensures
        flatten(seq![n] + ns) == flatten_node(n) + flatten(ns),
{
    assert((seq![n] + ns)[0] == n);
    assert((seq![n] + ns).drop_first() =~= ns);
    assert(flatten(seq![n] + ns) == flatten_node(n) + flatten(ns));
}

proof fn lemma_scan_flatten(ts: Seq<Token>)
    ensures
        match scan(ts) {
            Scan::Ended { nodes } => scalar_nodes(ts) == flatten(nodes),
            Scan::Closed { nodes, rest, .. } => scalar_nodes(ts) == flatten(nodes) + scalar_nodes(
                rest,
            ),
            Scan::Failed { .. } => true,
        },
    decreases ts.len(),
{
    if ts.len() == 0 {
        assert(scalar_nodes(ts) =~= flatten(Seq::empty()));
    } else {
        let t = ts[0];
        let tail = ts.drop_first();
        lemma_scan_flatten(tail);
        match kind_of_token(t.kind) {
            Option::Some(k) => {
                let n = NodeV { kind: k, pos: t.pos, children: Seq::empty() };
                match scan(tail) {
                    Scan::Ended { nodes } => {
                        lemma_flatten_cons(n, nodes);
                        assert(scalar_nodes(ts) =~= seq![n] + flatten(nodes));
                        assert(seq![n] + flatten(nodes) =~= flatten_node(n) + flatten(nodes));
                    },
                    Scan::Closed { nodes, rest, .. } => {
                        lemma_flatten_cons(n, nodes);
                        assert(scalar_nodes(ts) =~= flatten(seq![n] + nodes) + scalar_nodes(rest));
                    },
                    Scan::Failed { .. } => {},
                }
            },
            Option::None => {
                if t.kind == TokenKind::Comment {
                    assert(scalar_nodes(ts) =~= scalar_nodes(tail));
                } else if t.kind == TokenKind::EndLoop {
                    assert(scalar_nodes(ts) =~= flatten(Seq::empty()) + scalar_nodes(tail));
                } else {
                    match scan(tail) {
                        Scan::Closed { nodes, rest, .. } => {
                            lemma_scan_rest_shorter(tail);
                            lemma_scan_flatten(rest);
                            let ln = NodeV {
                                kind: ASTNodeKind::Loop,
                                pos: t.pos,
                                children: nodes,
                            };
                            assert(scalar_nodes(ts) =~= scalar_nodes(tail));
                            match scan(rest) {
                                Scan::Ended { nodes: n2 } => {
                                    lemma_flatten_cons(ln, n2);
                                    assert(flatten(seq![ln] + n2) == flatten(nodes) + flatten(n2));
                                    assert(scalar_nodes(ts) == flatten(nodes) + scalar_nodes(rest));
                                },
                                Scan::Closed { nodes: n2, rest: r2, .. } => {
                                    lemma_flatten_cons(ln, n2);
                                    assert(scalar_nodes(ts) == flatten(nodes) + (flatten(n2)
                                        + scalar_nodes(r2)));
                                    assert(flatten(nodes) + (flatten(n2) + scalar_nodes(r2))
                                        =~= flatten(seq![ln] + n2) + scalar_nodes(r2));
                                },
                                Scan::Failed { .. } => {},
                            }
                        },
                        _ => {},
                    }
                }
            },
        }
    }
}

/// Law: on balanced input the parser succeeds, and the tree's flattened
/// scalar-node sequence (the `Loop` wrappers ignored) equals the token
/// sequence with brackets and comments removed.
pub proof fn lemma_parse_flattens_to_instructions(ts: Seq<Token>)
    requires
        balanced(ts),
    ensures
        scan(ts) is Ended,
        match scan(ts) {
            Scan::Ended { nodes } => flatten(nodes) == scalar_nodes(ts),
            _ => false,
        },
{
    lemma_parse_succeeds_iff_balanced(ts);
    lemma_scan_flatten(ts);
}

proof fn lemma_prepend_all_nil(s: Scan)
    ensures
        prepend_all(Seq::empty(), s) == s,
{
    match s {
        Scan::Ended { nodes } => {
            assert(Seq::empty() + nodes =~= nodes);
        },
        Scan::Closed { nodes, close, rest } => {
            assert(Seq::empty() + nodes =~= nodes);
        },
        Scan::Failed { err } => {},
    }
}

proof fn lemma_prepend_all_snoc(ns: Seq<NodeV>, n: NodeV, s: Scan)
    ensures
        prepend_all(ns, prepend(n, s)) == prepend_all(ns.push(n), s),
{
    match s {
        Scan::Ended { nodes } => {
            assert(ns + (seq![n] + nodes) =~= ns.push(n) + nodes);
        },
        Scan::Closed { nodes, close, rest } => {
            assert(ns + (seq![n] + nodes) =~= ns.push(n) + nodes);
        },
        Scan::Failed { err } => {},
    }
}

/// The scalar node a token stands for, or `None` for brackets and comments.
pub fn try_parse_scalar(t: &Token) -> (r: Option<ASTNode>)
    ensures
        match r {
            Option::Some(op) => {
                &&& kind_of_token(t.kind) == Option::Some(op.kind)
                &&& op@ == (NodeV { kind: op.kind, pos: t.pos, children: Seq::empty() })
                &&& wf_node(op)
            },
            Option::None => kind_of_token(t.kind) is None,
        },
{
    let kind = match t.kind {
        TokenKind::IncTape => ASTNodeKind::IncTape,
        TokenKind::DecTape => ASTNodeKind::DecTape,
        TokenKind::IncVal => ASTNodeKind::IncVal,
        TokenKind::DecVal => ASTNodeKind::DecVal,
        TokenKind::Read => ASTNodeKind::Read,
        TokenKind::Write => ASTNodeKind::Write,
        _ => {
            return Option::None;
        },
    };
    Option::Some(ASTNode { kind, pos: t.pos, ops: Option::None })
}

impl ASTNode {
    /// A scalar node at the given 1-based line and column.
    pub fn new_scalar(kind: ASTNodeKind, line: usize, pos: usize) -> (n: ASTNode)
        requires
            kind != ASTNodeKind::Loop,
        ensures
            n@ == (NodeV { kind, pos: InputPosition { line, pos }, children: Seq::empty() }),
            wf_node(n),
    {
        ASTNode { kind, pos: InputPosition { line, pos }, ops: Option::None }
    }

    /// A loop node with the given body, positioned at its opening bracket.
    pub fn new_loop(line: usize, pos: usize, ops: Vec<ASTNode>) -> (n: ASTNode)
        ensures
            n@ == (NodeV {
                kind: ASTNodeKind::Loop,
                pos: InputPosition { line, pos },
                children: nodes_view(ops@),
            }),
            wf_nodes(ops@) ==> wf_node(n),
    {
        ASTNode {
            kind: ASTNodeKind::Loop,
            pos: InputPosition { line, pos },
            ops: Option::Some(ops),
        }
    }
}

/// Parse the body of a loop whose opening bracket stood at `start`, beginning
/// at token index `from`, up to and including the matching closing bracket.
/// Returns the loop node and the index just past the close, or `UnclosedLoop`
/// at `start` when the close is missing anywhere below.
pub fn parse_loop(tokens: &Vec<Token>, from: usize, start: InputPosition) -> (r: Result<
    (ASTNode, usize),
    SyntaxError,
>)
    requires
        from <= tokens@.len(),
    ensures
        match r {
            Result::Ok(p) => {
                &&& from <= p.1 <= tokens@.len()
                &&& wf_node(p.0)
                &&& match scan(tokens@.skip(from as int)) {
                    Scan::Closed { nodes, close, rest } => {
                        &&& p.0@ == (NodeV { kind: ASTNodeKind::Loop, pos: start, children: nodes })
                        &&& tokens@.skip(p.1 as int) == rest
                    },
                    _ => false,
                }
            },
            Result::Err(e) => {
                &&& !(scan(tokens@.skip(from as int)) is Closed)
                &&& e == (SyntaxError { pos: start, kind: ErrorKind::UnclosedLoop })
            },
        },
    decreases tokens@.len() - from,
{
    let ghost orig = tokens@.skip(from as int);
    let mut ops: Vec<ASTNode> = Vec::new();
    let mut i: usize = from;
    proof {
        lemma_prepend_all_nil(scan(orig));
    }
    while i < tokens.len()
        invariant
            from <= i <= tokens@.len(),
            wf_nodes(ops@),
            orig == tokens@.skip(from as int),
            scan(orig) == prepend_all(nodes_view(ops@), scan(tokens@.skip(i as int))),
        decreases tokens@.len() - i,
    {
        let t = tokens[i];
        let ghost pre = tokens@.skip(i as int);
        proof {
            assert(pre[0] == t);
            assert(pre.drop_first() =~= tokens@.skip(i as int + 1));
        }
        i = i + 1;
        match try_parse_scalar(&t) {
            Option::Some(op) => {
                proof {
                    assert(scan(pre) == prepend(op@, scan(tokens@.skip(i as int))));
                    lemma_prepend_all_snoc(nodes_view(ops@), op@, scan(tokens@.skip(i as int)));
                    lemma_nodes_view_push(ops@, op);
                    lemma_wf_nodes_push(ops@, op);
                }
                ops.push(op);
            },
            Option::None => {
                match t.kind {
                    TokenKind::Comment => {
                        proof {
                            assert(scan(pre) == scan(tokens@.skip(i as int)));
                        }
                    },
                    TokenKind::EndLoop => {
                        proof {
                            assert(scan(pre) == (Scan::Closed {
                                nodes: Seq::empty(),
                                close: t,
                                rest: tokens@.skip(i as int),
                            }));
                            assert(nodes_view(ops@) + Seq::<NodeV>::empty() =~= nodes_view(ops@));
                        }
                        return Result::Ok(
                            (
                                ASTNode {
                                    kind: ASTNodeKind::Loop,
                                    pos: start,
                                    ops: Option::Some(ops),
                                },
                                i,
                            ),
                        );
                    },
                    TokenKind::StartLoop => {
                        match parse_loop(tokens, i, t.pos) {
                            Result::Ok(p) => {
                                let (node, ni) = p;
                                proof {
                                    lemma_scan_rest_shorter(tokens@.skip(i as int));
                                    assert(scan(pre) == prepend(
                                        node@,
                                        scan(tokens@.skip(ni as int)),
                                    ));
                                    lemma_prepend_all_snoc(
                                        nodes_view(ops@),
                                        node@,
                                        scan(tokens@.skip(ni as int)),
                                    );
                                    lemma_nodes_view_push(ops@, node);
                                    lemma_wf_nodes_push(ops@, node);
                                }
                                ops.push(node);
                                i = ni;
                            },
                            Result::Err(_) => {
                                return Result::Err(
                                    SyntaxError { pos: start, kind: ErrorKind::UnclosedLoop },
                                );
                            },
                        }
                    },
                    _ => {
                        proof {
                            assert(false);
                        }
                    },
                }
            },
        }
    }
    proof {
        assert(tokens@.skip(tokens@.len() as int) =~= Seq::<Token>::empty());
    }
    Result::Err(SyntaxError { pos: start, kind: ErrorKind::UnclosedLoop })
}

impl AST {
    /// Parse the whole token stream into a syntax tree: scalar tokens become
    /// scalar nodes, comments are skipped, and matched bracket pairs become
    /// `Loop` nodes. Fails with `UnopenedLoop` at the first unmatched closing
    /// bracket, or `UnclosedLoop` at the outermost opening bracket that is
    /// never matched.
    pub fn from_tokens(tokens: &Vec<Token>) -> (r: Result<AST, SyntaxError>)
        ensures
            match r {
                Result::Ok(ast) => {
                    &&& wf_nodes(ast.0@)
                    &&& match scan(tokens@) {
                        Scan::Ended { nodes } => ast@ == nodes,
                        _ => false,
                    }
                },
                Result::Err(e) => match scan(tokens@) {
                    Scan::Ended { .. } => false,
                    Scan::Closed { close, .. } => e == (SyntaxError {
                        pos: close.pos,
                        kind: ErrorKind::UnopenedLoop,
                    }),
                    Scan::Failed { err } => e == err,
                },
            },
    {
        let mut ops: Vec<ASTNode> = Vec::new();
        let mut i: usize = 0;
        proof {
            lemma_prepend_all_nil(scan(tokens@));
            assert(tokens@.skip(0) =~= tokens@);
        }
        while i < tokens.len()
            invariant
                i <= tokens@.len(),
                wf_nodes(ops@),
                scan(tokens@) == prepend_all(nodes_view(ops@), scan(tokens@.skip(i as int))),
            decreases tokens@.len() - i,
        {
            let t = tokens[i];
            let ghost pre = tokens@.skip(i as int);
            proof {
                assert(pre[0] == t);
                assert(pre.drop_first() =~= tokens@.skip(i as int + 1));
            }
            i = i + 1;
            match try_parse_scalar(&t) {
                Option::Some(op) => {
                    proof {
                        assert(scan(pre) == prepend(op@, scan(tokens@.skip(i as int))));
                        lemma_prepend_all_snoc(nodes_view(ops@), op@, scan(tokens@.skip(i as int)));
                        lemma_nodes_view_push(ops@, op);
                        lemma_wf_nodes_push(ops@, op);
                    }
                    ops.push(op);
                },
                Option::None => {
                    match t.kind {
                        TokenKind::Comment => {
                            proof {
                                assert(scan(pre) == scan(tokens@.skip(i as int)));
                            }
                        },
                        TokenKind::EndLoop => {
                            proof {
                                assert(scan(pre) == (Scan::Closed {
                                    nodes: Seq::empty(),
                                    close: t,
                                    rest: tokens@.skip(i as int),
                                }));
                            }
                            return Result::Err(
                                SyntaxError { pos: t.pos, kind: ErrorKind::UnopenedLoop },
                            );
                        },
                        TokenKind::StartLoop => {
                            match parse_loop(tokens, i, t.pos) {
                                Result::Ok(p) => {
                                    let (node, ni) = p;
                                    proof {
                                        lemma_scan_rest_shorter(tokens@.skip(i as int));
                                        assert(scan(pre) == prepend(
                                            node@,
                                            scan(tokens@.skip(ni as int)),
                                        ));
                                        lemma_prepend_all_snoc(
                                            nodes_view(ops@),
                                            node@,
                                            scan(tokens@.skip(ni as int)),
                                        );
                                        lemma_nodes_view_push(ops@, node);
                                        lemma_wf_nodes_push(ops@, node);
                                    }
                                    ops.push(node);
                                    i = ni;
                                },
                                Result::Err(e) => {
                                    return Result::Err(e);
                                },
                            }
                        },
                        _ => {
                            proof {
                                assert(false);
                            }
                        },
                    }
                },
            }
        }
        proof {
            assert(tokens@.skip(tokens@.len() as int) =~= Seq::<Token>::empty());
        }
        Result::Ok(AST(ops))
    }
}

} // verus!
