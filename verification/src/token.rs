//! Tokenizer: classifies every source character into one of the eight
//! instruction symbols or `Comment`, tagging each with a 1-based line/column
//! position. The tokenizer cannot fail and drops nothing; comments are
//! discarded later, by the parser.

use vstd::prelude::*;

verus! {

/// One classified source character together with the place where it stood.
#[derive(Clone, Copy, Debug, PartialEq, Eq, Structural)]
pub struct Token {
    pub kind: TokenKind,
    pub pos: InputPosition,
}

/// A source position: 1-based line number and 1-based column within the line.
#[derive(Clone, Copy, Debug, PartialEq, Eq, Structural)]
pub struct InputPosition {
    pub line: usize,
    pub pos: usize,
}

/// The classification of a single source character. Anything outside the
/// seven instruction symbols (newlines included) is a `Comment`.
#[derive(Clone, Copy, Debug, PartialEq, Eq, Structural)]
pub enum TokenKind {
    StartLoop,
    EndLoop,
    IncTape,
    DecTape,
    IncVal,
    DecVal,
    Read,
    Write,
    Comment,
}

/// Classification is a pure function from character to kind.
pub open spec fn spec_classify(c: char) -> TokenKind {
    if c == '[' {
        TokenKind::StartLoop
    } else if c == ']' {
        TokenKind::EndLoop
    } else if c == '>' {
        TokenKind::IncTape
    } else if c == '<' {
        TokenKind::DecTape
    } else if c == '+' {
        TokenKind::IncVal
    } else if c == '-' {
        TokenKind::DecVal
    } else if c == ',' {
        TokenKind::Read
    } else if c == '.' {
        TokenKind::Write
    } else {
        TokenKind::Comment
    }
}

impl From<char> for TokenKind {
    fn from(c: char) -> (k: TokenKind) {
        match c {
            '[' => TokenKind::StartLoop,
            ']' => TokenKind::EndLoop,
            '>' => TokenKind::IncTape,
            '<' => TokenKind::DecTape,
            '+' => TokenKind::IncVal,
            '-' => TokenKind::DecVal,
            ',' => TokenKind::Read,
            '.' => TokenKind::Write,
            _ => TokenKind::Comment,
        }
    }
}

impl vstd::std_specs::convert::FromSpecImpl<char> for TokenKind {
    open spec fn obeys_from_spec() -> bool {
        true
    }

    open spec fn from_spec(c: char) -> TokenKind {
        spec_classify(c)
    }
}

impl From<u8> for TokenKind {
    fn from(d: u8) -> (k: TokenKind) {
        TokenKind::from(d as char)
    }
}

impl vstd::std_specs::convert::FromSpecImpl<u8> for TokenKind {
    open spec fn obeys_from_spec() -> bool {
        true
    }

    open spec fn from_spec(d: u8) -> TokenKind {
        spec_classify(d as char)
    }
}

/// The token sequence for the characters `cs`, where `line` is the current
/// 1-based line and `col` counts the characters already seen on that line.
/// A newline produces no token of its own: it ends the line and resets the
/// column count.
pub open spec fn spec_tokenize(cs: Seq<char>, line: usize, col: usize) -> Seq<Token>
    decreases cs.len(),
{
    if cs.len() == 0 {
        Seq::empty()
    } else if cs[0] == '\n' {
        spec_tokenize(cs.drop_first(), (line + 1) as usize, 0)
    } else {
        seq![
            Token {
                kind: spec_classify(cs[0]),
                pos: InputPosition { line, pos: (col + 1) as usize },
            },
        ] + spec_tokenize(cs.drop_first(), line, (col + 1) as usize)
    }
}

/// Scan the source text into one token per character (newlines excepted),
/// in source order, with positions numbered from 1 and the column reset at
/// each newline.
pub fn tokenize(s: &str) -> (r: Vec<Token>)
    requires
        s@.len() < usize::MAX,
    ensures
        r@ == spec_tokenize(s@, 1, 0),
{
    let mut ret: Vec<Token> = Vec::new();
    let mut line: usize = 1;
    let mut col: usize = 0;
    let n = s.unicode_len();
    let mut i: usize = 0;
    proof {
        assert(s@.skip(0) =~= s@);
        assert(ret@ + spec_tokenize(s@, 1, 0) =~= spec_tokenize(s@, 1, 0));
    }
    while i < n
        invariant
            n == s@.len(),
            n < usize::MAX,
            i <= n,
            col <= i,
            line <= i + 1,
            spec_tokenize(s@, 1, 0) == ret@ + spec_tokenize(s@.skip(i as int), line, col),
        decreases n - i,
    {
        let c = s.get_char(i);
        proof {
            assert(s@.skip(i as int)[0] == s@[i as int]);
            assert(s@.skip(i as int).drop_first() =~= s@.skip(i + 1));
        }
        if c == '\n' {
            line = line + 1;
            col = 0;
        } else {
            col = col + 1;
            ret.push(Token { kind: TokenKind::from(c), pos: InputPosition { line, pos: col } });
        }
        i = i + 1;
    }
    proof {
        assert(s@.skip(n as int) =~= Seq::<char>::empty());
        assert(ret@ + spec_tokenize(s@.skip(n as int), line, col) =~= ret@);
    }
    ret
}

/// The instruction kinds of a token sequence, in order, with `Comment`
/// entries discarded.
pub open spec fn instr_kinds(ts: Seq<Token>) -> Seq<TokenKind>
    decreases ts.len(),
{
    if ts.len() == 0 {
        Seq::empty()
    } else if ts[0].kind == TokenKind::Comment {
        instr_kinds(ts.drop_first())
    } else {
        seq![ts[0].kind] + instr_kinds(ts.drop_first())
    }
}

/// A direct character-by-character classification of `cs`, keeping only the
/// instruction symbols.
pub open spec fn classified_instrs(cs: Seq<char>) -> Seq<TokenKind>
    decreases cs.len(),
{
    if cs.len() == 0 {
        Seq::empty()
    } else if spec_classify(cs[0]) == TokenKind::Comment {
        classified_instrs(cs.drop_first())
    } else {
        seq![spec_classify(cs[0])] + classified_instrs(cs.drop_first())
    }
}

/// Law: for every character sequence, tokenizing and then discarding
/// positions and `Comment` tokens yields exactly the instruction sequence
/// that a direct character-by-character classification gives.
pub proof fn lemma_tokenize_matches_classification(cs: Seq<char>, line: usize, col: usize)
    ensures
        instr_kinds(spec_tokenize(cs, line, col)) == classified_instrs(cs),
    decreases cs.len(),
{
    if cs.len() == 0 {
    } else if cs[0] == '\n' {
        lemma_tokenize_matches_classification(cs.drop_first(), (line + 1) as usize, 0);
    } else {
        lemma_tokenize_matches_classification(cs.drop_first(), line, (col + 1) as usize);
        let t = Token {
            kind: spec_classify(cs[0]),
            pos: InputPosition { line, pos: (col + 1) as usize },
        };
        let rest = spec_tokenize(cs.drop_first(), line, (col + 1) as usize);
        assert((seq![t] + rest).drop_first() =~= rest);
    }
}

} // verus!
