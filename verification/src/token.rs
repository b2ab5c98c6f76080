use vstd::prelude::*;
use vstd::string::StringExecFns;

verus! {

/// A source location: a file identifier and a row/column pair.  Positions are
/// carried on tokens for diagnostics only; the language rules never compare
/// them.
#[derive(Debug, Clone)]
pub struct Pos {
    pub file: String,
    pub row: u16,
    pub col: u16,
}

/// The mathematical value of a `Pos`: the file name as a character sequence
/// together with the two coordinates.
pub struct PosView {
    pub file: Seq<char>,
    pub row: u16,
    pub col: u16,
}

impl View for Pos {
    type V = PosView;

    open spec fn view(&self) -> PosView {
        PosView { file: self.file@, row: self.row, col: self.col }
    }
}

impl Pos {
    pub fn new() -> (p: Self)
        ensures
            p@ == (PosView { file: Seq::<char>::empty(), row: 0u16, col: 0u16 }),
    {
        Pos { file: String::new(), row: 0, col: 0 }
    }

    pub fn make(file: String, row: u16, col: u16) -> (p: Self)
        ensures
            p@ == (PosView { file: file@, row: row, col: col }),
    {
        Pos { file, row, col }
    }

    pub fn from_tuple(src: (String, u16, u16)) -> (p: Self)
        ensures
            p@ == (PosView { file: src.0@, row: src.1, col: src.2 }),
    {
        Pos { file: src.0, row: src.1, col: src.2 }
    }
}

/// The classification of a token.  Every token has exactly one kind.
#[derive(Clone, Copy, Debug, PartialEq, Eq, Structural)]
pub enum TokenKind {
    Word,
    Keyword,
    Operator,
    Numeric,
}

/// A classified, positioned unit of lexical input.  Produced once by the
/// lexer and read-only afterwards.
#[derive(Debug, Clone)]
pub struct Token {
    pub value: String,
    pub position: Pos,
    pub kind: TokenKind,
}

/// The mathematical value of a `Token`.
pub struct TokenView {
    pub value: Seq<char>,
    pub position: PosView,
    pub kind: TokenKind,
}

impl View for Token {
    type V = TokenView;

    open spec fn view(&self) -> TokenView {
        TokenView { value: self.value@, position: self.position@, kind: self.kind }
    }
}

impl Token {
    pub fn new() -> (t: Self)
        ensures
            t@.value == "empty_token"@,
            t@.position == (PosView { file: Seq::<char>::empty(), row: 0u16, col: 0u16 }),
            t@.kind == TokenKind::Word,
    {
        Token { value: String::from_str("empty_token"), position: Pos::new(), kind: TokenKind::Word }
    }

    pub fn make(value: String, position: Pos, kind: TokenKind) -> (t: Self)
        ensures
            t@ == (TokenView { value: value@, position: position@, kind: kind }),
    {
        Token { value, position, kind }
    }

    /// Builds a token whose value is `value`, then `sep`, then the already
    /// rendered `fmt_val`, concatenated in that order.
    pub fn with_formatted_value(value: &str, sep: &str, fmt_val: &str, pos: Pos, kind: TokenKind) -> (t: Self)
        ensures
            t@.value == value@ + sep@ + fmt_val@,
            t@.position == pos@,
            t@.kind == kind,
    {
        let mut s = String::from_str(value);
        s.append(sep);
        s.append(fmt_val);
        Token::make(s, pos, kind)
    }
}

} // verus!
