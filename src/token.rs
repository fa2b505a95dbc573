//! Located tokens produced by the lexer.
use vstd::prelude::*;

verus! {

/// Where a token's first character stands: a file name and a 1-based line and
/// column.
#[derive(Debug)]
pub struct Location {
    pub filename: String,
    pub line_number: usize,
    pub column_number: usize,
}

impl Location {
    pub fn new(filename: &String, line_number: usize, column_number: usize) -> (r: Location)
        ensures
            r.filename@ == filename@,
            r.line_number == line_number,
            r.column_number == column_number,
    {
        Location { filename: filename.clone(), line_number, column_number }
    }

    /// A copy of this location.
    pub fn duplicate(&self) -> (r: Location)
        ensures
            r.filename@ == self.filename@,
            r.line_number == self.line_number,
            r.column_number == self.column_number,
    {
        Location::new(&self.filename, self.line_number, self.column_number)
    }
}

/// What a token holds.
#[derive(Debug)]
pub enum TokenValue {
    /// A maximal run of letters, digits, `-` and `_`.
    Identifier(String),
    /// A single character of no other class.
    SpecChar(char),
    /// The decoded contents of a quoted string, and the quote that delimited it.
    Quoted(String, char),
}

/// A token and where it starts.
#[derive(Debug)]
pub struct Token {
    pub location: Location,
    pub value: TokenValue,
}

/// The mathematical value of a token's contents.
pub enum Lexeme {
    Identifier(Seq<char>),
    SpecChar(char),
    Quoted(Seq<char>, char),
}

/// The mathematical value of a token: its position and its contents.
pub struct TokenView {
    pub line: nat,
    pub column: nat,
    pub lexeme: Lexeme,
}

impl View for TokenValue {
    type V = Lexeme;

    open spec fn view(&self) -> Lexeme {
        match self {
            TokenValue::Identifier(s) => Lexeme::Identifier(s@),
            TokenValue::SpecChar(c) => Lexeme::SpecChar(*c),
            TokenValue::Quoted(s, q) => Lexeme::Quoted(s@, *q),
        }
    }
}

impl View for Token {
    type V = TokenView;

    open spec fn view(&self) -> TokenView {
        TokenView {
            line: self.location.line_number as nat,
            column: self.location.column_number as nat,
            lexeme: self.value@,
        }
    }
}

/// The views of a sequence of tokens.
pub open spec fn views(ts: Seq<Token>) -> Seq<TokenView> {
    ts.map_values(|t: Token| t@)
}

/// Position (l1, c1) comes strictly before (l2, c2): an earlier line, or the
/// same line and an earlier column.
pub open spec fn pos_before(l1: nat, c1: nat, l2: nat, c2: nat) -> bool {
    l1 < l2 || (l1 == l2 && c1 < c2)
}

/// Token `a` starts strictly before token `b`.
pub open spec fn starts_before(a: TokenView, b: TokenView) -> bool {
    pos_before(a.line, a.column, b.line, b.column)
}

/// The tokens stand in strictly increasing position: lines never decrease and
/// columns strictly increase within a line.
pub open spec fn in_position_order(ts: Seq<TokenView>) -> bool {
    forall|i: int, j: int| 0 <= i < j < ts.len() ==> starts_before(#[trigger] ts[i], #[trigger] ts[j])
}

} // verus!
