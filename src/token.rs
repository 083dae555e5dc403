use vstd::prelude::*;
use crate::location::Location;

verus! {

/// The class of a token.
#[derive(Clone, Copy, Debug, PartialEq, Eq, Structural)]
pub enum TokenKind {
    Keyword,
    Symbol,
    Identifier,
    String,
    Numeric,
}

/// A classified, located piece of source text.
#[derive(Clone, Debug)]
pub struct Token {
    /// The exact text consumed, delimiters included.
    pub text: String,
    pub kind: TokenKind,
    /// The location of the first character.
    pub loc: Location,
}

/// Two tokens are equal when their text and kind are; where they stand is
/// not compared.
impl PartialEq for Token {
    fn eq(&self, other: &Token) -> (r: bool) {
        self.kind == other.kind && self.text == other.text
    }
}

impl vstd::std_specs::cmp::PartialEqSpecImpl for Token {
    open spec fn obeys_eq_spec() -> bool {
        true
    }

    open spec fn eq_spec(&self, other: &Token) -> bool {
        self.text@ == other.text@ && self.kind == other.kind
    }
}

impl Token {
    pub fn new(text: String, kind: TokenKind, loc: Location) -> (r: Token)
        ensures
            r.text@ == text@,
            r.kind == kind,
            r.loc == loc,
    {
        Token { text, kind, loc }
    }

    pub fn text(&self) -> (r: &String)
        ensures
            r@ == self.text@,
    {
        &self.text
    }

    pub fn kind(&self) -> (r: TokenKind)
        ensures
            r == self.kind,
    {
        self.kind
    }

    pub fn loc(&self) -> (r: Location)
        ensures
            r == self.loc,
    {
        self.loc
    }
}

} // verus!
