//! The dispatcher: tries the sub-lexers in priority order at each offset and
//! collects the tokens, or stops at the first error.
use vstd::prelude::*;
use crate::lexers::{
    lex_identifier, lex_keyword, lex_numeric, lex_string, lex_symbol, Attempt,
};
use crate::location::{Cursor, Location};
use crate::rules::{
    is_digit, is_word_char, numeric_scan, step, string_scan, word_end, Fault,
    Outcome,
};
use crate::token::{Token, TokenKind};

verus! {

/// A token as offsets into the text: it covers `start..end`.
pub ghost struct Span {
    pub kind: TokenKind,
    pub start: int,
    pub end: int,
}

/// Why lexing stopped.
pub ghost enum Failure {
    /// No sub-lexer applies at `pos`; `after` is the last token produced.
    NoMatch { pos: int, after: Option<Span> },
    /// A sub-lexer found `fault` at `pos`.
    Fault { fault: Fault, pos: int },
}

/// Lexing `s` from offset `i`, where `last` is the token produced last.
pub open spec fn lex_from(s: Seq<char>, i: int, last: Option<Span>) -> Result<Seq<Span>, Failure>
    decreases s.len() - i,
{
    if i < 0 || i >= s.len() {
        Ok(Seq::empty())
    } else {
        match step(s, i) {
            Outcome::Emit { kind, end } => {
                if i < end <= s.len() {
                    let sp = Span { kind, start: i, end };
                    prepend(seq![sp], lex_from(s, end, Some(sp)))
                } else {
                    Err(Failure::NoMatch { pos: i, after: last })
                }
            },
            Outcome::Skip { end } => {
                if i < end <= s.len() {
                    lex_from(s, end, last)
                } else {
                    Err(Failure::NoMatch { pos: i, after: last })
                }
            },
            Outcome::Fail { fault, pos } => Err(Failure::Fault { fault, pos }),
            Outcome::Decline => Err(Failure::NoMatch { pos: i, after: last }),
        }
    }
}

pub open spec fn prepend(head: Seq<Span>, r: Result<Seq<Span>, Failure>) -> Result<
    Seq<Span>,
    Failure,
> {
    match r {
        Ok(rest) => Ok(head + rest),
        Err(f) => Err(f),
    }
}

/// The tokens of `s`, or why there are none.
pub open spec fn lex(s: Seq<char>) -> Result<Seq<Span>, Failure> {
    lex_from(s, 0, None)
}

pub proof fn lemma_word_end(s: Seq<char>, i: int)
    requires
        0 <= i <= s.len(),
    ensures
        i <= word_end(s, i) <= s.len(),
        forall|k: int| i <= k < word_end(s, i) ==> is_word_char(#[trigger] s[k]),
        word_end(s, i) < s.len() ==> !is_word_char(s[word_end(s, i)]),
    decreases s.len() - i,
{
    if i < s.len() && is_word_char(s[i]) {
        lemma_word_end(s, i + 1);
    }
}

pub proof fn lemma_string_scan(s: Seq<char>, open: int, j: int)
    requires
        0 <= open < j,
    ensures
        match string_scan(s, open, j) {
            Outcome::Emit { kind, end } => kind == TokenKind::String && j < end <= s.len(),
            Outcome::Fail { fault, pos } => pos == open,
            _ => false,
        },
    decreases s.len() - j,
{
    if j < s.len() {
        if s[j] == '\'' {
            if j + 1 < s.len() && s[j + 1] == '\'' {
                lemma_string_scan(s, open, j + 2);
            }
        } else {
            lemma_string_scan(s, open, j + 1);
        }
    }
}

pub proof fn lemma_numeric_scan(s: Seq<char>, i: int, period: bool, exponent: bool)
    requires
        0 <= i <= s.len(),
    ensures
        match numeric_scan(s, i, period, exponent) {
            Outcome::Emit { kind, end } => kind == TokenKind::Numeric && i <= end <= s.len(),
            Outcome::Fail { fault, pos } => i <= pos < s.len(),
            _ => false,
        },
    decreases s.len() - i,
{
    if i < s.len() {
        if s[i] == '.' {
            if !period {
                lemma_numeric_scan(s, i + 1, true, exponent);
            }
        } else if s[i] == 'e' {
            if !exponent {
                let j = if i + 1 < s.len() && (s[i + 1] == '+' || s[i + 1] == '-') {
                    i + 2
                } else {
                    i + 1
                };
                if j < s.len() && is_digit(s[j]) {
                    lemma_numeric_scan(s, j + 1, true, true);
                }
            }
        } else if is_digit(s[i]) {
            lemma_numeric_scan(s, i + 1, period, exponent);
        }
    }
}

/// Every sub-lexer that consumes moves forward and stays in the text; every
/// fault lies in the text.
pub proof fn lemma_step_bounds(s: Seq<char>, i: int)
    requires
        0 <= i < s.len(),
    ensures
        match step(s, i) {
            Outcome::Emit { kind, end } => i < end <= s.len(),
            Outcome::Skip { end } => i < end <= s.len(),
            Outcome::Fail { fault, pos } => i <= pos < s.len(),
            Outcome::Decline => true,
        },
{
    lemma_word_end(s, i);
    lemma_string_scan(s, i, i + 1);
    lemma_numeric_scan(s, i + 1, true, false);
    lemma_numeric_scan(s, i + 1, false, false);
}

/// The sub-lexers tried in priority order: keyword, symbol, string, numeric,
/// identifier. The first that does not decline decides.
pub fn dispatch(src: &Vec<char>, at: usize) -> (r: Attempt)
    requires
        at < src@.len() < usize::MAX,
    ensures
        r@ == step(src@, at as int),
{
    let a = lex_keyword(src, at);
    if a != Attempt::Decline {
        return a;
    }
    let a = lex_symbol(src, at);
    if a != Attempt::Decline {
        return a;
    }
    let a = lex_string(src, at);
    if a != Attempt::Decline {
        return a;
    }
    let a = lex_numeric(src, at);
    if a != Attempt::Decline {
        return a;
    }
    lex_identifier(src, at)
}


/// Why a text could not be tokenized.
#[derive(Clone, Debug, PartialEq, Eq)]
pub enum LexError {
    /// No sub-lexer applies at `loc`; `after` is the text of the last token
    /// produced before it, if any.
    NoMatchingLexer { after: Option<String>, loc: Location },
    /// A numeric literal breaks a rule at `loc`.
    MalformedNumeric { loc: Location },
    /// The string literal opened at `loc` is never closed.
    UnterminatedString { loc: Location },
    /// The operator character at `loc` is not supported.
    UnsupportedSymbol { loc: Location },
}

impl LexError {
    /// This error reports the failure `f` of lexing `s`.
    pub open spec fn reports(self, s: Seq<char>, f: Failure) -> bool {
        match f {
            Failure::NoMatch { pos, after } => match self {
                LexError::NoMatchingLexer { after: text, loc } => {
                    &&& loc.is_at(s, pos)
                    &&& match after {
                        None => text is None,
                        Some(sp) => text is Some && text->0@ == s.subrange(sp.start, sp.end),
                    }
                },
                _ => false,
            },
            Failure::Fault { fault, pos } => match self {
                LexError::MalformedNumeric { loc } => fault == Fault::MalformedNumeric
                    && loc.is_at(s, pos),
                LexError::UnterminatedString { loc } => fault == Fault::UnterminatedString
                    && loc.is_at(s, pos),
                LexError::UnsupportedSymbol { loc } => fault == Fault::UnsupportedSymbol
                    && loc.is_at(s, pos),
                _ => false,
            },
        }
    }

    /// Where lexing stopped.
    pub fn location(&self) -> (r: Location)
        ensures
            r == match *self {
                LexError::NoMatchingLexer { loc, .. } => loc,
                LexError::MalformedNumeric { loc } => loc,
                LexError::UnterminatedString { loc } => loc,
                LexError::UnsupportedSymbol { loc } => loc,
            },
    {
        match self {
            LexError::NoMatchingLexer { loc, .. } => *loc,
            LexError::MalformedNumeric { loc } => *loc,
            LexError::UnterminatedString { loc } => *loc,
            LexError::UnsupportedSymbol { loc } => *loc,
        }
    }
}

impl Token {
    /// This token is the span `sp` of `s`.
    pub open spec fn is_span_of(self, s: Seq<char>, sp: Span) -> bool {
        &&& self.text@ == s.subrange(sp.start, sp.end)
        &&& self.kind == sp.kind
        &&& self.loc.is_at(s, sp.start)
    }
}

/// `r` is what `lex` says of `s`: the same tokens, or the same failure.
pub open spec fn agrees(s: Seq<char>, r: Result<Vec<Token>, LexError>) -> bool {
    match lex(s) {
        Ok(spans) => match r {
            Ok(tokens) => tokens@.len() == spans.len() && forall|k: int|
                0 <= k < spans.len() ==> (#[trigger] tokens@[k]).is_span_of(s, spans[k]),
            Err(_) => false,
        },
        Err(f) => match r {
            Ok(_) => false,
            Err(e) => e.reports(s, f),
        },
    }
}

/// The characters of `source`, in order.
fn chars_of(source: &str) -> (r: Vec<char>)
    ensures
        r@ == source@,
{
    let n = source.unicode_len();
    let mut out: Vec<char> = Vec::new();
    let mut i: usize = 0;
    while i < n
        invariant
            n == source@.len(),
            i <= n,
            out@ == source@.subrange(0, i as int),
        decreases n - i,
    {
        out.push(source.get_char(i));
        i = i + 1;
    }
    assert(out@ =~= source@);
    out
}

/// Splits `source` into tokens: keywords, symbols, string literals, numeric
/// literals and identifiers, each with the location of its first character.
/// Whitespace between tokens yields no token. Lexing stops at the first
/// error.
pub fn tokenize(source: &str) -> (r: Result<Vec<Token>, LexError>)
    requires
        source@.len() < usize::MAX,
    ensures
        agrees(source@, r),
{
    let src = chars_of(source);
    let ghost s = src@;
    let mut tokens: Vec<Token> = Vec::new();
    let mut cursor = Cursor::new();
    let ghost mut done: Seq<Span> = Seq::empty();
    let ghost mut last: Option<Span> = None;
    while cursor.offset < src.len()
        invariant
            s == src@,
            s == source@,
            s.len() < usize::MAX,
            cursor.wf(s),
            tokens@.len() == done.len(),
            forall|k: int| 0 <= k < done.len() ==> (#[trigger] tokens@[k]).is_span_of(s, done[k]),
            last == (if done.len() == 0 {
                None::<Span>
            } else {
                Some(done.last())
            }),
            lex(s) == prepend(done, lex_from(s, cursor.offset as int, last)),
        decreases s.len() - cursor.offset,
    {
        let at = cursor.offset;
        proof {
            lemma_step_bounds(s, at as int);
        }
        match dispatch(&src, at) {
            Attempt::Emit { kind, end } => {
                let text = source.substring_char(at, end).to_owned();
                let ghost sp = Span { kind, start: at as int, end: end as int };
                proof {
                    match lex_from(s, end as int, Some(sp)) {
                        Ok(rest) => {
                            assert(done + (seq![sp] + rest) =~= done.push(sp) + rest);
                        },
                        Err(_) => {},
                    }
                }
                tokens.push(Token { text, kind, loc: cursor.loc });
                proof {
                    done = done.push(sp);
                    last = Some(sp);
                }
                cursor.advance_to(&src, end);
            },
            Attempt::Skip { end } => {
                cursor.advance_to(&src, end);
            },
            Attempt::Fail { fault, pos } => {
                let mut at_fault = cursor;
                at_fault.advance_to(&src, pos);
                let loc = at_fault.loc;
                return Err(
                    match fault {
                        Fault::MalformedNumeric => LexError::MalformedNumeric { loc },
                        Fault::UnterminatedString => LexError::UnterminatedString { loc },
                        Fault::UnsupportedSymbol => LexError::UnsupportedSymbol { loc },
                    },
                );
            },
            Attempt::Decline => {
                let after = if tokens.len() > 0 {
                    Some(tokens[tokens.len() - 1].text.clone())
                } else {
                    None
                };
                return Err(LexError::NoMatchingLexer { after, loc: cursor.loc });
            },
        }
    }
    assert(done + Seq::<Span>::empty() =~= done);
    Ok(tokens)
}

} // verus!
