//! The sub-lexers. Each looks at the text from one offset and says what it
//! would consume there; none of them moves a cursor, so a sub-lexer that
//! declines leaves nothing behind.
use vstd::prelude::*;
use crate::rules::{
    folds_to, identifier_outcome, is_digit, is_keyword, is_word_char, is_word_start,
    keyword_outcome, numeric_outcome, numeric_scan, spells, string_outcome, string_scan,
    symbol_outcome, word_end, Fault, Outcome,
};
use crate::token::TokenKind;

verus! {

/// What a sub-lexer reports at an offset.
#[derive(Clone, Copy, Debug, PartialEq, Eq, Structural)]
pub enum Attempt {
    Emit { kind: TokenKind, end: usize },
    Skip { end: usize },
    Fail { fault: Fault, pos: usize },
    Decline,
}

impl View for Attempt {
    type V = Outcome;

    open spec fn view(&self) -> Outcome {
        match *self {
            Attempt::Emit { kind, end } => Outcome::Emit { kind, end: end as int },
            Attempt::Skip { end } => Outcome::Skip { end: end as int },
            Attempt::Fail { fault, pos } => Outcome::Fail { fault, pos: pos as int },
            Attempt::Decline => Outcome::Decline,
        }
    }
}

pub fn is_digit_char(c: char) -> (r: bool)
    ensures
        r == is_digit(c),
{
    c >= '0' && c <= '9'
}

pub fn is_word_start_char(c: char) -> (r: bool)
    ensures
        r == is_word_start(c),
{
    (c >= 'A' && c <= 'Z') || (c >= 'a' && c <= 'z') || c == '_'
}

pub fn is_word_char_exec(c: char) -> (r: bool)
    ensures
        r == is_word_char(c),
{
    is_word_start_char(c) || is_digit_char(c)
}

/// The end of the maximal run of word characters from `i`.
pub fn scan_word(src: &Vec<char>, i: usize) -> (r: usize)
    requires
        i <= src@.len(),
    ensures
        r as int == word_end(src@, i as int),
        i <= r <= src@.len(),
{
    let mut j: usize = i;
    while j < src.len() && is_word_char_exec(src[j])
        invariant
            i <= j <= src@.len(),
            word_end(src@, j as int) == word_end(src@, i as int),
        decreases src@.len() - j,
    {
        j = j + 1;
    }
    j
}

/// Whether `src[start..end]` spells the lower-case word `kw` in any case.
fn spells_span(src: &Vec<char>, start: usize, end: usize, kw: &[char]) -> (r: bool)
    requires
        start <= end <= src@.len(),
    ensures
        r == spells(src@.subrange(start as int, end as int), kw@),
{
    let ghost w = src@.subrange(start as int, end as int);
    if end - start != kw.len() {
        return false;
    }
    let mut j: usize = 0;
    while j < kw.len()
        invariant
            j <= kw@.len() == w.len() == end - start,
            start <= end <= src@.len(),
            w == src@.subrange(start as int, end as int),
            forall|m: int| 0 <= m < j ==> folds_to(#[trigger] w[m], kw@[m]),
        decreases kw@.len() - j,
    {
        let c = src[start + j];
        let k = kw[j];
        let same = (c >= 'a' && c <= 'z' && c == k) || (c >= 'A' && c <= 'Z' && (c as u32) + 32
            == (k as u32));
        if !same {
            assert(!folds_to(w[j as int], kw@[j as int]));
            return false;
        }
        j = j + 1;
    }
    true
}

/// Whether `src[start..end]` is one of the reserved words, in any case.
pub fn is_keyword_span(src: &Vec<char>, start: usize, end: usize) -> (r: bool)
    requires
        start <= end <= src@.len(),
    ensures
        r == is_keyword(src@.subrange(start as int, end as int)),
{
    let ghost w = src@.subrange(start as int, end as int);
    let select = ['s', 'e', 'l', 'e', 'c', 't'];
    let from = ['f', 'r', 'o', 'm'];
    let as_ = ['a', 's'];
    let table = ['t', 'a', 'b', 'l', 'e'];
    let create = ['c', 'r', 'e', 'a', 't', 'e'];
    let insert = ['i', 'n', 's', 'e', 'r', 't'];
    let into = ['i', 'n', 't', 'o'];
    let values = ['v', 'a', 'l', 'u', 'e', 's'];
    let int_ = ['i', 'n', 't'];
    let text = ['t', 'e', 'x', 't'];
    let where_ = ['w', 'h', 'e', 'r', 'e'];
    assert(select@ =~= seq!['s', 'e', 'l', 'e', 'c', 't']);
    assert(from@ =~= seq!['f', 'r', 'o', 'm']);
    assert(as_@ =~= seq!['a', 's']);
    assert(table@ =~= seq!['t', 'a', 'b', 'l', 'e']);
    assert(create@ =~= seq!['c', 'r', 'e', 'a', 't', 'e']);
    assert(insert@ =~= seq!['i', 'n', 's', 'e', 'r', 't']);
    assert(into@ =~= seq!['i', 'n', 't', 'o']);
    assert(values@ =~= seq!['v', 'a', 'l', 'u', 'e', 's']);
    assert(int_@ =~= seq!['i', 'n', 't']);
    assert(text@ =~= seq!['t', 'e', 'x', 't']);
    assert(where_@ =~= seq!['w', 'h', 'e', 'r', 'e']);
    spells_span(src, start, end, &select) || spells_span(src, start, end, &from) || spells_span(
        src,
        start,
        end,
        &as_,
    ) || spells_span(src, start, end, &table) || spells_span(src, start, end, &create)
        || spells_span(src, start, end, &insert) || spells_span(src, start, end, &into)
        || spells_span(src, start, end, &values) || spells_span(src, start, end, &int_)
        || spells_span(src, start, end, &text) || spells_span(src, start, end, &where_)
}


/// Consumes a maximal word and accepts it only if it is a reserved word.
pub fn lex_keyword(src: &Vec<char>, at: usize) -> (r: Attempt)
    requires
        at < src@.len() < usize::MAX,
    ensures
        r@ == keyword_outcome(src@, at as int),
{
    if !is_word_start_char(src[at]) {
        return Attempt::Decline;
    }
    let end = scan_word(src, at);
    if is_keyword_span(src, at, end) {
        Attempt::Emit { kind: TokenKind::Keyword, end }
    } else {
        Attempt::Decline
    }
}

/// Consumes one symbol character, or one whitespace character to skip.
pub fn lex_symbol(src: &Vec<char>, at: usize) -> (r: Attempt)
    requires
        at < src@.len() < usize::MAX,
    ensures
        r@ == symbol_outcome(src@, at as int),
{
    let c = src[at];
    if c == ';' || c == ',' || c == '(' || c == ')' || c == '=' || c == '*' {
        Attempt::Emit { kind: TokenKind::Symbol, end: at + 1 }
    } else if c == ' ' || c == '\t' || c == '\n' {
        Attempt::Skip { end: at + 1 }
    } else if c == '+' || c == '-' || c == '/' || c == '%' || c == '<' || c == '>' || c == '!'
        || c == '&' || c == '|' || c == '^' || c == '~' {
        Attempt::Fail { fault: Fault::UnsupportedSymbol, pos: at }
    } else {
        Attempt::Decline
    }
}

/// Consumes a single-quoted literal, in which `''` stands for one quote.
pub fn lex_string(src: &Vec<char>, at: usize) -> (r: Attempt)
    requires
        at < src@.len() < usize::MAX,
    ensures
        r@ == string_outcome(src@, at as int),
{
    if src[at] != '\'' {
        return Attempt::Decline;
    }
    let mut j: usize = at + 1;
    while j < src.len()
        invariant
            at < j <= src@.len(),
            src@[at as int] == '\'',
            string_scan(src@, at as int, j as int) == string_outcome(src@, at as int),
        decreases src@.len() - j,
    {
        if src[j] == '\'' {
            if j + 1 < src.len() && src[j + 1] == '\'' {
                j = j + 2;
            } else {
                return Attempt::Emit { kind: TokenKind::String, end: j + 1 };
            }
        } else {
            j = j + 1;
        }
    }
    Attempt::Fail { fault: Fault::UnterminatedString, pos: at }
}

/// Consumes a numeric literal: digits with at most one period and at most one
/// lower-case exponent marker, which may be followed by a sign and must be
/// followed by a digit; no period may follow the exponent.
pub fn lex_numeric(src: &Vec<char>, at: usize) -> (r: Attempt)
    requires
        at < src@.len() < usize::MAX,
    ensures
        r@ == numeric_outcome(src@, at as int),
{
    let first = src[at];
    if !is_digit_char(first) && first != '.' {
        return Attempt::Decline;
    }
    let mut period = first == '.';
    let mut exponent = false;
    let mut i: usize = at + 1;
    while i < src.len()
        invariant
            at < i <= src@.len(),
            numeric_scan(src@, i as int, period, exponent) == numeric_outcome(src@, at as int),
        decreases src@.len() - i,
    {
        let c = src[i];
        if c == '.' {
            if period {
                return Attempt::Fail { fault: Fault::MalformedNumeric, pos: i };
            }
            period = true;
            i = i + 1;
        } else if c == 'e' {
            if exponent {
                return Attempt::Fail { fault: Fault::MalformedNumeric, pos: i };
            }
            let j = if i + 1 < src.len() && (src[i + 1] == '+' || src[i + 1] == '-') {
                i + 2
            } else {
                i + 1
            };
            if j < src.len() && is_digit_char(src[j]) {
                period = true;
                exponent = true;
                i = j + 1;
            } else if j < src.len() {
                return Attempt::Fail { fault: Fault::MalformedNumeric, pos: j };
            } else {
                return Attempt::Fail { fault: Fault::MalformedNumeric, pos: i };
            }
        } else if is_digit_char(c) {
            i = i + 1;
        } else {
            return Attempt::Emit { kind: TokenKind::Numeric, end: i };
        }
    }
    Attempt::Emit { kind: TokenKind::Numeric, end: i }
}

/// Consumes a maximal word as a name.
pub fn lex_identifier(src: &Vec<char>, at: usize) -> (r: Attempt)
    requires
        at < src@.len() < usize::MAX,
    ensures
        r@ == identifier_outcome(src@, at as int),
{
    if !is_word_start_char(src[at]) {
        return Attempt::Decline;
    }
    let end = scan_word(src, at);
    Attempt::Emit { kind: TokenKind::Identifier, end }
}

} // verus!
