//! The lexical rules, stated over sequences of characters.
use vstd::prelude::*;
use crate::token::TokenKind;

verus! {

pub open spec fn is_digit(c: char) -> bool {
    '0' <= c && c <= '9'
}

pub open spec fn is_upper(c: char) -> bool {
    'A' <= c && c <= 'Z'
}

pub open spec fn is_lower(c: char) -> bool {
    'a' <= c && c <= 'z'
}

/// May begin a keyword or an identifier.
pub open spec fn is_word_start(c: char) -> bool {
    is_upper(c) || is_lower(c) || c == '_'
}

/// May continue a keyword or an identifier.
pub open spec fn is_word_char(c: char) -> bool {
    is_word_start(c) || is_digit(c)
}

/// Characters that are a token of their own.
pub open spec fn is_symbol_char(c: char) -> bool {
    c == ';' || c == ',' || c == '(' || c == ')' || c == '=' || c == '*'
}

/// Characters skipped between tokens.
pub open spec fn is_blank(c: char) -> bool {
    c == ' ' || c == '\t' || c == '\n'
}

/// Operator characters that the language reserves but does not support.
pub open spec fn is_unsupported_operator(c: char) -> bool {
    c == '+' || c == '-' || c == '/' || c == '%' || c == '<' || c == '>' || c == '!'
        || c == '&' || c == '|' || c == '^' || c == '~'
}

/// `c` is a letter whose lower-case form is `k`.
pub open spec fn folds_to(c: char, k: char) -> bool {
    ||| (is_lower(c) && c == k)
    ||| (is_upper(c) && (c as u32) + 32 == (k as u32))
}

/// `w` spells `kw` in any letter case.
pub open spec fn spells(w: Seq<char>, kw: Seq<char>) -> bool {
    w.len() == kw.len() && forall|j: int| 0 <= j < w.len() ==> folds_to(#[trigger] w[j], kw[j])
}

/// The reserved words, in lower case.
pub open spec fn is_keyword(w: Seq<char>) -> bool {
    ||| spells(w, seq!['s', 'e', 'l', 'e', 'c', 't'])
    ||| spells(w, seq!['f', 'r', 'o', 'm'])
    ||| spells(w, seq!['a', 's'])
    ||| spells(w, seq!['t', 'a', 'b', 'l', 'e'])
    ||| spells(w, seq!['c', 'r', 'e', 'a', 't', 'e'])
    ||| spells(w, seq!['i', 'n', 's', 'e', 'r', 't'])
    ||| spells(w, seq!['i', 'n', 't', 'o'])
    ||| spells(w, seq!['v', 'a', 'l', 'u', 'e', 's'])
    ||| spells(w, seq!['i', 'n', 't'])
    ||| spells(w, seq!['t', 'e', 'x', 't'])
    ||| spells(w, seq!['w', 'h', 'e', 'r', 'e'])
}

/// The end of the maximal run of word characters of `s` from `i`.
pub open spec fn word_end(s: Seq<char>, i: int) -> int
    decreases s.len() - i,
{
    if 0 <= i < s.len() && is_word_char(s[i]) {
        word_end(s, i + 1)
    } else {
        i
    }
}

/// An error that a sub-lexer detects once it has recognised the start of
/// its token class.
#[derive(Clone, Copy, Debug, PartialEq, Eq, Structural)]
pub enum Fault {
    MalformedNumeric,
    UnterminatedString,
    UnsupportedSymbol,
}

/// What a sub-lexer does at an offset.
pub ghost enum Outcome {
    /// A token of `kind` ends just before `end`.
    Emit { kind: TokenKind, end: int },
    /// Whitespace up to `end` is consumed and yields no token.
    Skip { end: int },
    /// Lexing stops with `fault` at offset `pos`.
    Fail { fault: Fault, pos: int },
    /// This sub-lexer does not apply; the next one is tried.
    Decline,
}

pub open spec fn keyword_outcome(s: Seq<char>, i: int) -> Outcome {
    if is_word_start(s[i]) && is_keyword(s.subrange(i, word_end(s, i))) {
        Outcome::Emit { kind: TokenKind::Keyword, end: word_end(s, i) }
    } else {
        Outcome::Decline
    }
}

pub open spec fn symbol_outcome(s: Seq<char>, i: int) -> Outcome {
    if is_symbol_char(s[i]) {
        Outcome::Emit { kind: TokenKind::Symbol, end: i + 1 }
    } else if is_blank(s[i]) {
        Outcome::Skip { end: i + 1 }
    } else if is_unsupported_operator(s[i]) {
        Outcome::Fail { fault: Fault::UnsupportedSymbol, pos: i }
    } else {
        Outcome::Decline
    }
}

/// Scanning the body of a string literal opened at `open`, now at `j`.
pub open spec fn string_scan(s: Seq<char>, open: int, j: int) -> Outcome
    decreases s.len() - j,
{
    if j < 0 || j >= s.len() {
        Outcome::Fail { fault: Fault::UnterminatedString, pos: open }
    } else if s[j] == '\'' {
        if j + 1 < s.len() && s[j + 1] == '\'' {
            string_scan(s, open, j + 2)
        } else {
            Outcome::Emit { kind: TokenKind::String, end: j + 1 }
        }
    } else {
        string_scan(s, open, j + 1)
    }
}

pub open spec fn string_outcome(s: Seq<char>, i: int) -> Outcome {
    if s[i] == '\'' {
        string_scan(s, i, i + 1)
    } else {
        Outcome::Decline
    }
}

/// Scanning a numeric literal, now at `i`, having seen a period (or an
/// exponent, which forbids one) and an exponent marker as the flags say.
pub open spec fn numeric_scan(s: Seq<char>, i: int, period: bool, exponent: bool) -> Outcome
    decreases s.len() - i,
{
    if i < 0 || i >= s.len() {
        Outcome::Emit { kind: TokenKind::Numeric, end: i }
    } else if s[i] == '.' {
        if period {
            Outcome::Fail { fault: Fault::MalformedNumeric, pos: i }
        } else {
            numeric_scan(s, i + 1, true, exponent)
        }
    } else if s[i] == 'e' {
        if exponent {
            Outcome::Fail { fault: Fault::MalformedNumeric, pos: i }
        } else {
            let j = if i + 1 < s.len() && (s[i + 1] == '+' || s[i + 1] == '-') {
                i + 2
            } else {
                i + 1
            };
            if j < s.len() && is_digit(s[j]) {
                numeric_scan(s, j + 1, true, true)
            } else if j < s.len() {
                Outcome::Fail { fault: Fault::MalformedNumeric, pos: j }
            } else {
                Outcome::Fail { fault: Fault::MalformedNumeric, pos: i }
            }
        }
    } else if is_digit(s[i]) {
        numeric_scan(s, i + 1, period, exponent)
    } else {
        Outcome::Emit { kind: TokenKind::Numeric, end: i }
    }
}

pub open spec fn numeric_outcome(s: Seq<char>, i: int) -> Outcome {
    if is_digit(s[i]) {
        numeric_scan(s, i + 1, false, false)
    } else if s[i] == '.' {
        numeric_scan(s, i + 1, true, false)
    } else {
        Outcome::Decline
    }
}

pub open spec fn identifier_outcome(s: Seq<char>, i: int) -> Outcome {
    if is_word_start(s[i]) {
        Outcome::Emit { kind: TokenKind::Identifier, end: word_end(s, i) }
    } else {
        Outcome::Decline
    }
}

/// The sub-lexers tried in priority order at offset `i`: the first that does
/// not decline decides.
pub open spec fn step(s: Seq<char>, i: int) -> Outcome {
    if !(keyword_outcome(s, i) is Decline) {
        keyword_outcome(s, i)
    } else if !(symbol_outcome(s, i) is Decline) {
        symbol_outcome(s, i)
    } else if !(string_outcome(s, i) is Decline) {
        string_outcome(s, i)
    } else if !(numeric_outcome(s, i) is Decline) {
        numeric_outcome(s, i)
    } else {
        identifier_outcome(s, i)
    }
}

} // verus!
