//! Lexing two token texts joined by a space: each sub-lexer looks only at what
//! lies ahead of it, and stops at a space.
use vstd::prelude::*;
use crate::laws::lemma_lex_from_tiles;
use crate::rules::{
    is_digit, keyword_outcome, numeric_outcome, numeric_scan, step, string_scan, word_end, Outcome,
};
use crate::token::TokenKind;
use crate::tokenizer::{
    lemma_numeric_scan, lemma_step_bounds, lemma_string_scan, lemma_word_end, lex, lex_from,
    Failure, Span,
};

verus! {

/// `out` with every offset in it moved on by `o`.
spec fn shifted(out: Outcome, o: int) -> Outcome {
    match out {
        Outcome::Emit { kind, end } => Outcome::Emit { kind, end: end + o },
        Outcome::Skip { end } => Outcome::Skip { end: end + o },
        Outcome::Fail { fault, pos } => Outcome::Fail { fault, pos: pos + o },
        Outcome::Decline => Outcome::Decline,
    }
}

proof fn lemma_word_end_suffix(p: Seq<char>, b: Seq<char>, i: int)
    requires
        0 <= i <= b.len(),
    ensures
        word_end(p + b, p.len() + i) == p.len() + word_end(b, i),
    decreases b.len() - i,
{
    if i < b.len() {
        assert((p + b)[p.len() + i] == b[i]);
        lemma_word_end_suffix(p, b, i + 1);
    }
}

proof fn lemma_string_scan_suffix(p: Seq<char>, b: Seq<char>, open: int, j: int)
    requires
        0 <= j,
    ensures
        string_scan(p + b, p.len() + open, p.len() + j) == shifted(string_scan(b, open, j), p.len() as int),
    decreases b.len() - j,
{
    let s = p + b;
    let o = p.len() as int;
    if j < b.len() {
        assert(s[o + j] == b[j]);
        if j + 1 < b.len() {
            assert(s[o + j + 1] == b[j + 1]);
        }
        if b[j] == '\'' {
            if j + 1 < b.len() && b[j + 1] == '\'' {
                lemma_string_scan_suffix(p, b, open, j + 2);
            }
        } else {
            lemma_string_scan_suffix(p, b, open, j + 1);
        }
    }
}

proof fn lemma_numeric_scan_suffix(
    p: Seq<char>,
    b: Seq<char>,
    i: int,
    period: bool,
    exponent: bool,
)
    requires
        0 <= i,
    ensures
        numeric_scan(p + b, p.len() + i, period, exponent) == shifted(
            numeric_scan(b, i, period, exponent),
            p.len() as int,
        ),
    decreases b.len() - i,
{
    let s = p + b;
    let o = p.len() as int;
    if i < b.len() {
        assert(s[o + i] == b[i]);
        if i + 1 < b.len() {
            assert(s[o + i + 1] == b[i + 1]);
        }
        if i + 2 < b.len() {
            assert(s[o + i + 2] == b[i + 2]);
        }
        if b[i] == '.' {
            if !period {
                lemma_numeric_scan_suffix(p, b, i + 1, true, exponent);
            }
        } else if b[i] == 'e' {
            if !exponent {
                let j = if i + 1 < b.len() && (b[i + 1] == '+' || b[i + 1] == '-') {
                    i + 2
                } else {
                    i + 1
                };
                if j < b.len() && is_digit(b[j]) {
                    lemma_numeric_scan_suffix(p, b, j + 1, true, true);
                }
            }
        } else {
            lemma_numeric_scan_suffix(p, b, i + 1, period, exponent);
        }
    }
}

/// What the sub-lexers do at the start of `b` does not depend on what
/// stands before it.
proof fn lemma_step_suffix(p: Seq<char>, b: Seq<char>)
    requires
        b.len() > 0,
    ensures
        step(p + b, p.len() as int) == shifted(step(b, 0), p.len() as int),
{
    let s = p + b;
    let o = p.len() as int;
    assert(s[o] == b[0]);
    lemma_word_end_suffix(p, b, 0);
    lemma_word_end(b, 0);
    assert(s.subrange(o, word_end(s, o)) =~= b.subrange(0, word_end(b, 0)));
    lemma_string_scan_suffix(p, b, 0, 1);
    lemma_numeric_scan_suffix(p, b, 1, true, false);
    lemma_numeric_scan_suffix(p, b, 1, false, false);
}

proof fn lemma_word_end_prefix(a: Seq<char>, t: Seq<char>, i: int)
    requires
        0 <= i <= a.len(),
        word_end(a, i) == a.len(),
        t.len() > 0,
        t[0] == ' ',
    ensures
        word_end(a + t, i) == a.len(),
    decreases a.len() - i,
{
    let s = a + t;
    if i < a.len() {
        assert(s[i] == a[i]);
        lemma_word_end_prefix(a, t, i + 1);
    } else {
        assert(s[i] == t[0]);
    }
}

proof fn lemma_string_scan_prefix(a: Seq<char>, t: Seq<char>, open: int, j: int)
    requires
        0 <= j,
        string_scan(a, open, j) == (Outcome::Emit { kind: TokenKind::String, end: a.len() as int }),
        t.len() > 0,
        t[0] == ' ',
    ensures
        string_scan(a + t, open, j) == string_scan(a, open, j),
    decreases a.len() - j,
{
    let s = a + t;
    let n = a.len() as int;
    assert(j < n);
    assert(s[j] == a[j]);
    if j + 1 < n {
        assert(s[j + 1] == a[j + 1]);
    } else {
        assert(s[j + 1] == t[0]);
    }
    if a[j] == '\'' {
        if j + 1 < n && a[j + 1] == '\'' {
            lemma_string_scan_prefix(a, t, open, j + 2);
        }
    } else {
        lemma_string_scan_prefix(a, t, open, j + 1);
    }
}

proof fn lemma_numeric_scan_prefix(
    a: Seq<char>,
    t: Seq<char>,
    i: int,
    period: bool,
    exponent: bool,
)
    requires
        0 <= i <= a.len(),
        numeric_scan(a, i, period, exponent) == (Outcome::Emit {
            kind: TokenKind::Numeric,
            end: a.len() as int,
        }),
        t.len() > 0,
        t[0] == ' ',
    ensures
        numeric_scan(a + t, i, period, exponent) == numeric_scan(a, i, period, exponent),
    decreases a.len() - i,
{
    let s = a + t;
    let n = a.len() as int;
    if i < n {
        assert(s[i] == a[i]);
        if i + 1 < n {
            assert(s[i + 1] == a[i + 1]);
        } else {
            assert(s[i + 1] == t[0]);
        }
        if i + 2 < n {
            assert(s[i + 2] == a[i + 2]);
        }
        if a[i] == '.' {
            lemma_numeric_scan_prefix(a, t, i + 1, true, exponent);
        } else if a[i] == 'e' {
            let j = if i + 1 < n && (a[i + 1] == '+' || a[i + 1] == '-') {
                i + 2
            } else {
                i + 1
            };
            lemma_numeric_scan_prefix(a, t, j + 1, true, true);
        } else {
            lemma_numeric_scan_prefix(a, t, i + 1, period, exponent);
        }
    } else {
        assert(s[i] == t[0]);
    }
}

/// A text that is one token stays one token when a space and more text
/// follow it.
proof fn lemma_step_prefix(a: Seq<char>, t: Seq<char>, kind: TokenKind)
    requires
        a.len() > 0,
        step(a, 0) == (Outcome::Emit { kind, end: a.len() as int }),
        t.len() > 0,
        t[0] == ' ',
    ensures
        step(a + t, 0) == step(a, 0),
{
    let s = a + t;
    assert(s[0] == a[0]);
    lemma_word_end(a, 0);
    lemma_string_scan(a, 0, 1);
    lemma_numeric_scan(a, 1, true, false);
    lemma_numeric_scan(a, 1, false, false);
    if word_end(a, 0) == a.len() {
        lemma_word_end_prefix(a, t, 0);
        assert(s.subrange(0, a.len() as int) =~= a.subrange(0, a.len() as int));
    }
    if a[0] == '\'' {
        assert(step(a, 0) == string_scan(a, 0, 1));
        lemma_string_scan_prefix(a, t, 0, 1);
    }
    if step(a, 0) == numeric_outcome(a, 0) && keyword_outcome(a, 0) is Decline {
        if a[0] == '.' {
            lemma_numeric_scan_prefix(a, t, 1, true, false);
        } else if is_digit(a[0]) {
            lemma_numeric_scan_prefix(a, t, 1, false, false);
        }
    }
}

/// A text that lexes alone as exactly one token: that token's first step.
proof fn lemma_single_token_step(a: Seq<char>, kind: TokenKind)
    requires
        lex(a) == Ok::<Seq<Span>, Failure>(
            seq![Span { kind, start: 0, end: a.len() as int }],
        ),
    ensures
        a.len() > 0,
        step(a, 0) == (Outcome::Emit { kind, end: a.len() as int }),
{
    assert(a.len() > 0);
    lemma_step_bounds(a, 0);
    match step(a, 0) {
        Outcome::Emit { kind: k, end } => {
            let sp = Span { kind: k, start: 0, end };
            let rest = lex_from(a, end, Some(sp))->Ok_0;
            let all = seq![sp] + rest;
            assert(all.len() == 1);
            assert(all[0] == sp);
        },
        Outcome::Skip { end } => {
            lemma_lex_from_tiles(a, end, None);
        },
        _ => {},
    }
}

/// Two texts that each lex alone as exactly one token, joined by a single
/// space, lex as those same two tokens, the second after the space.
pub proof fn lemma_two_tokens(a: Seq<char>, ka: TokenKind, b: Seq<char>, kb: TokenKind)
    requires
        lex(a) == Ok::<Seq<Span>, Failure>(
            seq![Span { kind: ka, start: 0, end: a.len() as int }],
        ),
        lex(b) == Ok::<Seq<Span>, Failure>(
            seq![Span { kind: kb, start: 0, end: b.len() as int }],
        ),
    ensures
        lex(a + seq![' '] + b) == Ok::<Seq<Span>, Failure>(
            seq![
                Span { kind: ka, start: 0, end: a.len() as int },
                Span { kind: kb, start: a.len() + 1int, end: a.len() + 1int + b.len() },
            ],
        ),
{
    let n = a.len() as int;
    let s = a + seq![' '] + b;
    let t = seq![' '] + b;
    let p = a + seq![' '];
    assert(s =~= a + t);
    assert(s =~= p + b);
    lemma_single_token_step(a, ka);
    lemma_single_token_step(b, kb);
    lemma_step_prefix(a, t, ka);
    lemma_step_suffix(p, b);
    assert(s[n] == ' ');
    lemma_word_end(s, n);
    assert(step(s, n) == (Outcome::Skip { end: n + 1 }));
    let spa = Span { kind: ka, start: 0, end: n };
    let spb = Span { kind: kb, start: n + 1, end: s.len() as int };
    assert(lex_from(s, s.len() as int, Some(spb)) == Ok::<Seq<Span>, Failure>(Seq::empty()));
    assert(seq![spb] + Seq::<Span>::empty() =~= seq![spb]);
    assert(lex_from(s, n + 1, Some(spa)) == Ok::<Seq<Span>, Failure>(seq![spb]));
    assert(lex_from(s, n, Some(spa)) == Ok::<Seq<Span>, Failure>(seq![spb]));
    assert(seq![spa] + seq![spb] =~= seq![spa, spb]);
}

} // verus!
