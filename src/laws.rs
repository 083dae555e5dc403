//! Properties of the tokenizer as a whole.
use vstd::prelude::*;
use crate::rules::{
    folds_to, is_blank, is_digit, is_keyword, is_word_char, is_word_start, numeric_outcome,
    numeric_scan, step, word_end, Fault, Outcome,
};
use crate::token::TokenKind;
use crate::tokenizer::{
    lemma_numeric_scan, lemma_step_bounds, lemma_string_scan, lex, lex_from, Failure, Span,
};

verus! {

/// Every character of `s` from `i` on is a word character.
pub open spec fn word_chars_from(s: Seq<char>, i: int) -> bool {
    forall|k: int| i <= k < s.len() ==> is_word_char(#[trigger] s[k])
}

/// `w` has the shape of a name: a letter or underscore, then letters,
/// digits and underscores.
pub open spec fn is_word(w: Seq<char>) -> bool {
    w.len() > 0 && is_word_start(w[0]) && word_chars_from(w, 0)
}

pub open spec fn all_digits(d: Seq<char>) -> bool {
    forall|k: int| 0 <= k < d.len() ==> is_digit(#[trigger] d[k])
}

/// The numeral with integer digits `int_part`, an optional period followed by
/// `frac`, and an optional exponent marker `e` followed by an optional sign
/// and the digits `exp`.
pub open spec fn numeral(
    int_part: Seq<char>,
    frac: Option<Seq<char>>,
    sign: Option<char>,
    exp: Option<Seq<char>>,
) -> Seq<char> {
    let mantissa = match frac {
        Some(f) => int_part + seq!['.'] + f,
        None => int_part,
    };
    match exp {
        Some(d) => match sign {
            Some(c) => mantissa + seq!['e', c] + d,
            None => mantissa + seq!['e'] + d,
        },
        None => mantissa,
    }
}

/// The spans follow one another from offset `i` with nothing but whitespace
/// between them and after the last.
pub open spec fn tiles(s: Seq<char>, i: int, spans: Seq<Span>) -> bool
    decreases spans.len(),
{
    if spans.len() == 0 {
        forall|k: int| i <= k < s.len() ==> is_blank(#[trigger] s[k])
    } else {
        &&& i <= spans[0].start < spans[0].end <= s.len()
        &&& forall|k: int| i <= k < spans[0].start ==> is_blank(#[trigger] s[k])
        &&& tiles(s, spans[0].end, spans.drop_first())
    }
}

proof fn lemma_folds_to_letter(w: Seq<char>, k: int)
    requires
        is_keyword(w),
        0 <= k < w.len(),
    ensures
        is_word_char(w[k]),
{
    let c = w[k];
    assert(forall|q: char| folds_to(c, q) ==> is_word_char(c));
}

proof fn lemma_word_end_full(s: Seq<char>, i: int)
    requires
        0 <= i <= s.len(),
        word_chars_from(s, i),
    ensures
        word_end(s, i) == s.len(),
    decreases s.len() - i,
{
    if i < s.len() {
        lemma_word_end_full(s, i + 1);
    }
}

proof fn lemma_lex_single(s: Seq<char>, kind: TokenKind)
    requires
        s.len() > 0,
        step(s, 0) == (Outcome::Emit { kind, end: s.len() as int }),
    ensures
        lex(s) == Ok::<Seq<Span>, crate::tokenizer::Failure>(
            seq![Span { kind, start: 0, end: s.len() as int }],
        ),
{
    let sp = Span { kind, start: 0, end: s.len() as int };
    assert(lex_from(s, s.len() as int, Some(sp)) == Ok::<Seq<Span>, crate::tokenizer::Failure>(
        Seq::empty(),
    ));
    assert(seq![sp] + Seq::<Span>::empty() =~= seq![sp]);
}

/// A reserved word written in any mix of letter cases, lexed alone, is one
/// keyword token that covers all of it, so its text keeps the case it had.
pub proof fn lemma_keyword_alone(w: Seq<char>)
    requires
        is_keyword(w),
    ensures
        lex(w) == Ok::<Seq<Span>, crate::tokenizer::Failure>(
            seq![Span { kind: TokenKind::Keyword, start: 0, end: w.len() as int }],
        ),
{
    assert forall|k: int| 0 <= k < w.len() implies is_word_char(#[trigger] w[k]) by {
        lemma_folds_to_letter(w, k);
    }
    assert(w.len() > 0);
    lemma_word_end_full(w, 0);
    assert(w.subrange(0, w.len() as int) =~= w);
    lemma_lex_single(w, TokenKind::Keyword);
}

/// A name that is not a reserved word, lexed alone, is one identifier token
/// that covers all of it.
pub proof fn lemma_identifier_alone(w: Seq<char>)
    requires
        is_word(w),
        !is_keyword(w),
    ensures
        lex(w) == Ok::<Seq<Span>, crate::tokenizer::Failure>(
            seq![Span { kind: TokenKind::Identifier, start: 0, end: w.len() as int }],
        ),
{
    lemma_word_end_full(w, 0);
    assert(w.subrange(0, w.len() as int) =~= w);
    lemma_lex_single(w, TokenKind::Identifier);
}


proof fn lemma_digit_run(s: Seq<char>, i: int, k: int, period: bool, exponent: bool)
    requires
        0 <= i <= k <= s.len(),
        forall|m: int| i <= m < k ==> is_digit(#[trigger] s[m]),
    ensures
        numeric_scan(s, i, period, exponent) == numeric_scan(s, k, period, exponent),
    decreases k - i,
{
    if i < k {
        lemma_digit_run(s, i + 1, k, period, exponent);
    }
}

/// A numeral made of digits, with at most one period and at most one
/// exponent marker `e` (which may carry a sign and is followed by digits),
/// lexed alone, is one numeric token that covers all of it.
pub proof fn lemma_numeral_alone(
    int_part: Seq<char>,
    frac: Option<Seq<char>>,
    sign: Option<char>,
    exp: Option<Seq<char>>,
)
    requires
        all_digits(int_part),
        frac is Some ==> all_digits(frac->0),
        int_part.len() > 0 || (frac is Some && frac->0.len() > 0),
        sign is Some ==> exp is Some && (sign->0 == '+' || sign->0 == '-'),
        exp is Some ==> exp->0.len() > 0 && all_digits(exp->0),
    ensures
        lex(numeral(int_part, frac, sign, exp)) == Ok::<Seq<Span>, crate::tokenizer::Failure>(
            seq![
                Span {
                    kind: TokenKind::Numeric,
                    start: 0,
                    end: numeral(int_part, frac, sign, exp).len() as int,
                },
            ],
        ),
{
    let w = numeral(int_part, frac, sign, exp);
    let a = int_part.len() as int;
    let mantissa = match frac {
        Some(f) => int_part + seq!['.'] + f,
        None => int_part,
    };
    let b = mantissa.len() as int;
    let period = frac is Some;
    assert(w.subrange(0, b) =~= mantissa);
    assert forall|m: int| 0 <= m < a implies is_digit(#[trigger] w[m]) by {
        assert(w[m] == mantissa[m]);
        assert(mantissa[m] == int_part[m]);
    }
    // the mantissa
    if a > 0 {
        lemma_digit_run(w, 1, a, false, false);
        assert(numeric_scan(w, 1int, false, false) == numeric_scan(w, a, false, false));
    }
    if frac is Some {
        let f = frac->0;
        assert(w[a] == mantissa[a]);
        assert(w[a] == '.');
        assert forall|m: int| a + 1 <= m < b implies is_digit(#[trigger] w[m]) by {
            assert(w[m] == mantissa[m]);
            assert(mantissa[m] == f[m - a - 1]);
        }
        lemma_digit_run(w, a + 1, b, true, false);
    }
    assert(numeric_scan(w, b, period, false) == numeric_outcome(w, 0));
    // the exponent
    match exp {
        Some(d) => {
            let j = if sign is Some { b + 2 } else { b + 1 };
            assert(w[b] == 'e');
            assert(j == w.len() - d.len());
            assert forall|m: int| j <= m < w.len() implies is_digit(#[trigger] w[m]) by {
                assert(w[m] == d[m - j]);
            }
            if sign is Some {
                assert(w[b + 1] == sign->0);
            }
            assert(is_digit(w[j]));
            lemma_digit_run(w, j + 1, w.len() as int, true, true);
            assert(numeric_scan(w, b, period, false) == numeric_scan(w, w.len() as int, true, true));
        },
        None => {
            assert(w =~= mantissa);
        },
    }
    assert(w.len() > 0);
    assert(is_digit(w[0]) || w[0] == '.');
    lemma_lex_single(w, TokenKind::Numeric);
}

/// Lexing that succeeds accounts for every character: the tokens' texts
/// follow one another in the order of the source, and what lies between them,
/// before the first and after the last is whitespace. Putting the whitespace
/// back between the texts gives the source again.
pub proof fn lemma_round_trip(s: Seq<char>)
    requires
        lex(s) is Ok,
    ensures
        tiles(s, 0, lex(s)->Ok_0),
{
    lemma_lex_from_tiles(s, 0, None);
}

pub proof fn lemma_lex_from_tiles(s: Seq<char>, i: int, last: Option<Span>)
    requires
        0 <= i <= s.len(),
        lex_from(s, i, last) is Ok,
    ensures
        tiles(s, i, lex_from(s, i, last)->Ok_0),
    decreases s.len() - i,
{
    if i < s.len() {
        lemma_step_bounds(s, i);
        match step(s, i) {
            Outcome::Emit { kind, end } => {
                let sp = Span { kind, start: i, end };
                lemma_lex_from_tiles(s, end, Some(sp));
                let rest = lex_from(s, end, Some(sp))->Ok_0;
                let all = seq![sp] + rest;
                assert(all[0] == sp);
                assert(all.drop_first() =~= rest);
            },
            Outcome::Skip { end } => {
                lemma_lex_from_tiles(s, end, last);
                lemma_string_scan(s, i, i + 1);
                lemma_numeric_scan(s, i + 1, true, false);
                lemma_numeric_scan(s, i + 1, false, false);
                assert(is_blank(s[i]));
                let spans = lex_from(s, end, last)->Ok_0;
                if spans.len() == 0 {
                    assert forall|k: int| i <= k < s.len() implies is_blank(#[trigger] s[k]) by {
                        if k > i {
                        }
                    }
                } else {
                    assert forall|k: int| i <= k < spans[0].start implies is_blank(#[trigger] s[k]) by {
                        if k > i {
                        }
                    }
                }
            },
            _ => {},
        }
    }
}


/// A second period in a numeral is malformed, and lexing stops there.
pub proof fn lemma_second_period(int_part: Seq<char>, frac: Seq<char>, rest: Seq<char>)
    requires
        int_part.len() > 0,
        all_digits(int_part),
        all_digits(frac),
    ensures
        lex(int_part + seq!['.'] + frac + seq!['.'] + rest) == Err::<Seq<Span>, Failure>(
            Failure::Fault {
                fault: Fault::MalformedNumeric,
                pos: int_part.len() + 1int + frac.len(),
            },
        ),
{
    let w = int_part + seq!['.'] + frac + seq!['.'] + rest;
    let a = int_part.len() as int;
    let b = a + 1 + frac.len();
    assert forall|m: int| 0 <= m < a implies is_digit(#[trigger] w[m]) by {
        assert(w[m] == int_part[m]);
    }
    assert forall|m: int| a + 1 <= m < b implies is_digit(#[trigger] w[m]) by {
        assert(w[m] == frac[m - a - 1]);
    }
    assert(w[a] == '.');
    assert(w[b] == '.');
    lemma_digit_run(w, 1, a, false, false);
    lemma_digit_run(w, a + 1, b, true, false);
    assert(is_digit(w[0]));
}

/// An exponent marker with no digit after it ends a numeral badly, and
/// lexing stops at the marker.
pub proof fn lemma_bare_exponent(int_part: Seq<char>)
    requires
        int_part.len() > 0,
        all_digits(int_part),
    ensures
        lex(int_part + seq!['e']) == Err::<Seq<Span>, Failure>(
            Failure::Fault { fault: Fault::MalformedNumeric, pos: int_part.len() as int },
        ),
{
    let w = int_part + seq!['e'];
    let a = int_part.len() as int;
    assert forall|m: int| 0 <= m < a implies is_digit(#[trigger] w[m]) by {
        assert(w[m] == int_part[m]);
    }
    assert(w[a] == 'e');
    lemma_digit_run(w, 1, a, false, false);
    assert(is_digit(w[0]));
}

} // verus!
