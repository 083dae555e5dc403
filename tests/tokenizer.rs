use rustql::location::Location;
use rustql::token::{Token, TokenKind};
use rustql::tokenizer::{tokenize, LexError};

fn tok(text: &str, kind: TokenKind) -> Token {
    Token::new(String::from(text), kind, Location::start())
}

fn at(line: usize, col: usize) -> Location {
    Location { line, col }
}

fn texts(tokens: &[Token]) -> Vec<String> {
    tokens.iter().map(|t| t.text().clone()).collect()
}

#[test]
fn select_star_from_table() {
    let tokens = tokenize("SELECT * FROM t;").unwrap();
    assert_eq!(
        tokens,
        vec![
            tok("SELECT", TokenKind::Keyword),
            tok("*", TokenKind::Symbol),
            tok("FROM", TokenKind::Keyword),
            tok("t", TokenKind::Identifier),
            tok(";", TokenKind::Symbol),
        ]
    );
    let cols: Vec<usize> = tokens.iter().map(|t| t.loc().col).collect();
    assert_eq!(cols, vec![0, 7, 9, 14, 15]);
}

#[test]
fn numeric_with_signed_exponent() {
    let tokens = tokenize("123.45e-6").unwrap();
    assert_eq!(tokens, vec![tok("123.45e-6", TokenKind::Numeric)]);
}

#[test]
fn second_period_is_malformed() {
    assert_eq!(tokenize("1.2.3"), Err(LexError::MalformedNumeric { loc: at(1, 3) }));
}

#[test]
fn unclosed_string_reports_opening_quote() {
    assert_eq!(tokenize("'hi"), Err(LexError::UnterminatedString { loc: at(1, 0) }));
    assert_eq!(
        tokenize("SELECT 'hi"),
        Err(LexError::UnterminatedString { loc: at(1, 7) })
    );
}

#[test]
fn mixed_case_keyword_keeps_its_text() {
    let tokens = tokenize("SeLeCt").unwrap();
    assert_eq!(tokens, vec![tok("SeLeCt", TokenKind::Keyword)]);
    assert_eq!(tokens[0].text(), "SeLeCt");
}

#[test]
fn exponent_without_digit_is_malformed() {
    assert_eq!(tokenize("1e"), Err(LexError::MalformedNumeric { loc: at(1, 1) }));
    assert_eq!(tokenize("1e+"), Err(LexError::MalformedNumeric { loc: at(1, 1) }));
    assert_eq!(tokenize("1e+x"), Err(LexError::MalformedNumeric { loc: at(1, 3) }));
}

#[test]
fn every_keyword_in_every_case() {
    let words = [
        "select", "from", "as", "table", "create", "insert", "into", "values", "int", "text",
        "where",
    ];
    for w in words {
        for spelled in [w.to_string(), w.to_uppercase()] {
            let tokens = tokenize(&spelled).unwrap();
            assert_eq!(tokens, vec![tok(&spelled, TokenKind::Keyword)]);
        }
    }
}

#[test]
fn names_that_are_not_keywords() {
    for w in ["t", "selected", "e5", "_x1", "Int2", "fro", "values_"] {
        let tokens = tokenize(w).unwrap();
        assert_eq!(tokens, vec![tok(w, TokenKind::Identifier)]);
    }
}

#[test]
fn well_formed_numerals() {
    for n in ["0", "123", "3.14", "2e10", "2e-10", "2e+10", ".5", "7.", "1.5e3"] {
        let tokens = tokenize(n).unwrap();
        assert_eq!(tokens, vec![tok(n, TokenKind::Numeric)]);
    }
}

#[test]
fn malformed_numerals() {
    assert_eq!(tokenize("1..2"), Err(LexError::MalformedNumeric { loc: at(1, 2) }));
    assert_eq!(tokenize("1ee2"), Err(LexError::MalformedNumeric { loc: at(1, 2) }));
    assert_eq!(tokenize("1e2.5"), Err(LexError::MalformedNumeric { loc: at(1, 3) }));
    assert_eq!(tokenize("1e2e3"), Err(LexError::MalformedNumeric { loc: at(1, 3) }));
}

#[test]
fn numeral_ends_at_other_character() {
    let tokens = tokenize("12,3)").unwrap();
    assert_eq!(
        tokens,
        vec![
            tok("12", TokenKind::Numeric),
            tok(",", TokenKind::Symbol),
            tok("3", TokenKind::Numeric),
            tok(")", TokenKind::Symbol),
        ]
    );
}

#[test]
fn string_literals() {
    let tokens = tokenize("'it''s' 'a b'").unwrap();
    assert_eq!(
        tokens,
        vec![tok("'it''s'", TokenKind::String), tok("'a b'", TokenKind::String)]
    );
    assert_eq!(tokens[1].loc(), at(1, 8));
    assert_eq!(tokenize("''").unwrap(), vec![tok("''", TokenKind::String)]);
}

#[test]
fn newlines_move_the_location() {
    let tokens = tokenize("SELECT a\nFROM t\n  WHERE 'x\ny' = b").unwrap();
    let locs: Vec<Location> = tokens.iter().map(|t| t.loc()).collect();
    assert_eq!(
        locs,
        vec![at(1, 0), at(1, 7), at(2, 0), at(2, 5), at(3, 2), at(3, 8), at(4, 3), at(4, 5)]
    );
    assert_eq!(tokens[5], tok("'x\ny'", TokenKind::String));
}

#[test]
fn whitespace_yields_no_token() {
    assert_eq!(tokenize("").unwrap(), vec![]);
    assert_eq!(tokenize(" \t\n ").unwrap(), vec![]);
    let tokens = tokenize("\tINSERT\tINTO x\n").unwrap();
    assert_eq!(texts(&tokens), vec!["INSERT", "INTO", "x"]);
}

#[test]
fn texts_and_whitespace_rebuild_the_source() {
    let source = "CREATE TABLE t (a int, b text);\nINSERT INTO t VALUES (1.5, 'x y');";
    let tokens = tokenize(source).unwrap();
    let mut rebuilt = String::new();
    let chars: Vec<char> = source.chars().collect();
    let mut offset = 0;
    for t in &tokens {
        while !chars[offset..].iter().collect::<String>().starts_with(t.text().as_str()) {
            assert!(chars[offset] == ' ' || chars[offset] == '\n' || chars[offset] == '\t');
            rebuilt.push(chars[offset]);
            offset += 1;
        }
        rebuilt.push_str(t.text());
        offset += t.text().chars().count();
    }
    while offset < chars.len() {
        rebuilt.push(chars[offset]);
        offset += 1;
    }
    assert_eq!(rebuilt, source);
}

#[test]
fn two_tokens_lex_as_each_alone() {
    let texts = ["SELECT", "t", "12.5e-3", "'a b'", ";", "*", "where", "_x"];
    for a in texts {
        for b in texts {
            let joined = format!("{} {}", a, b);
            let mut expected = tokenize(a).unwrap();
            expected.extend(tokenize(b).unwrap());
            assert_eq!(tokenize(&joined).unwrap(), expected);
        }
    }
}

#[test]
fn no_sub_lexer_applies() {
    assert_eq!(
        tokenize("#"),
        Err(LexError::NoMatchingLexer { after: None, loc: at(1, 0) })
    );
    assert_eq!(
        tokenize("SELECT a #"),
        Err(LexError::NoMatchingLexer { after: Some(String::from("a")), loc: at(1, 9) })
    );
    assert_eq!(
        tokenize("SELECT ?"),
        Err(LexError::NoMatchingLexer { after: Some(String::from("SELECT")), loc: at(1, 7) })
    );
}

#[test]
fn unsupported_operators() {
    assert_eq!(tokenize("a < b"), Err(LexError::UnsupportedSymbol { loc: at(1, 2) }));
    assert_eq!(tokenize("-1"), Err(LexError::UnsupportedSymbol { loc: at(1, 0) }));
}

#[test]
fn error_location() {
    let e = tokenize("a\n 1..").unwrap_err();
    assert_eq!(e.location(), at(2, 3));
}

#[test]
fn token_equality_ignores_location() {
    let a = Token::new(String::from("x"), TokenKind::Identifier, at(1, 0));
    let b = Token::new(String::from("x"), TokenKind::Identifier, at(3, 9));
    let c = Token::new(String::from("x"), TokenKind::Keyword, at(1, 0));
    assert_eq!(a, b);
    assert_ne!(a, c);
    assert_eq!(a.kind(), TokenKind::Identifier);
}
