use filt_rs::case_sensitivity::{
    casefold, casefold_rev, caseless_contains, caseless_ends_with, caseless_eq, caseless_starts_with, exact_contains,
    exact_ends_with, exact_starts_with,
};
use filt_rs::token::required_raw_string_hashes;
use filt_rs::{bounded_bytes, bounded_text, BinaryOperator, LogicalOperator, Loc, Token, UnaryOperator};

#[test]
fn test_caseless_eq() {
    let cases: &[(&str, &str, bool)] = &[
        ("hello", "hello", true),
        ("Hello", "hELLO", true),
        ("hello", "hellos", false),
        ("", "", true),
        ("Jürgen", "JÜRGEN", true),
        ("ΛΟΓΟΣ", "λογος", true),
        ("λογοσ", "λογος", true),
        ("straße", "STRASSE", true),
        ("straße", "strasse", true),
        ("straẞe", "strasse", true),
        ("İstanbul", "i\u{307}stanbul", true),
        ("İstanbul", "istanbul", false),
    ];
    for &(a, b, expected) in cases {
        assert_eq!(caseless_eq(a, b), expected, "{a} == {b}");
        assert_eq!(caseless_eq(b, a), expected, "{b} == {a}");
    }
}

#[test]
fn test_casefold() {
    let cases: &[(&str, &str)] = &[
        ("Hello World", "hello world"),
        ("ΛΟΓΟΣ", "λογοσ"),
        ("λογος", "λογοσ"),
        ("İstanbul", "i\u{307}stanbul"),
        ("straße", "strasse"),
        ("STRASSE", "strasse"),
    ];
    for &(input, expected) in cases {
        assert_eq!(casefold(input).into_iter().collect::<String>(), expected);
        assert_eq!(
            casefold_rev(input).into_iter().collect::<String>(),
            expected.chars().rev().collect::<String>()
        );
    }
}

#[test]
fn test_caseless_contains() {
    assert!(caseless_contains("Hello World", "WORLD"));
    assert!(!caseless_contains("Hello World", "mars"));
    assert!(caseless_contains("ΛΟΓΟΣ", "ς"));
}

#[test]
fn test_caseless_starts_with() {
    assert!(caseless_starts_with("Hello World", "hello"));
    assert!(!caseless_starts_with("Hello World", "world"));
}

#[test]
fn test_caseless_ends_with() {
    assert!(caseless_ends_with("Hello World", "WORLD"));
    assert!(!caseless_ends_with("Hello World", "hello"));
    assert!(caseless_ends_with("ΛΟΓΟΣ", "Σ"));
}

#[test]
fn the_empty_needle_is_found_everywhere() {
    for haystack in ["", "abc", "ß"] {
        assert!(caseless_contains(haystack, ""));
        assert!(caseless_starts_with(haystack, ""));
        assert!(caseless_ends_with(haystack, ""));
    }
}

#[test]
fn prefixes_and_suffixes_are_contained() {
    assert!(caseless_starts_with("Straße", "STRASS"));
    assert!(caseless_contains("Straße", "STRASS"));
    assert!(caseless_ends_with("Straße", "SSE"));
    assert!(caseless_contains("Straße", "SSE"));
}

#[test]
fn contains_survives_more_text_around_it() {
    assert!(caseless_contains("ab", "B"));
    assert!(caseless_contains("xxabyy", "B"));
}

#[test]
fn lexemes_and_locations() {
    let loc = Loc { line: 3, column: 7 };
    let cases: Vec<(Token, &str)> = vec![
        (Token::LeftParen(loc), "("),
        (Token::RightParen(loc), ")"),
        (Token::LeftBracket(loc), "["),
        (Token::RightBracket(loc), "]"),
        (Token::Comma(loc), ","),
        (Token::Property(loc, "repo.name".to_string()), "repo.name"),
        (Token::Null(loc), "null"),
        (Token::True(loc), "true"),
        (Token::False(loc), "false"),
        (Token::String(loc, "hello".to_string()), "hello"),
        (Token::RawString(loc, "he\\llo".to_string()), "he\\llo"),
        (Token::Number(loc, "1.5".to_string()), "1.5"),
        (Token::Duration(loc, "1h30m".to_string()), "1h30m"),
        (Token::Equals(loc), "=="),
        (Token::NotEquals(loc), "!="),
        (Token::Contains(loc), "contains"),
        (Token::ContainsCs(loc), "contains_cs"),
        (Token::In(loc), "in"),
        (Token::InCs(loc), "in_cs"),
        (Token::StartsWith(loc), "startswith"),
        (Token::StartsWithCs(loc), "startswith_cs"),
        (Token::EndsWith(loc), "endswith"),
        (Token::EndsWithCs(loc), "endswith_cs"),
        (Token::Like(loc), "like"),
        (Token::LikeCs(loc), "like_cs"),
        (Token::Matches(loc), "matches"),
        (Token::GreaterThan(loc), ">"),
        (Token::GreaterEqual(loc), ">="),
        (Token::SmallerThan(loc), "<"),
        (Token::SmallerEqual(loc), "<="),
        (Token::Plus(loc), "+"),
        (Token::Minus(loc), "-"),
        (Token::Not(loc), "!"),
        (Token::And(loc), "&&"),
        (Token::Or(loc), "||"),
    ];
    for (token, lexeme) in cases {
        assert_eq!(token.lexeme(), lexeme);
        assert_eq!(token.location(), loc);
    }
}

#[test]
fn display_matches_lexeme() {
    let loc = Loc { line: 3, column: 7 };
    let cases: Vec<(Token, &str)> = vec![
        (Token::Property(loc, "repo.name".to_string()), "repo.name"),
        (Token::Number(loc, "1.5".to_string()), "1.5"),
        (Token::String(loc, "hello".to_string()), "\"hello\""),
        (Token::RawString(loc, "^\\d+$".to_string()), "r\"^\\d+$\""),
        (Token::RawString(loc, "{\"k\":1}".to_string()), "r#\"{\"k\":1}\"#"),
        (Token::RawString(loc, "a\"#b".to_string()), "r##\"a\"#b\"##"),
        (Token::And(loc), "&&"),
    ];
    for (token, expected) in cases {
        assert_eq!(token.display_text(), expected);
    }
}

#[test]
fn raw_string_delimiters() {
    assert_eq!(required_raw_string_hashes("plain"), 0);
    assert_eq!(required_raw_string_hashes("a\"b"), 1);
    assert_eq!(required_raw_string_hashes("a\"##b\"#"), 3);
}

#[test]
fn operator_tokens_convert_to_their_operators() {
    let loc = Loc { line: 1, column: 1 };
    assert_eq!(Token::ContainsCs(loc).as_binary_operator(), BinaryOperator::ContainsCs);
    assert_eq!(Token::Minus(loc).as_binary_operator(), BinaryOperator::Minus);
    assert_eq!(Token::Or(loc).as_logical_operator(), LogicalOperator::Or);
    assert_eq!(Token::Not(loc).as_unary_operator(), UnaryOperator::Not);
}

#[test]
fn operators_print_as_their_tokens() {
    let loc = Loc { line: 1, column: 1 };
    for token in [
        Token::Equals(loc),
        Token::StartsWithCs(loc),
        Token::SmallerEqual(loc),
        Token::Plus(loc),
        Token::In(loc),
    ] {
        assert_eq!(token.as_binary_operator().symbol(), token.lexeme());
    }
    assert_eq!(Token::And(loc).as_logical_operator().symbol(), "&&");
    assert_eq!(Token::Not(loc).as_unary_operator().symbol(), "!");
}

#[test]
fn bounded_inputs_keep_short_data_whole() {
    let data = b"doc.title == true";
    assert_eq!(bounded_bytes(data), &data[..]);
    assert_eq!(bounded_text(data), "doc.title == true");
}

#[test]
fn bounded_inputs_cut_long_data() {
    let data = vec![b'a'; 20000];
    assert_eq!(bounded_bytes(&data).len(), 16384);
    assert_eq!(bounded_text(&data).len(), 16384);
}

#[test]
fn bounded_text_replaces_invalid_utf8() {
    assert_eq!(bounded_text(&[b'a', 0xff, b'b']), "a\u{fffd}b");
}

#[test]
fn exact_matching_respects_case() {
    assert!(exact_contains("Hello World", "World"));
    assert!(!exact_contains("Hello World", "world"));
    assert!(exact_contains("abc", ""));
    assert!(exact_starts_with("Hello World", "Hello"));
    assert!(!exact_starts_with("Hello World", "hello"));
    assert!(exact_ends_with("Hello World", "World"));
    assert!(!exact_ends_with("Hello World", "WORLD"));
    assert!(!exact_ends_with("ab", "abc"));
    assert!(exact_ends_with("straße", "ße"));
}

#[test]
fn exact_matches_are_also_caseless_matches() {
    for (h, n) in [("Straße", "aß"), ("ΛΟΓΟΣ", "ΟΓ"), ("Hello", "He"), ("Hello", "lo")] {
        if exact_contains(h, n) {
            assert!(caseless_contains(h, n));
        }
        if exact_starts_with(h, n) {
            assert!(caseless_starts_with(h, n));
        }
        if exact_ends_with(h, n) {
            assert!(caseless_ends_with(h, n));
        }
    }
}

#[test]
fn locations_read_as_line_and_column() {
    assert_eq!(Loc { line: 1, column: 6 }.display_text(), "line 1, column 6");
    assert_eq!(Loc { line: 12, column: 105 }.display_text(), "line 12, column 105");
    assert_eq!(Loc::new(0, 10).display_text(), "line 0, column 10");
}

#[test]
fn bounded_text_keeps_valid_utf8_unchanged() {
    let text = "name ~ \"Straße*\" && λ == \u{1f600}";
    assert_eq!(bounded_text(text.as_bytes()), text);
    assert_eq!(bounded_text(text.as_bytes()).as_bytes(), text.as_bytes());
}
