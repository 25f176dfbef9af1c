use filt_rs::{BinaryOperator, LexError, Loc, LogicalOperator, Scanner, Token, UnaryOperator};

/// Scans `filter` to its end, failing on any scanning error.
fn sequence(filter: &str) -> Vec<Token> {
    let mut scanner = Scanner::new(filter);
    let mut tokens = Vec::new();
    loop {
        match scanner.next() {
            Some(Ok(token)) => tokens.push(token),
            Some(Err(e)) => panic!("Error: {:?}", e),
            None => break,
        }
    }
    assert!(scanner.next().is_none(), "expected end of sequence, but got an item");
    tokens
}

/// The first scanning error in `filter`.
fn first_error(filter: &str) -> LexError {
    let mut scanner = Scanner::new(filter);
    loop {
        match scanner.next() {
            Some(Ok(..)) => continue,
            Some(Err(e)) => return e,
            None => panic!("Expected an error while scanning '{filter}'"),
        }
    }
}

fn is_property(token: &Token, name: &str) -> bool {
    matches!(token, Token::Property(_, s) if s == name)
}

fn is_number(token: &Token, text: &str) -> bool {
    matches!(token, Token::Number(_, s) if s == text)
}

#[test]
fn test_empty() {
    assert!(sequence("").is_empty());
}

#[test]
fn test_whitespace() {
    assert!(sequence("  \t\n").is_empty());
}

#[test]
fn test_parens() {
    let tokens = sequence("() []");
    assert_eq!(tokens.len(), 4);
    assert!(matches!(tokens[0], Token::LeftParen(..)));
    assert!(matches!(tokens[1], Token::RightParen(..)));
    assert!(matches!(tokens[2], Token::LeftBracket(..)));
    assert!(matches!(tokens[3], Token::RightBracket(..)));
}

#[test]
fn test_logical_operators() {
    let tokens = sequence("&& ||");
    assert_eq!(tokens.len(), 2);
    assert!(matches!(tokens[0], Token::And(..)));
    assert!(matches!(tokens[1], Token::Or(..)));
}

#[test]
fn test_comparison_operators() {
    let tokens = sequence("== != contains in startswith endswith like matches > >= < <=");
    assert_eq!(tokens.len(), 12);
    assert!(matches!(tokens[0], Token::Equals(..)));
    assert!(matches!(tokens[1], Token::NotEquals(..)));
    assert!(matches!(tokens[2], Token::Contains(..)));
    assert!(matches!(tokens[3], Token::In(..)));
    assert!(matches!(tokens[4], Token::StartsWith(..)));
    assert!(matches!(tokens[5], Token::EndsWith(..)));
    assert!(matches!(tokens[6], Token::Like(..)));
    assert!(matches!(tokens[7], Token::Matches(..)));
    assert!(matches!(tokens[8], Token::GreaterThan(..)));
    assert!(matches!(tokens[9], Token::GreaterEqual(..)));
    assert!(matches!(tokens[10], Token::SmallerThan(..)));
    assert!(matches!(tokens[11], Token::SmallerEqual(..)));
}

#[test]
fn test_case_sensitive_comparison_operators() {
    let tokens = sequence("contains_cs in_cs startswith_cs endswith_cs like_cs");
    assert_eq!(tokens.len(), 5);
    assert!(matches!(tokens[0], Token::ContainsCs(..)));
    assert!(matches!(tokens[1], Token::InCs(..)));
    assert!(matches!(tokens[2], Token::StartsWithCs(..)));
    assert!(matches!(tokens[3], Token::EndsWithCs(..)));
    assert!(matches!(tokens[4], Token::LikeCs(..)));
}

#[test]
fn test_cs_suffixed_identifiers_are_properties() {
    let tokens = sequence("contains_csx in_cs2 like_cs.name");
    assert_eq!(tokens.len(), 3);
    assert!(is_property(&tokens[0], "contains_csx"));
    assert!(is_property(&tokens[1], "in_cs2"));
    assert!(is_property(&tokens[2], "like_cs.name"));
}

#[test]
fn test_raw_string() {
    let tokens = sequence("r\"^release/v\\d+(\\.\\d+){2}$\"");
    assert_eq!(tokens.len(), 1);
    assert!(matches!(&tokens[0], Token::RawString(_, s) if s == "^release/v\\d+(\\.\\d+){2}$"));

    let tokens = sequence("r\"a\\\\b\"");
    assert_eq!(tokens.len(), 1);
    assert!(matches!(&tokens[0], Token::RawString(_, s) if s == "a\\\\b"));

    let tokens = sequence("release r2d2");
    assert_eq!(tokens.len(), 2);
    assert!(is_property(&tokens[0], "release"));
    assert!(is_property(&tokens[1], "r2d2"));
}

#[test]
fn test_raw_string_location_tracking() {
    let tokens = sequence("r\"multi\nline\" && done");
    assert_eq!(tokens.len(), 3);
    assert_eq!(tokens[0], Token::RawString(Loc { line: 1, column: 1 }, "multi\nline".to_string()));
    assert_eq!(tokens[1], Token::And(Loc { line: 2, column: 7 }));
    assert!(is_property(&tokens[2], "done"));
}

#[test]
fn test_string() {
    let tokens = sequence("\"hello world\"");
    assert_eq!(tokens.len(), 1);
    assert!(matches!(&tokens[0], Token::String(_, s) if s == "hello world"));

    let tokens = sequence("\"hello \\\"world\\\"\"");
    assert_eq!(tokens.len(), 1);
    assert!(matches!(&tokens[0], Token::String(_, s) if s == "hello \\\"world\\\""));
}

#[test]
fn test_number() {
    let tokens = sequence("123.456");
    assert_eq!(tokens.len(), 1);
    assert!(is_number(&tokens[0], "123.456"));
}

#[test]
fn test_number_formats() {
    for (input, lexeme) in [("0", "0"), ("123", "123"), ("123.456", "123.456"), ("0.5", "0.5")] {
        let tokens = sequence(input);
        assert_eq!(tokens.len(), 1);
        assert!(is_number(&tokens[0], lexeme));
    }
}

#[test]
fn test_identifiers() {
    let tokens = sequence("true false null foo.bar-baz");
    assert_eq!(tokens.len(), 4);
    assert!(matches!(tokens[0], Token::True(..)));
    assert!(matches!(tokens[1], Token::False(..)));
    assert!(matches!(tokens[2], Token::Null(..)));
    assert!(is_property(&tokens[3], "foo.bar-baz"));
}

#[test]
fn test_mixed() {
    let tokens = sequence("foo == \"bar\" && baz != 123");
    assert_eq!(tokens.len(), 7);
    assert!(is_property(&tokens[0], "foo"));
    assert!(matches!(tokens[1], Token::Equals(..)));
    assert!(matches!(&tokens[2], Token::String(_, s) if s == "bar"));
    assert!(matches!(tokens[3], Token::And(..)));
    assert!(is_property(&tokens[4], "baz"));
    assert!(matches!(tokens[5], Token::NotEquals(..)));
    assert!(is_number(&tokens[6], "123"));
}

#[test]
fn test_negation() {
    let tokens = sequence("repo.public && !release.prerelease && !artifact.source-code");
    assert_eq!(tokens.len(), 7);
    assert!(is_property(&tokens[0], "repo.public"));
    assert!(matches!(tokens[1], Token::And(..)));
    assert!(matches!(tokens[2], Token::Not(..)));
    assert!(is_property(&tokens[3], "release.prerelease"));
    assert!(matches!(tokens[4], Token::And(..)));
    assert!(matches!(tokens[5], Token::Not(..)));
    assert!(is_property(&tokens[6], "artifact.source-code"));
}

#[test]
fn test_arithmetic_operators() {
    for input in ["1 + 2 - 3", "1+2-3"] {
        let tokens = sequence(input);
        assert_eq!(tokens.len(), 5);
        assert!(is_number(&tokens[0], "1"));
        assert!(matches!(tokens[1], Token::Plus(..)));
        assert!(is_number(&tokens[2], "2"));
        assert!(matches!(tokens[3], Token::Minus(..)));
        assert!(is_number(&tokens[4], "3"));
    }

    let tokens = sequence("-5");
    assert_eq!(tokens.len(), 2);
    assert!(matches!(tokens[0], Token::Minus(..)));
    assert!(is_number(&tokens[1], "5"));
}

#[test]
fn test_hyphenated_identifiers_are_not_subtraction() {
    let tokens = sequence("asset.source-code");
    assert_eq!(tokens.len(), 1);
    assert!(is_property(&tokens[0], "asset.source-code"));

    let tokens = sequence("asset.size - 5");
    assert_eq!(tokens.len(), 3);
    assert!(is_property(&tokens[0], "asset.size"));
    assert!(matches!(tokens[1], Token::Minus(..)));
    assert!(is_number(&tokens[2], "5"));

    let tokens = sequence("asset.size-5");
    assert_eq!(tokens.len(), 1);
    assert!(is_property(&tokens[0], "asset.size-5"));
}

#[test]
fn test_location() {
    let tokens = sequence("true !=\nfalse");
    assert_eq!(tokens.len(), 3);
    assert_eq!(tokens[0], Token::True(Loc { line: 1, column: 1 }));
    assert_eq!(tokens[1], Token::NotEquals(Loc { line: 1, column: 6 }));
    assert_eq!(tokens[2], Token::False(Loc { line: 2, column: 1 }));
}

#[test]
fn test_lexing_errors() {
    let cases: &[(&str, &str)] = &[
        ("&", "Filter included an orphaned '&' at line 1, column 1"),
        ("|", "Filter included an orphaned '|' at line 1, column 1"),
        ("=", "Filter included an orphaned '=' at line 1, column 1"),
        ("a & b", "Filter included an orphaned '&' at line 1, column 3"),
        (
            "\"unterminated",
            "Reached the end of the filter without finding the closing quote for a string starting at line 1, column 1",
        ),
        (
            "r\"unterminated",
            "Reached the end of the filter without finding the closing quote for a raw string starting at line 1, column 1",
        ),
    ];
    for &(input, message) in cases {
        let error = first_error(input);
        assert!(
            error.message().contains(message),
            "Expected error message to contain '{}', got '{}'",
            message,
            error.message()
        );
    }
    assert_eq!(first_error("\"unterminated"), LexError::UnterminatedString(Loc { line: 1, column: 1 }));
    assert_eq!(first_error("r\"unterminated"), LexError::UnterminatedRawString(Loc { line: 1, column: 1 }));
}

#[test]
fn test_multiline_strings() {
    let tokens = sequence("\"hello\nworld\" && done");
    assert_eq!(tokens.len(), 3);
    assert_eq!(tokens[0], Token::String(Loc { line: 1, column: 1 }, "hello\nworld".to_string()));
    assert_eq!(tokens[1], Token::And(Loc { line: 2, column: 8 }));
    assert!(is_property(&tokens[2], "done"));
}

#[test]
fn columns_count_characters_after_a_multibyte_character() {
    // "é" takes two bytes, and columns are counted in bytes from the line start.
    let tokens = sequence("é && x");
    assert_eq!(tokens.len(), 3);
    assert!(is_property(&tokens[0], "é"));
    assert_eq!(tokens[1], Token::And(Loc { line: 1, column: 4 }));
}

#[test]
fn comparison_operators_locate_their_first_character() {
    let tokens = sequence("a > b");
    assert_eq!(tokens[1], Token::GreaterThan(Loc { line: 1, column: 3 }));
    let tokens = sequence("a <= b");
    assert_eq!(tokens[1], Token::SmallerEqual(Loc { line: 1, column: 3 }));
}

#[test]
fn lines_are_counted_once_per_line_break() {
    let tokens = sequence("a\nb\n\nc");
    assert_eq!(tokens.len(), 3);
    assert_eq!(tokens[0].location(), Loc { line: 1, column: 1 });
    assert_eq!(tokens[1].location(), Loc { line: 2, column: 1 });
    assert_eq!(tokens[2].location(), Loc { line: 4, column: 1 });
}

#[test]
fn scanning_stops_after_the_first_error() {
    let mut scanner = Scanner::new("a = b");
    assert!(matches!(scanner.next(), Some(Ok(Token::Property(..)))));
    assert!(matches!(scanner.next(), Some(Err(LexError::OrphanedEquals(..)))));
}

#[test]
fn durations_are_single_tokens() {
    let tokens = sequence("1h30m 5m 1.5h");
    assert_eq!(tokens.len(), 3);
    assert_eq!(tokens[0], Token::Duration(Loc { line: 1, column: 1 }, "1h30m".to_string()));
    assert_eq!(tokens[1], Token::Duration(Loc { line: 1, column: 7 }, "5m".to_string()));
    assert_eq!(tokens[2], Token::Duration(Loc { line: 1, column: 10 }, "1.5h".to_string()));
    let tokens = sequence("1.x");
    assert_eq!(tokens.len(), 2);
    assert!(is_number(&tokens[0], "1"));
    assert!(is_property(&tokens[1], ".x"));
}

#[test]
fn hashed_raw_strings_end_at_a_quote_and_as_many_hashes() {
    let tokens = sequence("r#\"{\"status\":\"ok\"}\"#");
    assert_eq!(tokens.len(), 1);
    assert_eq!(tokens[0], Token::RawString(Loc { line: 1, column: 1 }, "{\"status\":\"ok\"}".to_string()));
    let tokens = sequence("r##\"a\"#b\"## && x");
    assert_eq!(tokens.len(), 3);
    assert!(matches!(&tokens[0], Token::RawString(_, s) if s == "a\"#b"));
    assert_eq!(tokens[1], Token::And(Loc { line: 1, column: 13 }));
    assert_eq!(first_error("r#\"open\""), LexError::UnterminatedRawString(Loc { line: 1, column: 1 }));
}

#[test]
fn displayed_raw_strings_scan_back() {
    let loc = Loc { line: 1, column: 1 };
    for content in ["plain", "{\"k\":1}", "a\"#b", "x\"##y"] {
        let shown = Token::RawString(loc, content.to_string()).display_text();
        assert_eq!(sequence(&shown), vec![Token::RawString(loc, content.to_string())]);
    }
}

#[test]
fn ascii_locations_count_line_breaks_before_the_token() {
    let src = "a == 1\n  && \"x\"\n\n   r\"y\" || !b";
    let starts = [0usize, 2, 5, 9, 12, 20, 25, 28, 29];
    let tokens = sequence(src);
    assert_eq!(tokens.len(), starts.len());
    for (token, &i) in tokens.iter().zip(starts.iter()) {
        let before = &src[..i];
        let line = 1 + before.matches('\n').count();
        let column = i + 1 - before.rfind('\n').map_or(0, |j| j + 1);
        assert_eq!(token.location(), Loc { line, column }, "token at byte {i}");
    }
}

#[test]
fn fixed_lexemes_and_operator_symbols_scan_back() {
    let at = Loc { line: 1, column: 1 };
    let fixed = [
        Token::LeftParen(at), Token::RightParen(at), Token::LeftBracket(at), Token::RightBracket(at),
        Token::Comma(at), Token::Null(at), Token::True(at), Token::False(at), Token::Equals(at),
        Token::NotEquals(at), Token::Contains(at), Token::ContainsCs(at), Token::In(at), Token::InCs(at),
        Token::StartsWith(at), Token::StartsWithCs(at), Token::EndsWith(at), Token::EndsWithCs(at),
        Token::Like(at), Token::LikeCs(at), Token::Matches(at), Token::GreaterThan(at),
        Token::GreaterEqual(at), Token::SmallerThan(at), Token::SmallerEqual(at), Token::Plus(at),
        Token::Minus(at), Token::Not(at), Token::And(at), Token::Or(at),
    ];
    for token in fixed {
        assert_eq!(sequence(token.lexeme()), vec![token.clone()]);
    }
    let binary = [
        BinaryOperator::Equals, BinaryOperator::NotEquals, BinaryOperator::GreaterThan,
        BinaryOperator::SmallerThan, BinaryOperator::GreaterEqual, BinaryOperator::SmallerEqual,
        BinaryOperator::Contains, BinaryOperator::ContainsCs, BinaryOperator::In, BinaryOperator::InCs,
        BinaryOperator::StartsWith, BinaryOperator::StartsWithCs, BinaryOperator::EndsWith,
        BinaryOperator::EndsWithCs, BinaryOperator::Plus, BinaryOperator::Minus,
    ];
    for op in binary {
        let tokens = sequence(op.symbol());
        assert_eq!(tokens.len(), 1);
        assert_eq!(tokens[0].as_binary_operator(), op);
    }
    for op in [LogicalOperator::And, LogicalOperator::Or] {
        let tokens = sequence(op.symbol());
        assert_eq!(tokens.len(), 1);
        assert_eq!(tokens[0].as_logical_operator(), op);
    }
    let tokens = sequence(UnaryOperator::Not.symbol());
    assert_eq!(tokens, vec![Token::Not(at)]);
}

#[test]
fn scanning_ends_by_the_call_after_the_last_character() {
    for src in ["", "   ", "a && b", "\"x\" == r#\"y\"#", "1h30m", "& | =", "\"open", "ß == λ"] {
        let mut scanner = Scanner::new(src);
        let mut calls = 0;
        while scanner.next().is_some() {
            calls += 1;
            assert!(calls <= src.chars().count(), "too many items for {src:?}");
        }
        assert!(scanner.next().is_none());
    }
}
