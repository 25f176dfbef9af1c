use filt_rs::{
    BinaryOperator, Expr, Filter, FunctionSignature, Glob, LexError, Literal, LogicalOperator, Loc,
    ParseError, Token, UnaryOperator,
};

fn parse(input: &str) -> Filter {
    match Filter::new(input) {
        Ok(filter) => filter,
        Err(e) => panic!("Error: {:?}", e),
    }
}

fn parse_error(input: &str) -> ParseError {
    match Filter::new(input) {
        Ok(filter) => panic!("Expected an error, got {:?}", filter.expr()),
        Err(e) => e,
    }
}

fn is_bool(e: &Expr, b: bool) -> bool {
    matches!(e, Expr::Literal(Literal::Bool(x)) if *x == b)
}

fn is_string(e: &Expr, s: &str) -> bool {
    matches!(e, Expr::Literal(Literal::String(x)) if x == s)
}

fn is_number(e: &Expr, n: &str) -> bool {
    matches!(e, Expr::Literal(Literal::Number(x)) if x == n)
}

fn is_property(e: &Expr, name: &str) -> bool {
    matches!(e, Expr::Property(x) if x == name)
}

fn is_literal_string(v: &Literal, s: &str) -> bool {
    matches!(v, Literal::String(x) if x == s)
}

#[test]
fn parsing_literals() {
    assert!(is_bool(parse("true").expr(), true));
    assert!(is_bool(parse("false").expr(), false));
    assert!(is_string(parse("\"hello\"").expr(), "hello"));
    assert!(is_string(parse("\"escaped \\\"quotes\\\"\"").expr(), "escaped \"quotes\""));
    assert!(is_number(parse("123").expr(), "123"));
    assert!(matches!(parse("null").expr(), Expr::Literal(Literal::Null)));
    assert!(matches!(parse("[]").expr(), Expr::Literal(Literal::Tuple(items)) if items.is_empty()));
    for input in ["[true]", "[\ntrue,\n]"] {
        match parse(input).expr() {
            Expr::Literal(Literal::Tuple(items)) => {
                assert_eq!(items.len(), 1);
                assert!(matches!(items[0], Literal::Bool(true)));
            }
            other => panic!("Expected a tuple, got {:?}", other),
        }
    }
    match parse("[true, false, \"test\", 123, null]").expr() {
        Expr::Literal(Literal::Tuple(items)) => {
            assert_eq!(items.len(), 5);
            assert!(matches!(items[0], Literal::Bool(true)));
            assert!(matches!(items[1], Literal::Bool(false)));
            assert!(is_literal_string(&items[2], "test"));
            assert!(matches!(&items[3], Literal::Number(n) if n == "123"));
            assert!(matches!(items[4], Literal::Null));
        }
        other => panic!("Expected a tuple, got {:?}", other),
    }
}

#[test]
fn parsing_unary_expressions() {
    assert!(matches!(parse("!true").expr(), Expr::Unary(UnaryOperator::Not, r) if is_bool(r, true)));
    assert!(matches!(parse("!false").expr(), Expr::Unary(UnaryOperator::Not, r) if is_bool(r, false)));
    assert!(matches!(parse("!\"hello\"").expr(), Expr::Unary(UnaryOperator::Not, r) if is_string(r, "hello")));
    match parse("!!true").expr() {
        Expr::Unary(UnaryOperator::Not, inner) => {
            assert!(matches!(&**inner, Expr::Unary(UnaryOperator::Not, r) if is_bool(r, true)));
        }
        other => panic!("Expected a negation, got {:?}", other),
    }
}

#[test]
fn parse_comparison_expressions() {
    let cases: &[(&str, BinaryOperator)] = &[
        ("true == false", BinaryOperator::Equals),
        ("true != false", BinaryOperator::NotEquals),
        ("\"xyz\" startswith \"x\"", BinaryOperator::StartsWith),
        ("\"xyz\" endswith \"z\"", BinaryOperator::EndsWith),
        ("1 < 2", BinaryOperator::SmallerThan),
        ("1 > 2", BinaryOperator::GreaterThan),
        ("1 <= 2", BinaryOperator::SmallerEqual),
        ("1 >= 2", BinaryOperator::GreaterEqual),
        ("\"xyz\" contains_cs \"x\"", BinaryOperator::ContainsCs),
        ("\"x\" in_cs \"xyz\"", BinaryOperator::InCs),
        ("\"xyz\" startswith_cs \"x\"", BinaryOperator::StartsWithCs),
        ("\"xyz\" endswith_cs \"z\"", BinaryOperator::EndsWithCs),
    ];
    for &(input, expected) in cases {
        match parse(input).expr() {
            Expr::Binary(_, op, _) => assert_eq!(*op, expected, "{input}"),
            other => panic!("Expected a comparison for {input}, got {:?}", other),
        }
    }
    match parse("1 < 2").expr() {
        Expr::Binary(l, _, r) => {
            assert!(is_number(&l, "1"));
            assert!(is_number(&r, "2"));
        }
        other => panic!("Expected a comparison, got {:?}", other),
    }
}

#[test]
fn parsing_like_expressions() {
    let cases: Vec<(&str, Glob)> = vec![
        ("name like \"feat/*\"", Glob::compile("feat/*")),
        ("name like r\"feat/\\*\"", Glob::compile("feat/\\*")),
        ("name like \"say \\\"hi\\\"\"", Glob::compile("say \"hi\"")),
        ("name like_cs \"Feat/*\"", Glob::compile_cs("Feat/*")),
        ("name like_cs r\"Feat/\\*\"", Glob::compile_cs("Feat/\\*")),
    ];
    for (input, glob) in cases {
        match parse(input).expr() {
            Expr::Like(left, g) => {
                assert!(is_property(&left, "name"), "{input}");
                assert_eq!(*g, glob, "{input}");
            }
            other => panic!("Expected a like expression for {input}, got {:?}", other),
        }
    }
    match parse("\"feat/login\" like \"feat/*\"").expr() {
        Expr::Like(left, g) => {
            assert!(is_string(&left, "feat/login"));
            assert_eq!(*g, Glob::compile("feat/*"));
        }
        other => panic!("Expected a like expression, got {:?}", other),
    }
}

#[test]
fn parsing_matches_expressions() {
    for (input, pattern) in [
        ("name matches r\"^release/v\\d+(\\.\\d+){2}$\"", "^release/v\\d+(\\.\\d+){2}$"),
        ("name matches \"^release/v\\\\d+$\"", "^release/v\\d+$"),
    ] {
        match parse(input).expr() {
            Expr::Matches(left, regex) => {
                assert!(is_property(&left, "name"));
                assert_eq!(regex.pattern(), pattern);
            }
            other => panic!("Expected a matches expression, got {:?}", other),
        }
    }
}

#[test]
fn parsing_invalid_regex_patterns_fails_with_details() {
    match parse_error("name matches r\"(unclosed\"") {
        ParseError::InvalidRegex(loc, pattern, details) => {
            assert_eq!(loc, Loc { line: 1, column: 6 });
            assert_eq!(pattern, "(unclosed");
            assert!(details.contains("unclosed group"), "unexpected details: {details}");
        }
        other => panic!("Expected an invalid regex error, got {:?}", other),
    }
}

#[test]
fn invalid_like_patterns() {
    match parse_error("name like other.name") {
        ParseError::PatternNotLiteral(op, found) => {
            assert_eq!(op, Token::Like(Loc { line: 1, column: 6 }));
            assert_eq!(found, Token::Property(Loc { line: 1, column: 11 }, "other.name".to_string()));
        }
        other => panic!("unexpected error {:?}", other),
    }
    match parse_error("name like_cs other.name") {
        ParseError::PatternNotLiteral(op, found) => {
            assert_eq!(op, Token::LikeCs(Loc { line: 1, column: 6 }));
            assert_eq!(found.location(), Loc { line: 1, column: 14 });
        }
        other => panic!("unexpected error {:?}", other),
    }
    match parse_error("name like 5") {
        ParseError::PatternNotLiteral(_, found) => {
            assert_eq!(found, Token::Number(Loc { line: 1, column: 11 }, "5".to_string()));
        }
        other => panic!("unexpected error {:?}", other),
    }
    match parse_error("name like true") {
        ParseError::PatternNotLiteral(_, found) => assert_eq!(found, Token::True(Loc { line: 1, column: 11 })),
        other => panic!("unexpected error {:?}", other),
    }
    match parse_error("name like") {
        ParseError::PatternMissing(op) => assert_eq!(op, Token::Like(Loc { line: 1, column: 6 })),
        other => panic!("unexpected error {:?}", other),
    }
    match parse_error("name like \"unterminated") {
        ParseError::Lex(e) => assert_eq!(e, LexError::UnterminatedString(Loc { line: 1, column: 11 })),
        other => panic!("unexpected error {:?}", other),
    }
    match parse_error("name like r\"unterminated") {
        ParseError::Lex(e) => assert_eq!(e, LexError::UnterminatedRawString(Loc { line: 1, column: 11 })),
        other => panic!("unexpected error {:?}", other),
    }
}

#[test]
fn invalid_matches_patterns() {
    match parse_error("name matches other.name") {
        ParseError::PatternNotLiteral(op, found) => {
            assert_eq!(op, Token::Matches(Loc { line: 1, column: 6 }));
            assert_eq!(found.location(), Loc { line: 1, column: 14 });
        }
        other => panic!("unexpected error {:?}", other),
    }
    match parse_error("name matches") {
        ParseError::PatternMissing(op) => assert_eq!(op, Token::Matches(Loc { line: 1, column: 6 })),
        other => panic!("unexpected error {:?}", other),
    }
}

#[test]
fn raw_strings_are_plain_string_literals() {
    assert!(is_string(parse("r\"a\\d\"").expr(), "a\\d"));
}

#[test]
fn parsing_logical_expressions() {
    match parse("true && false").expr() {
        Expr::Logical(l, LogicalOperator::And, r) => {
            assert!(is_bool(&l, true));
            assert!(is_bool(&r, false));
        }
        other => panic!("unexpected tree {:?}", other),
    }
    match parse("true || false").expr() {
        Expr::Logical(l, LogicalOperator::Or, r) => {
            assert!(is_bool(&l, true));
            assert!(is_bool(&r, false));
        }
        other => panic!("unexpected tree {:?}", other),
    }
    match parse("true && (true || false)").expr() {
        Expr::Logical(l, LogicalOperator::And, r) => {
            assert!(is_bool(&l, true));
            assert!(matches!(&**r, Expr::Logical(_, LogicalOperator::Or, _)));
        }
        other => panic!("unexpected tree {:?}", other),
    }
}

#[test]
fn and_binds_tighter_than_or() {
    match parse("a || b && c").expr() {
        Expr::Logical(l, LogicalOperator::Or, r) => {
            assert!(is_property(&l, "a"));
            match &**r {
                Expr::Logical(b, LogicalOperator::And, c) => {
                    assert!(is_property(&b, "b"));
                    assert!(is_property(&c, "c"));
                }
                other => panic!("unexpected right operand {:?}", other),
            }
        }
        other => panic!("unexpected tree {:?}", other),
    }
}

#[test]
fn arithmetic_binds_tighter_than_comparison() {
    match parse("1 + 2 - 4 < 0").expr() {
        Expr::Binary(l, BinaryOperator::SmallerThan, r) => {
            assert!(is_number(&r, "0"));
            match &**l {
                Expr::Binary(sum, BinaryOperator::Minus, four) => {
                    assert!(is_number(&four, "4"));
                    assert!(matches!(&**sum, Expr::Binary(_, BinaryOperator::Plus, _)));
                }
                other => panic!("unexpected left operand {:?}", other),
            }
        }
        other => panic!("unexpected tree {:?}", other),
    }
}

#[test]
fn invalid_filters() {
    assert!(matches!(parse_error("true false"), ParseError::TrailingToken(Token::False(Loc { line: 1, column: 6 }))));
    assert!(matches!(parse_error("true =="), ParseError::UnexpectedEnd));
    assert!(matches!(parse_error("(true"), ParseError::UnclosedGroup(Loc { line: 1, column: 1 })));
    assert!(matches!(parse_error("[true, false"), ParseError::UnclosedList(Loc { line: 1, column: 1 })));
    assert!(matches!(parse_error(")"), ParseError::UnexpectedToken(Token::RightParen(Loc { line: 1, column: 1 }))));
    assert!(matches!(parse_error("[true && false]"), ParseError::UnclosedList(Loc { line: 1, column: 1 })));
    assert!(matches!(
        parse_error("a == &"),
        ParseError::Lex(LexError::OrphanedAmpersand(Loc { line: 1, column: 6 }))
    ));
    assert!(matches!(parse_error("nope()"), ParseError::UnknownFunction(ref n, Loc { line: 1, column: 1 }, _) if n == "nope"));
    assert!(matches!(parse_error("nope(1, true)"), ParseError::UnknownFunction(ref n, Loc { line: 1, column: 1 }, _) if n == "nope"));
    assert!(matches!(parse_error("now(1"), ParseError::UnclosedCall(ref n, Loc { line: 1, column: 1 }) if n == "now"));
}

#[test]
fn unknown_function_errors_list_the_supported_functions() {
    match parse_error("nope()") {
        ParseError::UnknownFunction(_, _, names) => {
            assert_eq!(names, vec!["trim".to_string(), "now".to_string(), "ago".to_string(), "datetime".to_string()]);
        }
        other => panic!("unexpected error {:?}", other),
    }
}

#[test]
fn trim_parses_to_a_function_call() {
    match parse("trim(name)").expr() {
        Expr::FunctionCall(function, args) => {
            assert_eq!(function, "trim");
            assert_eq!(args.len(), 1);
            assert!(is_property(&args[0], "name"));
        }
        other => panic!("Expected a function call, got {:?}", other),
    }
}

#[test]
fn trim_requires_exactly_one_argument() {
    assert!(matches!(
        parse_error("trim()"),
        ParseError::WrongArity(ref n, Loc { line: 1, column: 1 }, 1, 0) if n == "trim"
    ));
    assert!(matches!(
        parse_error("trim(name, other)"),
        ParseError::WrongArity(ref n, Loc { line: 1, column: 1 }, 1, 2) if n == "trim"
    ));
}

#[test]
fn now_takes_no_arguments() {
    assert!(matches!(parse("now()").expr(), Expr::FunctionCall(n, args) if n == "now" && args.is_empty()));
    match parse("event.timestamp > now() - 5").expr() {
        Expr::Binary(_, BinaryOperator::GreaterThan, r) => {
            assert!(matches!(&**r, Expr::Binary(_, BinaryOperator::Minus, _)));
        }
        other => panic!("unexpected tree {:?}", other),
    }
}

#[test]
fn numbers_must_be_ascii() {
    assert!(matches!(parse_error("٣"), ParseError::InvalidNumber(Loc { line: 1, column: 1 }, ref n) if n == "٣"));
}

#[test]
fn registered_functions_can_be_called() {
    let functions = vec![FunctionSignature { name: "len".to_string(), arity: 1 }];
    let filter = Filter::with_functions("len(name) > 3", functions).expect("parse filter");
    match filter.expr() {
        Expr::Binary(l, BinaryOperator::GreaterThan, _) => {
            assert!(matches!(&**l, Expr::FunctionCall(n, args) if n == "len" && args.len() == 1));
        }
        other => panic!("unexpected tree {:?}", other),
    }
    assert!(matches!(parse_error("len(name)"), ParseError::UnknownFunction(..)));
}

#[test]
fn default_filter_is_true() {
    let filter = Filter::default();
    assert_eq!(filter.raw(), "true");
    assert!(is_bool(filter.expr(), true));
}

#[test]
fn filters_keep_their_raw_expression() {
    let filter = Filter::new("age >= 30 && alive").expect("parse filter");
    assert_eq!(filter.raw(), "age >= 30 && alive");
    let filter = Filter::new("size > 100 && !archived").expect("parse filter");
    assert_eq!(filter.raw(), "size > 100 && !archived");
}

#[test]
fn invalid_filters_report_errors() {
    for filter in ["age >", "(alive", "name = \"John\"", "\"unterminated"] {
        assert!(Filter::new(filter).is_err(), "{filter}");
    }
}

#[test]
fn a_scanning_error_after_a_complete_expression_still_fails() {
    assert!(matches!(
        parse_error("a &"),
        ParseError::Lex(LexError::OrphanedAmpersand(Loc { line: 1, column: 3 }))
    ));
}

#[test]
fn escaped_string_literals_read_back() {
    for s in ["", "plain", "say \"hi\"", "\"", "multi\nline \"quoted\"", "ß and λ"] {
        let literal = format!("\"{}\"", s.replace('"', "\\\""));
        assert!(is_string(parse(&literal).expr(), s), "{literal}");
    }
}

#[test]
fn looser_operators_apply_last() {
    match parse("a && b || c").expr() {
        Expr::Logical(l, LogicalOperator::Or, r) => {
            assert!(matches!(&**l, Expr::Logical(_, LogicalOperator::And, _)));
            assert!(is_property(r, "c"));
        }
        other => panic!("unexpected tree {:?}", other),
    }
    match parse("a > b == c").expr() {
        Expr::Binary(l, BinaryOperator::Equals, r) => {
            assert!(matches!(&**l, Expr::Binary(_, BinaryOperator::GreaterThan, _)));
            assert!(is_property(r, "c"));
        }
        other => panic!("unexpected tree {:?}", other),
    }
    match parse("a contains b + c").expr() {
        Expr::Binary(l, BinaryOperator::Contains, r) => {
            assert!(is_property(l, "a"));
            assert!(matches!(&**r, Expr::Binary(_, BinaryOperator::Plus, _)));
        }
        other => panic!("unexpected tree {:?}", other),
    }
}

#[test]
fn repeated_operators_group_left() {
    match parse("a - b + c").expr() {
        Expr::Binary(l, BinaryOperator::Plus, r) => {
            assert!(matches!(&**l, Expr::Binary(_, BinaryOperator::Minus, _)));
            assert!(is_property(r, "c"));
        }
        other => panic!("unexpected tree {:?}", other),
    }
    match parse("a || b || c").expr() {
        Expr::Logical(l, LogicalOperator::Or, r) => {
            assert!(matches!(&**l, Expr::Logical(_, LogicalOperator::Or, _)));
            assert!(is_property(r, "c"));
        }
        other => panic!("unexpected tree {:?}", other),
    }
}

#[test]
fn comparisons_do_not_chain() {
    assert!(matches!(parse_error("a == b == c"), ParseError::TrailingToken(Token::Equals(Loc { line: 1, column: 8 }))));
    assert!(matches!(parse_error("a < b < c"), ParseError::TrailingToken(Token::SmallerThan(Loc { line: 1, column: 7 }))));
}

#[test]
fn raw_string_literals_read_back() {
    for s in ["", "^v\\d+$", "a\\\\b", "two\nlines", "ß \\ λ"] {
        let literal = format!("r\"{}\"", s);
        assert!(is_string(parse(&literal).expr(), s), "{literal}");
    }
}

#[test]
fn there_is_no_unary_minus() {
    assert!(matches!(parse_error("-5"), ParseError::UnexpectedToken(Token::Minus(Loc { line: 1, column: 1 }))));
    assert!(matches!(parse("0 - 5").expr(), Expr::Binary(_, BinaryOperator::Minus, _)));
}

#[test]
fn negation_binds_tightest() {
    match parse("!a && b").expr() {
        Expr::Logical(l, LogicalOperator::And, r) => {
            assert!(matches!(&**l, Expr::Unary(UnaryOperator::Not, inner) if is_property(inner, "a")));
            assert!(is_property(r, "b"));
        }
        other => panic!("unexpected tree {:?}", other),
    }
}

#[test]
fn hashed_raw_strings_are_plain_string_literals() {
    assert!(is_string(parse("r#\"{\"status\":\"ok\"}\"#").expr(), "{\"status\":\"ok\"}"));
    assert!(is_string(parse("r##\"a\"#b\"##").expr(), "a\"#b"));
}

/// The length in milliseconds of a duration literal's text, as the evaluator computes it.
fn duration_ms(text: &str) -> i64 {
    let mut total = 0.0_f64;
    for segment in filt_rs::duration::duration_segments(text) {
        let value: f64 = segment.number.parse().expect("a number");
        total += value * segment.unit_ms.expect("a known unit") as f64;
    }
    total.round() as i64
}

#[test]
fn duration_literals() {
    let cases: &[(&str, i64)] = &[
        ("500ms", 500),
        ("90s", 90_000),
        ("5m", 300_000),
        ("2h", 7_200_000),
        ("7d", 604_800_000),
        ("1w", 604_800_000),
        ("1h30m", 5_400_000),
        ("1w2d3h4m5s6ms", 788_645_006),
        ("1.5h", 5_400_000),
        ("0s", 0),
    ];
    for &(input, expected) in cases {
        match parse(input).expr() {
            Expr::Literal(Literal::Duration(d)) => {
                assert_eq!(d, input);
                assert_eq!(duration_ms(d), expected, "{input}");
            }
            other => panic!("Expected a duration literal, got {:?}", other),
        }
    }
}

#[test]
fn parser_now_rejects_arguments_at_parse_time() {
    let error = parse_error("now(1)");
    assert!(matches!(
        error,
        ParseError::WrongArity(ref n, Loc { line: 1, column: 1 }, 0, 1) if n == "now"
    ));
    assert!(
        error
            .message()
            .contains("The 'now()' function at line 1, column 1 expects 0 arguments, but your filter provided 1."),
        "Expected an arity error, got '{}'",
        error.message()
    );
}

#[test]
fn relative_time_filters_parse() {
    match parse("event.timestamp > now() - 5m").expr() {
        Expr::Binary(_, BinaryOperator::GreaterThan, r) => match &**r {
            Expr::Binary(now, BinaryOperator::Minus, five) => {
                assert!(matches!(&**now, Expr::FunctionCall(n, _) if n == "now"));
                assert!(matches!(&**five, Expr::Literal(Literal::Duration(d)) if d == "5m"));
            }
            other => panic!("unexpected right operand {:?}", other),
        },
        other => panic!("unexpected tree {:?}", other),
    }
}

#[test]
fn error_messages_name_the_problem_and_its_location() {
    let at = |line, column| Loc { line, column };
    assert_eq!(
        ParseError::Lex(LexError::OrphanedAmpersand(at(1, 3))).message(),
        "Filter included an orphaned '&' at line 1, column 3 which is not a valid operator."
    );
    assert_eq!(
        LexError::UnterminatedRawString(at(2, 10)).message(),
        "Reached the end of the filter without finding the closing quote for a raw string starting at line 2, column 10."
    );
    assert_eq!(
        ParseError::WrongArity("trim".to_string(), at(1, 1), 1, 2).message(),
        "The 'trim()' function at line 1, column 1 expects 1 argument, but your filter provided 2."
    );
    assert_eq!(
        ParseError::WrongArity("datetime".to_string(), at(1, 12), 2, 0).message(),
        "The 'datetime()' function at line 1, column 12 expects 2 arguments, but your filter provided 0."
    );
    assert_eq!(
        ParseError::UnknownFunction("foo".to_string(), at(3, 4), vec!["trim".to_string(), "now".to_string()]).message(),
        "Your filter called an unknown function 'foo()' at line 3, column 4. The functions available in this filter are: trim(), now()."
    );
    assert_eq!(
        ParseError::UnknownFunction("foo".to_string(), at(1, 1), vec![]).message(),
        "Your filter called an unknown function 'foo()' at line 1, column 1. The functions available in this filter are: ."
    );
    assert_eq!(
        ParseError::UnexpectedToken(Token::String(at(1, 5), "x".to_string())).message(),
        "While parsing your filter, we found an unexpected '\"x\"' at line 1, column 5."
    );
    assert_eq!(
        ParseError::PatternMissing(Token::LikeCs(at(1, 8))).message(),
        "We reached the end of your filter expression while looking for the string pattern of the 'like_cs' operator at line 1, column 8 (for example: branch.name like_cs \"feat/*\")."
    );
    assert_eq!(
        ParseError::InvalidRegex(at(1, 3), "(a".to_string(), "unclosed group".to_string()).message(),
        "Failed to compile the regular expression pattern \"(a\" for the 'matches' operator at line 1, column 3."
    );
}

#[test]
fn unknown_duration_units_are_rejected_at_parse_time() {
    let error = parse_error("age > 5x");
    assert!(matches!(
        error,
        ParseError::UnknownDurationUnit(Loc { line: 1, column: 7 }, ref d, ref u) if d == "5x" && u == "x"
    ));
    assert_eq!(
        error.message(),
        "The duration '5x' at line 1, column 7 used the unit 'x', which is not a recognized duration unit."
    );
    assert!(matches!(
        parse_error("1h5y"),
        ParseError::UnknownDurationUnit(Loc { line: 1, column: 1 }, ref d, ref u) if d == "1h5y" && u == "y"
    ));
    assert!(matches!(
        parse_error("[1, 2ws]"),
        ParseError::UnknownDurationUnit(Loc { line: 1, column: 5 }, ref d, ref u) if d == "2ws" && u == "ws"
    ));
}

#[test]
fn duration_numbers_must_be_decimal() {
    let error = parse_error("5\u{663}m");
    assert!(matches!(
        error,
        ParseError::InvalidDuration(Loc { line: 1, column: 1 }, ref d) if d == "5\u{663}m"
    ));
    assert_eq!(error.message(), "Failed to parse the duration '5\u{663}m' which you provided at line 1, column 1.");
}

#[test]
fn a_bad_duration_number_is_reported_before_its_unit() {
    assert!(matches!(parse_error("5\u{663}x"), ParseError::InvalidDuration(..)));
    assert!(matches!(parse_error("5x\u{663}m"), ParseError::UnknownDurationUnit(_, _, ref u) if u == "x"));
}

/// The literal which the single token `token` parses to, or the error which rejects it.
fn parse_token(token: Token) -> Result<Expr, ParseError> {
    filt_rs::Parser::parse(vec![token], None, Vec::new())
}

#[test]
fn number_texts_are_those_which_parse_as_floats() {
    let at = Loc { line: 1, column: 1 };
    for text in ["1", "1.5", "1.", ".5", "1e5", "1E+5", "2.5e-3", "+1", "-0.5", "inf", "-Infinity", "NaN", "+nan"] {
        assert!(text.parse::<f64>().is_ok(), "{text:?}");
        match parse_token(Token::Number(at, text.to_string())) {
            Ok(Expr::Literal(Literal::Number(n))) => assert_eq!(n, text),
            other => panic!("expected {text:?} to parse as a number, got {:?}", other),
        }
    }
    for text in ["", ".", "1.2.3", "e5", "1e", "1e+", "++1", "in", "infinit", "1_000", " 1", "\u{663}"] {
        assert!(text.parse::<f64>().is_err(), "{text:?}");
        assert!(
            matches!(parse_token(Token::Number(at, text.to_string())), Err(ParseError::InvalidNumber(_, ref n)) if n == text),
            "expected {text:?} to be rejected"
        );
    }
}

#[test]
fn duration_number_parts_are_those_which_parse_as_floats() {
    let at = Loc { line: 1, column: 1 };
    for text in ["+2h", "-1h", ".5m", "1.h"] {
        assert!(
            matches!(parse_token(Token::Duration(at, text.to_string())), Ok(Expr::Literal(Literal::Duration(ref d))) if d == text),
            "expected {text:?} to parse as a duration"
        );
    }
    for text in ["1.2.3h", ".h", "h"] {
        assert!(
            matches!(parse_token(Token::Duration(at, text.to_string())), Err(ParseError::InvalidDuration(_, ref d)) if d == text),
            "expected {text:?} to be rejected"
        );
    }
}

#[test]
fn errors_come_with_advice() {
    let at = Loc { line: 1, column: 1 };
    assert_eq!(
        ParseError::Lex(LexError::UnterminatedRawString(at)).advice(),
        &[
            "Make sure that you have terminated your raw string with a '\"' character.",
            "Raw strings do not support escape sequences, so they cannot contain '\"' characters.",
        ]
    );
    assert_eq!(
        parse_error("a & b").advice(),
        &["Ensure that you are using the '&&' operator to implement a logical AND within your filter."]
    );
    assert_eq!(ParseError::UnclosedGroup(at).advice(), &["Make sure that you have balanced your parentheses correctly."]);
    assert_eq!(
        parse_error("now(1)").advice(),
        &["The function does not accept any arguments: call it with empty parentheses."]
    );
    assert_eq!(
        parse_error("age > 5x").advice(),
        &["Use one of the supported duration units: 'ms' (milliseconds), 's' (seconds), 'm' (minutes), 'h' (hours), 'd' (days), or 'w' (weeks)."]
    );
}
