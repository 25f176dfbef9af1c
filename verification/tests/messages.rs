use filt_rs::{Expr, Filter, FunctionSignature, ParseError};

/// The message of the error which rejects `filter`.
fn parse_error(filter: &str) -> String {
    match Filter::new(filter) {
        Ok(parsed) => panic!("the filter should fail to parse, got {:?}", parsed.expr()),
        Err(e) => e.message(),
    }
}

/// The signature of an `upper(string)` function.
fn custom_functions() -> Vec<FunctionSignature> {
    vec![FunctionSignature { name: "upper".to_string(), arity: 1 }]
}

/// The message of the error which rejects `filter` when the custom functions may be called.
fn parse_error_with_custom_functions(filter: &str) -> String {
    match Filter::with_functions(filter, custom_functions()) {
        Ok(parsed) => panic!("the filter should fail, got {:?}", parsed.expr()),
        Err(e) => e.message(),
    }
}

#[test]
fn empty_filters_are_rejected() {
    assert!(parse_error("").contains("end of your filter expression"));
    assert!(parse_error("   \t\n  ").contains("end of your filter expression"));
}

#[test]
fn there_is_no_unary_minus_or_plus() {
    assert!(parse_error("-5").contains("unexpected '-'"));
    assert!(parse_error("+5").contains("unexpected '+'"));
    assert!(parse_error("doc.pages > -5").contains("unexpected '-'"));
}

#[test]
fn keywords_cannot_be_used_as_property_names() {
    assert!(Filter::new("contains == null").is_err());
}

#[test]
fn nested_tuples_are_not_supported() {
    assert!(parse_error("[[1]]").contains("unexpected '['"));
}

#[test]
fn expressions_inside_tuples_are_not_supported() {
    assert!(Filter::new("[doc.pages]").is_err());
    assert!(Filter::new("[1 + 2]").is_err());
}

#[test]
fn comparisons_cannot_be_chained() {
    assert!(parse_error("1 < 2 < 3").contains("unexpected '<'"));
    assert!(parse_error("true == true == true").contains("unexpected '=='"));
}

#[test]
fn unknown_functions_fail_at_parse_time() {
    let error = parse_error("nope()");
    assert!(error.contains("unknown function 'nope()'"), "expected an unknown-function error, got: {error}");
    assert!(error.contains("now()"), "expected the error to list the supported functions, got: {error}");
}

#[test]
fn unclosed_function_calls_are_rejected() {
    assert!(parse_error("now(1").contains("didn't find the closing ')'"));
    assert!(parse_error("now(").contains("end of your filter expression"));
}

#[test]
fn parse_errors_are_descriptive() {
    let cases: &[(&str, &str)] = &[
        ("doc.pages >", "end of your filter expression"),
        ("&& true", "unexpected '&&'"),
        ("true && ", "end of your filter expression"),
        ("(true || false", "didn't find the closing ')'"),
        ("[1, 2", "didn't find the closing ']'"),
        ("a = b", "orphaned '='"),
        ("a & b", "orphaned '&'"),
        ("a | b", "orphaned '|'"),
        ("\"unterminated", "without finding the closing quote"),
        ("!", "end of your filter expression"),
    ];
    for &(filter, message) in cases {
        let error = parse_error(filter);
        assert!(error.contains(message), "expected the error for '{filter}' to contain '{message}', got: {error}");
    }
}

#[test]
fn errors_include_accurate_locations_across_lines() {
    let error = parse_error("doc.published &&\ndoc.pages =");
    assert!(error.contains("line 2, column 11"), "expected a line 2 location in: {error}");
}

#[test]
fn trailing_tokens_are_rejected() {
    assert!(parse_error("true false").contains("unexpected 'false'"));
    let error = parse_error(r#"true "oops""#);
    assert!(error.contains(r#"unexpected '"oops"'"#), "expected the quoted string in: {error}");
}

#[test]
fn malformed_numbers_are_rejected() {
    assert!(parse_error("1.x").contains("unexpected '.x'"));
}

#[test]
fn now_parses_to_a_function_call() {
    match Filter::new("now()") {
        Ok(filter) => match filter.expr() {
            Expr::FunctionCall(function, args) => {
                assert_eq!(function, "now");
                assert!(args.is_empty());
            }
            expr => panic!("Expected a function call, got {:?}", expr),
        },
        Err(e) => panic!("Error: {}", e.message()),
    }
}

#[test]
fn custom_function_arity_is_validated_at_parse_time() {
    let error = parse_error_with_custom_functions("upper()");
    assert!(error.contains("expects 1 argument, but your filter provided 0"), "unexpected error: {error}");
}

#[test]
fn unknown_functions_list_the_available_functions() {
    let message = parse_error_with_custom_functions("nope()");
    assert!(message.contains("unknown function 'nope()'"), "unexpected error: {message}");
    assert!(message.contains("trim()"), "unexpected error: {message}");
    assert!(message.contains("upper()"), "unexpected error: {message}");
}

#[test]
fn custom_functions_are_unavailable_without_registration() {
    assert!(Filter::new("upper(repo.name)").is_err());
}

#[test]
fn non_literal_patterns_fail_to_parse() {
    let error = parse_error(r#"branch.name like_cs branch.other"#);
    assert!(error.contains("must be followed by its pattern as a string literal"), "unexpected error: {error}");
}

#[test]
fn pattern_operators_need_a_literal_pattern() {
    let cases: &[(&str, &str)] = &[
        (r#"branch.name matches branch.other"#, "must be followed by its pattern as a string literal"),
        (r#"branch.name matches"#, "while looking for the string pattern of the 'matches' operator"),
        (r#"branch.name matches r"unterminated"#, "without finding the closing quote for a raw string"),
    ];
    for &(filter, message) in cases {
        let error = parse_error(filter);
        assert!(error.contains(message), "expected the error to contain '{message}', got '{error}'");
    }
}

#[test]
fn invalid_patterns_fail_to_parse_with_details() {
    match Filter::new(r#"branch.name matches r"(unclosed""#) {
        Ok(parsed) => panic!("the filter should fail to parse, got {:?}", parsed.expr()),
        Err(error) => {
            let message = error.message();
            assert!(message.contains("Failed to compile the regular expression pattern"), "unexpected error: {message}");
            match error {
                ParseError::InvalidRegex(_, _, details) => {
                    assert!(details.contains("unclosed group"), "unexpected details: {details}")
                }
                other => panic!("unexpected error: {:?}", other),
            }
        }
    }
}
