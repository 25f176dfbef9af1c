use filt_rs::{CompiledRegex, Glob};

#[test]
fn glob_matching() {
    let cases: &[(&str, &str, bool)] = &[
        ("feat/*", "feat/login", true),
        ("feat/*", "feat/", true),
        ("feat/*", "fix/login", false),
        ("feat/*", "feat", false),
        ("*fix", "hotfix", true),
        ("*fix", "fixes", false),
        ("*mid*", "amidst", true),
        ("*mid*", "mid", true),
        ("*mid*", "madam", false),
        ("?", "a", true),
        ("?", "", false),
        ("?", "ab", false),
        ("v?.?", "v1.2", true),
        ("v?.?", "v1.23", false),
        ("*", "", true),
        ("*", "anything at all", true),
        ("", "", true),
        ("", "a", false),
        ("a*", "", false),
        ("main", "main", true),
        ("main", "Main", true),
        ("main", "maine", false),
        ("main", "remain", false),
        ("FEAT/*", "feat/login", true),
        ("feat/*", "FEAT/LOGIN", true),
        ("*a*ab", "aaab", true),
        ("*a*ab", "aaba", false),
        ("*ab*ba*", "abba", true),
        ("*ab*ba*", "abxba", true),
        ("*ab*ba*", "aba", false),
        ("a**b", "ab", true),
        ("a**b", "axxb", true),
        ("*a*a*a*", "aaa", true),
        ("*a*a*a*a*", "aaa", false),
        ("?", "é", true),
        ("??", "hé", true),
        ("???", "hé", false),
        ("h?llo", "héllo", true),
        ("*ö*", "schön", true),
        ("über*", "ÜBERMUT", true),
        ("grüße*", "GRÜSSE", true),
        ("GRÜSSE", "grüße", true),
        ("*ss", "groß", true),
        ("stra*e", "STRASSE", true),
        ("gro?", "groß", false),
        ("gro??", "groß", true),
        ("λογος", "ΛΟΓΟΣ", true),
        ("ΛΟΓΟΣ", "λογος", true),
        ("*ς", "ΛΟΓΟΣ", true),
        ("*σ", "λογος", true),
        ("σ", "ς", true),
        ("a\\*b", "a*b", true),
        ("a\\*b", "axb", false),
        ("a\\?b", "a?b", true),
        ("a\\?b", "axb", false),
        ("a\\\\b", "a\\b", true),
        ("a\\xb", "axb", true),
        ("trailing\\", "trailing\\", true),
    ];
    for &(pattern, input, expected) in cases {
        let glob = Glob::compile(pattern);
        assert_eq!(
            glob.is_match(input),
            expected,
            "expected '{pattern}' matching '{input}' to be {expected}"
        );
    }
}

#[test]
fn case_sensitive_glob_matching() {
    let cases: &[(&str, &str, bool)] = &[
        ("feat/*", "feat/login", true),
        ("feat/*", "fix/login", false),
        ("v?.?", "v1.2", true),
        ("Main", "Main", true),
        ("Main", "main", false),
        ("FEAT/*", "feat/login", false),
        ("*Fix", "hotFix", true),
        ("*Fix", "hotfix", false),
        ("gro?", "groß", true),
        ("groß", "groß", true),
        ("gross", "groß", false),
        ("stra*e", "STRASSE", false),
        ("a\\*b", "a*b", true),
        ("a\\*b", "axb", false),
    ];
    for &(pattern, input, expected) in cases {
        let glob = Glob::compile_cs(pattern);
        assert_eq!(
            glob.is_match(input),
            expected,
            "expected '{pattern}' matching '{input}' case-sensitively to be {expected}"
        );
    }
}

#[test]
fn glob_exposes_its_pattern() {
    let glob = Glob::compile("feat/*");
    assert_eq!(glob.pattern(), "feat/*");
    assert!(!glob.is_case_sensitive());

    let glob = Glob::compile_cs("feat/*");
    assert_eq!(glob.pattern(), "feat/*");
    assert!(glob.is_case_sensitive());
}

#[test]
fn glob_display_quotes_and_escapes() {
    let glob = Glob::compile("a\\*\"b");
    assert_eq!(glob.display_text(), "\"a\\\\*\\\"b\"");
    assert_eq!(format!("{}", glob.display_text()), "\"a\\\\*\\\"b\"");
}

#[test]
fn glob_equality_is_based_on_the_pattern_and_sensitivity() {
    assert_eq!(Glob::compile("a*"), Glob::compile("a*"));
    assert_ne!(Glob::compile("a*"), Glob::compile("b*"));
    assert_ne!(Glob::compile("a*"), Glob::compile_cs("a*"));
}

#[test]
fn a_lone_star_accepts_everything_in_both_sensitivities() {
    for input in ["", "x", "Anything, at all: ß λ"] {
        assert!(Glob::compile("*").is_match(input));
        assert!(Glob::compile_cs("*").is_match(input));
    }
}

#[test]
fn plain_case_sensitive_globs_accept_only_themselves() {
    let glob = Glob::compile_cs("release-1.0");
    assert!(glob.is_match("release-1.0"));
    assert!(!glob.is_match("Release-1.0"));
    assert!(!glob.is_match("release-1.0 "));
    assert!(!glob.is_match(""));
}

#[test]
fn plain_case_insensitive_globs_accept_caseless_equals() {
    let glob = Glob::compile("Straße");
    assert!(glob.is_match("STRASSE"));
    assert!(glob.is_match("strasse"));
    assert!(!glob.is_match("strase"));
}

#[test]
fn a_question_mark_accepts_exactly_one_character() {
    let glob = Glob::compile_cs("?");
    assert!(!glob.is_match(""));
    assert!(glob.is_match("ß"));
    assert!(!glob.is_match("ab"));
}

#[test]
fn regex_compilation_reports_errors() {
    assert!(CompiledRegex::compile("(unclosed").is_err());
    assert!(CompiledRegex::compile("^release/v\\d+$").is_ok());
}

#[test]
fn regex_matching() {
    let cases: &[(&str, &str, bool)] = &[
        ("^release/v\\d+(\\.\\d+){2}$", "release/v1.2.3", true),
        ("^release/v\\d+(\\.\\d+){2}$", "release/v1.2", false),
        ("ell", "hello", true),
        ("(?i)hello", "HELLO", true),
        ("hello", "HELLO", false),
    ];
    for &(pattern, input, expected) in cases {
        let regex = CompiledRegex::compile(pattern).expect("compile the pattern");
        assert_eq!(regex.is_match(input), expected);
    }
}

#[test]
fn regex_exposes_its_pattern() {
    let regex = CompiledRegex::compile("^a$").expect("compile the pattern");
    assert_eq!(regex.pattern(), "^a$");
}

#[test]
fn regex_equality_is_based_on_the_pattern() {
    let a = CompiledRegex::compile("^a$").expect("compile the pattern");
    let b = CompiledRegex::compile("^a$").expect("compile the pattern");
    let c = CompiledRegex::compile("^c$").expect("compile the pattern");
    assert!(a.same_as(&b));
    assert!(!a.same_as(&c));
}

#[test]
fn regex_display_quotes_and_escapes() {
    let regex = CompiledRegex::compile("^v\\d+$").expect("compile the pattern");
    assert_eq!(regex.display_text(), "\"^v\\\\d+$\"");
}

#[test]
fn a_double_star_matches_as_a_single_star() {
    for input in ["ab", "axxb", "a", "b", "xab", "AB", "a*b"] {
        assert_eq!(Glob::compile("a**b").is_match(input), Glob::compile("a*b").is_match(input), "{input}");
        assert_eq!(Glob::compile_cs("a**b").is_match(input), Glob::compile_cs("a*b").is_match(input), "{input}");
    }
    assert!(Glob::compile("a**b").is_match("ab"));
    assert!(Glob::compile("a**b").is_match("axxb"));
    assert!(!Glob::compile("a**b").is_match("xab"));
}

#[test]
fn the_whole_input_must_be_matched() {
    assert!(!Glob::compile_cs("a?").is_match("abc"));
    assert!(Glob::compile_cs("a?c").is_match("abc"));
    assert!(!Glob::compile_cs("a").is_match("ab"));
    assert!(Glob::compile_cs("*c").is_match("abc"));
    assert!(!Glob::compile_cs("*b").is_match("abc"));
}
