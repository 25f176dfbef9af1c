use filt_rs::functions::{base_functions, trim_text};
use filt_rs::{datetime, now, trim, Ago};

#[test]
fn trim_name_and_arity() {
    assert_eq!(trim.name(), "trim");
    assert_eq!(trim.arity(), 1);
}

#[test]
fn ago_name_and_arity() {
    assert_eq!(Ago.name(), "ago");
    assert_eq!(Ago.arity(), 1);
}

#[test]
fn datetime_name_and_arity() {
    assert_eq!(datetime.name(), "datetime");
    assert_eq!(datetime.arity(), 1);
}

#[test]
fn now_name_and_arity() {
    assert_eq!(now.name(), "now");
    assert_eq!(now.arity(), 0);
}

#[test]
fn base_functions_are_listed_in_resolution_order() {
    let functions = base_functions();
    let listed: Vec<(String, usize)> = functions.iter().map(|f| (f.name.clone(), f.arity)).collect();
    assert_eq!(
        listed,
        vec![
            ("trim".to_string(), 1),
            ("now".to_string(), 0),
            ("ago".to_string(), 1),
            ("datetime".to_string(), 1),
        ]
    );
}

#[test]
fn trimming_removes_outer_whitespace_only() {
    assert_eq!(trim_text("  hi  "), "hi");
    assert_eq!(trim_text("\t a b \n"), "a b");
    assert_eq!(trim_text("inner  space"), "inner  space");
    assert_eq!(trim_text("   "), "");
    assert_eq!(trim_text(""), "");
    assert_eq!(trim_text("\u{2003}wide\u{2003}"), "wide");
}

#[test]
fn trimming_twice_changes_nothing_more() {
    for s in ["  hi  ", "x", " a b ", "\n\n"] {
        let once = trim_text(s);
        assert_eq!(trim_text(&once), once);
    }
}

#[test]
fn trimming_removes_unicode_white_space() {
    assert_eq!(trim_text("\u{3000}\u{a0}x y\u{2029}\u{85}"), "x y");
    assert_eq!(trim_text("\u{200b}x"), "\u{200b}x");
}
