use filt_rs::duration::duration_segments;

fn parts(lexeme: &str) -> Vec<(String, String, Option<u64>)> {
    duration_segments(lexeme)
        .into_iter()
        .map(|s| (s.number, s.unit, s.unit_ms))
        .collect()
}

fn part(number: &str, unit: &str, ms: Option<u64>) -> (String, String, Option<u64>) {
    (number.to_string(), unit.to_string(), ms)
}

#[test]
fn single_segments_use_their_unit() {
    assert_eq!(parts("500ms"), vec![part("500", "ms", Some(1))]);
    assert_eq!(parts("90s"), vec![part("90", "s", Some(1000))]);
    assert_eq!(parts("5m"), vec![part("5", "m", Some(60000))]);
    assert_eq!(parts("2h"), vec![part("2", "h", Some(3600000))]);
    assert_eq!(parts("7d"), vec![part("7", "d", Some(86400000))]);
    assert_eq!(parts("1w"), vec![part("1", "w", Some(604800000))]);
}

#[test]
fn segments_chain() {
    assert_eq!(parts("1h30m"), vec![part("1", "h", Some(3600000)), part("30", "m", Some(60000))]);
    assert_eq!(
        parts("1w2d3h4m5s6ms"),
        vec![
            part("1", "w", Some(604800000)),
            part("2", "d", Some(86400000)),
            part("3", "h", Some(3600000)),
            part("4", "m", Some(60000)),
            part("5", "s", Some(1000)),
            part("6", "ms", Some(1)),
        ]
    );
}

#[test]
fn fractional_numbers_are_kept_as_written() {
    assert_eq!(parts("1.5h"), vec![part("1.5", "h", Some(3600000))]);
}

#[test]
fn unknown_units_have_no_length() {
    assert_eq!(parts("5x"), vec![part("5", "x", None)]);
    assert_eq!(parts("3mins"), vec![part("3", "mins", None)]);
}

#[test]
fn the_empty_literal_has_no_segments() {
    assert!(parts("").is_empty());
}
