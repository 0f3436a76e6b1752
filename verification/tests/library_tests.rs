//! Direct tests of the library: the range parser's exact outcomes, the line
//! classifier's two rules and their fall-through, and the filter's handling
//! of edges the command-line scenarios do not reach.

use lira::classify::LinterError;
use lira::filter::filter_errors;
use lira::range::{BoundKind, LineRange, RangeError};

#[test]
fn parse_valid_range_yields_exact_pair() {
    let r = LineRange::parse("10-20").unwrap();
    assert_eq!(r.start, 10);
    assert_eq!(r.end, 20);
}

#[test]
fn parse_single_point_range() {
    let r = LineRange::parse("7-7").unwrap();
    assert_eq!(r.start, 7);
    assert_eq!(r.end, 7);
}

#[test]
fn parse_accepts_leading_plus_and_zeros() {
    let r = LineRange::parse("+5-007").unwrap();
    assert_eq!(r.start, 5);
    assert_eq!(r.end, 7);
}

#[test]
fn parse_rejects_missing_dash() {
    let e = LineRange::parse("5").unwrap_err();
    assert!(matches!(e, RangeError::MalformedRange { .. }));
    assert_eq!(
        e.message(),
        "Invalid line range format: 5. Expected format: start-end"
    );
}

#[test]
fn parse_rejects_two_dashes() {
    let e = LineRange::parse("1-2-3").unwrap_err();
    assert_eq!(
        e.message(),
        "Invalid line range format: 1-2-3. Expected format: start-end"
    );
}

#[test]
fn parse_rejects_empty_string() {
    let e = LineRange::parse("").unwrap_err();
    assert!(matches!(e, RangeError::MalformedRange { .. }));
}

#[test]
fn parse_checks_start_before_end() {
    let e = LineRange::parse("abc-def").unwrap_err();
    match e {
        RangeError::InvalidBound { which, ref text } => {
            assert_eq!(which, BoundKind::Start);
            assert_eq!(text, "abc");
        }
        _ => panic!("expected an invalid bound"),
    }
    assert_eq!(e.message(), "Invalid start line number: abc");
}

#[test]
fn parse_rejects_bad_end_bound() {
    let e = LineRange::parse("5-x").unwrap_err();
    match e {
        RangeError::InvalidBound { which, ref text } => {
            assert_eq!(which, BoundKind::End);
            assert_eq!(text, "x");
        }
        _ => panic!("expected an invalid bound"),
    }
    assert_eq!(e.message(), "Invalid end line number: x");
}

#[test]
fn parse_rejects_value_beyond_usize() {
    let e = LineRange::parse("1-18446744073709551616").unwrap_err();
    assert_eq!(
        e.message(),
        "Invalid end line number: 18446744073709551616"
    );
}

#[test]
fn parse_rejects_inverted_range_with_both_values() {
    let e = LineRange::parse("300-200").unwrap_err();
    assert!(matches!(e, RangeError::InvertedRange { start: 300, end: 200 }));
    assert_eq!(
        e.message(),
        "Start line (300) cannot be greater than end line (200)"
    );
}

#[test]
fn contains_is_inclusive_on_both_ends() {
    let r = LineRange { start: 10, end: 20 };
    assert!(!r.contains(9));
    assert!(r.contains(10));
    assert!(r.contains(15));
    assert!(r.contains(20));
    assert!(!r.contains(21));
}

#[test]
fn classify_generic_diagnostic_line() {
    let le = LinterError::parse("file.rs:15: warning: B").unwrap();
    assert_eq!(le.line, 15);
}

#[test]
fn classify_generic_line_trims_the_number_field() {
    let le = LinterError::parse("file.rs: 15 : warning").unwrap();
    assert_eq!(le.line, 15);
}

#[test]
fn classify_needs_three_colon_parts_for_generic_rule() {
    assert!(LinterError::parse("file.rs:15").is_none());
    assert!(LinterError::parse("no colons here").is_none());
    assert!(LinterError::parse("a:b:c").is_none());
}

#[test]
fn classify_pointer_line() {
    let le = LinterError::parse("  --> src/main.rs:42:7").unwrap();
    assert_eq!(le.line, 42);
}

#[test]
fn classify_pointer_line_without_column() {
    let le = LinterError::parse("--> foo:7").unwrap();
    assert_eq!(le.line, 7);
}

#[test]
fn classify_malformed_pointer_falls_through_to_generic_rule() {
    // The second token "7:" has an empty line field, so the pointer rule
    // yields nothing and the colon-split rule reads the 12.
    let le = LinterError::parse("-->  7: 12: x").unwrap();
    assert_eq!(le.line, 12);
    // No generic match either: three tokens but only two colon parts.
    assert!(LinterError::parse("--> file.rs:x extra").is_none());
}

#[test]
fn filter_keeps_pointer_lines_in_range() {
    let input = "error[E0308]: mismatched types\n  --> src/lib.rs:15:9\nnote: expected i32";
    let range = LineRange::parse("10-20").ok();
    assert_eq!(filter_errors(input, range), "  --> src/lib.rs:15:9");
}

#[test]
fn filter_without_range_is_identity() {
    let input = "Line 1\nLine 2\nLine 3";
    assert_eq!(filter_errors(input, None), input);
}

#[test]
fn filter_empty_input() {
    assert_eq!(filter_errors("", None), "");
    assert_eq!(filter_errors("", LineRange::parse("10-20").ok()), "");
}

#[test]
fn filter_excludes_just_outside_the_bounds() {
    let input = "f.rs:9: a\nf.rs:10: b\nf.rs:20: c\nf.rs:21: d";
    let range = LineRange::parse("10-20").ok();
    assert_eq!(filter_errors(input, range), "f.rs:10: b\nf.rs:20: c");
}

#[test]
fn filter_scenario_mid_range_only() {
    let input = "file.rs:5: error: A\nfile.rs:15: warning: B\nfile.rs:25: error: C\n";
    let joined: String = input.lines().collect::<Vec<&str>>().join("\n");
    let range = LineRange::parse("10-20").ok();
    assert_eq!(format!("{}\n", filter_errors(&joined, range)), "file.rs:15: warning: B\n");
}

#[test]
fn filter_splits_lines_as_str_lines_does() {
    assert_eq!(
        filter_errors("file.rs:5: e\r\nplain", None),
        "file.rs:5: e\nplain"
    );
    assert_eq!(filter_errors("tail newline\n", None), "tail newline");
}
