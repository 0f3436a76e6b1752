//! The end-to-end scenarios, driven through the library exactly as the
//! command-line front end drives it: standard input is read line by line and
//! joined with `\n`, the filtered result is printed with one final newline,
//! and a rejected range reports `Error: <message>` and a failure exit.

use lira::filter::filter_errors;
use lira::range::LineRange;

/// What the program writes: `Ok(stdout)` on success, `Err(stderr)` when the
/// range string is rejected.
fn run(stdin_text: &str, range_arg: Option<&str>) -> Result<String, String> {
    let range = match range_arg {
        Some(raw) => match LineRange::parse(raw) {
            Ok(r) => Some(r),
            Err(e) => return Err(format!("Error: {}\n", e.message())),
        },
        None => None,
    };
    let input: String = stdin_text.lines().collect::<Vec<&str>>().join("\n");
    Ok(format!("{}\n", filter_errors(&input, range)))
}

#[test]
fn test_without_arguments() {
    assert_eq!(run("", None).unwrap(), "\n");
}

#[test]
fn test_with_line_range_argument() {
    assert_eq!(run("", Some("1-5")).unwrap(), "\n");
}

#[test]
fn test_with_multiple_lines_in_stdin() {
    assert_eq!(
        run("Line 1\nLine 2\nLine 3\n", None).unwrap(),
        "Line 1\nLine 2\nLine 3\n"
    );
}

#[test]
fn test_with_line_range_and_multiple_lines() {
    assert_eq!(run("Line 1\nLine 2\nLine 3\n", Some("2-3")).unwrap(), "\n");
}

#[test]
fn test_with_empty_stdin_and_line_range() {
    assert_eq!(run("", Some("10-20")).unwrap(), "\n");
}

#[test]
fn test_with_single_line_in_stdin() {
    assert_eq!(run("Single line\n", None).unwrap(), "Single line\n");
}

#[test]
fn test_with_single_line_and_line_range() {
    assert_eq!(run("Single line\n", Some("1-1")).unwrap(), "\n");
}

#[test]
fn test_filter_linter_errors() {
    let input = "file.rs:5: error: Something went wrong\nfile.rs:15: warning: Consider refactoring\nfile.rs:25: error: Unexpected behavior\n";
    assert_eq!(
        run(input, Some("10-20")).unwrap(),
        "file.rs:15: warning: Consider refactoring\n"
    );
}

#[test]
fn test_filter_linter_errors_no_range() {
    let input = "file.rs:5: error: Something went wrong\nfile.rs:15: warning: Consider refactoring\nfile.rs:25: error: Unexpected behavior\n";
    assert_eq!(run(input, None).unwrap(), input);
}

#[test]
fn test_filter_linter_errors_edge_cases() {
    let input = "file.rs:10: error: Edge case 1\nfile.rs:20: warning: Edge case 2\nfile.rs:30: error: Edge case 3\n";
    assert_eq!(
        run(input, Some("10-20")).unwrap(),
        "file.rs:10: error: Edge case 1\nfile.rs:20: warning: Edge case 2\n"
    );
}

#[test]
fn test_invalid_line_range_format() {
    assert_eq!(
        run("file.rs:5: error: Something went wrong\n", Some("invalid")).unwrap_err(),
        "Error: Invalid line range format: invalid. Expected format: start-end\n"
    );
}

#[test]
fn test_invalid_line_range_numbers() {
    assert_eq!(
        run("file.rs:5: error: Something went wrong\n", Some("abc-def")).unwrap_err(),
        "Error: Invalid start line number: abc\n"
    );
}

#[test]
fn test_line_range_start_greater_than_end() {
    assert_eq!(
        run("file.rs:5: error: Something went wrong\n", Some("20-10")).unwrap_err(),
        "Error: Start line (20) cannot be greater than end line (10)\n"
    );
}

#[test]
fn test_mixed_linter_and_non_linter_output() {
    let input = "Running linter...\nfile.rs:5: error: Something went wrong\nfile.rs:15: warning: Consider refactoring\nLinter finished.\n";
    assert_eq!(
        run(input, Some("10-20")).unwrap(),
        "file.rs:15: warning: Consider refactoring\n"
    );
}

#[test]
fn test_different_file_formats() {
    let input = "src/main.rs:5: error: Something went wrong\nlib.rs:15: warning: Consider refactoring\ntest.py:25: error: Unexpected behavior\n";
    assert_eq!(
        run(input, Some("10-20")).unwrap(),
        "lib.rs:15: warning: Consider refactoring\n"
    );
}
