use minigrep::Config;
use minigrep::Line;

#[test]
fn config_from_three_arguments() {
    let args = vec![
        String::from("prog"),
        String::from("needle"),
        String::from("notes.txt"),
    ];
    let config = Config::new(&args, true).unwrap();
    assert_eq!(config.query, "needle");
    assert_eq!(config.filename, "notes.txt");
    assert!(config.case_sensitive);
}

#[test]
fn config_carries_case_flag() {
    let args = vec![
        String::from("prog"),
        String::from("q"),
        String::from("f"),
    ];
    let config = Config::new(&args, false).unwrap();
    assert!(!config.case_sensitive);
}

#[test]
fn config_fails_without_filename() {
    let args = vec![String::from("prog"), String::from("needle")];
    match Config::new(&args, true) {
        Err(e) => assert_eq!(e, "Not enough parameters"),
        Ok(_) => panic!("expected a parameter-count error"),
    }
}

#[test]
fn config_fails_with_program_name_alone() {
    let args = vec![String::from("prog")];
    match Config::new(&args, true) {
        Err(e) => assert_eq!(e, "Not enough parameters"),
        Ok(_) => panic!("expected a parameter-count error"),
    }
}

#[test]
fn line_display_uses_one_based_numbering() {
    let line = Line::new(3, "Duck tape.");
    assert_eq!(line.display_string(), "Line #4: Duck tape.");
}

#[test]
fn line_display_of_first_line() {
    let line = Line::new(0, "Rust:");
    assert_eq!(line.display_string(), "Line #1: Rust:");
}

#[test]
fn line_display_of_multi_digit_number() {
    let line = Line::new(1233, "x");
    assert_eq!(line.display_string(), "Line #1234: x");
}

#[test]
fn lines_equal_iff_number_and_content_equal() {
    assert_eq!(Line::new(2, "abc"), Line::new(2, "abc"));
    assert_ne!(Line::new(2, "abc"), Line::new(3, "abc"));
    assert_ne!(Line::new(2, "abc"), Line::new(2, "abd"));
}
