use minigrep::search;
use minigrep::Line;

#[test]
fn case_sensitive() {
    let query = "Duck";
    let content = "\
        Rust:
safe, fast, productive.
Pick three.
Duck tape.";

    assert_eq!(
        vec![Line::new(3, content.lines().nth(3).unwrap())],
        search(query, content, true)
    );
}

#[test]
fn case_insensitive() {
    let query = "rUsT";
    let content = "\
        Rust:
safe, fast, productive.
Pick three.
Trust me.";

    assert_eq!(
        vec![
            Line::new(0, content.lines().nth(0).unwrap()),
            Line::new(3, content.lines().nth(3).unwrap())
        ],
        search(query, content, false)
    );
}

#[test]
fn empty_query_returns_every_line_in_order() {
    let content = "alpha\nbeta\ngamma";
    assert_eq!(
        vec![
            Line::new(0, "alpha"),
            Line::new(1, "beta"),
            Line::new(2, "gamma")
        ],
        search("", content, true)
    );
}

#[test]
fn empty_content_returns_nothing() {
    assert_eq!(search("anything", "", true), vec![]);
    assert_eq!(search("anything", "", false), vec![]);
    assert_eq!(search("", "", true), vec![]);
}

#[test]
fn search_is_idempotent() {
    let content = "Rust:\nsafe, fast, productive.\nPick three.";
    let first = search("t", content, false);
    let second = search("t", content, false);
    assert_eq!(first, second);
}

#[test]
fn indices_strictly_increase() {
    let content = "ax\nbx\nc\ndx\nx";
    let results = search("x", content, true);
    assert_eq!(
        results,
        vec![
            Line::new(0, "ax"),
            Line::new(1, "bx"),
            Line::new(3, "dx"),
            Line::new(4, "x")
        ]
    );
    for pair in results.windows(2) {
        assert!(pair[0].number < pair[1].number);
    }
}

#[test]
fn carriage_return_stripped_before_newline() {
    let content = "Duck\r\ntape\r\n";
    assert_eq!(
        vec![Line::new(0, "Duck"), Line::new(1, "tape")],
        search("", content, true)
    );
}

#[test]
fn trailing_newline_adds_no_phantom_line() {
    let content = "one\ntwo\n";
    assert_eq!(
        vec![Line::new(0, "one"), Line::new(1, "two")],
        search("", content, true)
    );
}

#[test]
fn no_match_returns_empty() {
    let content = "alpha\nbeta";
    assert_eq!(search("gamma", content, true), vec![]);
    assert_eq!(search("gamma", content, false), vec![]);
}

#[test]
fn query_longer_than_any_line_matches_nothing() {
    let content = "ab\ncd";
    assert_eq!(search("abcde", content, true), vec![]);
}

#[test]
fn case_insensitive_lowercases_both_sides() {
    let content = "rUST me";
    assert_eq!(
        vec![Line::new(0, "rUST me")],
        search("RuSt", content, false)
    );
}

#[test]
fn case_sensitive_rejects_differing_case() {
    let content = "rust\nRust";
    assert_eq!(vec![Line::new(1, "Rust")], search("Rust", content, true));
}

#[test]
fn repeated_matching_lines_each_returned() {
    let content = "dup\ndup";
    assert_eq!(
        vec![Line::new(0, "dup"), Line::new(1, "dup")],
        search("dup", content, true)
    );
}

#[test]
fn non_ascii_content_matches_exactly() {
    let content = "caf\u{e9} au lait\nplain";
    assert_eq!(
        vec![Line::new(0, "caf\u{e9} au lait")],
        search("caf\u{e9}", content, true)
    );
}
