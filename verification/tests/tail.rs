use node_tools::tail::tail_lines;

#[test]
fn tail_lines_truncates() {
    let text = "line1\nline2\nline3\nline4\nline5";
    assert_eq!(tail_lines(text, 3), "line3\nline4\nline5");
}

#[test]
fn tail_lines_returns_all_when_fewer() {
    let text = "line1\nline2";
    assert_eq!(tail_lines(text, 5), "line1\nline2");
}

#[test]
fn tail_lines_exact_count_returns_text_unchanged() {
    assert_eq!(tail_lines("a\r\nb\n", 2), "a\r\nb\n");
}

#[test]
fn tail_lines_drops_carriage_returns_when_truncating() {
    assert_eq!(tail_lines("a\r\nb\r\nc\r\n", 2), "b\nc");
}

#[test]
fn tail_lines_ignores_final_newline() {
    assert_eq!(tail_lines("x\ny\nz\n", 1), "z");
}

#[test]
fn tail_lines_zero_lines_gives_empty() {
    assert_eq!(tail_lines("a\nb", 0), "");
}

#[test]
fn tail_lines_empty_text() {
    assert_eq!(tail_lines("", 0), "");
    assert_eq!(tail_lines("", 3), "");
}

#[test]
fn tail_lines_keeps_empty_lines_inside() {
    assert_eq!(tail_lines("a\n\nb\nc", 3), "\nb\nc");
}

#[test]
fn tail_lines_keeps_lone_carriage_return() {
    assert_eq!(tail_lines("a\nb\rc\nd", 2), "b\rc\nd");
}

#[test]
fn tail_lines_result_splits_into_last_lines() {
    let text = "one\ntwo\nthree\nfour";
    let r = tail_lines(text, 2);
    let lines: Vec<&str> = r.lines().collect();
    assert_eq!(lines, vec!["three", "four"]);
}

#[test]
fn tail_lines_non_ascii() {
    assert_eq!(tail_lines("é\nñ\n日本", 2), "ñ\n日本");
}

#[test]
fn tail_lines_line_count_is_smaller_of_n_and_count() {
    for (text, n, expected) in [("a\nb\nc", 2, 2), ("a\nb", 5, 2), ("a\r\r\nb\nc", 2, 2), ("a\nb", 0, 0)] {
        assert_eq!(tail_lines(text, n).lines().count(), expected, "{text:?} {n}");
    }
}

#[test]
fn tail_lines_doubled_carriage_return_loses_one_on_resplit() {
    // Why the last-lines law leaves out lines ending in '\r'.
    let r = tail_lines("x\na\r\r\nb", 2);
    assert_eq!(r, "a\r\nb");
    assert_eq!(r.lines().collect::<Vec<_>>(), vec!["a", "b"]);
}
