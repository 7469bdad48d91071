use bs_site_builder::text::{
    add_line_markers, highlight_code, highlight_css, highlight_rust, split_text, text_lines,
    trim_empty_leading_lines, LINE_MARKER,
};

#[test]
fn leading_blank_lines_and_trailing_space_go() {
    assert_eq!(trim_empty_leading_lines("\n  \n\tfoo\n  bar\n\n"), "\tfoo\n  bar");
    assert_eq!(trim_empty_leading_lines("x"), "x");
    assert_eq!(trim_empty_leading_lines(" \n \n"), "");
    assert_eq!(trim_empty_leading_lines(""), "");
}

#[test]
fn lines_as_std_gives_them() {
    for s in ["a\nb\n", "a\r\nb", "", "\n", "a\n\nb", "x\r"] {
        let expected: Vec<String> = s.lines().map(|l| l.to_string()).collect();
        assert_eq!(text_lines(s), expected, "{:?}", s);
    }
    assert_eq!(split_text("a,,b", ','), vec!["a", "", "b"]);
}

#[test]
fn each_line_gets_a_marker() {
    assert_eq!(
        add_line_markers("a\nb\n"),
        format!("{}a\n{}b", LINE_MARKER, LINE_MARKER)
    );
    assert_eq!(add_line_markers(""), "");
}

#[test]
fn code_is_highlighted() {
    let html = highlight_code("\n\nfn main() {}\n", "rs");
    assert!(html.starts_with(LINE_MARKER));
    assert!(html.contains("<span class=\"source rust\">"));
    assert_ne!(html, format!("{}fn main() {{}}", LINE_MARKER));
    assert_eq!(highlight_rust("fn main() {}".to_string()), highlight_code("fn main() {}", "rs"));
    assert!(highlight_css("a { color: red; }".to_string()).contains("source css"));
}
