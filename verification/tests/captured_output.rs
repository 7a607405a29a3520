use texbuild::msg::Msg;
use texbuild::output::classify_captured;
use texbuild::output::split_trim_lines;
use texbuild::output::trim_line;

#[test]
fn trim_removes_surrounding_whitespace() {
    assert_eq!(trim_line("  foo bar \t"), "foo bar");
    assert_eq!(trim_line("foo"), "foo");
    assert_eq!(trim_line(""), "");
    assert_eq!(trim_line(" \t "), "");
}

#[test]
fn trim_removes_a_carriage_return() {
    assert_eq!(trim_line("foo\r"), "foo");
}

#[test]
fn trim_removes_unicode_whitespace() {
    assert_eq!(trim_line("\u{a0} x \u{a0}"), "x");
    assert_eq!(trim_line("\u{2003}y\u{3000}"), "y");
}

#[test]
fn trim_keeps_inner_whitespace() {
    assert_eq!(trim_line(" a  b "), "a  b");
}

#[test]
fn splitting_matches_line_semantics() {
    assert_eq!(split_trim_lines("a\nb"), vec!["a".to_string(), "b".to_string()]);
    assert_eq!(split_trim_lines("a\nb\n"), vec!["a".to_string(), "b".to_string()]);
    assert_eq!(split_trim_lines(""), Vec::<String>::new());
    assert_eq!(split_trim_lines("\n"), vec!["".to_string()]);
    assert_eq!(split_trim_lines("\n\n"), vec!["".to_string(), "".to_string()]);
}

#[test]
fn splitting_trims_each_line() {
    assert_eq!(
        split_trim_lines("  a \r\n\tb\u{a0}\n"),
        vec!["a".to_string(), "b".to_string()]
    );
}

#[test]
fn captured_output_is_classified_in_order() {
    let msgs = classify_captured(
        "This is pdfTeX\n! LaTeX Error: File `foo.sty' not found.\r\n",
        "latexmk: warning\n",
    );
    assert_eq!(msgs.len(), 3);
    assert!(matches!(&msgs[0], Msg::UnknownInfo(t) if t == "This is pdfTeX"));
    assert!(matches!(&msgs[1], Msg::NeedInstall(p) if p == "foo"));
    assert!(matches!(&msgs[2], Msg::UnknownInfo(t) if t == "latexmk: warning"));
}

#[test]
fn empty_captures_yield_no_messages() {
    assert!(classify_captured("", "").is_empty());
}

#[test]
fn indented_error_line_is_trimmed_before_classification() {
    let msgs = classify_captured("   ! LaTeX Error: File `tikz.sty' not found.\n", "");
    assert_eq!(msgs.len(), 1);
    assert!(matches!(&msgs[0], Msg::NeedInstall(p) if p == "tikz"));
}
