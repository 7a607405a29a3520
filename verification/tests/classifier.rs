use texbuild::msg::Msg;

#[test]
fn missing_file_simple() {
    let m = Msg::new("! LaTeX Error: File `foo.sty' not found.".to_string());
    assert!(matches!(m, Msg::NeedInstall(p) if p == "foo"));
}

#[test]
fn missing_file_dotted_name() {
    let m = Msg::new("! LaTeX Error: File `a.b.sty' not found.".to_string());
    assert!(matches!(m, Msg::NeedInstall(p) if p == "a"));
}

#[test]
fn missing_file_name_without_dot() {
    let m = Msg::new("! LaTeX Error: File `foo' not found.".to_string());
    assert!(matches!(m, Msg::NeedInstall(p) if p == "foo"));
}

#[test]
fn missing_file_empty_name() {
    let m = Msg::new("! LaTeX Error: File `' not found.".to_string());
    assert!(matches!(m, Msg::NeedInstall(p) if p.is_empty()));
}

#[test]
fn missing_file_name_opening_with_dot() {
    let m = Msg::new("! LaTeX Error: File `.sty' not found.".to_string());
    assert!(matches!(m, Msg::NeedInstall(p) if p.is_empty()));
}

#[test]
fn missing_file_unicode_name() {
    let m = Msg::new("! LaTeX Error: File `p\u{e4}ckage.sty' not found.".to_string());
    assert!(matches!(m, Msg::NeedInstall(p) if p == "p\u{e4}ckage"));
}

#[test]
fn missing_file_name_holding_the_closing_text() {
    // The quoted name itself ends in the closing text; the capture runs to
    // the line's own closing text, and the identifier stops at the first dot.
    let m = Msg::new("! LaTeX Error: File `a' not found.' not found.".to_string());
    assert!(matches!(m, Msg::NeedInstall(p) if p == "a' not found"));
}

#[test]
fn error_line_preserved_verbatim() {
    let m = Msg::new("! Undefined control sequence.".to_string());
    assert!(matches!(m, Msg::UnknownError(t) if t == "! Undefined control sequence."));
}

#[test]
fn error_line_without_closing_dot_is_no_missing_file() {
    let m = Msg::new("! LaTeX Error: File `foo.sty' not found".to_string());
    assert!(matches!(m, Msg::UnknownError(t) if t == "! LaTeX Error: File `foo.sty' not found"));
}

#[test]
fn error_line_with_trailing_text_is_no_missing_file() {
    let m = Msg::new("! LaTeX Error: File `foo.sty' not found. (more)".to_string());
    assert!(matches!(m, Msg::UnknownError(t) if t == "! LaTeX Error: File `foo.sty' not found. (more)"));
}

#[test]
fn bare_error_marker() {
    let m = Msg::new("!".to_string());
    assert!(matches!(m, Msg::UnknownError(t) if t == "!"));
}

#[test]
fn info_line_preserved_verbatim() {
    let m = Msg::new("This is pdfTeX, Version 3.14".to_string());
    assert!(matches!(m, Msg::UnknownInfo(t) if t == "This is pdfTeX, Version 3.14"));
}

#[test]
fn empty_line_is_info() {
    let m = Msg::new(String::new());
    assert!(matches!(m, Msg::UnknownInfo(t) if t.is_empty()));
}

#[test]
fn whitespace_line_is_info() {
    let m = Msg::new("   ".to_string());
    assert!(matches!(m, Msg::UnknownInfo(t) if t == "   "));
}

#[test]
fn unicode_line_is_info() {
    let m = Msg::new("\u{2713} s\u{e9}ance \u{1f600}".to_string());
    assert!(matches!(m, Msg::UnknownInfo(t) if t == "\u{2713} s\u{e9}ance \u{1f600}"));
}

#[test]
fn as_str_of_each_variant() {
    assert_eq!(Msg::UnknownInfo("info".to_string()).as_str(), "info");
    assert_eq!(Msg::UnknownError("! bad".to_string()).as_str(), "! bad");
    assert_eq!(Msg::NeedInstall("foo".to_string()).as_str(), "foo");
    assert_eq!(Msg::Empty.as_str(), "");
}

#[test]
fn as_str_of_a_classified_missing_file_line() {
    let m = Msg::new("! LaTeX Error: File `foo.sty' not found.".to_string());
    assert_eq!(m.as_str(), "foo");
}
