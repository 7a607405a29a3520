use texbuild::target::invocation_args;
use texbuild::target::target_artifact;

#[test]
fn tex_name_yields_pdf_target() {
    assert_eq!(target_artifact("report.tex"), Some("report.pdf".to_string()));
}

#[test]
fn other_suffix_is_rejected() {
    assert_eq!(target_artifact("report.txt"), None);
}

#[test]
fn missing_suffix_is_rejected() {
    assert_eq!(target_artifact("report"), None);
    assert_eq!(target_artifact("tex"), None);
    assert_eq!(target_artifact(""), None);
}

#[test]
fn bare_suffix_is_accepted() {
    assert_eq!(target_artifact(".tex"), Some(".pdf".to_string()));
}

#[test]
fn name_with_path_and_dots() {
    assert_eq!(
        target_artifact("notes/v1.2.draft.tex"),
        Some("notes/v1.2.draft.pdf".to_string())
    );
}

#[test]
fn build_args_without_clean_flag() {
    let base = vec!["-interaction=nonstopmode".to_string()];
    let args = invocation_args(&base, &"doc.tex".to_string(), false);
    assert_eq!(args, vec!["-interaction=nonstopmode".to_string(), "doc.tex".to_string()]);
}

#[test]
fn clean_args_carry_the_clean_flag() {
    let base = vec!["-interaction=nonstopmode".to_string()];
    let args = invocation_args(&base, &"doc.tex".to_string(), true);
    assert_eq!(
        args,
        vec!["-interaction=nonstopmode".to_string(), "-c".to_string(), "doc.tex".to_string()]
    );
}

#[test]
fn empty_base_arguments() {
    let args = invocation_args(&Vec::new(), &"doc.tex".to_string(), true);
    assert_eq!(args, vec!["-c".to_string(), "doc.tex".to_string()]);
}
