use lineman::selection::{extension_listed, file_matches};

#[test]
fn extension_filter_exact_match() {
    let exts = vec!["txt".to_string()];
    assert!(file_matches("notes.txt", &exts));
    assert!(!file_matches("notes.txtx", &exts));
}

#[test]
fn extension_filter_reads_last_extension_of_path() {
    let exts = vec!["py".to_string(), "rs".to_string()];
    assert!(file_matches("src/dir.d/main.rs", &exts));
    assert!(file_matches("archive.tar.py", &exts));
    assert!(!file_matches("src/main", &exts));
    assert!(!file_matches(".rs", &exts));
}

#[test]
fn extension_filter_is_case_sensitive_and_dotless() {
    assert!(!file_matches("notes.TXT", &["txt".to_string()]));
    assert!(!file_matches("notes.txt", &[".txt".to_string()]));
    assert!(!file_matches("notes.txt", &[]));
}

#[test]
fn extension_listed_compares_verbatim() {
    let exts = vec!["md".to_string(), "txt".to_string()];
    assert!(extension_listed(Some("txt"), &exts));
    assert!(!extension_listed(Some("tx"), &exts));
    assert!(!extension_listed(None, &exts));
}
