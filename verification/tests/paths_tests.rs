use evidence_store::errors::StoreError;
use evidence_store::paths::{join, normalize_seps_x, safe_entry_name_x, split_name, validate_entry_name};

#[test]
fn join_uses_one_canonical_separator() {
    assert_eq!(join("/root", "sub"), "/root/sub");
    assert_eq!(join("", "x"), "/x");
}

#[test]
fn normalization_turns_backslashes_into_slashes() {
    assert_eq!(normalize_seps_x("a\\b\\c.txt"), "a/b/c.txt");
    assert_eq!(normalize_seps_x("a/b"), "a/b");
    assert_eq!(normalize_seps_x(""), "");
}

#[test]
fn safe_names_are_relative_and_clean() {
    assert!(safe_entry_name_x("a.txt"));
    assert!(safe_entry_name_x("A/images/x.png"));
    assert!(safe_entry_name_x("deep/er/still/file"));
    assert!(safe_entry_name_x("..hidden/three...dots"));
}

#[test]
fn unsafe_names_are_rejected() {
    assert!(!safe_entry_name_x(""));
    assert!(!safe_entry_name_x("../../evil"));
    assert!(!safe_entry_name_x("a/../b"));
    assert!(!safe_entry_name_x("/absolute"));
    assert!(!safe_entry_name_x("trailing/"));
    assert!(!safe_entry_name_x("dou//ble"));
    assert!(!safe_entry_name_x("."));
    assert!(!safe_entry_name_x("./x"));
    assert!(!safe_entry_name_x(".."));
    assert!(!safe_entry_name_x("C:\\windows"));
    assert!(!safe_entry_name_x("C:unix-ish"));
    assert!(!safe_entry_name_x("nul\u{0}byte"));
    assert!(!safe_entry_name_x("back\\slash"));
}

#[test]
fn escaping_entry_names_are_path_security_errors() {
    assert!(validate_entry_name("fine/name.txt").is_ok());
    assert!(matches!(
        validate_entry_name("../../evil"),
        Err(StoreError::PathSecurityError)
    ));
    assert!(matches!(validate_entry_name("/abs"), Err(StoreError::PathSecurityError)));
}

#[test]
fn split_takes_the_last_dot() {
    assert_eq!(split_name("a.jpg"), Some((String::from("a"), String::from("jpg"))));
    assert_eq!(split_name("archive.tar.gz"), Some((String::from("archive.tar"), String::from("gz"))));
    assert_eq!(split_name("trailing."), Some((String::from("trailing"), String::from(""))));
    assert_eq!(split_name("noext"), None);
    assert_eq!(split_name(".bashrc"), None);
    assert_eq!(split_name(""), None);
}
