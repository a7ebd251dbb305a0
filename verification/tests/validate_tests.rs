use voice_memos::validate::{check_output_dir, reject_control_chars, validate_resource_name};

// --- output directory ---

#[test]
fn rejects_traversal_in_dir() {
    let r = check_output_dir(Some("/home/user"), "/tmp/../../../etc/passwd", None);
    assert!(r.is_err());
    assert_eq!(r.unwrap_err(), "path contains traversal: /tmp/../../../etc/passwd");
}

#[test]
fn rejects_dir_outside_home() {
    let r = check_output_dir(Some("/home/user"), "/etc/shadow", Some(Ok("/etc/shadow".to_string())));
    assert_eq!(r.unwrap_err(), "output directory must be under home: /etc/shadow");
}

#[test]
fn allows_missing_dir_under_home() {
    assert!(check_output_dir(Some("/home/user"), "/home/user/Projects/test-output", None).is_ok());
}

#[test]
fn allows_dir_under_home() {
    let home = dirs::home_dir().unwrap();
    let path = home.join("Projects/test-output");
    let canonical = if path.exists() {
        Some(path.canonicalize().map(|p| p.to_string_lossy().to_string()).map_err(|e| e.to_string()))
    } else {
        None
    };
    let r = check_output_dir(Some(&home.to_string_lossy()), &path.to_string_lossy(), canonical);
    assert!(r.is_ok());
}

#[test]
fn home_prefix_matches_whole_components_only() {
    let r = check_output_dir(Some("/home/user"), "/home/username/x", None);
    assert!(r.is_err());
}

#[test]
fn reports_unknown_home_and_unresolvable_path() {
    assert_eq!(check_output_dir(None, "/x", None).unwrap_err(), "cannot determine home directory");
    let r = check_output_dir(Some("/home/user"), "/home/user/x", Some(Err("denied".to_string())));
    assert_eq!(r.unwrap_err(), "cannot resolve path: denied");
}

// --- reject_control_chars ---

#[test]
fn allows_normal_text() {
    assert!(reject_control_chars("Hello World 123").is_ok());
}

#[test]
fn allows_newlines_and_tabs() {
    assert!(reject_control_chars("line1\nline2\ttab").is_ok());
}

#[test]
fn rejects_null_byte() {
    assert!(reject_control_chars("hello\x00world").is_err());
}

#[test]
fn rejects_bell_char() {
    assert!(reject_control_chars("hello\x07world").is_err());
}

#[test]
fn rejects_escape_char() {
    assert!(reject_control_chars("hello\x1bworld").is_err());
}

#[test]
fn control_char_message_names_code_and_position() {
    assert_eq!(reject_control_chars("héllo\x1bworld").unwrap_err(), "control character U+001B at position 5");
    assert_eq!(reject_control_chars("a\u{9f}").unwrap_err(), "control character U+009F at position 1");
    assert_eq!(reject_control_chars("\x7f").unwrap_err(), "control character U+007F at position 0");
    assert!(reject_control_chars("carriage\rreturn").is_ok());
}

// --- validate_resource_name ---

#[test]
fn valid_uuid() {
    assert!(validate_resource_name("ABC123-DEF456").is_ok());
}

#[test]
fn rejects_question_mark() {
    assert!(validate_resource_name("fileId?fields=name").is_err());
}

#[test]
fn rejects_hash() {
    assert!(validate_resource_name("fileId#section").is_err());
}

#[test]
fn rejects_percent_encoding() {
    assert!(validate_resource_name("file%2e%2e").is_err());
}

#[test]
fn rejects_path_traversal() {
    assert!(validate_resource_name("../../etc/passwd").is_err());
}

#[test]
fn rejects_empty() {
    assert!(validate_resource_name("").is_err());
}

#[test]
fn resource_name_errors_in_rule_order() {
    assert_eq!(validate_resource_name("").unwrap_err(), "resource name cannot be empty");
    assert_eq!(
        validate_resource_name("a?#").unwrap_err(),
        "resource name contains '?' (possible embedded query params)"
    );
    assert_eq!(validate_resource_name("a#%").unwrap_err(), "resource name contains '#' (possible fragment)");
    assert_eq!(
        validate_resource_name("a%..").unwrap_err(),
        "resource name contains '%' (possible pre-encoded string)"
    );
    assert_eq!(
        validate_resource_name("a..b").unwrap_err(),
        "resource name contains '..' (possible path traversal)"
    );
    assert!(validate_resource_name("a.b.c").is_ok());
}
