use plugin_host::errors::MediationError;
use plugin_host::validate::{is_safe_id, resolve_sandbox_path, safe_relative_path};

#[test]
fn safe_id_accepts_plain_names() {
    assert!(is_safe_id("widget"));
    assert!(is_safe_id("Widget-2_beta"));
    assert!(is_safe_id("A"));
    assert!(is_safe_id("0"));
}

#[test]
fn safe_id_rejects_empty_and_special() {
    assert!(!is_safe_id(""));
    assert!(!is_safe_id("a.b"));
    assert!(!is_safe_id("a/b"));
    assert!(!is_safe_id("a b"));
    assert!(!is_safe_id("a\\b"));
    assert!(!is_safe_id(".hidden"));
    assert!(!is_safe_id("caf\u{e9}"));
}

#[test]
fn relative_path_accepts_normal_components() {
    assert_eq!(safe_relative_path("index.html").unwrap(), "index.html");
    assert_eq!(safe_relative_path("a/b/c.txt").unwrap(), "a/b/c.txt");
    assert_eq!(safe_relative_path("./a/b").unwrap(), "./a/b");
    assert_eq!(safe_relative_path("").unwrap(), "");
    assert_eq!(safe_relative_path("a..b").unwrap(), "a..b");
    assert_eq!(safe_relative_path("...").unwrap(), "...");
}

#[test]
fn relative_path_rejects_parent_components() {
    assert_eq!(safe_relative_path("..").unwrap_err(), MediationError::InvalidPath);
    assert_eq!(safe_relative_path("../x").unwrap_err(), MediationError::InvalidPath);
    assert_eq!(safe_relative_path("a/../b").unwrap_err(), MediationError::InvalidPath);
    assert_eq!(safe_relative_path("a/..").unwrap_err(), MediationError::InvalidPath);
    assert_eq!(safe_relative_path("a\\..\\b").unwrap_err(), MediationError::InvalidPath);
}

#[test]
fn relative_path_rejects_absolute_and_drive_prefix() {
    assert_eq!(safe_relative_path("/etc/passwd").unwrap_err(), MediationError::InvalidPath);
    assert_eq!(safe_relative_path("\\windows").unwrap_err(), MediationError::InvalidPath);
    assert_eq!(safe_relative_path("C:\\x").unwrap_err(), MediationError::InvalidPath);
    assert_eq!(safe_relative_path("C:x").unwrap_err(), MediationError::InvalidPath);
    assert_eq!(safe_relative_path("c:").unwrap_err(), MediationError::InvalidPath);
}

#[test]
fn relative_path_accepts_colons_inside_components() {
    // A colon outside a drive prefix is part of a normal component.
    assert_eq!(safe_relative_path("ab:cd").unwrap(), "ab:cd");
    assert_eq!(safe_relative_path("a/C:b").unwrap(), "a/C:b");
    assert_eq!(safe_relative_path(":x").unwrap(), ":x");
}

#[test]
fn resolve_joins_root_and_path() {
    assert_eq!(resolve_sandbox_path("/data/plugins/w", "a/b.txt").unwrap(), "/data/plugins/w/a/b.txt");
    assert_eq!(resolve_sandbox_path("/r", "").unwrap(), "/r/");
    assert_eq!(
        resolve_sandbox_path("/r", "../escape").unwrap_err(),
        MediationError::InvalidPath
    );
}
