use plugin_host::errors::MediationError;
use plugin_host::reader::{read_plugin_file_path, read_plugins_dir_path};
use plugin_host::text::{ascii_lower, ascii_upper, str_leq, trim_str, u64_to_dec};

#[test]
fn plugin_file_path_is_confined() {
    assert_eq!(
        read_plugin_file_path("/root/plugins", "widget", "ui/index.html").unwrap(),
        "/root/plugins/widget/ui/index.html"
    );
    assert_eq!(
        read_plugin_file_path("/root/plugins", "wid get", "a").unwrap_err(),
        MediationError::InvalidIdentifier
    );
    assert_eq!(
        read_plugin_file_path("/root/plugins", "widget", "../other/secret").unwrap_err(),
        MediationError::InvalidPath
    );
}

#[test]
fn plugins_dir_path_is_confined_to_the_plugin() {
    assert_eq!(
        read_plugins_dir_path("/root/plugins", "widget", "ui").unwrap(),
        "/root/plugins/widget/ui"
    );
    assert_eq!(
        read_plugins_dir_path("/root/plugins", "widget", "").unwrap(),
        "/root/plugins/widget/"
    );
    assert_eq!(
        read_plugins_dir_path("/root/plugins", "wid get", "ui").unwrap_err(),
        MediationError::InvalidIdentifier
    );
    assert_eq!(
        read_plugins_dir_path("/root/plugins", "widget", "/etc").unwrap_err(),
        MediationError::InvalidPath
    );
    assert_eq!(
        read_plugins_dir_path("/root/plugins", "widget", "a/../..").unwrap_err(),
        MediationError::InvalidPath
    );
}

#[test]
fn decimal_formatting_is_exact() {
    assert_eq!(u64_to_dec(0), "0");
    assert_eq!(u64_to_dec(7), "7");
    assert_eq!(u64_to_dec(1234), "1234");
    assert_eq!(u64_to_dec(u64::MAX), "18446744073709551615");
}

#[test]
fn case_mapping_touches_ascii_letters_only() {
    assert_eq!(ascii_upper("get-2 \u{e9}"), "GET-2 \u{e9}");
    assert_eq!(ascii_lower("HTTP://X"), "http://x");
}

#[test]
fn trim_strips_both_ends() {
    assert_eq!(trim_str("  a b \t"), "a b");
    assert_eq!(trim_str("\r\n"), "");
    assert_eq!(trim_str("x"), "x");
    // The full Unicode whitespace set is stripped, as str::trim does.
    assert_eq!(trim_str("\u{a0}\u{2003}x\u{3000}"), "x");
}

#[test]
fn string_order_is_lexicographic() {
    assert!(str_leq("alpha", "beta"));
    assert!(str_leq("alpha", "alpha"));
    assert!(!str_leq("beta", "alpha"));
    assert!(str_leq("Zeta", "alpha"));
    assert!(str_leq("ab", "abc"));
    assert!(!str_leq("abc", "ab"));
}
