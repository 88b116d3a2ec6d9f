use plugin_host::autostart::{
    ensure_enabled_points_to_current_exe, is_enabled, rewrite_run_command, set_auto_start,
    set_enabled, should_rewrite_to_current_exe, split_command, RunKey,
};
use plugin_host::config::load_auto_start_pref;
use plugin_host::json::JsonValue;
use plugin_host::storage::{storage_get, StorageDoc};

#[test]
fn set_auto_start_updates_key_and_preference() {
    let mut key = RunKey::new();
    let mut cfg = StorageDoc::new();
    assert!(set_auto_start(&mut key, &mut cfg, "App", true, String::from("\"/opt/app\"")));
    assert!(is_enabled(&key, "App"));
    assert_eq!(load_auto_start_pref(&cfg), Some(true));
    assert_eq!(
        storage_get(&cfg, "cfg", "autoStart").unwrap(),
        Some(&JsonValue::Bool(true))
    );
    assert!(!set_auto_start(&mut key, &mut cfg, "App", false, String::new()));
    assert!(!is_enabled(&key, "App"));
    assert_eq!(load_auto_start_pref(&cfg), Some(false));
}

#[test]
fn split_quoted_command() {
    let (exe, args) = split_command("\"C:\\Program Files\\app.exe\" --flag x");
    assert_eq!(exe, "C:\\Program Files\\app.exe");
    assert_eq!(args, "--flag x");
}

#[test]
fn split_quoted_command_without_args() {
    let (exe, args) = split_command("  \"/usr/bin/app\"  ");
    assert_eq!(exe, "/usr/bin/app");
    assert_eq!(args, "");
}

#[test]
fn split_unquoted_command_at_whitespace() {
    let (exe, args) = split_command("/usr/bin/app --flag");
    assert_eq!(exe, "/usr/bin/app");
    assert_eq!(args, "--flag");
}

#[test]
fn split_bare_command() {
    let (exe, args) = split_command("app.exe");
    assert_eq!(exe, "app.exe");
    assert_eq!(args, "");
}

#[test]
fn split_unclosed_quote_falls_back_to_whitespace() {
    let (exe, args) = split_command("\"broken path");
    assert_eq!(exe, "\"broken");
    assert_eq!(args, "path");
}

#[test]
fn rewrite_wanted_for_missing_or_build_tree_exe() {
    assert!(!should_rewrite_to_current_exe("", true));
    assert!(!should_rewrite_to_current_exe("   ", false));
    assert!(should_rewrite_to_current_exe("/gone/app", false));
    assert!(should_rewrite_to_current_exe("C:\\repo\\TARGET\\DEBUG\\app.exe", true));
    assert!(should_rewrite_to_current_exe("/repo/target/release/app", true));
    assert!(!should_rewrite_to_current_exe("/usr/bin/app", true));
}

#[test]
fn rewrite_keeps_arguments_and_quotes_current_exe() {
    let next = rewrite_run_command(
        "\"/repo/target/debug/app\" --minimized",
        "/opt/app/app",
        true,
    );
    assert_eq!(next.unwrap(), "\"/opt/app/app\" --minimized");
}

#[test]
fn rewrite_skips_same_exe_case_insensitively() {
    assert_eq!(rewrite_run_command("\"/Gone/APP\"", "/gone/app", false), None);
    assert_eq!(rewrite_run_command("\"/usr/bin/app\" -x", "/opt/app", true), None);
}

#[test]
fn enabling_and_disabling_round_trips() {
    let mut key = RunKey::new();
    assert!(!is_enabled(&key, "My App"));
    assert!(set_enabled(&mut key, "My App", true, String::from("\"/opt/app\"")));
    assert!(is_enabled(&key, "My App"));
    assert_eq!(key.get_value("My App").unwrap(), "\"/opt/app\"");
    assert!(!set_enabled(&mut key, "My App", false, String::new()));
    assert!(!is_enabled(&key, "My App"));
    // Disabling an absent value still reports disabled.
    assert!(!set_enabled(&mut key, "Never", false, String::new()));
}

#[test]
fn ensure_repairs_stale_registration_only() {
    let mut key = RunKey::new();
    ensure_enabled_points_to_current_exe(&mut key, "App", "/opt/app", true);
    assert!(!is_enabled(&key, "App"));

    set_enabled(&mut key, "App", true, String::from("\"/repo/target/debug/app\" -m"));
    ensure_enabled_points_to_current_exe(&mut key, "App", "/opt/app", true);
    assert_eq!(key.get_value("App").unwrap(), "\"/opt/app\" -m");

    set_enabled(&mut key, "App", true, String::from("\"/opt/app\" -m"));
    ensure_enabled_points_to_current_exe(&mut key, "App", "/opt/app", true);
    assert_eq!(key.get_value("App").unwrap(), "\"/opt/app\" -m");
}
