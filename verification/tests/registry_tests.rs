use plugin_host::errors::MediationError;
use plugin_host::registry::{
    install_plugin_files, list_plugins, FsDirEntry, PluginWriteFile, MAX_INSTALL_BYTES,
    MAX_INSTALL_FILES,
};

fn entry(name: &str, is_directory: bool) -> FsDirEntry {
    FsDirEntry { name: String::from(name), is_directory }
}

fn file(path: &str, bytes: &[u8]) -> PluginWriteFile {
    PluginWriteFile { path: String::from(path), bytes: bytes.to_vec() }
}

#[test]
fn list_plugins_filters_and_sorts() {
    let entries = vec![
        entry("zeta", true),
        entry("readme.txt", false),
        entry(".tmp-install-zeta-12", true),
        entry("alpha", true),
        entry("bad name", true),
        entry("Beta-2", true),
    ];
    let names = list_plugins(&entries);
    assert_eq!(names, vec!["Beta-2", "alpha", "zeta"]);
}

#[test]
fn list_plugins_never_reports_invalid_names() {
    let entries = vec![
        entry("..", true),
        entry(".hidden", true),
        entry("has space", true),
        entry("caf\u{e9}", true),
        entry("", true),
    ];
    assert!(list_plugins(&entries).is_empty());
}

#[test]
fn install_plan_shapes_paths() {
    let files = vec![file("index.html", b"<html>"), file("lib/util.js", b"x")];
    let plan = install_plugin_files("/root/plugins", "widget", false, false, files, 42).unwrap();
    assert_eq!(plan.target_dir, "/root/plugins/widget");
    assert_eq!(plan.staging_dir, "/root/plugins/.tmp-install-widget-42");
    assert_eq!(
        plan.staged_paths,
        vec![
            String::from("/root/plugins/.tmp-install-widget-42/index.html"),
            String::from("/root/plugins/.tmp-install-widget-42/lib/util.js"),
        ]
    );
    assert_eq!(plan.files.len(), 2);
    assert_eq!(plan.files[0].bytes, b"<html>".to_vec());
}

#[test]
fn install_rejects_invalid_identifier() {
    let r = install_plugin_files("/p", "../w", false, false, vec![file("a", b"x")], 0);
    assert_eq!(r.unwrap_err(), MediationError::InvalidIdentifier);
}

#[test]
fn install_rejects_empty_file_set() {
    let r = install_plugin_files("/p", "w", false, false, vec![], 0);
    assert_eq!(r.unwrap_err(), MediationError::EmptyFileSet);
}

#[test]
fn install_rejects_too_many_files() {
    let mut files = Vec::new();
    for i in 0..(MAX_INSTALL_FILES + 1) {
        files.push(file(&format!("f{}", i), b"x"));
    }
    let r = install_plugin_files("/p", "w", false, false, files, 0);
    assert_eq!(r.unwrap_err(), MediationError::TooLarge);
}

#[test]
fn install_rejects_oversized_payload() {
    let big = vec![0u8; (MAX_INSTALL_BYTES as usize) + 1];
    let r = install_plugin_files("/p", "w", false, false, vec![PluginWriteFile {
        path: String::from("big.bin"),
        bytes: big,
    }], 0);
    assert_eq!(r.unwrap_err(), MediationError::TooLarge);
}

#[test]
fn install_accepts_payload_at_cap() {
    let exact = vec![0u8; MAX_INSTALL_BYTES as usize];
    let r = install_plugin_files("/p", "w", false, false, vec![PluginWriteFile {
        path: String::from("big.bin"),
        bytes: exact,
    }], 0);
    assert!(r.is_ok());
}

#[test]
fn install_rejects_existing_target_without_overwrite() {
    let r = install_plugin_files("/p", "w", false, true, vec![file("a", b"x")], 0);
    assert_eq!(r.unwrap_err(), MediationError::AlreadyExists);
    let r2 = install_plugin_files("/p", "w", true, true, vec![file("a", b"x")], 0);
    assert!(r2.is_ok());
}

#[test]
fn install_rejects_traversing_paths() {
    let r = install_plugin_files("/p", "w", false, false, vec![file("../evil", b"x")], 0);
    assert_eq!(r.unwrap_err(), MediationError::InvalidPath);
    let r2 = install_plugin_files("/p", "w", false, false, vec![
        file("ok.txt", b"x"),
        file("/abs", b"y"),
    ], 0);
    assert_eq!(r2.unwrap_err(), MediationError::InvalidPath);
}

#[test]
fn aborting_mid_copy_leaves_the_old_plugin_untouched() {
    // A little filesystem model: the old plugin's files, keyed by
    // path.  Applying any prefix of the plan's writes — as a process
    // killed mid-copy would have — changes nothing under the target
    // directory; only the promoting rename does.
    let old_plugin = vec![
        (String::from("/p/w/index.html"), b"old".to_vec()),
        (String::from("/p/w/lib/a.js"), b"old".to_vec()),
    ];
    let files = vec![file("index.html", b"new"), file("style.css", b"new")];
    let plan = install_plugin_files("/p", "w", true, true, files, 99).unwrap();
    for prefix_len in 0..=plan.staged_paths.len() {
        let mut fs_model = old_plugin.clone();
        for (path, f) in plan.staged_paths.iter().zip(plan.files.iter()).take(prefix_len) {
            fs_model.push((path.clone(), f.bytes.clone()));
        }
        let under_target: Vec<_> =
            fs_model.iter().filter(|(p, _)| p.starts_with("/p/w/")).collect();
        assert_eq!(under_target.len(), old_plugin.len());
        for (p, bytes) in under_target {
            assert!(old_plugin.iter().any(|(op, ob)| op == p && ob == bytes));
        }
    }
}

#[test]
fn staging_never_names_a_plugin_directory() {
    // The staging directory's name starts with a dot, which no valid
    // identifier may, so no staged write can land in any plugin's
    // directory before the promoting rename.
    let plan =
        install_plugin_files("/p", "w", true, true, vec![file("a/b", b"x")], 7).unwrap();
    assert_ne!(plan.staging_dir, plan.target_dir);
    for p in &plan.staged_paths {
        assert!(p.starts_with("/p/.tmp-install-w-7/"));
        assert!(!p.starts_with("/p/w/"));
    }
}
