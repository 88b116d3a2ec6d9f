//! The plugin file reader: which filesystem paths a mediated read may
//! touch.  The host performs the reads; the paths it reads from are
//! computed, and confined, here.

use vstd::prelude::*;
use crate::errors::MediationError;
use crate::validate::{
    is_safe_id, joined_path, resolve_sandbox_path, valid_identifier, valid_relative_path,
};

verus! {

/// The path a plugin-file read goes to:
/// `<plugins_root>/<plugin_id>/<path>`.  Succeeds exactly when the
/// identifier and the sandbox-relative path both validate; an invalid
/// identifier is reported before the path is looked at.
pub fn read_plugin_file_path(plugins_root: &str, plugin_id: &str, path: &str) -> (r: Result<
    String,
    MediationError,
>)
    ensures
        r is Ok <==> valid_identifier(plugin_id@) && valid_relative_path(path@),
        r matches Ok(p) ==> p@ == joined_path(
            joined_path(plugins_root@, plugin_id@),
            path@,
        ),
        r matches Err(e) ==> e == (if !valid_identifier(plugin_id@) {
            MediationError::InvalidIdentifier
        } else {
            MediationError::InvalidPath
        }),
{
    if !is_safe_id(plugin_id) {
        return Err(MediationError::InvalidIdentifier);
    }
    let mut plugin_dir = plugins_root.to_owned();
    plugin_dir.append("/");
    plugin_dir.append(plugin_id);
    proof {
        reveal_strlit("/");
        assert(("/")@ =~= seq!['/']);
        assert(plugin_dir@ =~= joined_path(plugins_root@, plugin_id@));
    }
    resolve_sandbox_path(plugin_dir.as_str(), path)
}

/// The path a directory listing goes to:
/// `<plugins_root>/<plugin_id>/<rel_dir>`.  Succeeds exactly when the
/// identifier and the sandbox-relative directory path both validate,
/// an invalid identifier reported first; the entries themselves come
/// back from the host in enumeration order, unfiltered.
pub fn read_plugins_dir_path(plugins_root: &str, plugin_id: &str, rel_dir: &str) -> (r: Result<
    String,
    MediationError,
>)
    ensures
        r is Ok <==> valid_identifier(plugin_id@) && valid_relative_path(rel_dir@),
        r matches Ok(p) ==> p@ == joined_path(joined_path(plugins_root@, plugin_id@), rel_dir@),
        r matches Err(e) ==> e == (if !valid_identifier(plugin_id@) {
            MediationError::InvalidIdentifier
        } else {
            MediationError::InvalidPath
        }),
{
    if !is_safe_id(plugin_id) {
        return Err(MediationError::InvalidIdentifier);
    }
    let mut plugin_dir = plugins_root.to_owned();
    plugin_dir.append("/");
    plugin_dir.append(plugin_id);
    proof {
        reveal_strlit("/");
        assert(("/")@ =~= seq!['/']);
        assert(plugin_dir@ =~= joined_path(plugins_root@, plugin_id@));
    }
    resolve_sandbox_path(plugin_dir.as_str(), rel_dir)
}

} // verus!
