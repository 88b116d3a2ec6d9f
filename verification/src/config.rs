//! Reading the shared configuration document on behalf of the
//! surrounding shell: which key variant wins, what counts as a usable
//! value, and what the fallback is.

use vstd::prelude::*;
use crate::json::JsonValue;
use crate::storage::StorageDoc;

verus! {

/// The boolean a configuration value holds, if it is one.
pub open spec fn bool_of(v: JsonValue) -> Option<bool> {
    match v {
        JsonValue::Bool(b) => Some(b),
        _ => None,
    }
}

/// The string a configuration value holds, if it is one.
pub open spec fn str_of(v: JsonValue) -> Option<Seq<char>> {
    match v {
        JsonValue::Str(s) => Some(s@),
        _ => None,
    }
}

/// The stored autostart preference: the `autoStart` entry where the
/// document has one, else the legacy `auto_start` entry, else none.
/// An entry that is present but not a boolean yields none without
/// falling through to the legacy key.
pub open spec fn spec_auto_start_pref(m: Map<Seq<char>, JsonValue>) -> Option<bool> {
    if m.contains_key(("autoStart")@) {
        bool_of(m[("autoStart")@])
    } else if m.contains_key(("auto_start")@) {
        bool_of(m[("auto_start")@])
    } else {
        None
    }
}

/// Reads the stored autostart preference from the configuration
/// document.
pub fn load_auto_start_pref(cfg: &StorageDoc) -> (r: Option<bool>)
    requires
        cfg.wf(),
    ensures
        r == spec_auto_start_pref(cfg@),
{
    match cfg.get_entry("autoStart") {
        Some(v) => match v {
            JsonValue::Bool(b) => Some(*b),
            _ => None,
        },
        None => match cfg.get_entry("auto_start") {
            Some(v) => match v {
                JsonValue::Bool(b) => Some(*b),
                _ => None,
            },
            None => None,
        },
    }
}

/// The stored wake-shortcut text: the `wakeShortcut` entry where the
/// document holds one as a string, else the legacy `wake_shortcut`
/// entry where that is a string, else the built-in default.
pub open spec fn spec_wake_shortcut_raw(m: Map<Seq<char>, JsonValue>) -> Seq<char> {
    if m.contains_key(("wakeShortcut")@) && str_of(m[("wakeShortcut")@]) is Some {
        str_of(m[("wakeShortcut")@])->0
    } else if m.contains_key(("wake_shortcut")@) && str_of(m[("wake_shortcut")@]) is Some {
        str_of(m[("wake_shortcut")@])->0
    } else {
        ("control+alt+Space")@
    }
}

/// Reads the stored wake-shortcut text from the configuration
/// document; the shell parses it and falls back on its own if it does
/// not name a usable shortcut.
pub fn load_wake_shortcut_raw(cfg: &StorageDoc) -> (r: String)
    requires
        cfg.wf(),
    ensures
        r@ == spec_wake_shortcut_raw(cfg@),
{
    match cfg.get_entry("wakeShortcut") {
        Some(JsonValue::Str(s)) => {
            return s.clone();
        },
        _ => {},
    }
    match cfg.get_entry("wake_shortcut") {
        Some(JsonValue::Str(s)) => {
            return s.clone();
        },
        _ => {},
    }
    "control+alt+Space".to_owned()
}

} // verus!
