//! Autostart bookkeeping: parsing and rewriting the launch command
//! registered under the system's run key, and the run key itself as
//! the mediation layer models it.
//!
//! The run key is operating-system state the host reads and writes;
//! the model holds what the logic reads of it — the named values and
//! their commands — so every decision about them is verified.  The
//! host mirrors each model change to the real key.

use vstd::prelude::*;
use crate::json::JsonValue;
use crate::storage::StorageDoc;
use crate::assoc::{
    lemma_map_of_contains, lemma_map_of_index, lemma_map_of_push, lemma_map_of_remove,
    lemma_map_of_update, map_of, unique_keys,
};
use crate::text::{
    ascii_lower, contains_seq, contains_str, find_char, find_ws, first_index_of, first_ws_index,
    lemma_first_index_of, lemma_first_ws_index, lower_chars, push_char, str_eq, trim_spec,
    trim_str,
};

verus! {

/// What `split_command` yields: the executable part and the argument
/// part of a registered launch command.  A command that starts with a
/// quote and holds a closing quote is split at the quotes; otherwise
/// it is split at the first whitespace; otherwise it is all
/// executable.
pub open spec fn split_command_spec(cmd: Seq<char>) -> (Seq<char>, Seq<char>) {
    let t = trim_spec(cmd);
    if t.len() > 0 && t[0] == '"' && first_index_of(t.drop_first(), '"') < t.drop_first().len() {
        let rest = t.drop_first();
        let e = first_index_of(rest, '"');
        (rest.take(e), trim_spec(rest.skip(e + 1)))
    } else if first_ws_index(t) < t.len() {
        let w = first_ws_index(t);
        (t.take(w), trim_spec(t.skip(w)))
    } else {
        (t, Seq::empty())
    }
}

/// Splits a registered launch command into its executable and its
/// arguments.
pub fn split_command(cmd: &str) -> (r: (String, String))
    ensures
        r.0@ == split_command_spec(cmd@).0,
        r.1@ == split_command_spec(cmd@).1,
{
    let t = trim_str(cmd);
    let n = t.unicode_len();
    if n > 0 && t.get_char(0) == '"' {
        let rest = t.substring_char(1, n);
        proof {
            assert(rest@ =~= t@.drop_first());
            lemma_first_index_of(rest@, '"');
        }
        let q = find_char(rest, '"');
        if q < n - 1 {
            let exe = rest.substring_char(0, q).to_owned();
            let args = trim_str(rest.substring_char(q + 1, n - 1)).to_owned();
            proof {
                assert(exe@ =~= t@.drop_first().take(q as int));
                assert(rest@.subrange(q + 1, n - 1) =~= t@.drop_first().skip(q + 1));
            }
            return (exe, args);
        }
    }
    proof {
        lemma_first_ws_index(t@);
    }
    let w = find_ws(t);
    if w < n {
        let exe = t.substring_char(0, w).to_owned();
        let args = trim_str(t.substring_char(w, n)).to_owned();
        proof {
            assert(exe@ =~= t@.take(w as int));
            assert(t@.subrange(w as int, n as int) =~= t@.skip(w as int));
        }
        return (exe, args);
    }
    (t.to_owned(), String::new())
}

/// When a registered executable path should be rewritten to the
/// running executable: the registered path is non-blank, and either
/// it no longer exists on disk or it points into a build tree.
pub open spec fn spec_should_rewrite(existing_exe: Seq<char>, exe_exists: bool) -> bool {
    if trim_spec(existing_exe).len() == 0 {
        false
    } else if !exe_exists {
        true
    } else {
        let lower = lower_chars(existing_exe);
        ||| contains_seq(lower, ("\\target\\debug\\")@)
        ||| contains_seq(lower, ("/target/debug/")@)
        ||| contains_seq(lower, ("\\target\\release\\")@)
        ||| contains_seq(lower, ("/target/release/")@)
    }
}

/// Decides whether a registered executable path should be rewritten
/// to the running executable.  `exe_exists` says whether the
/// registered path exists on disk, as the host found it.
pub fn should_rewrite_to_current_exe(existing_exe: &str, exe_exists: bool) -> (r: bool)
    ensures
        r == spec_should_rewrite(existing_exe@, exe_exists),
{
    let t = trim_str(existing_exe);
    if t.unicode_len() == 0 {
        return false;
    }
    if !exe_exists {
        return true;
    }
    let lower = ascii_lower(existing_exe);
    contains_str(lower.as_str(), "\\target\\debug\\") || contains_str(
        lower.as_str(),
        "/target/debug/",
    ) || contains_str(lower.as_str(), "\\target\\release\\") || contains_str(
        lower.as_str(),
        "/target/release/",
    )
}

/// The launch command that registers `exe` with the given arguments:
/// the executable quoted, the arguments appended after one space when
/// there are any.
pub open spec fn quoted_command(exe: Seq<char>, args: Seq<char>) -> Seq<char> {
    if args.len() == 0 {
        seq!['"'] + exe + seq!['"']
    } else {
        seq!['"'] + exe + seq!['"', ' '] + args
    }
}

/// A registered command should be replaced: its executable calls for
/// a rewrite and is not already the running executable, compared
/// case-insensitively.
pub open spec fn rewrite_needed(existing: Seq<char>, current_exe: Seq<char>, exe_exists: bool) -> bool {
    let exe = split_command_spec(existing).0;
    &&& spec_should_rewrite(exe, exe_exists)
    &&& lower_chars(exe) != lower_chars(current_exe)
}

/// The command a rewrite installs: the running executable, quoted,
/// with the registered command's arguments kept.
pub open spec fn rewritten_command(existing: Seq<char>, current_exe: Seq<char>) -> Seq<char> {
    quoted_command(current_exe, split_command_spec(existing).1)
}

/// Decides whether a registered launch command must be rewritten to
/// point at the running executable and, if so, returns the
/// replacement: the current executable quoted, the old arguments
/// kept.  `exe_exists` says whether the executable the registered
/// command names exists on disk, as the host found it.
pub fn rewrite_run_command(existing: &str, current_exe: &str, exe_exists: bool) -> (r: Option<
    String,
>)
    ensures
        r is Some <==> rewrite_needed(existing@, current_exe@, exe_exists),
        r matches Some(s) ==> s@ == rewritten_command(existing@, current_exe@),
{
    let (exe, args) = split_command(existing);
    if !should_rewrite_to_current_exe(exe.as_str(), exe_exists) {
        return None;
    }
    let le = ascii_lower(exe.as_str());
    let lc = ascii_lower(current_exe);
    if str_eq(le.as_str(), lc.as_str()) {
        return None;
    }
    let mut out = String::new();
    push_char(&mut out, '"');
    out.append(current_exe);
    push_char(&mut out, '"');
    if args.as_str().unicode_len() > 0 {
        push_char(&mut out, ' ');
        out.append(args.as_str());
    }
    proof {
        assert(out@ =~= rewritten_command(existing@, current_exe@));
    }
    Some(out)
}

/// The autostart run key as the mediation layer models it: each named
/// value and the launch command registered under it.
pub struct RunKey {
    values: Vec<(String, String)>,
}

impl View for RunKey {
    type V = Map<Seq<char>, Seq<char>>;

    closed spec fn view(&self) -> Map<Seq<char>, Seq<char>> {
        map_of(self.values@).map_values(|v: String| v@)
    }
}

impl RunKey {
    /// The key's value names are pairwise distinct.
    pub closed spec fn wf(&self) -> bool {
        unique_keys(self.values@)
    }

    /// A key with no values.
    pub fn new() -> (r: RunKey)
        ensures
            r.wf(),
            r@ == Map::<Seq<char>, Seq<char>>::empty(),
    {
        let r = RunKey { values: Vec::new() };
        proof {
            assert(r@ =~= Map::<Seq<char>, Seq<char>>::empty());
        }
        r
    }

    fn find_index(&self, name: &str) -> (r: Option<usize>)
        ensures
            r matches Some(i) ==> i < self.values@.len() && self.values@[i as int].0@ == name@,
            r is None ==> forall|i: int|
                0 <= i < self.values@.len() ==> (#[trigger] self.values@[i]).0@ != name@,
    {
        let n = self.values.len();
        let mut i: usize = 0;
        while i < n
            invariant
                n == self.values@.len(),
                0 <= i <= n,
                forall|j: int| 0 <= j < i ==> (#[trigger] self.values@[j]).0@ != name@,
            decreases n - i,
        {
            if str_eq(self.values[i].0.as_str(), name) {
                return Some(i);
            }
            i = i + 1;
        }
        None
    }

    /// The command registered under one value name.
    pub fn get_value<'a>(&'a self, name: &str) -> (r: Option<&'a String>)
        requires
            self.wf(),
        ensures
            r is Some <==> self@.contains_key(name@),
            r matches Some(v) ==> v@ == self@[name@],
    {
        proof {
            lemma_map_of_contains(self.values@, name@);
        }
        match self.find_index(name) {
            Some(i) => {
                proof {
                    lemma_map_of_index(self.values@, i as int);
                }
                Some(&self.values[i].1)
            },
            None => None,
        }
    }

    /// Registers a command under one value name, replacing any earlier
    /// one.
    pub fn set_value(&mut self, name: String, command: String)
        requires
            old(self).wf(),
        ensures
            final(self).wf(),
            final(self)@ == old(self)@.insert(name@, command@),
    {
        match self.find_index(name.as_str()) {
            Some(i) => {
                proof {
                    lemma_map_of_update(self.values@, i as int, (name, command));
                }
                self.values[i] = (name, command);
            },
            None => {
                proof {
                    lemma_map_of_push(self.values@, (name, command));
                }
                self.values.push((name, command));
            },
        }
        proof {
            assert(final(self)@ =~= old(self)@.insert(name@, command@));
        }
    }

    /// Removes one value name; an absent name is left as it is.
    pub fn delete_value(&mut self, name: &str)
        requires
            old(self).wf(),
        ensures
            final(self).wf(),
            final(self)@ == old(self)@.remove(name@),
    {
        match self.find_index(name) {
            Some(i) => {
                proof {
                    lemma_map_of_remove(self.values@, i as int);
                }
                self.values.remove(i);
            },
            None => {
                proof {
                    lemma_map_of_contains(self.values@, name@);
                }
            },
        }
        proof {
            assert(final(self)@ =~= old(self)@.remove(name@));
        }
    }
}

/// Whether autostart is enabled: the run key holds the value name.
pub fn is_enabled(key: &RunKey, value_name: &str) -> (r: bool)
    requires
        key.wf(),
    ensures
        r == key@.contains_key(value_name@),
{
    key.get_value(value_name).is_some()
}

/// Enables or disables autostart: registers `command` under the value
/// name, or removes the name; removing an absent name succeeds.
/// Returns whether autostart is enabled afterwards, which follows the
/// request exactly.
pub fn set_enabled(key: &mut RunKey, value_name: &str, enabled: bool, command: String) -> (r: bool)
    requires
        old(key).wf(),
    ensures
        final(key).wf(),
        enabled ==> final(key)@ == old(key)@.insert(value_name@, command@),
        !enabled ==> final(key)@ == old(key)@.remove(value_name@),
        r == final(key)@.contains_key(value_name@),
        r == enabled,
{
    if enabled {
        key.set_value(value_name.to_owned(), command);
        is_enabled(key, value_name)
    } else {
        key.delete_value(value_name);
        is_enabled(key, value_name)
    }
}

/// Applies an autostart change: registers `command` under the value
/// name or removes the name, and records the preference under the
/// `autoStart` key of the configuration document.  Returns whether
/// autostart is enabled afterwards, which follows the request
/// exactly.  The host mirrors the key change to the system and
/// persists the document; if persisting fails it restores the key's
/// previous state.
pub fn set_auto_start(
    key: &mut RunKey,
    cfg: &mut StorageDoc,
    value_name: &str,
    enabled: bool,
    command: String,
) -> (r: bool)
    requires
        old(key).wf(),
        old(cfg).wf(),
    ensures
        final(key).wf(),
        final(cfg).wf(),
        enabled ==> final(key)@ == old(key)@.insert(value_name@, command@),
        !enabled ==> final(key)@ == old(key)@.remove(value_name@),
        final(cfg)@ == old(cfg)@.insert(("autoStart")@, JsonValue::Bool(enabled)),
        r == enabled,
{
    let r = set_enabled(key, value_name, enabled, command);
    cfg.set_entry("autoStart".to_owned(), JsonValue::Bool(enabled));
    r
}

/// Repairs a stale autostart registration: if the value name is
/// registered and its command calls for a rewrite, replaces it with
/// the running executable's command, keeping the old arguments; in
/// every other case the key is left as it is.  `exe_exists` says
/// whether the executable named by the registered command exists on
/// disk, as the host found it.
pub fn ensure_enabled_points_to_current_exe(
    key: &mut RunKey,
    value_name: &str,
    current_exe: &str,
    exe_exists: bool,
)
    requires
        old(key).wf(),
    ensures
        final(key).wf(),
        !old(key)@.contains_key(value_name@) ==> final(key)@ == old(key)@,
        old(key)@.contains_key(value_name@) && !rewrite_needed(
            old(key)@[value_name@],
            current_exe@,
            exe_exists,
        ) ==> final(key)@ == old(key)@,
        old(key)@.contains_key(value_name@) && rewrite_needed(
            old(key)@[value_name@],
            current_exe@,
            exe_exists,
        ) ==> final(key)@ == old(key)@.insert(
            value_name@,
            rewritten_command(old(key)@[value_name@], current_exe@),
        ),
{
    let existing: String = match key.get_value(value_name) {
        Some(v) => v.clone(),
        None => {
            return ;
        },
    };
    match rewrite_run_command(existing.as_str(), current_exe, exe_exists) {
        Some(next) => {
            key.set_value(value_name.to_owned(), next);
        },
        None => {},
    }
}

} // verus!
