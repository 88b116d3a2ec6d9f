//! The plugin registry: which directories under the plugins root count
//! as installed plugins, and the all-or-nothing install plan.
//!
//! The host enumerates directories and performs the writes; which
//! entries are reported, in what order, and which paths an install may
//! touch are decided here, under contract.

use vstd::prelude::*;
use crate::errors::MediationError;
use crate::text::{lex_leq, lemma_lex_total, lemma_lex_trans, str_leq};
use crate::validate::{is_safe_id, valid_identifier, valid_relative_path};

verus! {

/// One directory entry as the host enumerated it: its name and whether
/// it is a directory.
#[derive(Debug)]
pub struct FsDirEntry {
    pub name: String,
    pub is_directory: bool,
}

/// An entry that counts as a plugin: a directory whose name is a
/// valid identifier.
pub open spec fn is_plugin_entry(e: FsDirEntry) -> bool {
    e.is_directory && valid_identifier(e.name@)
}

/// The names of the entries that count as plugins, in enumeration
/// order.
pub open spec fn plugin_names(entries: Seq<FsDirEntry>) -> Seq<Seq<char>>
    decreases entries.len(),
{
    if entries.len() == 0 {
        Seq::empty()
    } else if is_plugin_entry(entries.last()) {
        plugin_names(entries.drop_last()).push(entries.last().name@)
    } else {
        plugin_names(entries.drop_last())
    }
}

/// The views of a sequence of strings.
pub open spec fn views_of(v: Seq<String>) -> Seq<Seq<char>> {
    v.map_values(|s: String| s@)
}

/// Ascending lexicographic order.
pub open spec fn sorted_lex(v: Seq<Seq<char>>) -> bool {
    forall|i: int, j: int| 0 <= i < j < v.len() ==> lex_leq(#[trigger] v[i], #[trigger] v[j])
}

/// Inserts `x` into the sorted vector `out`, keeping it sorted.
fn insert_sorted(out: &mut Vec<String>, x: String)
    requires
        sorted_lex(views_of(old(out)@)),
    ensures
        sorted_lex(views_of(final(out)@)),
        views_of(final(out)@).to_multiset() == views_of(old(out)@).to_multiset().insert(x@),
        forall|p: Seq<char>|
            views_of(final(out)@).contains(p) ==> views_of(old(out)@).contains(p) || p == x@,
{
    let n = out.len();
    let mut k: usize = 0;
    while k < n && str_leq(out[k].as_str(), x.as_str())
        invariant
            n == out@.len(),
            0 <= k <= n,
            forall|j: int| 0 <= j < k ==> lex_leq(views_of(out@)[j], x@),
        decreases n - k,
    {
        k = k + 1;
    }
    proof {
        let vs = views_of(out@);
        assert forall|j: int| k <= j < vs.len() implies lex_leq(x@, vs[j]) by {
            lemma_lex_total(x@, vs[k as int]);
            if j > k {
                lemma_lex_trans(x@, vs[k as int], vs[j]);
            }
        }
    }
    let ghost old_views = views_of(out@);
    out.insert(k, x);
    proof {
        let new_views = views_of(out@);
        assert(new_views =~= old_views.insert(k as int, x@)) by {
            old_views.insert_ensures(k as int, x@);
            assert forall|i: int| 0 <= i < new_views.len() implies new_views[i] == old_views.insert(
                k as int,
                x@,
            )[i] by {
                if i < k {
                } else if i == k {
                } else {
                    assert(out@[i] == old(out)@[i - 1]);
                }
            }
        }
        vstd::seq_lib::to_multiset_insert(old_views, k as int, x@);
        assert(sorted_lex(new_views)) by {
            old_views.insert_ensures(k as int, x@);
            assert forall|i: int, j: int|
                0 <= i < j < new_views.len() implies lex_leq(
                #[trigger] new_views[i],
                #[trigger] new_views[j],
            ) by {
                if j < k {
                } else if i > k {
                    assert(new_views[i] == old_views[i - 1]);
                    assert(new_views[j] == old_views[j - 1]);
                } else if i < k && j == k {
                    assert(new_views[i] == old_views[i]);
                } else if i == k {
                    assert(new_views[j] == old_views[j - 1]);
                } else {
                    assert(new_views[i] == old_views[i]);
                    assert(new_views[j] == old_views[j - 1]);
                }
            }
        }
        assert forall|p: Seq<char>|
            new_views.contains(p) implies old_views.contains(p) || p == x@ by {
            let i = choose|i: int| 0 <= i < new_views.len() && new_views[i] == p;
            if i != k {
                if i < k {
                    assert(old_views[i] == p);
                } else {
                    assert(old_views[i - 1] == p);
                }
            }
        }
    }
}

/// Selects, from the host's enumeration of the plugins root, the
/// installed plugins: exactly the directories whose name is a valid
/// identifier, in ascending lexicographic order.  A directory with an
/// invalid name is never reported.
pub fn list_plugins(entries: &Vec<FsDirEntry>) -> (r: Vec<String>)
    ensures
        sorted_lex(views_of(r@)),
        views_of(r@).to_multiset() == plugin_names(entries@).to_multiset(),
        forall|i: int| 0 <= i < r@.len() ==> valid_identifier(#[trigger] views_of(r@)[i]),
{
    let n = entries.len();
    let mut out: Vec<String> = Vec::new();
    proof {
        assert(plugin_names(entries@.take(0)) =~= views_of(out@)) by {
            assert(entries@.take(0).len() == 0);
        }
    }
    let mut i: usize = 0;
    while i < n
        invariant
            n == entries@.len(),
            0 <= i <= n,
            sorted_lex(views_of(out@)),
            views_of(out@).to_multiset() == plugin_names(entries@.take(i as int)).to_multiset(),
            forall|p: Seq<char>| views_of(out@).contains(p) ==> valid_identifier(p),
        decreases n - i,
    {
        let ghost prev_names = plugin_names(entries@.take(i as int));
        let e = &entries[i];
        proof {
            let s1 = entries@.take(i + 1);
            assert(s1.len() == i + 1);
            assert(s1.drop_last() =~= entries@.take(i as int));
            assert(s1.last() == entries@[i as int]);
        }
        if e.is_directory && is_safe_id(e.name.as_str()) {
            let name = e.name.clone();
            proof {
                assert(is_plugin_entry(entries@[i as int]));
                assert(plugin_names(entries@.take(i + 1)) =~= prev_names.push(e.name@));
                prev_names.to_multiset_ensures();
            }
            insert_sorted(&mut out, name);
        } else {
            proof {
                assert(!is_plugin_entry(entries@[i as int]));
                assert(plugin_names(entries@.take(i + 1)) =~= prev_names);
            }
        }
        i = i + 1;
    }
    proof {
        assert(entries@.take(n as int) =~= entries@);
        assert forall|i2: int| 0 <= i2 < out@.len() implies valid_identifier(
            #[trigger] views_of(out@)[i2],
        ) by {
            assert(views_of(out@).contains(views_of(out@)[i2]));
        }
    }
    out
}

/// The most files one install request may carry.
pub const MAX_INSTALL_FILES: usize = 256;

/// The most bytes, summed over all files, one install request may
/// carry.
pub const MAX_INSTALL_BYTES: u64 = 10 * 1024 * 1024;

/// One file of an install request: a sandbox-relative path and its
/// content.
#[derive(Debug)]
pub struct PluginWriteFile {
    pub path: String,
    pub bytes: Vec<u8>,
}

/// The total byte size of an install request.
pub open spec fn install_size_of(files: Seq<PluginWriteFile>) -> int
    decreases files.len(),
{
    if files.len() == 0 {
        0
    } else {
        install_size_of(files.drop_last()) + files.last().bytes@.len()
    }
}

proof fn lemma_install_size_take_succ(files: Seq<PluginWriteFile>, i: int)
    requires
        0 <= i < files.len(),
    ensures
        install_size_of(files.take(i + 1)) == install_size_of(files.take(i)) + files[i].bytes@.len(),
{
    assert(files.take(i + 1).drop_last() =~= files.take(i));
    assert(files.take(i + 1).last() == files[i]);
}

proof fn lemma_install_size_mono(files: Seq<PluginWriteFile>, i: int)
    requires
        0 <= i <= files.len(),
    ensures
        install_size_of(files.take(i)) <= install_size_of(files),
    decreases files.len() - i,
{
    if i == files.len() {
        assert(files.take(i) =~= files);
    } else {
        lemma_install_size_take_succ(files, i);
        lemma_install_size_mono(files, i + 1);
    }
}

/// The name of the staging directory an install uses: a dot-prefixed
/// name derived from the identifier and a caller-supplied stamp, so it
/// is never a valid plugin directory name.
pub open spec fn staging_name_spec(plugin_id: Seq<char>, stamp: nat) -> Seq<char> {
    ".tmp-install-"@ + plugin_id + "-"@ + crate::text::dec_str(stamp)
}

/// The checks an install request must pass before any filesystem
/// effect, in order, and the error each failure reports.
pub open spec fn install_reject(
    plugin_id: Seq<char>,
    overwrite: bool,
    target_exists: bool,
    files: Seq<PluginWriteFile>,
) -> Option<MediationError> {
    if !valid_identifier(plugin_id) {
        Some(MediationError::InvalidIdentifier)
    } else if files.len() == 0 {
        Some(MediationError::EmptyFileSet)
    } else if files.len() > MAX_INSTALL_FILES {
        Some(MediationError::TooLarge)
    } else if install_size_of(files) > MAX_INSTALL_BYTES {
        Some(MediationError::TooLarge)
    } else if target_exists && !overwrite {
        Some(MediationError::AlreadyExists)
    } else if exists|i: int| 0 <= i < files.len() && !valid_relative_path((#[trigger] files[i]).path@) {
        Some(MediationError::InvalidPath)
    } else {
        None
    }
}

/// The filesystem work one approved install may perform: stage every
/// file under the staging directory, then promote the staging
/// directory to the target directory by a single rename.
#[derive(Debug)]
pub struct InstallPlan {
    /// The directory all writes go to, under the plugins root.
    pub staging_dir: String,
    /// The plugin directory the staging directory is renamed onto.
    pub target_dir: String,
    /// The full path each file's bytes are written to, one per file,
    /// in file order.
    pub staged_paths: Vec<String>,
    /// The files as submitted, paths validated.
    pub files: Vec<PluginWriteFile>,
}

/// What `install_plugin_files` promises of an approved plan.
pub open spec fn install_plan_ok(
    plan: InstallPlan,
    plugins_root: Seq<char>,
    plugin_id: Seq<char>,
    files: Seq<PluginWriteFile>,
    stamp: nat,
) -> bool {
    &&& plan.target_dir@ == plugins_root + seq!['/'] + plugin_id
    &&& plan.staging_dir@ == plugins_root + seq!['/'] + staging_name_spec(plugin_id, stamp)
    &&& plan.files@ == files
    &&& plan.staged_paths@.len() == files.len()
    &&& forall|i: int|
        0 <= i < files.len() ==> (#[trigger] plan.staged_paths@[i])@ == plan.staging_dir@
            + seq!['/'] + files[i].path@
    &&& forall|i: int| 0 <= i < files.len() ==> valid_relative_path((#[trigger] files[i]).path@)
}

/// Validates an install request and, if every pre-flight check passes,
/// returns the plan of writes: all of them inside a fresh staging
/// directory, none touching any plugin directory.  Every rejection
/// happens before the host performs any filesystem effect.
pub fn install_plugin_files(
    plugins_root: &str,
    plugin_id: &str,
    overwrite: bool,
    target_exists: bool,
    files: Vec<PluginWriteFile>,
    stamp: u64,
) -> (r: Result<InstallPlan, MediationError>)
    ensures
        r is Err <==> install_reject(plugin_id@, overwrite, target_exists, files@) is Some,
        r matches Err(e) ==> install_reject(plugin_id@, overwrite, target_exists, files@) == Some(
            e,
        ),
        r matches Ok(plan) ==> install_plan_ok(
            plan,
            plugins_root@,
            plugin_id@,
            files@,
            stamp as nat,
        ),
{
    if !is_safe_id(plugin_id) {
        return Err(MediationError::InvalidIdentifier);
    }
    let n = files.len();
    if n == 0 {
        return Err(MediationError::EmptyFileSet);
    }
    if n > MAX_INSTALL_FILES {
        return Err(MediationError::TooLarge);
    }
    let mut total: u64 = 0;
    let mut i: usize = 0;
    proof {
        assert(files@.take(0) =~= Seq::<PluginWriteFile>::empty());
    }
    while i < n
        invariant
            n == files@.len(),
            0 <= i <= n,
            valid_identifier(plugin_id@),
            0 < n <= MAX_INSTALL_FILES,
            total == install_size_of(files@.take(i as int)),
            total <= MAX_INSTALL_BYTES,
        decreases n - i,
    {
        let l: usize = files[i].bytes.len();
        proof {
            lemma_install_size_take_succ(files@, i as int);
        }
        if (l as u64) > MAX_INSTALL_BYTES - total {
            proof {
                lemma_install_size_mono(files@, i as int + 1);
            }
            return Err(MediationError::TooLarge);
        }
        total = total + (l as u64);
        i = i + 1;
    }
    proof {
        assert(files@.take(n as int) =~= files@);
    }
    if target_exists && !overwrite {
        return Err(MediationError::AlreadyExists);
    }
    let mut j: usize = 0;
    while j < n
        invariant
            n == files@.len(),
            0 <= j <= n,
            valid_identifier(plugin_id@),
            0 < n <= MAX_INSTALL_FILES,
            install_size_of(files@) <= MAX_INSTALL_BYTES,
            !(target_exists && !overwrite),
            forall|k: int| 0 <= k < j ==> valid_relative_path((#[trigger] files@[k]).path@),
        decreases n - j,
    {
        match crate::validate::safe_relative_path(files[j].path.as_str()) {
            Ok(_) => {},
            Err(_) => {
                assert(!valid_relative_path(files@[j as int].path@));
                return Err(MediationError::InvalidPath);
            },
        }
        j = j + 1;
    }
    let mut sname = ".tmp-install-".to_owned();
    sname.append(plugin_id);
    sname.append("-");
    let stamp_str = crate::text::u64_to_dec(stamp);
    sname.append(stamp_str.as_str());
    proof {
        reveal_strlit("-");
        assert(("-")@ =~= seq!['-']);
        assert(sname@ =~= staging_name_spec(plugin_id@, stamp as nat)) by {
            assert(("-")@ == seq!['-']);
        }
    }
    let mut staging_dir = plugins_root.to_owned();
    staging_dir.append("/");
    staging_dir.append(sname.as_str());
    let mut target_dir = plugins_root.to_owned();
    target_dir.append("/");
    target_dir.append(plugin_id);
    proof {
        reveal_strlit("/");
        assert(("/")@ =~= seq!['/']);
        assert(staging_dir@ =~= plugins_root@ + seq!['/'] + staging_name_spec(
            plugin_id@,
            stamp as nat,
        ));
        assert(target_dir@ =~= plugins_root@ + seq!['/'] + plugin_id@);
    }
    let mut staged_paths: Vec<String> = Vec::new();
    let mut k: usize = 0;
    while k < n
        invariant
            n == files@.len(),
            0 <= k <= n,
            staged_paths@.len() == k,
            forall|idx: int|
                0 <= idx < k ==> (#[trigger] staged_paths@[idx])@ == staging_dir@ + seq!['/']
                    + files@[idx].path@,
        decreases n - k,
    {
        let mut p = staging_dir.clone();
        p.append("/");
        p.append(files[k].path.as_str());
        proof {
            reveal_strlit("/");
            assert(("/")@ =~= seq!['/']);
            assert(p@ =~= staging_dir@ + seq!['/'] + files@[k as int].path@);
        }
        staged_paths.push(p);
        k = k + 1;
    }
    Ok(InstallPlan { staging_dir, target_dir, staged_paths, files })
}

/// A filesystem, modeled as the contents under each file path, after
/// the first `k` staged writes of a plan.
pub open spec fn apply_staged(
    fs: Map<Seq<char>, Seq<u8>>,
    plan: InstallPlan,
    k: int,
) -> Map<Seq<char>, Seq<u8>>
    decreases k,
{
    if k <= 0 {
        fs
    } else {
        apply_staged(fs, plan, k - 1).insert(plan.staged_paths@[k - 1]@, plan.files@[k - 1].bytes@)
    }
}

/// Law: an aborted install leaves every plugin untouched.  However
/// many of the staged writes have happened when the process dies —
/// any prefix of the plan — the filesystem still holds, at the
/// directory of every valid plugin identifier and at every path
/// inside one, exactly what it held before: the staged writes all
/// land under the dot-named staging directory, which no plugin
/// directory path can reach.
pub proof fn lemma_aborted_install_preserves_plugins(
    fs: Map<Seq<char>, Seq<u8>>,
    plan: InstallPlan,
    plugins_root: Seq<char>,
    plugin_id: Seq<char>,
    files: Seq<PluginWriteFile>,
    stamp: nat,
    other_id: Seq<char>,
    k: int,
    p: Seq<char>,
)
    requires
        install_plan_ok(plan, plugins_root, plugin_id, files, stamp),
        valid_identifier(other_id),
        0 <= k <= plan.staged_paths@.len(),
        p == plugins_root + seq!['/'] + other_id || (plugins_root + seq!['/'] + other_id
            + seq!['/']).is_prefix_of(p),
    ensures
        apply_staged(fs, plan, k).contains_key(p) == fs.contains_key(p),
        fs.contains_key(p) ==> apply_staged(fs, plan, k)[p] == fs[p],
    decreases k,
{
    if k > 0 {
        lemma_aborted_install_preserves_plugins(
            fs,
            plan,
            plugins_root,
            plugin_id,
            files,
            stamp,
            other_id,
            k - 1,
            p,
        );
        lemma_install_touches_only_staging(
            plan,
            plugins_root,
            plugin_id,
            files,
            stamp,
            other_id,
            k - 1,
        );
        let w = plan.staged_paths@[k - 1]@;
        let target = plugins_root + seq!['/'] + other_id;
        let r = plugins_root.len() as int;
        reveal_strlit(".tmp-install-");
        assert(w != p) by {
            assert(w[r + 1] == '.') by {
                assert(w == plan.staging_dir@ + seq!['/'] + files[k - 1].path@);
                assert(staging_name_spec(plugin_id, stamp)[0] == '.');
            }
            if p == target {
                assert(p[r + 1] == other_id[0]);
                assert(crate::validate::is_id_char(other_id[0]));
                assert('.' as u32 == 46);
            } else {
                assert((target + seq!['/']).is_prefix_of(p));
                assert(p[r + 1] == (target + seq!['/'])[r + 1]);
                assert(p[r + 1] == other_id[0]);
                assert(crate::validate::is_id_char(other_id[0]));
                assert('.' as u32 == 46);
            }
        }
    }
}

/// Law: until the one promoting rename, an install touches nothing of
/// any plugin.  Every staged write path, and the staging directory
/// itself, differs from the directory of every valid plugin
/// identifier and lies outside it — in particular outside the install's
/// own target — so a reader of any plugin directory sees either its
/// complete old contents or, after the rename, the complete new file
/// set, never a partial one.
pub proof fn lemma_install_touches_only_staging(
    plan: InstallPlan,
    plugins_root: Seq<char>,
    plugin_id: Seq<char>,
    files: Seq<PluginWriteFile>,
    stamp: nat,
    other_id: Seq<char>,
    i: int,
)
    requires
        install_plan_ok(plan, plugins_root, plugin_id, files, stamp),
        valid_identifier(other_id),
        0 <= i < plan.staged_paths@.len(),
    ensures
        plan.staging_dir@ != plugins_root + seq!['/'] + other_id,
        plan.staged_paths@[i]@ != plugins_root + seq!['/'] + other_id,
        !(plugins_root + seq!['/'] + other_id + seq!['/']).is_prefix_of(plan.staged_paths@[i]@),
{
    reveal_strlit(".tmp-install-");
    let r = plugins_root.len() as int;
    let target = plugins_root + seq!['/'] + other_id;
    let s = plan.staging_dir@;
    let w = plan.staged_paths@[i]@;
    assert(s[r + 1] == '.') by {
        assert(staging_name_spec(plugin_id, stamp)[0] == '.');
    }
    assert(w[r + 1] == '.') by {
        assert(w == s + seq!['/'] + files[i].path@);
        assert(w[r + 1] == s[r + 1]);
    }
    assert(target[r + 1] == other_id[0]);
    assert(crate::validate::is_id_char(other_id[0]));
    assert(other_id[0] != '.') by {
        assert('.' as u32 == 46);
    }
    assert(s != target);
    assert(w != target);
    let tslash = target + seq!['/'];
    assert(!tslash.is_prefix_of(w)) by {
        if tslash.is_prefix_of(w) {
            assert(tslash[r + 1] == w[r + 1]);
        }
    }
}

} // verus!
