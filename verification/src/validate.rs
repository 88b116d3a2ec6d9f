//! Identifier and sandbox-path validation.
//!
//! These are the pure choke points every filesystem-facing operation must
//! pass through: no other component may build a filesystem path from a
//! plugin-supplied string.

use vstd::prelude::*;
use crate::errors::MediationError;

verus! {

/// A character a plugin identifier may hold: an ASCII letter, an ASCII
/// digit, `-` or `_`.
pub open spec fn is_id_char(c: char) -> bool {
    ||| 'a' as u32 <= c as u32 && c as u32 <= 'z' as u32
    ||| 'A' as u32 <= c as u32 && c as u32 <= 'Z' as u32
    ||| '0' as u32 <= c as u32 && c as u32 <= '9' as u32
    ||| c == '-'
    ||| c == '_'
}

/// A plugin identifier is valid iff it is non-empty and every character
/// is an identifier character.
pub open spec fn valid_identifier(s: Seq<char>) -> bool {
    s.len() > 0 && forall|i: int| 0 <= i < s.len() ==> is_id_char(#[trigger] s[i])
}

/// Decides whether `id` is safe to use as a plugin directory name and as
/// a storage-file stem.
pub fn is_safe_id(id: &str) -> (r: bool)
    ensures
        r == valid_identifier(id@),
{
    let n = id.unicode_len();
    if n == 0 {
        return false;
    }
    let mut i: usize = 0;
    while i < n
        invariant
            n == id@.len(),
            0 <= i <= n,
            forall|j: int| 0 <= j < i ==> is_id_char(#[trigger] id@[j]),
        decreases n - i,
    {
        let c = id.get_char(i);
        let u = c as u32;
        let ok = (97 <= u && u <= 122) || (65 <= u && u <= 90) || (48 <= u && u <= 57)
            || c == '-' || c == '_';
        if !ok {
            return false;
        }
        i = i + 1;
    }
    true
}

/// A path separator.  Both separators in use on the supported platforms
/// are treated as such, so a traversal spelled with either one is caught.
pub open spec fn is_sep(c: char) -> bool {
    c == '/' || c == '\\'
}

/// A parent-directory component `..` begins at position `i` of `s`:
/// two dots bounded by separators or by the ends of the string.
pub open spec fn parent_at(s: Seq<char>, i: int) -> bool {
    &&& 0 <= i
    &&& i + 2 <= s.len()
    &&& s[i] == '.'
    &&& s[i + 1] == '.'
    &&& (i == 0 || is_sep(s[i - 1]))
    &&& (i + 2 == s.len() || is_sep(s[i + 2]))
}

/// The path holds a parent-directory component somewhere.
pub open spec fn has_parent_component(s: Seq<char>) -> bool {
    exists|i: int| parent_at(s, i)
}

/// An ASCII letter.
pub open spec fn is_ascii_letter(c: char) -> bool {
    ||| 'a' as u32 <= c as u32 && c as u32 <= 'z' as u32
    ||| 'A' as u32 <= c as u32 && c as u32 <= 'Z' as u32
}

/// The path starts with a drive prefix — a letter and a colon — which
/// the platform's path reader parses as a prefix component, not a
/// normal one, and which would make the path absolute or
/// drive-relative.  A colon anywhere else is part of a normal
/// component and is permitted.
pub open spec fn has_drive_prefix(s: Seq<char>) -> bool {
    s.len() >= 2 && is_ascii_letter(s[0]) && s[1] == ':'
}

/// A sandbox-relative path is valid iff it does not start with a
/// separator or a drive prefix and holds no parent-directory
/// component.  Current-directory components and normal components are
/// permitted, the empty path included.
pub open spec fn valid_relative_path(s: Seq<char>) -> bool {
    &&& s.len() > 0 ==> !is_sep(s[0])
    &&& !has_parent_component(s)
    &&& !has_drive_prefix(s)
}

/// Validates a plugin-supplied relative path and returns it unchanged.
///
/// Accepts exactly the strings that are neither absolute nor traversing:
/// no leading separator, no drive prefix, no `..` component.
pub fn safe_relative_path(rel: &str) -> (r: Result<String, MediationError>)
    ensures
        r is Ok <==> valid_relative_path(rel@),
        r matches Ok(p) ==> p@ == rel@,
        r matches Err(e) ==> e == MediationError::InvalidPath,
{
    let n = rel.unicode_len();
    if n > 0 {
        let c0 = rel.get_char(0);
        if c0 == '/' || c0 == '\\' {
            return Err(MediationError::InvalidPath);
        }
        let u0 = c0 as u32;
        if n >= 2 && ((97 <= u0 && u0 <= 122) || (65 <= u0 && u0 <= 90)) && rel.get_char(1)
            == ':' {
            return Err(MediationError::InvalidPath);
        }
    }
    let mut start: usize = 0;
    let mut i: usize = 0;
    while i < n
        invariant
            n == rel@.len(),
            0 <= start <= i <= n,
            start == 0 || (start >= 1 && is_sep(rel@[start as int - 1])),
            forall|k: int| start <= k < i ==> !is_sep(#[trigger] rel@[k]),
            forall|j: int| parent_at(rel@, j) ==> j >= start,
        decreases n - i,
    {
        let c = rel.get_char(i);
        if c == '/' || c == '\\' {
            if i - start == 2 && rel.get_char(start) == '.' && rel.get_char(start + 1) == '.' {
                assert(parent_at(rel@, start as int));
                return Err(MediationError::InvalidPath);
            }
            start = i + 1;
        }
        i = i + 1;
    }
    if n - start == 2 && rel.get_char(start) == '.' && rel.get_char(start + 1) == '.' {
        assert(parent_at(rel@, start as int));
        return Err(MediationError::InvalidPath);
    }
    assert(!has_parent_component(rel@)) by {
        assert forall|j: int| !parent_at(rel@, j) by {
            if parent_at(rel@, j) {
                assert(j >= start);
                assert(j == start || is_sep(rel@[j - 1]));
                assert(j + 2 == n || is_sep(rel@[j + 2]));
            }
        }
    }
    Ok(rel.to_owned())
}

/// What joining a root with a relative path yields: the root, one
/// separator, then the relative path.
pub open spec fn joined_path(root: Seq<char>, rel: Seq<char>) -> Seq<char> {
    root + seq!['/'] + rel
}

/// Resolves a plugin-supplied relative path against a sandbox root.
///
/// The single choke point for turning plugin input into a filesystem
/// path: succeeds exactly on valid relative paths, and then returns the
/// root joined with the path as given, so the result stays confined to
/// the root.
pub fn resolve_sandbox_path(root: &str, rel: &str) -> (r: Result<String, MediationError>)
    ensures
        r is Ok <==> valid_relative_path(rel@),
        r matches Ok(p) ==> p@ == joined_path(root@, rel@),
        r matches Err(e) ==> e == MediationError::InvalidPath,
{
    match safe_relative_path(rel) {
        Ok(_) => {
            let mut out = root.to_owned();
            out.append("/");
            out.append(rel);
            proof {
                reveal_strlit("/");
                assert(("/")@ =~= seq!['/']);
                assert(out@ =~= joined_path(root@, rel@));
            }
            Ok(out)
        },
        Err(e) => Err(e),
    }
}

} // verus!
