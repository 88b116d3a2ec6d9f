//! The per-plugin key-value store: one JSON document per plugin
//! identifier, mutated only by whole-document read-modify-write.
//!
//! The host reads and writes the document file; everything between —
//! locating the file, interpreting its text, applying one mutation,
//! serializing the result — happens here, under contract.

use vstd::prelude::*;
use crate::assoc::{lemma_map_of_contains, lemma_map_of_index, lemma_map_of_push,
    lemma_map_of_remove, lemma_map_of_update, map_of, unique_keys};
use crate::errors::MediationError;
use crate::json::{canonical_value, value_depth_le, JsonValue};
use crate::validate::{is_safe_id, valid_identifier};
use crate::text::str_eq;

verus! {

/// One plugin's storage document: its entries, keyed uniquely.
pub struct StorageDoc {
    entries: Vec<(String, JsonValue)>,
}

impl View for StorageDoc {
    type V = Map<Seq<char>, JsonValue>;

    closed spec fn view(&self) -> Map<Seq<char>, JsonValue> {
        map_of(self.entries@)
    }
}

impl StorageDoc {
    /// The document's keys are pairwise distinct.
    pub closed spec fn wf(&self) -> bool {
        unique_keys(self.entries@)
    }

    /// The empty document.
    pub fn new() -> (r: StorageDoc)
        ensures
            r.wf(),
            r@ == Map::<Seq<char>, JsonValue>::empty(),
    {
        StorageDoc { entries: Vec::new() }
    }

    fn find_index(&self, key: &str) -> (r: Option<usize>)
        ensures
            r matches Some(i) ==> i < self.entries@.len() && self.entries@[i as int].0@ == key@,
            r is None ==> forall|i: int|
                0 <= i < self.entries@.len() ==> (#[trigger] self.entries@[i]).0@ != key@,
    {
        let n = self.entries.len();
        let mut i: usize = 0;
        while i < n
            invariant
                n == self.entries@.len(),
                0 <= i <= n,
                forall|j: int| 0 <= j < i ==> (#[trigger] self.entries@[j]).0@ != key@,
            decreases n - i,
        {
            if str_eq(self.entries[i].0.as_str(), key) {
                return Some(i);
            }
            i = i + 1;
        }
        None
    }

    /// Looks one key up.
    pub fn get_entry<'a>(&'a self, key: &str) -> (r: Option<&'a JsonValue>)
        requires
            self.wf(),
        ensures
            r is Some <==> self@.contains_key(key@),
            r matches Some(v) ==> *v == self@[key@],
    {
        proof {
            lemma_map_of_contains(self.entries@, key@);
        }
        match self.find_index(key) {
            Some(i) => {
                proof {
                    lemma_map_of_index(self.entries@, i as int);
                }
                Some(&self.entries[i].1)
            },
            None => None,
        }
    }

    /// Binds one key to one value, replacing any earlier binding.
    pub fn set_entry(&mut self, key: String, value: JsonValue)
        requires
            old(self).wf(),
        ensures
            final(self).wf(),
            final(self)@ == old(self)@.insert(key@, value),
    {
        match self.find_index(key.as_str()) {
            Some(i) => {
                proof {
                    lemma_map_of_update(self.entries@, i as int, (key, value));
                }
                self.entries[i] = (key, value);
            },
            None => {
                proof {
                    lemma_map_of_push(self.entries@, (key, value));
                }
                self.entries.push((key, value));
            },
        }
    }

    /// Removes one key's binding; absent keys are left as they are.
    pub fn remove_entry(&mut self, key: &str)
        requires
            old(self).wf(),
        ensures
            final(self).wf(),
            final(self)@ == old(self)@.remove(key@),
    {
        match self.find_index(key) {
            Some(i) => {
                proof {
                    lemma_map_of_remove(self.entries@, i as int);
                }
                self.entries.remove(i);
            },
            None => {
                proof {
                    lemma_map_of_contains(self.entries@, key@);
                    assert(self@.remove(key@) =~= self@);
                }
            },
        }
    }

    /// The entries as a sequence of key-value pairs.
    pub fn entries<'a>(&'a self) -> (r: &'a Vec<(String, JsonValue)>)
        ensures
            map_of(r@) == self@,
            unique_keys(r@) == self.wf(),
    {
        &self.entries
    }
}

/// The path of a plugin's storage document under the data root:
/// `<data_root>/<plugin_id>.json`.  Fails, before any I/O could
/// happen, exactly on invalid identifiers.
pub fn storage_file_path(data_root: &str, plugin_id: &str) -> (r: Result<String, MediationError>)
    ensures
        r is Ok <==> valid_identifier(plugin_id@),
        r matches Ok(p) ==> p@ == data_root@ + seq!['/'] + plugin_id@ + ".json"@,
        r matches Err(e) ==> e == MediationError::InvalidIdentifier,
{
    if !is_safe_id(plugin_id) {
        return Err(MediationError::InvalidIdentifier);
    }
    let mut out = data_root.to_owned();
    out.append("/");
    out.append(plugin_id);
    out.append(".json");
    proof {
        reveal_strlit("/");
        assert(("/")@ =~= seq!['/']);
        assert(out@ =~= data_root@ + seq!['/'] + plugin_id@ + ".json"@);
    }
    Ok(out)
}

/// Reads one key of a plugin's document.  Fails exactly on invalid
/// identifiers, and otherwise returns the bound value, or absence.
pub fn storage_get<'a>(doc: &'a StorageDoc, plugin_id: &str, key: &str) -> (r: Result<
    Option<&'a JsonValue>,
    MediationError,
>)
    requires
        doc.wf(),
    ensures
        r is Ok <==> valid_identifier(plugin_id@),
        r matches Err(e) ==> e == MediationError::InvalidIdentifier,
        r matches Ok(v) ==> (v is Some <==> doc@.contains_key(key@)),
        r matches Ok(v) ==> (v matches Some(val) ==> *val == doc@[key@]),
{
    if !is_safe_id(plugin_id) {
        return Err(MediationError::InvalidIdentifier);
    }
    Ok(doc.get_entry(key))
}

/// Binds one key of a plugin's document.  Fails exactly on invalid
/// identifiers, leaving the document untouched; otherwise the document
/// becomes the old mapping with the one binding replaced.
pub fn storage_set(doc: &mut StorageDoc, plugin_id: &str, key: String, value: JsonValue) -> (r:
    Result<(), MediationError>)
    requires
        old(doc).wf(),
    ensures
        final(doc).wf(),
        r is Ok <==> valid_identifier(plugin_id@),
        r matches Err(e) ==> e == MediationError::InvalidIdentifier && *final(doc) == *old(doc),
        r is Ok ==> final(doc)@ == old(doc)@.insert(key@, value),
{
    if !is_safe_id(plugin_id) {
        return Err(MediationError::InvalidIdentifier);
    }
    doc.set_entry(key, value);
    Ok(())
}

/// Removes one key of a plugin's document.  Fails exactly on invalid
/// identifiers, leaving the document untouched; removing an absent key
/// succeeds and changes nothing.
pub fn storage_remove(doc: &mut StorageDoc, plugin_id: &str, key: &str) -> (r: Result<
    (),
    MediationError,
>)
    requires
        old(doc).wf(),
    ensures
        final(doc).wf(),
        r is Ok <==> valid_identifier(plugin_id@),
        r matches Err(e) ==> e == MediationError::InvalidIdentifier && *final(doc) == *old(doc),
        r is Ok ==> final(doc)@ == old(doc)@.remove(key@),
{
    if !is_safe_id(plugin_id) {
        return Err(MediationError::InvalidIdentifier);
    }
    doc.remove_entry(key);
    Ok(())
}

/// Returns a plugin's whole document.  Fails exactly on invalid
/// identifiers.
pub fn storage_get_all<'a>(doc: &'a StorageDoc, plugin_id: &str) -> (r: Result<
    &'a Vec<(String, JsonValue)>,
    MediationError,
>)
    requires
        doc.wf(),
    ensures
        r is Ok <==> valid_identifier(plugin_id@),
        r matches Err(e) ==> e == MediationError::InvalidIdentifier,
        r matches Ok(es) ==> map_of(es@) == doc@ && unique_keys(es@),
{
    if !is_safe_id(plugin_id) {
        return Err(MediationError::InvalidIdentifier);
    }
    Ok(doc.entries())
}

/// Replaces a plugin's whole document.  Fails exactly on invalid
/// identifiers, leaving the document untouched.
pub fn storage_set_all(doc: &mut StorageDoc, plugin_id: &str, data: StorageDoc) -> (r: Result<
    (),
    MediationError,
>)
    requires
        old(doc).wf(),
        data.wf(),
    ensures
        final(doc).wf(),
        r is Ok <==> valid_identifier(plugin_id@),
        r matches Err(e) ==> e == MediationError::InvalidIdentifier && *final(doc) == *old(doc),
        r is Ok ==> final(doc)@ == data@,
{
    if !is_safe_id(plugin_id) {
        return Err(MediationError::InvalidIdentifier);
    }
    *doc = data;
    Ok(())
}

/// The text `serde_json` produces for a document with the given
/// mapping.  Named, not spelled out: the JSON grammar is the outside
/// crate's business.
pub uninterp spec fn json_doc_enc(m: Map<Seq<char>, JsonValue>) -> Seq<char>;

/// Relies on `serde_json::to_string` over an object built from the
/// entries.  The backing object map is ordered by key, so the text is
/// a function of the document's mapping alone.
#[verifier::external_body]
pub fn doc_to_json(doc: &StorageDoc) -> (r: String)
    ensures
        r@ == json_doc_enc(doc@),
{
    let mut m = serde_json::Map::new();
    for e in doc.entries.iter() {
        m.insert(e.0.clone(), crate::json::to_serde_value(&e.1));
    }
    serde_json::to_string(&serde_json::Value::Object(m)).unwrap_or_default()
}

/// Every value of the mapping is canonical.
pub open spec fn canonical_map(m: Map<Seq<char>, JsonValue>) -> bool {
    forall|k: Seq<char>| m.contains_key(k) ==> canonical_value(#[trigger] m[k])
}

/// Every value of the mapping stays within the parser's recursion
/// room.  `serde_json` admits 127 nested containers when reading; the
/// document object itself takes one, which leaves 126 for a value.
pub open spec fn map_depth_ok(m: Map<Seq<char>, JsonValue>) -> bool {
    forall|k: Seq<char>| m.contains_key(k) ==> value_depth_le(#[trigger] m[k], 126)
}

/// The mapping that parsing a document text yields, or absence where
/// the text does not parse to a document of representable values.
/// Named, not spelled out: the JSON grammar is the outside crate's
/// business.
pub uninterp spec fn json_doc_parse(s: Seq<char>) -> Option<Map<Seq<char>, JsonValue>>;

/// Relies on `serde_json::from_str`: parsing is a function of the
/// text, its keys come back unique and its values canonical because
/// every backing object map holds its keys once, in order, and it
/// inverts the encoding of canonical documents within the parser's
/// recursion room.  Parsing the encoding of a canonical mapping can
/// fail only for want of that room: the parser stops at 127 nested
/// containers, while the serializer has no such bound.
#[verifier::external_body]
pub fn doc_from_json(s: &str) -> (r: Option<StorageDoc>)
    ensures
        r is Some <==> json_doc_parse(s@) is Some,
        r matches Some(d) ==> d.wf() && canonical_map(d@) && json_doc_parse(s@) == Some(d@) && (
        forall|m: Map<Seq<char>, JsonValue>|
            s@ == #[trigger] json_doc_enc(m) && canonical_map(m) ==> d@ == m),
        r is None ==> forall|m: Map<Seq<char>, JsonValue>|
            s@ == #[trigger] json_doc_enc(m) && canonical_map(m) ==> !map_depth_ok(m),
{
    let v: serde_json::Value = serde_json::from_str(s).ok()?;
    let serde_json::Value::Object(obj) = v else {
        return None;
    };
    let mut entries = Vec::new();
    for (k, x) in obj.iter() {
        entries.push((k.clone(), crate::json::from_serde_value(x)?));
    }
    Some(StorageDoc { entries })
}

/// Interprets the text the host read from a document file.  Text that
/// parses yields exactly the parsed mapping — in particular, the
/// encoding of a canonical mapping within the parser's recursion room
/// yields that mapping back — and any text that does not parse
/// behaves as the empty document.
pub fn load_doc(text: &str) -> (r: StorageDoc)
    ensures
        r.wf(),
        json_doc_parse(text@) matches Some(m) ==> r@ == m,
        json_doc_parse(text@) is None ==> r@ == Map::<Seq<char>, JsonValue>::empty(),
        forall|m: Map<Seq<char>, JsonValue>|
            text@ == #[trigger] json_doc_enc(m) && canonical_map(m) && map_depth_ok(m) ==> r@ == m,
{
    match doc_from_json(text) {
        Some(d) => d,
        None => StorageDoc::new(),
    }
}

/// Law: a set followed by a get under the same key returns the value
/// set, and a remove followed by a get returns absence, on any
/// document mapping.
pub proof fn lemma_storage_round_trip(m: Map<Seq<char>, JsonValue>, k: Seq<char>, v: JsonValue)
    ensures
        m.insert(k, v).contains_key(k),
        m.insert(k, v)[k] == v,
        !m.remove(k).contains_key(k),
{
}

/// Law: two sets under distinct keys commute, and both bindings
/// survive whichever order the two writes complete in.
pub proof fn lemma_concurrent_sets_commute(
    m: Map<Seq<char>, JsonValue>,
    k1: Seq<char>,
    v1: JsonValue,
    k2: Seq<char>,
    v2: JsonValue,
)
    requires
        k1 != k2,
    ensures
        m.insert(k1, v1).insert(k2, v2) == m.insert(k2, v2).insert(k1, v1),
        m.insert(k1, v1).insert(k2, v2).contains_key(k1),
        m.insert(k1, v1).insert(k2, v2)[k1] == v1,
        m.insert(k1, v1).insert(k2, v2).contains_key(k2),
        m.insert(k1, v1).insert(k2, v2)[k2] == v2,
{
    assert(m.insert(k1, v1).insert(k2, v2) =~= m.insert(k2, v2).insert(k1, v1));
}

} // verus!
