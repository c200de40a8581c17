//! Snapshot persistence: the store's content serialized as one JSON object
//! text (`{"key":"value", ...}`), and a model of the two files the snapshot
//! protocol touches — the primary snapshot file and its sibling temporary
//! file.  The protocol writes the whole text to the temporary file, removes
//! the old primary, then renames the temporary into place; between the last
//! two steps no primary file exists, a documented durability gap that this
//! model keeps visible rather than papering over.  Callers that own a real
//! file mirror the three steps one for one.

use vstd::prelude::*;
use crate::store::{Store, as_map, unique_keys, lemma_as_map_finite};
use vstd::pervasive::unreached;

verus! {

/// The JSON object text that serialization produces for a given mapping.
/// Left without a definition: the exact text is serde_json's business; the
/// contracts below pin down only that it is a function of the mapping alone
/// and that parsing it restores the mapping.
pub uninterp spec fn json_of(m: Map<Seq<char>, Seq<char>>) -> Seq<char>;

/// Relies on `serde_json::to_string` over an ordered map
/// (`std::collections::BTreeMap`): the text depends only on which keys map
/// to which values, an empty map serializes to `{}`, any map serializes to
/// an object text of at least the two braces, and serializing a map of
/// strings cannot fail.
#[verifier::external_body]
fn to_json(pairs: &Vec<(String, String)>) -> (r: String)
    requires
        unique_keys(pairs.deep_view()),
    ensures
        r@ == json_of(as_map(pairs.deep_view())),
        r@.len() >= 2,
        pairs.deep_view().len() == 0 ==> r@ =~= "{}"@,
{
    let m: std::collections::BTreeMap<&str, &str> =
        pairs.iter().map(|p| (p.0.as_str(), p.1.as_str())).collect();
    serde_json::to_string(&m).unwrap()
}

/// Relies on `serde_json::from_str::<BTreeMap<String, String>>`: parsing the
/// text that serialization produced for a mapping restores exactly that
/// mapping (with each key listed once), and an empty text is a parse error,
/// not an empty object.
#[verifier::external_body]
fn from_json(s: &str) -> (r: Result<Vec<(String, String)>, String>)
    ensures
        r is Ok ==> unique_keys(r->Ok_0.deep_view()),
        forall|m: Map<Seq<char>, Seq<char>>|
            m.dom().finite() && s@ == #[trigger] json_of(m)
                ==> r is Ok && as_map(r->Ok_0.deep_view()) == m,
        s@.len() == 0 ==> r is Err,
{
    match serde_json::from_str::<std::collections::BTreeMap<String, String>>(s) {
        Ok(m) => Ok(m.into_iter().collect()),
        Err(e) => Err(e.to_string()),
    }
}

/// What the two snapshot files hold, as specifications see it: `None` stands
/// for "no such file".
#[verifier::ext_equal]
pub struct SnapshotView {
    pub primary: Option<Seq<char>>,
    pub temp: Option<Seq<char>>,
}

/// The content this process has committed to the primary snapshot file and
/// to its sibling temporary file.  A caller that owns the real files mirrors
/// every step taken here with the matching file operation.
pub struct SnapshotFile {
    primary: Option<String>,
    temp: Option<String>,
}

impl View for SnapshotFile {
    type V = SnapshotView;

    closed spec fn view(&self) -> SnapshotView {
        SnapshotView { primary: self.primary.deep_view(), temp: self.temp.deep_view() }
    }
}

impl SnapshotFile {
    /// Start from what is on disk: the primary file's content, or `None`
    /// when there is no primary file; no temporary file is present.
    pub fn new(primary: Option<String>) -> (f: SnapshotFile)
        ensures
            f@.primary == primary.deep_view(),
            f@.temp is None,
    {
        SnapshotFile { primary, temp: None }
    }

    /// Step one of the snapshot protocol: write the whole text to the
    /// sibling temporary file.
    pub fn write_temp(&mut self, content: String)
        ensures
            final(self)@.temp == Some(content@),
            final(self)@.primary == old(self)@.primary,
    {
        self.temp = Some(content);
    }

    /// Step two: remove the old primary file.  From here until the rename,
    /// no primary file exists — the protocol's documented durability gap.
    pub fn remove_primary(&mut self)
        ensures
            final(self)@.primary is None,
            final(self)@.temp == old(self)@.temp,
    {
        self.primary = None;
    }

    /// Step three: rename the temporary file into place as the new primary.
    pub fn promote_temp(&mut self)
        requires
            old(self)@.temp is Some,
        ensures
            final(self)@.primary == old(self)@.temp,
            final(self)@.temp is None,
    {
        self.primary = self.temp.take();
    }

    /// The primary file's content, for the caller that mirrors this model
    /// onto a real file.
    pub fn primary_content(&self) -> (r: &Option<String>)
        ensures
            r.deep_view() == self@.primary,
    {
        &self.primary
    }
}

/// Persist a snapshot of `store`: serialize the whole content, then run the
/// write-temporary / remove-primary / rename steps of the protocol.  After
/// it, the primary file holds exactly the serialization of the store's
/// mapping.
pub fn write_local(store: &Store, file: &mut SnapshotFile) -> (r: Result<(), String>)
    requires
        store.wf(),
    ensures
        r is Ok,
        final(file)@.primary == Some(json_of(as_map(store@))),
        final(file)@.temp is None,
{
    let content = to_json(&store.pairs);
    file.write_temp(content);
    file.remove_primary();
    file.promote_temp();
    Ok(())
}

/// Rebuild a store from a persisted snapshot text.  An empty text (an empty
/// or freshly created file) is an empty store, not a parse error; the text
/// that `write_local` persisted for a mapping restores exactly that mapping.
pub fn load_store(content: &str) -> (r: Result<Store, String>)
    ensures
        content@.len() == 0 ==> r is Ok && r->Ok_0@ =~= Seq::<(Seq<char>, Seq<char>)>::empty(),
        forall|m: Map<Seq<char>, Seq<char>>|
            m.dom().finite() && content@.len() > 0 && content@ == #[trigger] json_of(m)
                ==> r is Ok && as_map(r->Ok_0@) == m,
        r is Ok ==> r->Ok_0.wf(),
{
    if content.is_empty() {
        Ok(Store::new())
    } else {
        match from_json(content) {
            Ok(pairs) => Ok(Store { pairs }),
            Err(e) => Err(e),
        }
    }
}

/// Round trip: a store rebuilt from its own persisted snapshot text holds
/// the same mapping, independent of pair order.
pub fn reload(store: &Store) -> (r: Store)
    requires
        store.wf(),
    ensures
        as_map(r@) == as_map(store@),
        r.wf(),
{
    let text = to_json(&store.pairs);
    proof {
        lemma_as_map_finite(store@);
    }
    match load_store(text.as_str()) {
        Ok(s) => s,
        Err(_) => unreached(),
    }
}

} // verus!
