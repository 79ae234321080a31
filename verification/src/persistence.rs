//! The last post id seen by each watcher, as the local store keeps it: a JSON
//! object from watcher id to post id, in one file.
use vstd::prelude::*;
use crate::assoc::{Assoc, distinct_keys, entries_map};

verus! {

#[verifier::external_type_specification]
#[verifier::external_body]
pub struct ExJsonError(serde_json::Error);

/// The last seen post id of each watcher id.
pub type LastIds = Assoc<i64>;

/// What `serde_json::from_slice` reads from `bytes` as a map from text to
/// `i64`, if they are such a JSON object.
pub uninterp spec fn json_last_ids(bytes: Seq<u8>) -> Option<Map<Seq<char>, i64>>;

/// The JSON text that `serde_json::to_vec` writes for a map from text to
/// `i64`.
pub uninterp spec fn json_of_last_ids(ids: Map<Seq<char>, i64>) -> Seq<u8>;

/// Calls `serde_json::from_slice` for a `BTreeMap<String, i64>` and lists its
/// entries. Trusted: that it succeeds exactly where `json_last_ids` has a map,
/// and that the entries are then that map, each key once (as a `BTreeMap`
/// holds them).
#[verifier::external_body]
fn decode_last_ids(bytes: &[u8]) -> (ids: Result<Vec<(String, i64)>, serde_json::Error>)
    ensures
        ids is Ok <==> json_last_ids(bytes@) is Some,
        ids matches Ok(es) ==> distinct_keys(es@) && Some(entries_map(es@)) == json_last_ids(bytes@),
{
    match serde_json::from_slice::<std::collections::BTreeMap<String, i64>>(bytes) {
        Ok(m) => Ok(m.into_iter().collect()),
        Err(e) => Err(e),
    }
}

/// Calls `serde_json::to_vec` on the entries, no two with the same key,
/// collected into a `BTreeMap<String, i64>`. Trusted: that it succeeds (its documentation names as the only failures a
/// failing `Serialize` impl and non-text map keys), that the bytes are
/// `json_of_last_ids` of the map, and that `serde_json::from_slice` reads the
/// same map back from them.
#[verifier::external_body]
fn encode_last_ids(ids: &Vec<(String, i64)>) -> (bytes: Result<Vec<u8>, serde_json::Error>)
    requires
        distinct_keys(ids@),
    ensures
        bytes is Ok,
        bytes matches Ok(b) ==> b@ == json_of_last_ids(entries_map(ids@)) && json_last_ids(b@)
            == Some(entries_map(ids@)),
{
    let m: std::collections::BTreeMap<String, i64> = ids.iter().cloned().collect();
    serde_json::to_vec(&m)
}

/// The stored ids cannot be read: the file is not a JSON object from text to
/// integer.
#[derive(PartialEq, Eq, Debug, Clone, Copy)]
pub enum StoreError {
    Unreadable,
}

/// The ids that a store holds: none where there is no file yet, else what its
/// bytes read as.
pub open spec fn stored_ids(stored: Option<Seq<u8>>) -> Option<Map<Seq<char>, i64>> {
    match stored {
        None => Some(Map::empty()),
        Some(b) => json_last_ids(b),
    }
}

/// What reading the last id of `uid` from a store gives.
pub open spec fn stored_last_id(stored: Option<Seq<u8>>, uid: Seq<char>) -> Result<
    Option<i64>,
    StoreError,
> {
    match stored_ids(stored) {
        None => Err(StoreError::Unreadable),
        Some(m) => Ok(
            if m.contains_key(uid) {
                Some(m[uid])
            } else {
                None
            },
        ),
    }
}

/// The view of an optional byte slice.
pub open spec fn bytes_view(b: Option<&[u8]>) -> Option<Seq<u8>> {
    match b {
        Some(s) => Some(s@),
        None => None,
    }
}

/// A store of last ids in the file at `path`.
pub struct Local {
    path: String,
}

impl Local {
    /// The path of the store's file.
    pub closed spec fn file(&self) -> Seq<char> {
        self.path@
    }

    /// A store in the file at `path`.
    pub fn new(path: &str) -> (l: Local)
        ensures
            l.file() == path@,
    {
        Local { path: path.to_owned() }
    }

    /// The path of the store's file.
    pub fn path(&self) -> (p: &str)
        ensures
            p@ == self.file(),
    {
        self.path.as_str()
    }

    /// The ids in the store whose file holds `stored` (`None`: no file yet).
    pub fn load(stored: Option<&[u8]>) -> (ids: Result<LastIds, StoreError>)
        ensures
            ids is Ok <==> stored_ids(bytes_view(stored)) is Some,
            ids matches Ok(m) ==> m.wf() && Some(m@) == stored_ids(bytes_view(stored)),
    {
        match stored {
            None => Ok(LastIds::new()),
            Some(b) => match decode_last_ids(b) {
                Ok(es) => Ok(LastIds::from_entries(es)),
                Err(_) => Err(StoreError::Unreadable),
            },
        }
    }

    /// The bytes that hold `ids`.
    pub fn store(ids: &LastIds) -> (bytes: Vec<u8>)
        requires
            ids.wf(),
        ensures
            bytes@ == json_of_last_ids(ids@),
            json_last_ids(bytes@) == Some(ids@),
    {
        proof {
            ids.lemma_entries();
            assert(entries_map(ids.entries()) == ids@) by {
                crate::assoc::lemma_entries_map(ids.entries());
            }
        }
        match encode_last_ids(ids.as_entries()) {
            Ok(b) => b,
            Err(_) => Vec::new(),
        }
    }

    /// The new contents of the store's file once the last id of `uid` is set
    /// to `last_id`, from its contents `stored` before.
    pub fn set_last_id(stored: Option<&[u8]>, uid: &str, last_id: i64) -> (bytes: Result<
        Vec<u8>,
        StoreError,
    >)
        ensures
            bytes is Ok <==> stored_ids(bytes_view(stored)) is Some,
            bytes matches Ok(b) ==> b@ == json_of_last_ids(
                stored_ids(bytes_view(stored)).unwrap().insert(uid@, last_id),
            ),
            bytes matches Ok(b) ==> stored_ids(Some(b@)) == Some(
                stored_ids(bytes_view(stored)).unwrap().insert(uid@, last_id),
            ),
    {
        let mut m = match Local::load(stored) {
            Ok(m) => m,
            Err(e) => return Err(e),
        };
        m.insert(uid.to_owned(), last_id);
        Ok(Local::store(&m))
    }

    /// The last id of `uid` in the store whose file holds `stored`.
    pub fn get_last_id(stored: Option<&[u8]>, uid: &str) -> (id: Result<Option<i64>, StoreError>)
        ensures
            id == stored_last_id(bytes_view(stored), uid@),
    {
        match Local::load(stored) {
            Ok(m) => Ok(
                match m.get(uid) {
                    Some(v) => Some(*v),
                    None => None,
                },
            ),
            Err(e) => Err(e),
        }
    }
}

/// How a database that keeps one row per watcher records a last seen id.
#[derive(PartialEq, Eq, Debug)]
pub enum PgWrite {
    /// Change the watcher's row.
    Update,
    /// Add a row for the watcher.
    Insert,
}

/// How to record a watcher's last seen id, given whether it has a row yet:
/// change the row where there is one, else add one.
pub fn pg_write_for(row_exists: bool) -> (w: PgWrite)
    ensures
        w == (if row_exists { PgWrite::Update } else { PgWrite::Insert }),
{
    if row_exists {
        PgWrite::Update
    } else {
        PgWrite::Insert
    }
}

/// A read of the store after the last id of `uid` was set to `last_id` gives
/// `last_id` for `uid`, and for every other id what it gave before.
pub proof fn law_read_after_write(
    stored: Option<Seq<u8>>,
    written: Seq<u8>,
    uid: Seq<char>,
    other: Seq<char>,
    last_id: i64,
)
    requires
        stored_ids(stored) is Some,
        stored_ids(Some(written)) == Some(stored_ids(stored).unwrap().insert(uid, last_id)),
    ensures
        stored_last_id(Some(written), uid) == Ok::<Option<i64>, StoreError>(Some(last_id)),
        other != uid ==> stored_last_id(Some(written), other) == stored_last_id(stored, other),
{
}

} // verus!
