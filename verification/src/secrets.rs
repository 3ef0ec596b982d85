//! The storage backend: under which attributes a record is kept, what its
//! payload looks like, and what a lookup by label amounts to.

use std::collections::BTreeMap;
use vstd::prelude::*;
use vstd::string::*;
use vstd::utf8::{decode_utf8, encode_utf8, valid_utf8};
use crate::error::Error;
use crate::field::Field;
use crate::secret::{
    distinct_keys, has_key, index_of_key, keys_of, lemma_record_keys, record_of, views, Secret,
};
use crate::text::{holds, texts, utf8_text};

verus! {

/// The schema under which every record of this application is tagged.
pub const FUZZEL_SCHEMA: &'static str = "org.fuzzel.secrets";

/// The label of the one collection that holds the records.
pub const COLLECTION_LABEL: &'static str = "fuzzel-secrets";

/// The JSON text that `serde_json::to_string` writes for a flat object
/// with these entries.
pub uninterp spec fn json_text(record: Map<Seq<char>, Seq<char>>) -> Seq<char>;

/// The entries that `serde_json::from_str` reads from a text as a flat
/// object of strings, or `None` where it reports an error.
pub uninterp spec fn json_record(text: Seq<char>) -> Option<Map<Seq<char>, Seq<char>>>;

/// Writes the fields, no two of them under one key, as one JSON object,
/// each key with its value.
///
/// Calls `serde_json::to_string` on a map from key to value. Strings
/// written into memory give it nothing to fail on, so a text comes back;
/// that text is named `json_text`.
#[verifier::external_body]
fn write_json(fields: &Vec<Field>) -> (text: Option<String>)
    requires
        distinct_keys(views(fields@)),
    ensures
        text is Some,
        text.unwrap()@ == json_text(record_of(views(fields@))),
{
    let object: BTreeMap<&String, &String> = fields.iter().map(|f| (&f.key, &f.value)).collect();
    serde_json::to_string(&object).ok()
}

/// Reads a JSON object whose values are all strings.
///
/// Calls `serde_json::from_str` for a map from string to string; the
/// outcome is named `json_record`.
#[verifier::external_body]
fn read_json(text: &str) -> (fields: Option<Vec<Field>>)
    ensures
        match fields {
            Some(list) => json_record(text@) == Some(record_of(views(list@))),
            None => json_record(text@) is None,
        },
{
    let object = serde_json::from_str::<BTreeMap<String, String>>(text).ok();
    object.map(|entries| entries.into_iter().map(|(key, value)| Field { key, value }).collect())
}

/// The text of each side of each pair, in order.
pub open spec fn pair_texts(pairs: Seq<(String, String)>) -> Seq<(Seq<char>, Seq<char>)> {
    pairs.map_values(|p: (String, String)| (p.0@, p.1@))
}

/// What the backend is asked to keep: a record under a label, found again
/// by its attributes, any earlier record under them replaced.
#[derive(Debug)]
pub struct StoreRequest {
    pub label: String,
    pub attributes: Vec<(String, String)>,
    pub payload: Vec<u8>,
    pub replace: bool,
}

/// The attributes that every record of this application carries.
pub open spec fn schema_pairs() -> Seq<(Seq<char>, Seq<char>)> {
    seq![("xdg:schema"@, FUZZEL_SCHEMA@)]
}

/// The attributes by which the record under `label` is found.
pub open spec fn record_pairs(label: Seq<char>) -> Seq<(Seq<char>, Seq<char>)> {
    seq![("xdg:schema"@, FUZZEL_SCHEMA@), ("label"@, label)]
}

/// The attributes with which the record under `label` is stored.
pub open spec fn stored_pairs(label: Seq<char>) -> Seq<(Seq<char>, Seq<char>)> {
    seq![("label"@, label), ("xdg:schema"@, FUZZEL_SCHEMA@)]
}

/// The payload of a record: its JSON text as UTF-8 bytes.
pub open spec fn payload_of(record: Map<Seq<char>, Seq<char>>) -> Seq<u8> {
    encode_utf8(json_text(record))
}

/// The record that a payload holds.
pub open spec fn record_in(payload: Seq<u8>) -> Option<Map<Seq<char>, Seq<char>>> {
    if valid_utf8(payload) {
        json_record(decode_utf8(payload))
    } else {
        None
    }
}

/// The attributes that select all records of this application.
pub fn schema_attributes() -> (attributes: Vec<(String, String)>)
    ensures
        pair_texts(attributes@) == schema_pairs(),
{
    let mut attributes: Vec<(String, String)> = Vec::new();
    attributes.push((String::from_str("xdg:schema"), String::from_str(FUZZEL_SCHEMA)));
    assert(pair_texts(attributes@) =~= schema_pairs());
    attributes
}

/// The attributes that select the records under `label`.
pub fn label_attributes(label: &str) -> (attributes: Vec<(String, String)>)
    ensures
        pair_texts(attributes@) == record_pairs(label@),
{
    let mut attributes: Vec<(String, String)> = Vec::new();
    attributes.push((String::from_str("xdg:schema"), String::from_str(FUZZEL_SCHEMA)));
    attributes.push((String::from_str("label"), String::from_str(label)));
    assert(pair_texts(attributes@) =~= record_pairs(label@));
    attributes
}

/// The request that keeps `data` under `label`, given what writing the
/// record as JSON came to.
pub fn store_request(label: &str, written: Option<String>) -> (request: Result<StoreRequest, Error>)
    ensures
        match written {
            Some(text) => {
                &&& request matches Ok(r)
                &&& r.label@ == label@
                &&& pair_texts(r.attributes@) == stored_pairs(label@)
                &&& r.payload@ == encode_utf8(text@)
                &&& r.replace
            },
            None => request matches Err(e) && e is Serialization,
        },
{
    match written {
        Some(text) => {
            let mut attributes: Vec<(String, String)> = Vec::new();
            attributes.push((String::from_str("label"), String::from_str(label)));
            attributes.push((String::from_str("xdg:schema"), String::from_str(FUZZEL_SCHEMA)));
            assert(pair_texts(attributes@) =~= stored_pairs(label@));
            Ok(
                StoreRequest {
                    label: String::from_str(label),
                    attributes,
                    payload: text.as_str().as_bytes_vec(),
                    replace: true,
                },
            )
        },
        None => Err(Error::Serialization),
    }
}

/// The request that keeps `data` under `label`: the whole record, written
/// as one flat JSON object, in place of whatever the label held. Every
/// record can be kept.
pub fn store(label: &str, data: &Secret) -> (request: Result<StoreRequest, Error>)
    ensures
        request matches Ok(r) && r.label@ == label@ && pair_texts(r.attributes@) == stored_pairs(
            label@,
        ) && r.payload@ == payload_of(data@) && r.replace,
{
    let fields = data.fields();
    store_request(label, write_json(&fields))
}

/// Whether a lookup by label found the one record it should: none is
/// `NotFound`, more than one is `Ambiguous`.
pub fn single_match(label: &str, count: usize) -> (found: Result<(), Error>)
    ensures
        match found {
            Ok(_) => count == 1,
            Err(Error::NotFound { label: named }) => count == 0 && named@ == label@,
            Err(Error::Ambiguous { label: named }) => count > 1 && named@ == label@,
            Err(_) => false,
        },
{
    if count == 0 {
        Err(Error::NotFound { label: String::from_str(label) })
    } else if count == 1 {
        Ok(())
    } else {
        Err(Error::Ambiguous { label: String::from_str(label) })
    }
}

/// The record made of the fields that were read from a payload, if any
/// were.
pub fn record_from(read: Option<Vec<Field>>) -> (data: Result<Secret, Error>)
    ensures
        match read {
            Some(fields) => data matches Ok(secret) && secret@ == record_of(views(fields@)),
            None => data matches Err(e) && e is Serialization,
        },
{
    match read {
        Some(fields) => Ok(Secret::from(fields)),
        None => Err(Error::Serialization),
    }
}

/// The record that a stored payload holds.
pub fn get_data(payload: Vec<u8>) -> (data: Result<Secret, Error>)
    ensures
        match record_in(payload@) {
            Some(record) => data matches Ok(secret) && secret@ == record,
            None => data matches Err(e) && e is Serialization,
        },
{
    match utf8_text(payload) {
        Some(text) => record_from(read_json(text.as_str())),
        None => Err(Error::Serialization),
    }
}

/// Some record of the list has a field under `key`.
pub open spec fn used_somewhere(records: Seq<Secret>, key: Seq<char>) -> bool {
    exists|i: int| 0 <= i < records.len() && (#[trigger] records[i])@.contains_key(key)
}

/// Every field key in use across the records, each once.
pub fn all_field_keys(records: &Vec<Secret>) -> (keys: Vec<String>)
    ensures
        texts(keys@).no_duplicates(),
        forall|key: Seq<char>| #[trigger] texts(keys@).contains(key) <==> used_somewhere(records@, key),
{
    let mut keys: Vec<String> = Vec::new();
    let mut at: usize = 0;
    while at < records.len()
        invariant
            at <= records.len(),
            texts(keys@).no_duplicates(),
            forall|key: Seq<char>| #[trigger]
                texts(keys@).contains(key) <==> used_somewhere(records@.take(at as int), key),
        decreases records.len() - at,
    {
        let listed = records[at].keys();
        let ghost entries = records[at as int].entries();
        let ghost before = texts(keys@);
        let mut k: usize = 0;
        while k < listed.len()
            invariant
                k <= listed.len(),
                at < records.len(),
                entries == records[at as int].entries(),
                texts(listed@) == keys_of(entries),
                texts(keys@).no_duplicates(),
                forall|key: Seq<char>| #[trigger]
                    texts(keys@).contains(key) <==> before.contains(key) || texts(listed@).take(
                        k as int,
                    ).contains(key),
            decreases listed.len() - k,
        {
            let ghost old_keys = texts(keys@);
            let ghost seen = texts(listed@).take(k as int);
            let ghost next = texts(listed@).take(k + 1);
            assert(next =~= seen.push(listed@[k as int]@));
            if !holds(&keys, &listed[k]) {
                keys.push(listed[k].clone());
                assert(texts(keys@) =~= old_keys.push(listed@[k as int]@));
            }
            proof {
                let added = listed@[k as int]@;
                let now = texts(keys@);
                assert(next[k as int] == added);
                assert forall|key: Seq<char>| #[trigger]
                    next.contains(key) <==> seen.contains(key) || key == added by {
                    if seen.contains(key) {
                        let i = choose|i: int| 0 <= i < seen.len() && seen[i] == key;
                        assert(next[i] == key);
                    }
                    if next.contains(key) && key != added {
                        let i = choose|i: int| 0 <= i < next.len() && next[i] == key;
                        assert(seen[i] == key);
                    }
                }
                assert forall|key: Seq<char>| #[trigger]
                    now.contains(key) <==> old_keys.contains(key) || key == added by {
                    if old_keys.contains(key) {
                        let i = choose|i: int| 0 <= i < old_keys.len() && old_keys[i] == key;
                        assert(now[i] == key);
                    }
                    if now.contains(key) && key != added {
                        let i = choose|i: int| 0 <= i < now.len() && now[i] == key;
                        assert(old_keys[i] == key);
                    }
                    if key == added && now.len() > old_keys.len() {
                        assert(now[old_keys.len() as int] == key);
                    }
                }
                assert forall|key: Seq<char>| #[trigger]
                    now.contains(key) <==> before.contains(key) || next.contains(key) by {
                    assert(old_keys.contains(key) <==> before.contains(key) || seen.contains(key));
                }
            }
            k += 1;
        }
        proof {
            assert(texts(listed@).take(k as int) =~= texts(listed@));
            lemma_record_keys(entries);
            let done = records@.take(at as int);
            let more = records@.take(at + 1);
            assert forall|key: Seq<char>| #[trigger]
                texts(keys@).contains(key) <==> used_somewhere(more, key) by {
                if used_somewhere(done, key) {
                    let i = choose|i: int| 0 <= i < done.len() && (#[trigger] done[i])@.contains_key(key);
                    assert(more[i]@.contains_key(key));
                }
                if used_somewhere(more, key) {
                    let i = choose|i: int| 0 <= i < more.len() && (#[trigger] more[i])@.contains_key(key);
                    if i < at {
                        assert(done[i]@.contains_key(key));
                    } else {
                        assert(has_key(entries, key));
                        let j = index_of_key(entries, key);
                        assert(texts(listed@)[j] == key);
                    }
                }
                if texts(listed@).contains(key) {
                    let j = choose|j: int| 0 <= j < listed.len() && texts(listed@)[j] == key;
                    assert(entries[j].key == key);
                    assert(more[at as int]@.contains_key(key));
                }
            }
        }
        at += 1;
    }
    assert(records@.take(at as int) =~= records@);
    keys
}

/// A step in getting hold of the collection that keeps the records.
#[derive(Debug, Clone, Copy, PartialEq, Eq)]
pub enum CollectionStep {
    /// Look for the collection by its label.
    Find,
    /// Create the collection.
    Create,
    /// Ask whether the collection is locked.
    CheckLock,
    /// Unlock the collection.
    Unlock,
    /// The collection can be used.
    Ready,
}

/// What follows a step, given the answer it got: whether the collection
/// was found, or whether it is locked. A missing collection is created,
/// and a locked one unlocked, before it is used.
pub open spec fn step_after(done: CollectionStep, answer: bool) -> CollectionStep {
    match done {
        CollectionStep::Find => if answer {
            CollectionStep::CheckLock
        } else {
            CollectionStep::Create
        },
        CollectionStep::Create => CollectionStep::CheckLock,
        CollectionStep::CheckLock => if answer {
            CollectionStep::Unlock
        } else {
            CollectionStep::Ready
        },
        CollectionStep::Unlock => CollectionStep::Ready,
        CollectionStep::Ready => CollectionStep::Ready,
    }
}

/// The step to take after `done` got `answer`.
pub fn next_step(done: CollectionStep, answer: bool) -> (next: CollectionStep)
    ensures
        next == step_after(done, answer),
{
    match done {
        CollectionStep::Find => if answer {
            CollectionStep::CheckLock
        } else {
            CollectionStep::Create
        },
        CollectionStep::Create => CollectionStep::CheckLock,
        CollectionStep::CheckLock => if answer {
            CollectionStep::Unlock
        } else {
            CollectionStep::Ready
        },
        CollectionStep::Unlock => CollectionStep::Ready,
        CollectionStep::Ready => CollectionStep::Ready,
    }
}

/// Whatever is found and whatever the lock says, the collection is ready
/// after at most three answers, and it is never used while locked.
pub proof fn lemma_collection_gets_ready(found: bool, locked: bool)
    ensures
        ({
            let second = step_after(CollectionStep::Find, found);
            let third = step_after(second, locked);
            let fourth = step_after(third, locked);
            step_after(fourth, locked) == CollectionStep::Ready
        }),
        step_after(CollectionStep::CheckLock, locked) == CollectionStep::Ready ==> !locked,
{
}

} // verus!
