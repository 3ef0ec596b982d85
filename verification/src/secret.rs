//! A record: fields keyed by name, no two under the same key.

use vstd::prelude::*;
use vstd::string::*;
use vstd::std_specs::convert::FromSpecImpl;
use vstd::std_specs::iter::IteratorSpec;
use crate::field::{Field, FieldView};
use crate::text::texts;

verus! {

/// The mathematical content of each field of a list, in order.
pub open spec fn views(fields: Seq<Field>) -> Seq<FieldView> {
    fields.map_values(|f: Field| f@)
}

/// The mapping that results from entering the pairs one after the other,
/// a later pair replacing an earlier one under the same key.
pub open spec fn record_of(entries: Seq<FieldView>) -> Map<Seq<char>, Seq<char>>
    decreases entries.len(),
{
    if entries.len() == 0 {
        Map::empty()
    } else {
        record_of(entries.drop_last()).insert(entries.last().key, entries.last().value)
    }
}

/// Some pair of the list stands under `key`.
pub open spec fn has_key(entries: Seq<FieldView>, key: Seq<char>) -> bool {
    exists|i: int| 0 <= i < entries.len() && (#[trigger] entries[i]).key == key
}

/// No two pairs of the list share a key.
pub open spec fn distinct_keys(entries: Seq<FieldView>) -> bool {
    forall|i: int, j: int|
        0 <= i < j < entries.len() ==> (#[trigger] entries[i]).key != (#[trigger] entries[j]).key
}

/// Where the pair under `key` stands in the list; meaningful only when
/// there is one.
pub open spec fn index_of_key(entries: Seq<FieldView>, key: Seq<char>) -> int {
    choose|i: int| 0 <= i < entries.len() && (#[trigger] entries[i]).key == key
}

/// The list after `key` has been given `value`: the pair under that key is
/// replaced where it stands, or the new pair is added at the end.
pub open spec fn upsert(entries: Seq<FieldView>, key: Seq<char>, value: Seq<char>) -> Seq<
    FieldView,
> {
    if has_key(entries, key) {
        entries.update(index_of_key(entries, key), FieldView { key, value })
    } else {
        entries.push(FieldView { key, value })
    }
}

/// The list without the pair under `key`, the others keeping their order.
pub open spec fn without_key(entries: Seq<FieldView>, key: Seq<char>) -> Seq<FieldView> {
    if has_key(entries, key) {
        entries.remove(index_of_key(entries, key))
    } else {
        entries
    }
}

/// The keys of the pairs, in order.
pub open spec fn keys_of(entries: Seq<FieldView>) -> Seq<Seq<char>> {
    entries.map_values(|e: FieldView| e.key)
}

/// The list that results from entering the pairs one after the other into
/// an empty record.
pub open spec fn entered(pairs: Seq<FieldView>) -> Seq<FieldView>
    decreases pairs.len(),
{
    if pairs.len() == 0 {
        Seq::empty()
    } else {
        upsert(entered(pairs.drop_last()), pairs.last().key, pairs.last().value)
    }
}

/// The keys of the mapping are the keys of the list.
pub proof fn lemma_record_keys(entries: Seq<FieldView>)
    ensures
        record_of(entries).dom().finite(),
        forall|k: Seq<char>| #[trigger] record_of(entries).contains_key(k) <==> has_key(entries, k),
    decreases entries.len(),
{
    if entries.len() > 0 {
        let front = entries.drop_last();
        lemma_record_keys(front);
        assert forall|k: Seq<char>| #[trigger]
            record_of(entries).contains_key(k) <==> has_key(entries, k) by {
            if has_key(entries, k) {
                let i = index_of_key(entries, k);
                if i < entries.len() - 1 {
                    assert(front[i].key == k);
                    assert(has_key(front, k));
                }
            }
            if record_of(entries).contains_key(k) && k != entries.last().key {
                assert(has_key(front, k));
                let i = choose|i: int| 0 <= i < front.len() && (#[trigger] front[i]).key == k;
                assert(entries[i].key == k);
            }
            if k == entries.last().key {
                assert(entries[entries.len() - 1].key == k);
            }
        }
    }
}

/// Where no key occurs twice, each pair of the list is an entry of the
/// mapping, and the mapping has as many entries as the list has pairs.
pub proof fn lemma_record_entries(entries: Seq<FieldView>)
    requires
        distinct_keys(entries),
    ensures
        record_of(entries).len() == entries.len(),
        forall|i: int|
            0 <= i < entries.len() ==> record_of(entries)[(#[trigger] entries[i]).key]
                == entries[i].value,
    decreases entries.len(),
{
    if entries.len() > 0 {
        let front = entries.drop_last();
        let last = entries.last();
        assert forall|i: int, j: int| 0 <= i < j < front.len() implies (#[trigger] front[i]).key != (
        #[trigger] front[j]).key by {
            assert(entries[i].key != entries[j].key);
        }
        lemma_record_entries(front);
        lemma_record_keys(front);
        if has_key(front, last.key) {
            let i = choose|i: int| 0 <= i < front.len() && (#[trigger] front[i]).key == last.key;
            assert(entries[i].key != entries[entries.len() - 1].key);
        }
        assert(!record_of(front).contains_key(last.key));
        assert forall|i: int| 0 <= i < entries.len() implies record_of(entries)[(
        #[trigger] entries[i]).key] == entries[i].value by {
            if i < entries.len() - 1 {
                assert(entries[i].key != entries[entries.len() - 1].key);
                assert(front[i] == entries[i]);
            }
        }
    }
}

/// Where no key occurs twice, the pair under a key stands at one index only.
pub proof fn lemma_index_of_key(entries: Seq<FieldView>, at: int)
    requires
        distinct_keys(entries),
        0 <= at < entries.len(),
    ensures
        has_key(entries, entries[at].key),
        index_of_key(entries, entries[at].key) == at,
{
    let key = entries[at].key;
    let i = index_of_key(entries, key);
    assert(0 <= i < entries.len() && entries[i].key == key);
    if i < at {
        assert(entries[i].key != entries[at].key);
    } else if at < i {
        assert(entries[at].key != entries[i].key);
    }
}

/// Giving a key a value keeps the keys distinct and is an insertion into
/// the mapping.
pub proof fn lemma_upsert(entries: Seq<FieldView>, key: Seq<char>, value: Seq<char>)
    requires
        distinct_keys(entries),
    ensures
        distinct_keys(upsert(entries, key, value)),
        record_of(upsert(entries, key, value)) == record_of(entries).insert(key, value),
{
    let after = upsert(entries, key, value);
    if has_key(entries, key) {
        let at = index_of_key(entries, key);
        assert(0 <= at < entries.len() && entries[at].key == key);
        assert forall|i: int, j: int| 0 <= i < j < after.len() implies (#[trigger] after[i]).key != (
        #[trigger] after[j]).key by {
            assert(entries[i].key != entries[j].key);
        }
    } else {
        assert forall|i: int, j: int| 0 <= i < j < after.len() implies (#[trigger] after[i]).key != (
        #[trigger] after[j]).key by {
            if j < entries.len() {
                assert(entries[i].key != entries[j].key);
            } else {
                assert(entries[i].key != key);
            }
        }
    }
    lemma_record_keys(entries);
    lemma_record_keys(after);
    lemma_record_entries(entries);
    lemma_record_entries(after);
    let want = record_of(entries).insert(key, value);
    assert forall|k: Seq<char>| record_of(after).contains_key(k) <==> want.contains_key(k) by {
        if has_key(after, k) {
            let i = index_of_key(after, k);
            assert(0 <= i < after.len() && after[i].key == k);
            if k != key {
                assert(entries[i].key == k);
                assert(has_key(entries, k));
            }
        }
        if has_key(entries, k) {
            let i = index_of_key(entries, k);
            assert(0 <= i < entries.len() && entries[i].key == k);
            assert(after[i].key == k);
        }
        if k == key {
            if has_key(entries, key) {
                assert(after[index_of_key(entries, key)].key == key);
            } else {
                assert(after[after.len() - 1].key == key);
            }
        }
    }
    assert forall|k: Seq<char>| record_of(after).contains_key(k) implies record_of(after)[k]
        == want[k] by {
        let i = index_of_key(after, k);
        assert(0 <= i < after.len() && after[i].key == k);
        assert(record_of(after)[after[i].key] == after[i].value);
        if k != key {
            assert(entries[i].key == k);
            assert(record_of(entries)[entries[i].key] == entries[i].value);
        } else {
            lemma_index_of_key(after, i);
            if has_key(entries, key) {
                let at = index_of_key(entries, key);
                assert(after[at].key == key);
                lemma_index_of_key(after, at);
            } else {
                lemma_index_of_key(after, after.len() - 1);
            }
        }
    }
    assert(record_of(after) =~= want);
}

/// Dropping the pair under a key keeps the keys distinct and removes the
/// key from the mapping.
pub proof fn lemma_without_key(entries: Seq<FieldView>, key: Seq<char>)
    requires
        distinct_keys(entries),
    ensures
        distinct_keys(without_key(entries, key)),
        record_of(without_key(entries, key)) == record_of(entries).remove(key),
{
    let after = without_key(entries, key);
    lemma_record_keys(entries);
    lemma_record_entries(entries);
    if has_key(entries, key) {
        let at = index_of_key(entries, key);
        assert(0 <= at < entries.len() && entries[at].key == key);
        assert forall|i: int, j: int| 0 <= i < j < after.len() implies (#[trigger] after[i]).key != (
        #[trigger] after[j]).key by {
            let si = if i < at { i } else { i + 1 };
            let sj = if j < at { j } else { j + 1 };
            assert(entries[si].key != entries[sj].key);
        }
        lemma_record_keys(after);
        lemma_record_entries(after);
        let want = record_of(entries).remove(key);
        assert forall|k: Seq<char>| record_of(after).contains_key(k) <==> want.contains_key(
            k,
        ) by {
            if has_key(after, k) {
                let i = index_of_key(after, k);
                assert(0 <= i < after.len() && after[i].key == k);
                let si = if i < at { i } else { i + 1 };
                assert(entries[si].key == k);
                if si < at {
                    assert(entries[si].key != entries[at].key);
                } else {
                    assert(entries[at].key != entries[si].key);
                }
            }
            if has_key(entries, k) && k != key {
                let i = index_of_key(entries, k);
                assert(0 <= i < entries.len() && entries[i].key == k);
                let ti = if i < at { i } else { i - 1 };
                assert(after[ti].key == k);
            }
        }
        assert forall|k: Seq<char>| record_of(after).contains_key(k) implies record_of(after)[k]
            == want[k] by {
            let i = index_of_key(after, k);
            assert(0 <= i < after.len() && after[i].key == k);
            assert(record_of(after)[after[i].key] == after[i].value);
            let si = if i < at { i } else { i + 1 };
            assert(entries[si] == after[i]);
            assert(record_of(entries)[entries[si].key] == entries[si].value);
        }
        assert(record_of(after) =~= want);
    } else {
        assert(record_of(entries).remove(key) =~= record_of(entries));
    }
}

/// Entering pairs one after the other leaves no key twice, and yields the
/// mapping in which a later pair has replaced an earlier one.
pub proof fn lemma_entered(pairs: Seq<FieldView>)
    ensures
        distinct_keys(entered(pairs)),
        record_of(entered(pairs)) == record_of(pairs),
    decreases pairs.len(),
{
    if pairs.len() > 0 {
        lemma_entered(pairs.drop_last());
        lemma_upsert(entered(pairs.drop_last()), pairs.last().key, pairs.last().value);
    }
}

/// A record: named fields, no two of them under the same key. The fields
/// keep the order in which their keys were first entered.
#[derive(Debug)]
pub struct Secret {
    fields: Vec<Field>,
}

impl View for Secret {
    type V = Map<Seq<char>, Seq<char>>;

    /// The record as a mapping from key to value.
    open spec fn view(&self) -> Map<Seq<char>, Seq<char>> {
        record_of(self.entries())
    }
}

/// Where the field under `key` stands in `fields`, if there is one.
fn position(fields: &Vec<Field>, key: &str) -> (found: Option<usize>)
    ensures
        match found {
            Some(at) => at < fields.len() && fields[at as int].key@ == key@,
            None => !has_key(views(fields@), key@),
        },
{
    let wanted = String::from_str(key);
    let mut at: usize = 0;
    while at < fields.len()
        invariant
            at <= fields.len(),
            wanted@ == key@,
            forall|i: int| 0 <= i < at ==> (#[trigger] views(fields@)[i]).key != key@,
        decreases fields.len() - at,
    {
        if fields[at].key == wanted {
            return Some(at);
        }
        at += 1;
    }
    None
}

impl Secret {
    #[verifier::type_invariant]
    spec fn keys_are_distinct(self) -> bool {
        distinct_keys(views(self.fields@))
    }

    /// The fields as pairs, in the order in which they are listed.
    pub closed spec fn entries(&self) -> Seq<FieldView> {
        views(self.fields@)
    }

    /// An empty record.
    pub fn new() -> (secret: Secret)
        ensures
            secret.entries() == Seq::<FieldView>::empty(),
            secret@ == Map::<Seq<char>, Seq<char>>::empty(),
    {
        let secret = Secret { fields: Vec::new() };
        assert(secret.entries() =~= Seq::<FieldView>::empty());
        secret
    }

    /// Gives `key` the value `value`, replacing the value it had.
    pub fn insert(&mut self, key: String, value: String)
        ensures
            final(self)@ == old(self)@.insert(key@, value@),
            final(self).entries() == upsert(old(self).entries(), key@, value@),
    {
        proof {
            use_type_invariant(&*self);
            lemma_upsert(self.entries(), key@, value@);
        }
        let mut fields: Vec<Field> = Vec::new();
        std::mem::swap(&mut fields, &mut self.fields);
        let ghost before = views(fields@);
        match position(&fields, key.as_str()) {
            Some(at) => {
                proof {
                    lemma_index_of_key(before, at as int);
                }
                fields.set(at, Field::new(key, value));
            },
            None => {
                fields.push(Field::new(key, value));
            },
        }
        assert(views(fields@) =~= upsert(before, key@, value@));
        self.fields = fields;
    }

    /// The field under `key`, if the record has one.
    pub fn get(&self, key: &str) -> (found: Option<Field>)
        ensures
            match found {
                Some(field) => self@.contains_key(key@) && field@ == (FieldView {
                    key: key@,
                    value: self@[key@],
                }),
                None => !self@.contains_key(key@),
            },
    {
        proof {
            use_type_invariant(self);
            lemma_record_keys(self.entries());
            lemma_record_entries(self.entries());
        }
        match position(&self.fields, key) {
            Some(at) => {
                assert(self.entries()[at as int].key == key@);
                Some(Field::new(String::from_str(key), self.fields[at].value.clone()))
            },
            None => None,
        }
    }

    /// Takes the field under `key` out of the record and returns it.
    pub fn remove(&mut self, key: &str) -> (removed: Option<Field>)
        ensures
            final(self)@ == old(self)@.remove(key@),
            final(self).entries() == without_key(old(self).entries(), key@),
            match removed {
                Some(field) => old(self)@.contains_key(key@) && field@ == (FieldView {
                    key: key@,
                    value: old(self)@[key@],
                }),
                None => !old(self)@.contains_key(key@),
            },
    {
        proof {
            use_type_invariant(&*self);
            lemma_record_keys(self.entries());
            lemma_record_entries(self.entries());
            lemma_without_key(self.entries(), key@);
        }
        let mut fields: Vec<Field> = Vec::new();
        std::mem::swap(&mut fields, &mut self.fields);
        let ghost before = views(fields@);
        let removed = match position(&fields, key) {
            Some(at) => {
                proof {
                    lemma_index_of_key(before, at as int);
                }
                let field = fields.remove(at);
                assert(field@ == before[at as int]);
                Some(Field::new(String::from_str(key), field.value))
            },
            None => None,
        };
        assert(views(fields@) =~= without_key(before, key@));
        self.fields = fields;
        removed
    }

    /// Whether the record has a field under `key`.
    pub fn contains_key(&self, key: &str) -> (present: bool)
        ensures
            present == self@.contains_key(key@),
    {
        proof {
            use_type_invariant(self);
            lemma_record_keys(self.entries());
        }
        match position(&self.fields, key) {
            Some(at) => {
                assert(self.entries()[at as int].key == key@);
                true
            },
            None => false,
        }
    }

    /// The number of fields.
    pub fn len(&self) -> (count: usize)
        ensures
            count == self@.len(),
            count == self.entries().len(),
    {
        proof {
            use_type_invariant(self);
            lemma_record_entries(self.entries());
        }
        self.fields.len()
    }

    /// Whether the record has no field.
    pub fn is_empty(&self) -> (empty: bool)
        ensures
            empty == (self@.len() == 0),
            empty == (self.entries().len() == 0),
    {
        proof {
            use_type_invariant(self);
            lemma_record_entries(self.entries());
        }
        self.fields.len() == 0
    }
    /// The fields, in the order in which they are listed.
    pub fn fields(&self) -> (listed: Vec<Field>)
        ensures
            views(listed@) == self.entries(),
            distinct_keys(views(listed@)),
            record_of(views(listed@)) == self@,
    {
        proof {
            use_type_invariant(self);
        }
        let mut listed: Vec<Field> = Vec::new();
        let mut at: usize = 0;
        while at < self.fields.len()
            invariant
                at <= self.fields.len(),
                listed.len() == at,
                forall|i: int| 0 <= i < at ==> (#[trigger] listed[i])@ == self.fields[i]@,
            decreases self.fields.len() - at,
        {
            listed.push(self.fields[at].clone());
            at += 1;
        }
        assert(views(listed@) =~= views(self.fields@));
        listed
    }

    /// An iterator over the fields, in the order in which they are listed.
    pub fn iter(&self) -> (fields: std::vec::IntoIter<Field>)
        ensures
            views(fields.remaining()) == self.entries(),
    {
        self.fields().into_iter()
    }

    /// The keys of the fields, in the order in which they are listed.
    pub fn keys(&self) -> (listed: Vec<String>)
        ensures
            texts(listed@) == keys_of(self.entries()),
    {
        let mut listed: Vec<String> = Vec::new();
        let mut at: usize = 0;
        while at < self.fields.len()
            invariant
                at <= self.fields.len(),
                listed.len() == at,
                forall|i: int| 0 <= i < at ==> (#[trigger] listed[i])@ == self.fields[i].key@,
            decreases self.fields.len() - at,
        {
            listed.push(self.fields[at].key.clone());
            at += 1;
        }
        assert(texts(listed@) =~= keys_of(views(self.fields@)));
        listed
    }
}

impl Clone for Secret {
    fn clone(&self) -> (copy: Secret)
        ensures
            copy.entries() == self.entries(),
            copy@ == self@,
    {
        let fields = self.fields();
        Secret { fields }
    }
}

impl Default for Secret {
    /// An empty record.
    fn default() -> (secret: Secret)
        ensures
            secret.entries() == Seq::<FieldView>::empty(),
            secret@ == Map::<Seq<char>, Seq<char>>::empty(),
    {
        Secret::new()
    }
}

impl FromSpecImpl<Vec<Field>> for Secret {
    open spec fn obeys_from_spec() -> bool {
        false
    }

    open spec fn from_spec(fields: Vec<Field>) -> Secret {
        arbitrary()
    }
}

impl From<Vec<Field>> for Secret {
    /// The record that results from entering the fields one after the
    /// other: of two fields under one key the later one stays.
    fn from(fields: Vec<Field>) -> (secret: Secret)
        ensures
            secret.entries() == entered(views(fields@)),
            secret@ == record_of(views(fields@)),
    {
        let ghost all = fields@;
        let mut secret = Secret::new();
        for field in it: fields.into_iter()
            invariant
                it.seq() == all,
                secret.entries() == entered(views(all.take(it.index() as int))),
        {
            proof {
                let done = views(it.seq().take(it.index() as int));
                let next = views(it.seq().take(it.index() + 1));
                assert(next.drop_last() =~= done);
                assert(next.last() == field@);
            }
            secret.insert(field.key, field.value);
        }
        proof {
            assert(all.take(all.len() as int) =~= all);
            lemma_entered(views(all));
        }
        secret
    }
}

} // verus!
