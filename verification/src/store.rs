use vstd::prelude::*;

verus! {

use vstd::string::StrSliceExecFns;
use vstd::string::StringExecFns;

/// One reference record: the (parent, child) name pair is the identity, and
/// the reference locates the most recently observed file for that identity.
pub struct Record {
    pub parent_name: String,
    pub child_name: String,
    pub reference: String,
}

impl Record {
    /// The composite identity of the record.
    pub open spec fn key(self) -> (Seq<char>, Seq<char>) {
        (self.parent_name@, self.child_name@)
    }
}

/// Compares two strings character by character.
pub fn str_eq(a: &str, b: &str) -> (equal: bool)
    ensures
        equal == (a@ == b@),
{
    let a_len = a.unicode_len();
    let b_len = b.unicode_len();
    if a_len != b_len {
        return false;
    }
    let mut i: usize = 0;
    while i < a_len
        invariant
            i <= a_len,
            a_len == a@.len(),
            a_len == b@.len(),
            forall|j: int| 0 <= j < i ==> a@[j] == b@[j],
        decreases a_len - i,
    {
        if a.get_char(i) != b.get_char(i) {
            return false;
        }
        i = i + 1;
    }
    proof {
        assert(a@ =~= b@);
    }
    true
}

/// The contents of a record list as a map from identity to reference; a later
/// record with the same identity shadows an earlier one.
spec fn records_map(records: Seq<Record>) -> Map<(Seq<char>, Seq<char>), Seq<char>>
    decreases records.len(),
{
    if records.len() == 0 {
        Map::empty()
    } else {
        records_map(records.drop_last()).insert(
            records.last().key(),
            records.last().reference@,
        )
    }
}

/// Pairwise-distinct identities: at most one record per (parent, child) pair.
spec fn keys_unique(records: Seq<Record>) -> bool {
    forall|i: int, j: int|
        0 <= i < j < records.len() ==> records[i].key() != records[j].key()
}

proof fn lemma_records_map_contains(records: Seq<Record>, k: (Seq<char>, Seq<char>))
    ensures
        records_map(records).contains_key(k) <==> (exists|i: int|
            0 <= i < records.len() && records[i].key() == k),
    decreases records.len(),
{
    if records.len() > 0 {
        lemma_records_map_contains(records.drop_last(), k);
        if records.last().key() == k {
            assert(records[records.len() - 1].key() == k);
        } else {
            if exists|i: int| 0 <= i < records.len() && records[i].key() == k {
                let i = choose|i: int| 0 <= i < records.len() && records[i].key() == k;
                assert(records.drop_last()[i].key() == k);
            }
            if exists|i: int| 0 <= i < records.drop_last().len() && records.drop_last()[i].key()
                == k {
                let i = choose|i: int|
                    0 <= i < records.drop_last().len() && records.drop_last()[i].key() == k;
                assert(records[i].key() == k);
            }
        }
    }
}

proof fn lemma_records_map_value(records: Seq<Record>, i: int)
    requires
        keys_unique(records),
        0 <= i < records.len(),
    ensures
        records_map(records).contains_key(records[i].key()),
        records_map(records)[records[i].key()] == records[i].reference@,
    decreases records.len(),
{
    if i < records.len() - 1 {
        assert(keys_unique(records.drop_last()));
        lemma_records_map_value(records.drop_last(), i);
        assert(records.drop_last()[i] == records[i]);
        assert(records.last().key() != records[i].key());
    }
}

proof fn lemma_records_map_update(records: Seq<Record>, i: int, record: Record)
    requires
        keys_unique(records),
        0 <= i < records.len(),
        record.key() == records[i].key(),
    ensures
        records_map(records.update(i, record)) == records_map(records).insert(
            record.key(),
            record.reference@,
        ),
    decreases records.len(),
{
    let updated = records.update(i, record);
    if i == records.len() - 1 {
        assert(updated.drop_last() =~= records.drop_last());
        assert(updated.last() == record);
        assert(records_map(updated) =~= records_map(records).insert(
            record.key(),
            record.reference@,
        ));
    } else {
        assert(keys_unique(records.drop_last()));
        lemma_records_map_update(records.drop_last(), i, record);
        assert(updated.drop_last() =~= records.drop_last().update(i, record));
        assert(updated.last() == records.last());
        assert(records.last().key() != record.key());
        assert(records_map(updated) =~= records_map(records).insert(
            record.key(),
            record.reference@,
        ));
    }
}

proof fn lemma_records_map_len(records: Seq<Record>)
    requires
        keys_unique(records),
    ensures
        records_map(records).dom().finite(),
        records_map(records).dom().len() == records.len(),
    decreases records.len(),
{
    if records.len() == 0 {
        assert(records_map(records).dom() =~= Set::<(Seq<char>, Seq<char>)>::empty());
    } else {
        assert(keys_unique(records.drop_last()));
        lemma_records_map_len(records.drop_last());
        lemma_records_map_contains(records.drop_last(), records.last().key());
        assert(forall|i: int|
            0 <= i < records.drop_last().len() ==> records.drop_last()[i] == records[i]);
        assert(!records_map(records.drop_last()).contains_key(records.last().key()));
        assert(records_map(records).dom() =~= records_map(records.drop_last()).dom().insert(
            records.last().key(),
        ));
    }
}

/// An in-memory key-value store over reference records, keyed by the
/// composite (parent name, child name) identity. It is the model against
/// which the reconciliation protocol is verified, and a drop-in test double
/// for the external table.
pub struct MemoryStore {
    records: Vec<Record>,
}

impl View for MemoryStore {
    type V = Map<(Seq<char>, Seq<char>), Seq<char>>;

    closed spec fn view(&self) -> Map<(Seq<char>, Seq<char>), Seq<char>> {
        records_map(self.records@)
    }
}

impl MemoryStore {
    /// At most one record exists per identity pair.
    pub closed spec fn wf(self) -> bool {
        keys_unique(self.records@)
    }

    /// An empty store.
    pub fn new() -> (store: MemoryStore)
        ensures
            store.wf(),
            store@ == Map::<(Seq<char>, Seq<char>), Seq<char>>::empty(),
    {
        MemoryStore { records: Vec::new() }
    }

    fn find_index(&self, parent_name: &str, child_name: &str) -> (result: Option<usize>)
        ensures
            match result {
                Some(i) => i < self.records@.len() && self.records@[i as int].key() == (
                    parent_name@,
                    child_name@,
                ),
                None => forall|j: int|
                    0 <= j < self.records@.len() ==> self.records@[j].key() != (
                        parent_name@,
                        child_name@,
                    ),
            },
    {
        let n = self.records.len();
        let mut i: usize = 0;
        while i < n
            invariant
                i <= n,
                n == self.records@.len(),
                forall|j: int|
                    0 <= j < i ==> self.records@[j].key() != (parent_name@, child_name@),
            decreases n - i,
        {
            let record = &self.records[i];
            if str_eq(record.parent_name.as_str(), parent_name) && str_eq(
                record.child_name.as_str(),
                child_name,
            ) {
                return Some(i);
            }
            i = i + 1;
        }
        None
    }

    /// Point lookup: the reference recorded for the identity, if any.
    pub fn find(&self, parent_name: &str, child_name: &str) -> (result: Option<String>)
        requires
            self.wf(),
        ensures
            match result {
                Some(reference) => self@.contains_key((parent_name@, child_name@)) && reference@
                    == self@[(parent_name@, child_name@)],
                None => !self@.contains_key((parent_name@, child_name@)),
            },
    {
        proof {
            lemma_records_map_contains(self.records@, (parent_name@, child_name@));
        }
        match self.find_index(parent_name, child_name) {
            Some(i) => {
                proof {
                    lemma_records_map_value(self.records@, i as int);
                }
                Some(self.records[i].reference.clone())
            },
            None => None,
        }
    }

    /// Point insert with overwrite-if-exists semantics: afterwards exactly
    /// one record carries the identity, and its reference is `reference`.
    pub fn insert(&mut self, parent_name: &str, child_name: &str, reference: &str)
        requires
            old(self).wf(),
        ensures
            final(self).wf(),
            final(self)@ == old(self)@.insert((parent_name@, child_name@), reference@),
    {
        let record = Record {
            parent_name: String::from_str(parent_name),
            child_name: String::from_str(child_name),
            reference: String::from_str(reference),
        };
        match self.find_index(parent_name, child_name) {
            Some(i) => {
                let ghost old_records = self.records@;
                proof {
                    lemma_records_map_update(old_records, i as int, record);
                }
                self.records[i] = record;
                proof {
                    assert(forall|j: int|
                        0 <= j < old_records.len() ==> self.records@[j].key()
                            == old_records[j].key());
                }
            },
            None => {
                let ghost old_records = self.records@;
                self.records.push(record);
                proof {
                    assert(self.records@.drop_last() =~= old_records);
                    assert(self.records@.last() == record);
                }
            },
        }
    }

    /// Point update: sets the reference of an existing record; a missing
    /// identity is left alone (the store may no-op on it), so an update never
    /// creates a record.
    pub fn update(&mut self, parent_name: &str, child_name: &str, reference: &str)
        requires
            old(self).wf(),
        ensures
            final(self).wf(),
            old(self)@.contains_key((parent_name@, child_name@)) ==> final(self)@ == old(
                self,
            )@.insert((parent_name@, child_name@), reference@),
            !old(self)@.contains_key((parent_name@, child_name@)) ==> *final(self) == *old(self),
    {
        proof {
            lemma_records_map_contains(self.records@, (parent_name@, child_name@));
        }
        match self.find_index(parent_name, child_name) {
            Some(i) => {
                let record = Record {
                    parent_name: String::from_str(parent_name),
                    child_name: String::from_str(child_name),
                    reference: String::from_str(reference),
                };
                let ghost old_records = self.records@;
                proof {
                    lemma_records_map_value(old_records, i as int);
                    lemma_records_map_update(old_records, i as int, record);
                }
                self.records[i] = record;
                proof {
                    assert(forall|j: int|
                        0 <= j < old_records.len() ==> self.records@[j].key()
                            == old_records[j].key());
                }
            },
            None => {},
        }
    }

    /// The number of records held: one per identity in the view.
    pub fn len(&self) -> (count: usize)
        requires
            self.wf(),
        ensures
            count == self@.dom().len(),
    {
        proof {
            lemma_records_map_len(self.records@);
        }
        self.records.len()
    }
}

} // verus!
