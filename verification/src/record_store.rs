//! The primary record table: a durable mapping from a composite key —
//! the (owner, name) pair — to the task record stored under it.

use vstd::prelude::*;
use crate::task::{Task, TaskView};

verus! {

/// The key of a stored record: the owner identity and the task name.
pub type StoreKey = (Seq<char>, Seq<char>);

/// One stored record: the key components and the task held under them.
pub struct Record {
    pub owner: String,
    pub name: String,
    pub task: Task,
}

impl Record {
    pub open spec fn key(&self) -> StoreKey {
        (self.owner@, self.name@)
    }
}

/// The contents of a record sequence, read left to right: a later
/// record under the same key overwrites an earlier one.
pub open spec fn map_of(rs: Seq<Record>) -> Map<StoreKey, TaskView>
    decreases rs.len(),
{
    if rs.len() == 0 {
        Map::empty()
    } else {
        map_of(rs.drop_last()).insert(rs.last().key(), rs.last().task@)
    }
}

/// No two records share a key.
pub open spec fn unique_keys(rs: Seq<Record>) -> bool {
    forall|i: int, j: int| 0 <= i < j < rs.len() ==> rs[i].key() != rs[j].key()
}

/// A key is in the contents exactly when some record carries it.
proof fn lemma_map_of_contains(rs: Seq<Record>, k: StoreKey)
    ensures
        map_of(rs).contains_key(k) <==> exists|i: int| 0 <= i < rs.len() && rs[i].key() == k,
    decreases rs.len(),
{
    if rs.len() > 0 {
        let rs0 = rs.drop_last();
        lemma_map_of_contains(rs0, k);
        if rs.last().key() == k {
            assert(rs[rs.len() - 1].key() == k);
        } else {
            if map_of(rs).contains_key(k) {
                let i = choose|i: int| 0 <= i < rs0.len() && rs0[i].key() == k;
                assert(rs[i].key() == k);
            }
            if exists|i: int| 0 <= i < rs.len() && rs[i].key() == k {
                let i = choose|i: int| 0 <= i < rs.len() && rs[i].key() == k;
                assert(rs0[i].key() == k);
            }
        }
    }
}

/// With unique keys, the contents at a record's key are that record's task.
proof fn lemma_map_of_at_index(rs: Seq<Record>, i: int)
    requires
        unique_keys(rs),
        0 <= i < rs.len(),
    ensures
        map_of(rs).contains_key(rs[i].key()),
        map_of(rs)[rs[i].key()] == rs[i].task@,
    decreases rs.len(),
{
    let rs0 = rs.drop_last();
    if i < rs.len() - 1 {
        assert(unique_keys(rs0)) by {
            assert(forall|a: int, b: int|
                0 <= a < b < rs0.len() ==> rs0[a] == rs[a] && rs0[b] == rs[b]);
        }
        lemma_map_of_at_index(rs0, i);
        assert(rs.last().key() != rs[i].key());
    }
}

/// Appending a record with a fresh key inserts its task and keeps keys unique.
proof fn lemma_map_of_push(rs: Seq<Record>, r: Record)
    requires
        unique_keys(rs),
        !map_of(rs).contains_key(r.key()),
    ensures
        map_of(rs.push(r)) == map_of(rs).insert(r.key(), r.task@),
        unique_keys(rs.push(r)),
{
    assert(rs.push(r).drop_last() =~= rs);
    assert(rs.push(r).last() == r);
    lemma_map_of_contains(rs, r.key());
    let rsp = rs.push(r);
    assert forall|a: int, b: int| 0 <= a < b < rsp.len() implies rsp[a].key() != rsp[b].key() by {
        if b == rsp.len() - 1 {
            assert(rsp[a] == rs[a]);
        } else {
            assert(rsp[a] == rs[a] && rsp[b] == rs[b]);
        }
    }
}

/// Replacing the record that carries a key overwrites its task in the
/// contents and keeps keys unique.
proof fn lemma_map_of_update(rs: Seq<Record>, i: int, r: Record)
    requires
        unique_keys(rs),
        0 <= i < rs.len(),
        r.key() == rs[i].key(),
    ensures
        map_of(rs.update(i, r)) == map_of(rs).insert(r.key(), r.task@),
        unique_keys(rs.update(i, r)),
    decreases rs.len(),
{
    let rs0 = rs.drop_last();
    let rsu = rs.update(i, r);
    assert forall|a: int, b: int| 0 <= a < b < rsu.len() implies rsu[a].key() != rsu[b].key() by {
        assert(rsu[a].key() == rs[a].key() && rsu[b].key() == rs[b].key());
    }
    if i == rs.len() - 1 {
        assert(rsu.drop_last() =~= rs0);
        assert(rsu.last() == r);
        assert(map_of(rs0).insert(r.key(), r.task@)
            =~= map_of(rs0).insert(rs.last().key(), rs.last().task@).insert(r.key(), r.task@));
    } else {
        assert(unique_keys(rs0)) by {
            assert(forall|a: int, b: int|
                0 <= a < b < rs0.len() ==> rs0[a] == rs[a] && rs0[b] == rs[b]);
        }
        assert(rs0[i] == rs[i]);
        lemma_map_of_update(rs0, i, r);
        assert(rsu.drop_last() =~= rs0.update(i, r));
        assert(rsu.last() == rs.last());
        assert(rs.last().key() != r.key());
        assert(map_of(rs0).insert(r.key(), r.task@).insert(rs.last().key(), rs.last().task@)
            =~= map_of(rs0).insert(rs.last().key(), rs.last().task@).insert(r.key(), r.task@));
    }
}

/// A durable mapping from the (owner, name) pair to the task record
/// stored under it.  Point lookups and unconditional upserts are the
/// only operations; records are never removed.
pub struct RecordStore {
    records: Vec<Record>,
}

impl View for RecordStore {
    type V = Map<StoreKey, TaskView>;

    closed spec fn view(&self) -> Map<StoreKey, TaskView> {
        map_of(self.records@)
    }
}

impl RecordStore {
    /// Representation invariant: no two records share a key.
    pub closed spec fn inv(&self) -> bool {
        unique_keys(self.records@)
    }

    /// An empty store.
    pub fn new() -> (s: Self)
        ensures
            s.inv(),
            s@ == Map::<StoreKey, TaskView>::empty(),
    {
        RecordStore { records: Vec::new() }
    }

    /// The position of the record keyed by (owner, name), if any.
    fn find(&self, owner: &String, name: &String) -> (r: Option<usize>)
        requires
            self.inv(),
        ensures
            match r {
                Some(i) => i < self.records@.len()
                    && self.records@[i as int].key() == (owner@, name@),
                None => !self@.contains_key((owner@, name@)),
            },
    {
        let n = self.records.len();
        let mut i: usize = 0;
        while i < n
            invariant
                i <= n,
                n == self.records@.len(),
                forall|j: int| 0 <= j < i ==> self.records@[j].key() != (owner@, name@),
            decreases n - i,
        {
            let rec = &self.records[i];
            if rec.owner == *owner && rec.name == *name {
                return Some(i);
            }
            i += 1;
        }
        proof {
            lemma_map_of_contains(self.records@, (owner@, name@));
        }
        None
    }

    /// Point lookup: the task stored under (owner, name), or `None` if
    /// the key is absent.  Callers must treat absence as a distinct,
    /// handled case.
    pub fn get(&self, owner: &String, name: &String) -> (r: Option<&Task>)
        requires
            self.inv(),
        ensures
            match r {
                Some(t) => self@.contains_key((owner@, name@))
                    && t@ == self@[(owner@, name@)],
                None => !self@.contains_key((owner@, name@)),
            },
    {
        match self.find(owner, name) {
            Some(i) => {
                proof {
                    lemma_map_of_at_index(self.records@, i as int);
                }
                Some(&self.records[i].task)
            },
            None => None,
        }
    }

    /// Unconditional upsert: stores `task` under (owner, name),
    /// overwriting any record already held there.  No error condition.
    pub fn put(&mut self, owner: &String, name: &String, task: Task)
        requires
            old(self).inv(),
        ensures
            final(self).inv(),
            final(self)@ == old(self)@.insert((owner@, name@), task@),
    {
        let found = self.find(owner, name);
        let rec = Record { owner: owner.clone(), name: name.clone(), task };
        let ghost grec = rec;
        let ghost rs0 = self.records@;
        match found {
            Some(i) => {
                proof {
                    lemma_map_of_at_index(rs0, i as int);
                    lemma_map_of_update(rs0, i as int, grec);
                }
                let slot = &mut self.records[i];
                *slot = rec;
            },
            None => {
                proof {
                    lemma_map_of_push(rs0, grec);
                }
                self.records.push(rec);
            },
        }
    }
}

} // verus!
