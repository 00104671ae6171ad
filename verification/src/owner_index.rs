//! The secondary index: a durable mapping from an owner identity to
//! the ordered sequence of task names it has created.

use vstd::prelude::*;

verus! {

/// The names of a sequence of strings, as sequences of characters.
pub open spec fn names_view(ns: Seq<String>) -> Seq<Seq<char>> {
    ns.map_values(|s: String| s@)
}

/// One index entry: an owner identity and, in creation order, the
/// names of the tasks it created.
pub struct OwnerEntry {
    pub owner: String,
    pub names: Vec<String>,
}

impl OwnerEntry {
    pub open spec fn names_seq(&self) -> Seq<Seq<char>> {
        names_view(self.names@)
    }
}

/// The contents of an entry sequence, read left to right: a later
/// entry under the same owner overwrites an earlier one.
pub open spec fn index_of(es: Seq<OwnerEntry>) -> Map<Seq<char>, Seq<Seq<char>>>
    decreases es.len(),
{
    if es.len() == 0 {
        Map::empty()
    } else {
        index_of(es.drop_last()).insert(es.last().owner@, es.last().names_seq())
    }
}

/// No two entries share an owner.
pub open spec fn unique_owners(es: Seq<OwnerEntry>) -> bool {
    forall|i: int, j: int| 0 <= i < j < es.len() ==> es[i].owner@ != es[j].owner@
}

/// An owner is in the contents exactly when some entry carries it.
proof fn lemma_index_of_contains(es: Seq<OwnerEntry>, o: Seq<char>)
    ensures
        index_of(es).contains_key(o) <==> exists|i: int| 0 <= i < es.len() && es[i].owner@ == o,
    decreases es.len(),
{
    if es.len() > 0 {
        let es0 = es.drop_last();
        lemma_index_of_contains(es0, o);
        if es.last().owner@ == o {
            assert(es[es.len() - 1].owner@ == o);
        } else {
            if index_of(es).contains_key(o) {
                let i = choose|i: int| 0 <= i < es0.len() && es0[i].owner@ == o;
                assert(es[i].owner@ == o);
            }
            if exists|i: int| 0 <= i < es.len() && es[i].owner@ == o {
                let i = choose|i: int| 0 <= i < es.len() && es[i].owner@ == o;
                assert(es0[i].owner@ == o);
            }
        }
    }
}

/// With unique owners, the contents at an entry's owner are that
/// entry's name sequence.
proof fn lemma_index_of_at_index(es: Seq<OwnerEntry>, i: int)
    requires
        unique_owners(es),
        0 <= i < es.len(),
    ensures
        index_of(es).contains_key(es[i].owner@),
        index_of(es)[es[i].owner@] == es[i].names_seq(),
    decreases es.len(),
{
    let es0 = es.drop_last();
    if i < es.len() - 1 {
        assert(unique_owners(es0)) by {
            assert(forall|a: int, b: int|
                0 <= a < b < es0.len() ==> es0[a] == es[a] && es0[b] == es[b]);
        }
        lemma_index_of_at_index(es0, i);
        assert(es.last().owner@ != es[i].owner@);
    }
}

/// Appending an entry for a fresh owner inserts its names and keeps
/// owners unique.
proof fn lemma_index_of_push(es: Seq<OwnerEntry>, e: OwnerEntry)
    requires
        unique_owners(es),
        !index_of(es).contains_key(e.owner@),
    ensures
        index_of(es.push(e)) == index_of(es).insert(e.owner@, e.names_seq()),
        unique_owners(es.push(e)),
{
    assert(es.push(e).drop_last() =~= es);
    assert(es.push(e).last() == e);
    lemma_index_of_contains(es, e.owner@);
    let esp = es.push(e);
    assert forall|a: int, b: int| 0 <= a < b < esp.len() implies esp[a].owner@ != esp[b].owner@ by {
        if b == esp.len() - 1 {
            assert(esp[a] == es[a]);
        } else {
            assert(esp[a] == es[a] && esp[b] == es[b]);
        }
    }
}

/// Replacing the entry that carries an owner overwrites its names in
/// the contents and keeps owners unique.
proof fn lemma_index_of_update(es: Seq<OwnerEntry>, i: int, e: OwnerEntry)
    requires
        unique_owners(es),
        0 <= i < es.len(),
        e.owner@ == es[i].owner@,
    ensures
        index_of(es.update(i, e)) == index_of(es).insert(e.owner@, e.names_seq()),
        unique_owners(es.update(i, e)),
    decreases es.len(),
{
    let es0 = es.drop_last();
    let esu = es.update(i, e);
    assert forall|a: int, b: int| 0 <= a < b < esu.len() implies esu[a].owner@ != esu[b].owner@ by {
        assert(esu[a].owner@ == es[a].owner@ && esu[b].owner@ == es[b].owner@);
    }
    if i == es.len() - 1 {
        assert(esu.drop_last() =~= es0);
        assert(esu.last() == e);
        assert(index_of(es0).insert(e.owner@, e.names_seq())
            =~= index_of(es0).insert(es.last().owner@, es.last().names_seq())
                .insert(e.owner@, e.names_seq()));
    } else {
        assert(unique_owners(es0)) by {
            assert(forall|a: int, b: int|
                0 <= a < b < es0.len() ==> es0[a] == es[a] && es0[b] == es[b]);
        }
        assert(es0[i] == es[i]);
        lemma_index_of_update(es0, i, e);
        assert(esu.drop_last() =~= es0.update(i, e));
        assert(esu.last() == es.last());
        assert(es.last().owner@ != e.owner@);
        assert(index_of(es0).insert(e.owner@, e.names_seq())
                .insert(es.last().owner@, es.last().names_seq())
            =~= index_of(es0).insert(es.last().owner@, es.last().names_seq())
                .insert(e.owner@, e.names_seq()));
    }
}

/// A durable mapping from an owner identity to the ordered sequence of
/// task names it has created.  Entries only ever grow: names are never
/// removed or reordered.
pub struct OwnerIndex {
    entries: Vec<OwnerEntry>,
}

impl View for OwnerIndex {
    type V = Map<Seq<char>, Seq<Seq<char>>>;

    closed spec fn view(&self) -> Map<Seq<char>, Seq<Seq<char>>> {
        index_of(self.entries@)
    }
}

impl OwnerIndex {
    /// Representation invariant: no two entries share an owner.
    pub closed spec fn inv(&self) -> bool {
        unique_owners(self.entries@)
    }

    /// An empty index.
    pub fn new() -> (s: Self)
        ensures
            s.inv(),
            s@ == Map::<Seq<char>, Seq<Seq<char>>>::empty(),
    {
        OwnerIndex { entries: Vec::new() }
    }

    /// The position of the entry for `owner`, if any.
    fn find(&self, owner: &String) -> (r: Option<usize>)
        requires
            self.inv(),
        ensures
            match r {
                Some(i) => i < self.entries@.len() && self.entries@[i as int].owner@ == owner@,
                None => !self@.contains_key(owner@),
            },
    {
        let n = self.entries.len();
        let mut i: usize = 0;
        while i < n
            invariant
                i <= n,
                n == self.entries@.len(),
                forall|j: int| 0 <= j < i ==> self.entries@[j].owner@ != owner@,
            decreases n - i,
        {
            if self.entries[i].owner == *owner {
                return Some(i);
            }
            i += 1;
        }
        proof {
            lemma_index_of_contains(self.entries@, owner@);
        }
        None
    }

    /// The names created by `owner`, in creation order; `None` means
    /// the owner has never created a task — an expected state, not an
    /// error.
    pub fn get(&self, owner: &String) -> (r: Option<&Vec<String>>)
        requires
            self.inv(),
        ensures
            match r {
                Some(ns) => self@.contains_key(owner@) && names_view(ns@) == self@[owner@],
                None => !self@.contains_key(owner@),
            },
    {
        match self.find(owner) {
            Some(i) => {
                proof {
                    lemma_index_of_at_index(self.entries@, i as int);
                }
                Some(&self.entries[i].names)
            },
            None => None,
        }
    }

    /// Whether `owner` has already created a task called `name`.
    pub fn contains_name(&self, owner: &String, name: &String) -> (r: bool)
        requires
            self.inv(),
        ensures
            r == (self@.contains_key(owner@) && self@[owner@].contains(name@)),
    {
        match self.get(owner) {
            Some(ns) => {
                let n = ns.len();
                let mut i: usize = 0;
                while i < n
                    invariant
                        i <= n,
                        n == ns@.len(),
                        self@.contains_key(owner@),
                        names_view(ns@) == self@[owner@],
                        forall|j: int| 0 <= j < i ==> ns@[j]@ != name@,
                    decreases n - i,
                {
                    if ns[i] == *name {
                        proof {
                            assert(names_view(ns@).len() == ns@.len());
                            assert(names_view(ns@)[i as int] == name@);
                            assert(names_view(ns@).contains(name@));
                        }
                        return true;
                    }
                    i += 1;
                }
                assert forall|j: int| 0 <= j < names_view(ns@).len()
                    implies names_view(ns@)[j] != name@ by {
                    assert(names_view(ns@)[j] == ns@[j]@);
                }
                false
            },
            None => false,
        }
    }

    /// Records that `owner` created a task called `name`: creates the
    /// entry `[name]` if the owner has none, and otherwise appends
    /// `name` at the end, preserving the prior order.  No removal, no
    /// deduplication.
    pub fn append(&mut self, owner: &String, name: String)
        requires
            old(self).inv(),
        ensures
            final(self).inv(),
            old(self)@.contains_key(owner@) ==> final(self)@ == old(self)@.insert(
                owner@,
                old(self)@[owner@].push(name@),
            ),
            !old(self)@.contains_key(owner@) ==> final(self)@ == old(self)@.insert(
                owner@,
                seq![name@],
            ),
    {
        let found = self.find(owner);
        let ghost es0 = self.entries@;
        let ghost gname = name;
        match found {
            Some(i) => {
                proof {
                    lemma_index_of_at_index(es0, i as int);
                }
                let entry = &mut self.entries[i];
                entry.names.push(name);
                proof {
                    let e1 = self.entries@[i as int];
                    assert(self.entries@ =~= es0.update(i as int, e1));
                    assert(e1.names_seq() =~= es0[i as int].names_seq().push(gname@));
                    lemma_index_of_update(es0, i as int, e1);
                }
            },
            None => {
                let mut names: Vec<String> = Vec::new();
                names.push(name);
                let entry = OwnerEntry { owner: owner.clone(), names };
                let ghost gentry = entry;
                proof {
                    assert(gentry.names_seq() =~= seq![gname@]);
                    lemma_index_of_push(es0, gentry);
                }
                self.entries.push(entry);
            },
        }
    }
}

} // verus!
