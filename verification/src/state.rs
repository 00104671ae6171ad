//! The mathematical model of the service state, and the laws the
//! operations obey.

use vstd::prelude::*;
use crate::record_store::StoreKey;
use crate::task::{TaskView, id_of, initial_status};

verus! {

/// The state of the service: the contents of the record table and of
/// the owner index.
pub struct State {
    pub store: Map<StoreKey, TaskView>,
    pub index: Map<Seq<char>, Seq<Seq<char>>>,
}

impl State {
    /// The initial state: both maps empty.
    pub open spec fn empty() -> State {
        State { store: Map::empty(), index: Map::empty() }
    }

    /// The view of the task a creation stores: the synthesized
    /// identifier, the given name, the initial status.
    pub open spec fn created_task(owner: Seq<char>, name: Seq<char>) -> TaskView {
        TaskView { id: id_of(owner, name), name: name, status: initial_status() }
    }

    /// The view of the task a status update stores: the same
    /// identifier and name, the new status.
    pub open spec fn updated_task(owner: Seq<char>, name: Seq<char>, status: Seq<char>) -> TaskView {
        TaskView { id: id_of(owner, name), name: name, status: status }
    }

    /// The names created by an owner, in creation order; empty for an
    /// owner that has never created a task.
    pub open spec fn names_of(self, owner: Seq<char>) -> Seq<Seq<char>> {
        if self.index.contains_key(owner) {
            self.index[owner]
        } else {
            Seq::empty()
        }
    }

    /// Every name the owner's entry lists resolves in the record table.
    pub open spec fn listable(self, owner: Seq<char>) -> bool {
        forall|i: int| 0 <= i < self.names_of(owner).len()
            ==> self.store.contains_key((owner, #[trigger] self.names_of(owner)[i]))
    }

    /// The owner's tasks, in creation order.
    pub open spec fn listing(self, owner: Seq<char>) -> Seq<TaskView> {
        self.names_of(owner).map(|i: int, n: Seq<char>| self.store[(owner, n)])
    }

    /// Whether a record exists under the (owner, name) key.
    pub open spec fn has_task(self, owner: Seq<char>, name: Seq<char>) -> bool {
        self.store.contains_key((owner, name))
    }

    /// Record well-formedness: each stored record carries the
    /// identifier synthesized from its key, and the key's name.
    pub open spec fn records_wf(self) -> bool {
        forall|k: StoreKey| #[trigger] self.store.contains_key(k)
            ==> self.store[k].id == id_of(k.0, k.1) && self.store[k].name == k.1
    }

    /// Two-map consistency: every name listed under any owner resolves
    /// in the record table.
    pub open spec fn consistent(self) -> bool {
        forall|o: Seq<char>| #[trigger] self.index.contains_key(o) ==> self.listable(o)
    }

    /// The state after a creation: the created task is stored under
    /// the (owner, name) key, overwriting any record already there,
    /// and the name is appended to the owner's entry unless the owner
    /// has already used it.
    pub open spec fn create(self, owner: Seq<char>, name: Seq<char>) -> State {
        State {
            store: self.store.insert((owner, name), Self::created_task(owner, name)),
            index: if self.names_of(owner).contains(name) {
                self.index
            } else {
                self.index.insert(owner, self.names_of(owner).push(name))
            },
        }
    }

    /// The state after a successful status update: the record under
    /// the key is overwritten; the index does not change.
    pub open spec fn update(self, owner: Seq<char>, name: Seq<char>, status: Seq<char>) -> State {
        State {
            store: self.store.insert((owner, name), Self::updated_task(owner, name, status)),
            index: self.index,
        }
    }
}

/// An owner that has never created a task lists nothing: an absent
/// index entry yields the empty listing, not an error.
pub proof fn lemma_list_empty_for_unseen(s: State, owner: Seq<char>)
    requires
        !s.index.contains_key(owner),
    ensures
        s.listable(owner),
        s.listing(owner) == Seq::<TaskView>::empty(),
{
    assert(s.listing(owner) =~= Seq::<TaskView>::empty());
}

/// In a consistent state every owner can be listed, seen or not.
pub proof fn lemma_consistent_listable(s: State, owner: Seq<char>)
    requires
        s.consistent(),
    ensures
        s.listable(owner),
{
    if !s.index.contains_key(owner) {
        lemma_list_empty_for_unseen(s, owner);
    }
}

/// Creation appends: a name the owner has not used yet goes to the end
/// of its entry, the created task resolves, and every task listed
/// before is listed unchanged, in its old position.
pub proof fn lemma_create_appends(s: State, owner: Seq<char>, name: Seq<char>)
    requires
        s.listable(owner),
        !s.names_of(owner).contains(name),
    ensures
        s.create(owner, name).listable(owner),
        s.create(owner, name).names_of(owner) == s.names_of(owner).push(name),
        s.create(owner, name).listing(owner)
            == s.listing(owner).push(State::created_task(owner, name)),
{
    let s1 = s.create(owner, name);
    let ns = s.names_of(owner);
    assert(s1.names_of(owner) =~= ns.push(name));
    assert forall|i: int| 0 <= i < s1.names_of(owner).len()
        implies s1.store.contains_key((owner, #[trigger] s1.names_of(owner)[i])) by {
        if i < ns.len() {
            assert(s1.names_of(owner)[i] == ns[i]);
        }
    }
    assert forall|i: int| 0 <= i < s1.listing(owner).len()
        implies s1.listing(owner)[i]
            == s.listing(owner).push(State::created_task(owner, name))[i] by {
        if i < ns.len() {
            assert(ns[i] != name);
            assert((owner, ns[i]) != (owner, name));
            assert(s1.listing(owner)[i] == s1.store[(owner, ns[i])]);
        }
    }
    assert(s1.listing(owner) =~= s.listing(owner).push(State::created_task(owner, name)));
}

/// Round trip: creating a task for an owner not yet in the index makes
/// its listing exactly the one created task, with the synthesized
/// identifier and the initial status.
pub proof fn lemma_create_round_trip(s: State, owner: Seq<char>, name: Seq<char>)
    requires
        !s.index.contains_key(owner),
    ensures
        s.create(owner, name).listable(owner),
        s.create(owner, name).listing(owner) == seq![State::created_task(owner, name)],
{
    lemma_list_empty_for_unseen(s, owner);
    lemma_create_appends(s, owner, name);
    assert(s.listing(owner).push(State::created_task(owner, name))
        =~= seq![State::created_task(owner, name)]);
}

/// Re-creating a name the owner already used overwrites its record —
/// resetting it to the initial status — and appends nothing: the
/// owner's names, and every task listed under a different name, stay
/// as they were.
pub proof fn lemma_create_existing(s: State, owner: Seq<char>, name: Seq<char>)
    requires
        s.listable(owner),
        s.names_of(owner).contains(name),
    ensures
        s.create(owner, name).names_of(owner) == s.names_of(owner),
        s.create(owner, name).listable(owner),
        s.create(owner, name).listing(owner).len() == s.listing(owner).len(),
        forall|i: int| 0 <= i < s.names_of(owner).len()
            ==> s.create(owner, name).listing(owner)[i]
                == if s.names_of(owner)[i] == name {
                    State::created_task(owner, name)
                } else {
                    s.listing(owner)[i]
                },
{
    let s1 = s.create(owner, name);
    let ns = s.names_of(owner);
    assert(s1.names_of(owner) == ns);
    assert forall|i: int| 0 <= i < s1.names_of(owner).len()
        implies s1.store.contains_key((owner, #[trigger] s1.names_of(owner)[i])) by {
        if ns[i] != name {
            assert((owner, ns[i]) != (owner, name));
        }
    }
    assert forall|i: int| 0 <= i < ns.len()
        implies s1.listing(owner)[i]
            == if ns[i] == name { State::created_task(owner, name) } else { s.listing(owner)[i] } by {
        if ns[i] != name {
            assert((owner, ns[i]) != (owner, name));
        }
    }
}

/// A status update is visible exactly where the name is listed, and
/// nowhere else: the owner's names are unchanged, and each listed task
/// keeps its record unless it is listed under the updated name, in
/// which case it now carries the new status and the same name.
pub proof fn lemma_update_visible(s: State, owner: Seq<char>, name: Seq<char>, status: Seq<char>)
    requires
        s.listable(owner),
    ensures
        s.update(owner, name, status).names_of(owner) == s.names_of(owner),
        s.update(owner, name, status).listable(owner),
        s.update(owner, name, status).listing(owner).len() == s.listing(owner).len(),
        forall|i: int| 0 <= i < s.names_of(owner).len()
            ==> s.update(owner, name, status).listing(owner)[i]
                == if s.names_of(owner)[i] == name {
                    State::updated_task(owner, name, status)
                } else {
                    s.listing(owner)[i]
                },
{
    let s1 = s.update(owner, name, status);
    let ns = s.names_of(owner);
    assert(s1.names_of(owner) == ns);
    assert forall|i: int| 0 <= i < s1.names_of(owner).len()
        implies s1.store.contains_key((owner, #[trigger] s1.names_of(owner)[i])) by {
        if ns[i] != name {
            assert((owner, ns[i]) != (owner, name));
        }
    }
    assert forall|i: int| 0 <= i < ns.len()
        implies s1.listing(owner)[i]
            == if ns[i] == name { State::updated_task(owner, name, status) } else {
                s.listing(owner)[i]
            } by {
        if ns[i] != name {
            assert((owner, ns[i]) != (owner, name));
        }
    }
}

/// After creating a task and then updating its status, the owner's
/// listing shows that task under its name with the new status, the
/// name itself unchanged.
pub proof fn lemma_create_update_listed(s: State, owner: Seq<char>, name: Seq<char>, status: Seq<char>)
    requires
        s.listable(owner),
    ensures
        s.create(owner, name).update(owner, name, status).listable(owner),
        s.create(owner, name).update(owner, name, status).names_of(owner).contains(name),
        forall|i: int|
            0 <= i < s.create(owner, name).update(owner, name, status).names_of(owner).len()
            && s.create(owner, name).update(owner, name, status).names_of(owner)[i] == name
            ==> s.create(owner, name).update(owner, name, status).listing(owner)[i]
                == State::updated_task(owner, name, status),
{
    let s1 = s.create(owner, name);
    let s2 = s1.update(owner, name, status);
    if s.names_of(owner).contains(name) {
        lemma_create_existing(s, owner, name);
    } else {
        lemma_create_appends(s, owner, name);
        assert(s1.names_of(owner)[s.names_of(owner).len() as int] == name);
    }
    lemma_update_visible(s1, owner, name, status);
}

/// Owner isolation under creation: a task created by one owner never
/// changes what a different owner's listing names or shows.
pub proof fn lemma_owner_isolation_create(s: State, a: Seq<char>, name: Seq<char>, b: Seq<char>)
    requires
        a != b,
    ensures
        s.create(a, name).names_of(b) == s.names_of(b),
        s.create(a, name).listable(b) <==> s.listable(b),
        s.listable(b) ==> s.create(a, name).listing(b) == s.listing(b),
{
    let s1 = s.create(a, name);
    assert(s1.names_of(b) == s.names_of(b));
    let ns = s.names_of(b);
    assert forall|i: int| 0 <= i < ns.len()
        implies (s1.store.contains_key((b, #[trigger] ns[i]))
            <==> s.store.contains_key((b, ns[i]))) by {
        assert((a, name) != (b, ns[i]));
    }
    if s.listable(b) {
        assert forall|i: int| 0 <= i < ns.len()
            implies s1.listing(b)[i] == s.listing(b)[i] by {
            assert((a, name) != (b, ns[i]));
            assert(s1.store[(b, ns[i])] == s.store[(b, ns[i])]);
        }
        assert(s1.listing(b) =~= s.listing(b));
    }
}

/// Owner isolation under status updates: an update by one owner never
/// changes what a different owner's listing names or shows.
pub proof fn lemma_owner_isolation_update(
    s: State,
    a: Seq<char>,
    name: Seq<char>,
    status: Seq<char>,
    b: Seq<char>,
)
    requires
        a != b,
    ensures
        s.update(a, name, status).names_of(b) == s.names_of(b),
        s.update(a, name, status).listable(b) <==> s.listable(b),
        s.listable(b) ==> s.update(a, name, status).listing(b) == s.listing(b),
{
    let s1 = s.update(a, name, status);
    let ns = s.names_of(b);
    assert forall|i: int| 0 <= i < ns.len()
        implies (s1.store.contains_key((b, #[trigger] ns[i]))
            <==> s.store.contains_key((b, ns[i]))) by {
        assert((a, name) != (b, ns[i]));
    }
    if s.listable(b) {
        assert forall|i: int| 0 <= i < ns.len()
            implies s1.listing(b)[i] == s.listing(b)[i] by {
            assert((a, name) != (b, ns[i]));
            assert(s1.store[(b, ns[i])] == s.store[(b, ns[i])]);
        }
        assert(s1.listing(b) =~= s.listing(b));
    }
}

/// Creation preserves record well-formedness: the stored record
/// carries the identifier synthesized from its key, and the key's
/// name.
pub proof fn lemma_create_preserves_records_wf(s: State, owner: Seq<char>, name: Seq<char>)
    requires
        s.records_wf(),
    ensures
        s.create(owner, name).records_wf(),
{
    let s1 = s.create(owner, name);
    assert forall|k: StoreKey| #[trigger] s1.store.contains_key(k)
        implies s1.store[k].id == id_of(k.0, k.1) && s1.store[k].name == k.1 by {
        if k != (owner, name) {
            assert(s.store.contains_key(k));
        }
    }
}

/// A status update preserves record well-formedness: the replacement
/// record carries the identifier synthesized from its key, and the
/// key's name.
pub proof fn lemma_update_preserves_records_wf(
    s: State,
    owner: Seq<char>,
    name: Seq<char>,
    status: Seq<char>,
)
    requires
        s.records_wf(),
    ensures
        s.update(owner, name, status).records_wf(),
{
    let s1 = s.update(owner, name, status);
    assert forall|k: StoreKey| #[trigger] s1.store.contains_key(k)
        implies s1.store[k].id == id_of(k.0, k.1) && s1.store[k].name == k.1 by {
        if k != (owner, name) {
            assert(s.store.contains_key(k));
        }
    }
}

/// Creation preserves two-map consistency.
pub proof fn lemma_create_preserves_consistent(s: State, owner: Seq<char>, name: Seq<char>)
    requires
        s.consistent(),
    ensures
        s.create(owner, name).consistent(),
{
    let s1 = s.create(owner, name);
    assert forall|o: Seq<char>| #[trigger] s1.index.contains_key(o) implies s1.listable(o) by {
        lemma_consistent_listable(s, o);
        if o == owner {
            if s.names_of(owner).contains(name) {
                lemma_create_existing(s, owner, name);
            } else {
                lemma_create_appends(s, owner, name);
            }
        } else {
            lemma_owner_isolation_create(s, owner, name, o);
        }
    }
}

/// A status update preserves two-map consistency.
pub proof fn lemma_update_preserves_consistent(
    s: State,
    owner: Seq<char>,
    name: Seq<char>,
    status: Seq<char>,
)
    requires
        s.consistent(),
    ensures
        s.update(owner, name, status).consistent(),
{
    let s1 = s.update(owner, name, status);
    assert forall|o: Seq<char>| #[trigger] s1.index.contains_key(o) implies s1.listable(o) by {
        lemma_consistent_listable(s, o);
        if o == owner {
            lemma_update_visible(s, owner, name, status);
        } else {
            lemma_owner_isolation_update(s, owner, name, status, o);
        }
    }
}

} // verus!
