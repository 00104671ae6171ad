//! The task service: composes the record table and the owner index,
//! synthesizes identifiers, keeps the two maps consistent, and answers
//! owner-scoped queries.

use vstd::prelude::*;
use crate::owner_index::{OwnerIndex, names_view};
use crate::record_store::RecordStore;
use crate::state::{
    State, lemma_create_preserves_consistent, lemma_create_preserves_records_wf,
    lemma_list_empty_for_unseen, lemma_update_preserves_consistent,
    lemma_update_preserves_records_wf,
};
use crate::task::{Task, tasks_view};

verus! {

/// The errors an operation can report.
#[derive(Debug, PartialEq, Eq)]
pub enum TaskError {
    /// A status update named a task that was never created.
    NotFound,
    /// An identifier listed in the owner index resolved to no record:
    /// the two maps have diverged.  Unrecoverable at the point of
    /// detection; never retried.
    CorruptIndex,
}

/// The task-tracking service.  All state lives in the two composed
/// stores; the caller identity is an opaque string supplied by the
/// surrounding execution environment with every call.
pub struct Contract {
    tasks: RecordStore,
    tasks_by_account: OwnerIndex,
}

impl View for Contract {
    type V = State;

    closed spec fn view(&self) -> State {
        State { store: self.tasks@, index: self.tasks_by_account@ }
    }
}

impl Contract {
    /// Well-formedness: the two stores satisfy their representation
    /// invariants and every stored record carries the identifier
    /// synthesized from its key.
    pub closed spec fn inv(&self) -> bool {
        &&& self.tasks.inv()
        &&& self.tasks_by_account.inv()
        &&& self@.records_wf()
    }

    /// A service over injected stores.  The record table must be
    /// well-formed; the index may disagree with it, and listing then
    /// reports the divergence.
    pub fn from_parts(tasks: RecordStore, tasks_by_account: OwnerIndex) -> (c: Contract)
        requires
            tasks.inv(),
            tasks_by_account.inv(),
            (State { store: tasks@, index: tasks_by_account@ }).records_wf(),
        ensures
            c.inv(),
            c@ == (State { store: tasks@, index: tasks_by_account@ }),
    {
        Contract { tasks, tasks_by_account }
    }

    /// The current tasks of `owner`, in creation order.  An owner that
    /// never created a task gets an empty list.  A name listed in the
    /// index but missing from the record table stops the operation
    /// with `CorruptIndex`.
    pub fn get_tasks(&self, owner: &String) -> (r: Result<Vec<Task>, TaskError>)
        requires
            self.inv(),
        ensures
            match r {
                Ok(ts) => self@.listable(owner@) && tasks_view(ts@) == self@.listing(owner@),
                Err(e) => e == TaskError::CorruptIndex && !self@.listable(owner@),
            },
    {
        let mut result: Vec<Task> = Vec::new();
        match self.tasks_by_account.get(owner) {
            None => {
                proof {
                    lemma_list_empty_for_unseen(self@, owner@);
                    assert(tasks_view(result@) =~= self@.listing(owner@));
                }
                Ok(result)
            },
            Some(ns) => {
                let n = ns.len();
                let mut i: usize = 0;
                while i < n
                    invariant
                        i <= n,
                        n == ns@.len(),
                        self.inv(),
                        self@.index.contains_key(owner@),
                        names_view(ns@) == self@.index[owner@],
                        result@.len() == i,
                        forall|j: int| 0 <= j < i
                            ==> self@.store.contains_key((owner@, #[trigger] names_view(ns@)[j])),
                        forall|j: int| 0 <= j < i
                            ==> (#[trigger] result@[j])@
                                == self@.store[(owner@, names_view(ns@)[j])],
                    decreases n - i,
                {
                    let name = &ns[i];
                    match self.tasks.get(owner, name) {
                        Some(t) => {
                            result.push(t.duplicate());
                        },
                        None => {
                            proof {
                                assert(self@.names_of(owner@)[i as int] == name@);
                            }
                            return Err(TaskError::CorruptIndex);
                        },
                    }
                    i += 1;
                }
                proof {
                    assert(self@.names_of(owner@) == names_view(ns@));
                    assert(tasks_view(result@) =~= self@.listing(owner@));
                }
                Ok(result)
            },
        }
    }

    /// Creates a task named `task_name` for `owner`: synthesizes the
    /// identifier, stores the record — overwriting any record the pair
    /// already had — and appends the name to the owner's entry unless
    /// the owner has already used it, so a repeated creation leaves no
    /// duplicate in the entry.  Returns the created task.
    pub fn insert_task(&mut self, owner: &String, task_name: String) -> (t: Task)
        requires
            old(self).inv(),
        ensures
            final(self).inv(),
            t@ == State::created_task(owner@, task_name@),
            final(self)@ == old(self)@.create(owner@, task_name@),
            old(self)@.consistent() ==> final(self)@.consistent(),
    {
        let t = Task::build(owner, task_name.clone(), String::from_str("TODO"));
        let stored = t.duplicate();
        self.tasks.put(owner, &task_name, stored);
        if !self.tasks_by_account.contains_name(owner, &task_name) {
            self.tasks_by_account.append(owner, task_name);
        }
        proof {
            let s0 = old(self)@;
            assert(Seq::<Seq<char>>::empty().push(task_name@) =~= seq![task_name@]);
            assert(self@.index =~= s0.create(owner@, task_name@).index);
            assert(self@ == s0.create(owner@, task_name@));
            lemma_create_preserves_records_wf(s0, owner@, task_name@);
            if s0.consistent() {
                lemma_create_preserves_consistent(s0, owner@, task_name@);
            }
        }
        t
    }

    /// Replaces the status of the task named `task_name` of `owner`,
    /// leaving its identifier and name as they were, and returns the
    /// updated task.  A pair that was never created is reported as
    /// `NotFound` and nothing changes: an update fabricates no record.
    pub fn update_task(&mut self, owner: &String, task_name: String, task_status: String) -> (r:
        Result<Task, TaskError>)
        requires
            old(self).inv(),
        ensures
            final(self).inv(),
            old(self)@.has_task(owner@, task_name@) ==> match r {
                Ok(t) => t@ == State::updated_task(owner@, task_name@, task_status@)
                    && final(self)@ == old(self)@.update(owner@, task_name@, task_status@),
                Err(_) => false,
            },
            !old(self)@.has_task(owner@, task_name@) ==> r == Err::<Task, TaskError>(
                TaskError::NotFound,
            ) && *final(self) == *old(self),
            old(self)@.consistent() ==> final(self)@.consistent(),
    {
        match self.tasks.get(owner, &task_name) {
            Some(_) => {},
            None => {
                return Err(TaskError::NotFound);
            },
        }
        let t = Task::build(owner, task_name.clone(), task_status);
        let stored = t.duplicate();
        self.tasks.put(owner, &task_name, stored);
        proof {
            let s0 = old(self)@;
            assert(self@ == s0.update(owner@, task_name@, task_status@));
            lemma_update_preserves_records_wf(s0, owner@, task_name@, task_status@);
            if s0.consistent() {
                lemma_update_preserves_consistent(s0, owner@, task_name@, task_status@);
            }
        }
        Ok(t)
    }
}

impl Default for Contract {
    /// The initial service: both stores empty.
    fn default() -> (c: Self)
        ensures
            c.inv(),
            c@ == State::empty(),
            c@.consistent(),
    {
        Contract { tasks: RecordStore::new(), tasks_by_account: OwnerIndex::new() }
    }
}

} // verus!
