use task_tracker::owner_index::OwnerIndex;
use task_tracker::record_store::RecordStore;
use task_tracker::service::{Contract, TaskError};
use task_tracker::task::Task;

fn task(id: &str, name: &str, status: &str) -> Task {
    Task {
        id: String::from(id),
        task_name: String::from(name),
        task_status: String::from(status),
    }
}

#[test]
fn record_store_get_absent_is_none() {
    let store = RecordStore::new();
    assert!(store.get(&String::from("alice"), &String::from("task_a")).is_none());
}

#[test]
fn record_store_put_then_get() {
    let mut store = RecordStore::new();
    let owner = String::from("alice");
    let name = String::from("task_a");
    store.put(&owner, &name, task("alice.task_a", "task_a", "TODO"));
    let got = store.get(&owner, &name).unwrap();
    assert_eq!(*got, task("alice.task_a", "task_a", "TODO"));
}

#[test]
fn record_store_put_overwrites() {
    let mut store = RecordStore::new();
    let owner = String::from("alice");
    let name = String::from("task_a");
    store.put(&owner, &name, task("alice.task_a", "task_a", "TODO"));
    store.put(&owner, &name, task("alice.task_a", "task_a", "DONE"));
    let got = store.get(&owner, &name).unwrap();
    assert_eq!(got.task_status, "DONE");
}

#[test]
fn owner_index_get_absent_is_none() {
    let index = OwnerIndex::new();
    assert!(index.get(&String::from("alice")).is_none());
}

#[test]
fn owner_index_append_keeps_order_and_duplicates() {
    let mut index = OwnerIndex::new();
    let owner = String::from("alice");
    index.append(&owner, String::from("task_a"));
    index.append(&owner, String::from("task_b"));
    index.append(&owner, String::from("task_a"));
    let names = index.get(&owner).unwrap();
    assert_eq!(*names, vec![
        String::from("task_a"),
        String::from("task_b"),
        String::from("task_a"),
    ]);
    assert!(index.contains_name(&owner, &String::from("task_b")));
    assert!(!index.contains_name(&owner, &String::from("task_c")));
    assert!(!index.contains_name(&String::from("bob"), &String::from("task_a")));
}

#[test]
fn from_parts_with_matching_stores_lists() {
    let mut store = RecordStore::new();
    let mut index = OwnerIndex::new();
    let owner = String::from("alice");
    store.put(
        &owner,
        &String::from("task_a"),
        task("alice.task_a", "task_a", "TODO"),
    );
    index.append(&owner, String::from("task_a"));
    let contract = Contract::from_parts(store, index);
    let tasks = contract.get_tasks(&owner).unwrap();
    assert_eq!(tasks.len(), 1);
    assert_eq!(tasks[0].id, "alice.task_a");
}

#[test]
fn diverged_index_is_reported_as_corrupt() {
    let store = RecordStore::new();
    let mut index = OwnerIndex::new();
    index.append(&String::from("alice"), String::from("task_a"));
    let contract = Contract::from_parts(store, index);
    let r = contract.get_tasks(&String::from("alice"));
    assert!(matches!(r, Err(TaskError::CorruptIndex)));
}
