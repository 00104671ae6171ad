use task_tracker::service::{Contract, TaskError};
use task_tracker::task::Task;

#[test]
fn insert_then_get_task() {
    let alice = String::from("alice");
    let mut contract = Contract::default();
    let mut output_tasks = Vec::new();
    output_tasks.push(Task {
        id: format!("{}.{}", alice, "task_a"),
        task_name: String::from("task_a"),
        task_status: String::from("TODO"),
    });
    contract.insert_task(&alice, String::from("task_a"));
    assert_eq!(contract.get_tasks(&alice).unwrap(), output_tasks);
}

#[test]
fn insert_update_then_get_task() {
    let john = String::from("bob");
    let mut contract = Contract::default();
    let mut output_tasks = Vec::new();
    output_tasks.push(Task {
        id: format!("{}.{}", john, "task_a"),
        task_name: String::from("task_a"),
        task_status: String::from("DONE"),
    });
    contract.insert_task(&john, String::from("task_a"));
    contract
        .update_task(&john, String::from("task_a"), String::from("DONE"))
        .unwrap();
    assert_eq!(contract.get_tasks(&john).unwrap()[0], output_tasks[0]);
}

#[test]
fn unseen_owner_lists_nothing() {
    let contract = Contract::default();
    let tasks = contract.get_tasks(&String::from("nobody")).unwrap();
    assert!(tasks.is_empty());
}

#[test]
fn create_round_trip_alice() {
    let alice = String::from("alice");
    let mut contract = Contract::default();
    let created = contract.insert_task(&alice, String::from("task_a"));
    assert_eq!(created.id, "alice.task_a");
    assert_eq!(created.task_name, "task_a");
    assert_eq!(created.task_status, "TODO");
    let tasks = contract.get_tasks(&alice).unwrap();
    assert_eq!(tasks.len(), 1);
    assert_eq!(
        tasks[0],
        Task {
            id: String::from("alice.task_a"),
            task_name: String::from("task_a"),
            task_status: String::from("TODO"),
        }
    );
}

#[test]
fn status_update_visible_john() {
    let john = String::from("john");
    let mut contract = Contract::default();
    contract.insert_task(&john, String::from("task_a"));
    let updated = contract
        .update_task(&john, String::from("task_a"), String::from("DONE"))
        .unwrap();
    assert_eq!(updated.task_status, "DONE");
    let tasks = contract.get_tasks(&john).unwrap();
    assert_eq!(tasks[0].task_status, "DONE");
    assert_eq!(tasks[0].task_name, "task_a");
    assert_eq!(tasks[0].id, "john.task_a");
}

#[test]
fn owners_are_isolated() {
    let a = String::from("alice");
    let b = String::from("bob");
    let mut contract = Contract::default();
    contract.insert_task(&a, String::from("task_a"));
    assert!(contract.get_tasks(&b).unwrap().is_empty());
    contract.insert_task(&b, String::from("task_b"));
    let b_tasks = contract.get_tasks(&b).unwrap();
    assert_eq!(b_tasks.len(), 1);
    assert_eq!(b_tasks[0].id, "bob.task_b");
    let a_tasks = contract.get_tasks(&a).unwrap();
    assert_eq!(a_tasks.len(), 1);
    assert_eq!(a_tasks[0].id, "alice.task_a");
}

#[test]
fn creation_order_is_preserved() {
    let owner = String::from("carol");
    let mut contract = Contract::default();
    contract.insert_task(&owner, String::from("task_a"));
    contract.insert_task(&owner, String::from("task_b"));
    let tasks = contract.get_tasks(&owner).unwrap();
    assert_eq!(tasks.len(), 2);
    assert_eq!(tasks[0].task_name, "task_a");
    assert_eq!(tasks[1].task_name, "task_b");
}

#[test]
fn repeated_create_leaves_single_entry() {
    let owner = String::from("dave");
    let mut contract = Contract::default();
    contract.insert_task(&owner, String::from("task_a"));
    contract
        .update_task(&owner, String::from("task_a"), String::from("DONE"))
        .unwrap();
    contract.insert_task(&owner, String::from("task_a"));
    let tasks = contract.get_tasks(&owner).unwrap();
    assert_eq!(tasks.len(), 1);
    assert_eq!(tasks[0].task_status, "TODO");
}

#[test]
fn update_of_never_created_task_is_not_found() {
    let owner = String::from("erin");
    let mut contract = Contract::default();
    let r = contract.update_task(&owner, String::from("ghost"), String::from("DONE"));
    assert!(matches!(r, Err(TaskError::NotFound)));
    assert!(contract.get_tasks(&owner).unwrap().is_empty());
}

#[test]
fn dotted_names_do_not_collide() {
    let outer = String::from("u.v");
    let inner = String::from("u");
    let mut contract = Contract::default();
    let t1 = contract.insert_task(&outer, String::from("w"));
    let t2 = contract.insert_task(&inner, String::from("v.w"));
    assert_eq!(t1.id, "u.v.w");
    assert_eq!(t2.id, "u.v.w");
    let outer_tasks = contract.get_tasks(&outer).unwrap();
    assert_eq!(outer_tasks.len(), 1);
    assert_eq!(outer_tasks[0].task_name, "w");
    let inner_tasks = contract.get_tasks(&inner).unwrap();
    assert_eq!(inner_tasks.len(), 1);
    assert_eq!(inner_tasks[0].task_name, "v.w");
}
