use todo_list::persist::{ids_fit, restore};
use todo_list::store::{Filter, StoreError, TodoApp};
use todo_list::tasks::Task;
use todo_list::text::validate_input;

fn task(id: usize, description: &str, completed: bool) -> Task {
    Task { id, description: description.to_string(), completed }
}

#[test]
fn new_task_is_pending() {
    let t = Task::new(4, "Read".to_string());
    assert_eq!(t, task(4, "Read", false));
}

#[test]
fn complete_sets_flag_only() {
    let mut t = Task::new(9, "Cook".to_string());
    t.complete();
    assert_eq!(t, task(9, "Cook", true));
    t.complete();
    assert_eq!(t, task(9, "Cook", true));
}

#[test]
fn validate_input_rejects_blank() {
    assert!(!validate_input(""));
    assert!(!validate_input("   "));
    assert!(!validate_input("\t\n "));
    assert!(validate_input("x"));
    assert!(validate_input("  Buy milk  "));
}

#[test]
fn end_to_end_scenario() {
    let mut app = TodoApp::new();
    assert_eq!(app.create("Buy milk"), Ok(task(1, "Buy milk", false)));
    let second = app.create("Walk dog").unwrap();
    assert_eq!(second.id, 2);
    assert_eq!(app.set_completed(1, true), Ok(()));
    assert_eq!(app.list(Filter::Completed), vec![task(1, "Buy milk", true)]);
    assert_eq!(app.list(Filter::Pending), vec![task(2, "Walk dog", false)]);
}

#[test]
fn create_ids_strictly_increase() {
    let mut app = TodoApp::new();
    let mut last = 0;
    for d in ["a", "b", "c", "d", "e"] {
        let t = app.create(d).unwrap();
        assert!(t.id > last);
        last = t.id;
    }
    assert_eq!(app.next_id(), 6);
    assert_eq!(app.len(), 5);
}

#[test]
fn create_blank_is_refused_without_change() {
    let mut app = TodoApp::new();
    app.create("Keep").unwrap();
    assert_eq!(app.create(""), Err(StoreError::InvalidInput));
    assert_eq!(app.create("   "), Err(StoreError::InvalidInput));
    assert_eq!(app.next_id(), 2);
    assert_eq!(app.len(), 1);
}

#[test]
fn create_trims_description() {
    let mut app = TodoApp::new();
    let t = app.create("  Buy milk \t").unwrap();
    assert_eq!(t.description, "Buy milk");
    assert_eq!(app.get(0).description, "Buy milk");
}

#[test]
fn create_trimmed_refuses_empty() {
    let mut app = TodoApp::new();
    assert_eq!(app.create_trimmed(String::new()), Err(StoreError::InvalidInput));
    assert_eq!(app.create_trimmed("Call".to_string()), Ok(task(1, "Call", false)));
    assert_eq!(app.next_id(), 2);
}

#[test]
fn update_description_empty_is_refused() {
    let mut app = TodoApp::new();
    app.create("Old text").unwrap();
    assert_eq!(app.update_description(1, String::new()), Err(StoreError::InvalidInput));
    assert_eq!(app.update_description(1, "  ".to_string()), Err(StoreError::InvalidInput));
    assert_eq!(app.get(0).description, "Old text");
}

#[test]
fn update_description_is_verbatim() {
    let mut app = TodoApp::new();
    app.create("Old").unwrap();
    assert_eq!(app.update_description(1, "  New  ".to_string()), Ok(()));
    assert_eq!(app.get(0), &task(1, "  New  ", false));
}

#[test]
fn update_description_missing_id() {
    let mut app = TodoApp::new();
    app.create("Old").unwrap();
    assert_eq!(app.update_description(5, "New".to_string()), Err(StoreError::NotFound));
    assert_eq!(app.update_description(5, String::new()), Err(StoreError::NotFound));
    assert_eq!(app.get(0).description, "Old");
}

#[test]
fn set_completed_twice_is_idempotent() {
    let mut app = TodoApp::new();
    app.create("Task").unwrap();
    assert_eq!(app.set_completed(1, true), Ok(()));
    assert_eq!(app.set_completed(1, true), Ok(()));
    assert!(app.get(0).completed);
    assert_eq!(app.set_completed(1, false), Ok(()));
    assert!(!app.get(0).completed);
}

#[test]
fn set_completed_missing_id() {
    let mut app = TodoApp::new();
    assert_eq!(app.set_completed(1, true), Err(StoreError::NotFound));
    app.create("Task").unwrap();
    assert_eq!(app.set_completed(2, true), Err(StoreError::NotFound));
    assert!(!app.get(0).completed);
}

#[test]
fn listings_partition_in_order() {
    let mut app = TodoApp::new();
    for d in ["a", "b", "c", "d", "e"] {
        app.create(d).unwrap();
    }
    app.set_completed(2, true).unwrap();
    app.set_completed(4, true).unwrap();
    app.set_completed(5, true).unwrap();
    let pending = app.list(Filter::Pending);
    let done = app.list(Filter::Completed);
    assert_eq!(pending, vec![task(1, "a", false), task(3, "c", false)]);
    assert_eq!(done, vec![task(2, "b", true), task(4, "d", true), task(5, "e", true)]);
    assert_eq!(pending.len() + done.len(), app.len());
}

#[test]
fn list_of_empty_store_is_empty() {
    let app = TodoApp::new();
    assert!(app.list(Filter::Pending).is_empty());
    assert!(app.list(Filter::Completed).is_empty());
}

#[test]
fn find_locates_first_match() {
    let app = TodoApp::from_tasks(vec![task(3, "x", false), task(8, "y", true)]);
    assert_eq!(app.find(8), Some(1));
    assert_eq!(app.find(3), Some(0));
    assert_eq!(app.find(4), None);
}

#[test]
fn restore_missing_file_is_empty() {
    let app = restore(None);
    assert_eq!(app.len(), 0);
    assert_eq!(app.next_id(), 1);
}

#[test]
fn restore_continues_after_largest_id() {
    let app = restore(Some(vec![task(3, "x", false), task(7, "y", true), task(5, "z", false)]));
    assert_eq!(app.len(), 3);
    assert_eq!(app.next_id(), 8);
    assert_eq!(app.get(1), &task(7, "y", true));
}

#[test]
fn restore_empty_list_starts_at_one() {
    let app = restore(Some(Vec::new()));
    assert_eq!(app.next_id(), 1);
}

#[test]
fn restore_refuses_exhausted_ids() {
    let app = restore(Some(vec![task(usize::MAX, "x", false)]));
    assert_eq!(app.len(), 0);
    assert_eq!(app.next_id(), 1);
}

#[test]
fn ids_fit_at_the_edge() {
    assert!(ids_fit(&vec![task(usize::MAX - 1, "x", false)]));
    assert!(!ids_fit(&vec![task(1, "x", false), task(usize::MAX, "y", true)]));
    assert!(ids_fit(&Vec::new()));
}

#[test]
fn snapshot_then_restore_round_trips() {
    let mut app = TodoApp::new();
    app.create("Buy milk").unwrap();
    app.create("Walk dog").unwrap();
    app.set_completed(1, true).unwrap();
    let saved = app.snapshot();
    assert_eq!(saved, vec![task(1, "Buy milk", true), task(2, "Walk dog", false)]);
    let back = restore(Some(saved.clone()));
    assert_eq!(back.snapshot(), saved);
    assert_eq!(back.next_id(), 3);
}

#[test]
fn duplicate_keeps_fields() {
    let t = task(2, "Same again", true);
    assert_eq!(t.duplicate(), t);
}
