use todo_list::date::Date;
use todo_list::store::TaskStore;
use todo_list::TodoError;

fn date(y: u16, m: u8, d: u8) -> Date {
    Date::new(y, m, d).unwrap()
}

#[test]
fn adds_appear_in_order_uncompleted() {
    let mut store = TaskStore::new();
    store.add(String::from("first"), None);
    store.add(String::from("second"), Some(date(2024, 1, 15)));
    store.add(String::from("third"), Some(date(2023, 12, 31)));
    let all = store.view_all();
    assert_eq!(all.len(), 3);
    assert_eq!(all[0].0, 1);
    assert_eq!(all[0].1.description, "first");
    assert!(!all[0].1.completed);
    assert!(all[0].1.due_date.is_none());
    assert_eq!(all[1].0, 2);
    assert_eq!(all[1].1.description, "second");
    assert!(!all[1].1.completed);
    assert_eq!(all[1].1.due_date, Some(date(2024, 1, 15)));
    assert_eq!(all[2].0, 3);
    assert_eq!(all[2].1.description, "third");
    assert_eq!(all[2].1.due_date, Some(date(2023, 12, 31)));
}

#[test]
fn mark_completed_touches_only_that_task() {
    let mut store = TaskStore::new();
    store.add(String::from("a"), None);
    store.add(String::from("b"), None);
    store.add(String::from("c"), None);
    assert_eq!(store.mark_completed(2), Ok(()));
    let all = store.view_all();
    assert!(!all[0].1.completed);
    assert!(all[1].1.completed);
    assert!(!all[2].1.completed);
    assert_eq!(all[1].1.description, "b");
    // marking again is idempotent
    assert_eq!(store.mark_completed(2), Ok(()));
    assert!(store.view_all()[1].1.completed);
}

#[test]
fn remove_shifts_later_tasks_up() {
    let mut store = TaskStore::new();
    store.add(String::from("a"), None);
    store.add(String::from("b"), Some(date(2024, 6, 1)));
    store.add(String::from("c"), None);
    assert_eq!(store.remove(2), Ok(()));
    let all = store.view_all();
    assert_eq!(all.len(), 2);
    assert_eq!(all[0].0, 1);
    assert_eq!(all[0].1.description, "a");
    assert_eq!(all[1].0, 2);
    assert_eq!(all[1].1.description, "c");
}

#[test]
fn out_of_range_indices_fail_with_not_found_and_change_nothing() {
    let mut store = TaskStore::new();
    store.add(String::from("only"), None);
    assert_eq!(store.mark_completed(0), Err(TodoError::NotFound));
    assert_eq!(store.mark_completed(2), Err(TodoError::NotFound));
    assert_eq!(store.remove(0), Err(TodoError::NotFound));
    assert_eq!(store.remove(2), Err(TodoError::NotFound));
    let all = store.view_all();
    assert_eq!(all.len(), 1);
    assert_eq!(all[0].1.description, "only");
    assert!(!all[0].1.completed);
}

#[test]
fn not_found_on_empty_store() {
    let mut store = TaskStore::new();
    assert_eq!(store.mark_completed(1), Err(TodoError::NotFound));
    assert_eq!(store.remove(1), Err(TodoError::NotFound));
    assert_eq!(store.len(), 0);
}

#[test]
fn complete_then_remove_leaves_former_second_task() {
    let mut store = TaskStore::new();
    store.add(String::from("one"), None);
    store.add(String::from("two"), None);
    assert_eq!(store.mark_completed(1), Ok(()));
    assert_eq!(store.remove(1), Ok(()));
    let all = store.view_all();
    assert_eq!(all.len(), 1);
    assert_eq!(all[0].0, 1);
    assert_eq!(all[0].1.description, "two");
    assert!(!all[0].1.completed);
}

#[test]
fn error_messages_match_the_prompts() {
    assert_eq!(TodoError::ParseError.message(), "Invalid number.");
    assert_eq!(TodoError::NotFound.message(), "Task not found.");
    assert_eq!(
        TodoError::DateFormatError.message(),
        "Invalid date format. Please enter in YYYY-MM-DD format."
    );
    assert_eq!(TodoError::IoError.message(), "Failed to save tasks.");
}
