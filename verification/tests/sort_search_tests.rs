use todo_list::date::Date;
use todo_list::menu::format_task_line;
use todo_list::store::TaskStore;

fn date(y: u16, m: u8, d: u8) -> Date {
    Date::new(y, m, d).unwrap()
}

fn descriptions(store: &TaskStore) -> Vec<String> {
    store.view_all().into_iter().map(|p| p.1.description).collect()
}

#[test]
fn sort_puts_undated_first_then_ascending_dates() {
    let mut store = TaskStore::new();
    store.add(String::from("late"), Some(date(2025, 3, 1)));
    store.add(String::from("none"), None);
    store.add(String::from("early"), Some(date(2024, 1, 2)));
    store.sort_by_due_date();
    assert_eq!(descriptions(&store), vec!["none", "early", "late"]);
}

#[test]
fn sort_is_idempotent() {
    let mut store = TaskStore::new();
    store.add(String::from("b"), Some(date(2024, 5, 5)));
    store.add(String::from("a"), None);
    store.add(String::from("c"), Some(date(2024, 5, 4)));
    store.sort_by_due_date();
    let once = descriptions(&store);
    store.sort_by_due_date();
    let twice = descriptions(&store);
    assert_eq!(once, twice);
}

#[test]
fn sort_keeps_relative_order_of_equal_dates() {
    let mut store = TaskStore::new();
    store.add(String::from("first-equal"), Some(date(2024, 7, 1)));
    store.add(String::from("earlier"), Some(date(2024, 6, 1)));
    store.add(String::from("second-equal"), Some(date(2024, 7, 1)));
    store.add(String::from("first-none"), None);
    store.add(String::from("second-none"), None);
    store.sort_by_due_date();
    assert_eq!(
        descriptions(&store),
        vec!["first-none", "second-none", "earlier", "first-equal", "second-equal"]
    );
}

#[test]
fn sort_mutates_the_underlying_order_permanently() {
    let mut store = TaskStore::new();
    store.add(String::from("z"), Some(date(2024, 2, 2)));
    store.add(String::from("a"), Some(date(2024, 1, 1)));
    store.sort_by_due_date();
    // a plain view after sorting reflects the sorted order
    assert_eq!(descriptions(&store), vec!["a", "z"]);
}

#[test]
fn empty_keyword_returns_every_task() {
    let mut store = TaskStore::new();
    store.add(String::from("alpha"), None);
    store.add(String::from("beta"), Some(date(2024, 1, 1)));
    let hits = store.search("");
    assert_eq!(hits.len(), 2);
    assert_eq!(hits[0].0, 1);
    assert_eq!(hits[0].1.description, "alpha");
    assert_eq!(hits[1].0, 2);
    assert_eq!(hits[1].1.description, "beta");
}

#[test]
fn search_is_case_insensitive_substring_match() {
    let mut store = TaskStore::new();
    store.add(String::from("Buy Milk"), None);
    store.add(String::from("Pay rent"), None);
    let hits = store.search("milk");
    assert_eq!(hits.len(), 1);
    assert_eq!(hits[0].0, 1);
    assert_eq!(hits[0].1.description, "Buy Milk");
    // the keyword itself is lowercased too
    let hits = store.search("MILK");
    assert_eq!(hits.len(), 1);
    let hits = store.search("RENT");
    assert_eq!(hits.len(), 1);
    assert_eq!(hits[0].0, 2);
}

#[test]
fn search_keeps_original_display_indices() {
    let mut store = TaskStore::new();
    store.add(String::from("other"), None);
    store.add(String::from("match me"), None);
    store.add(String::from("also match"), None);
    let hits = store.search("match");
    assert_eq!(hits.len(), 2);
    assert_eq!(hits[0].0, 2);
    assert_eq!(hits[1].0, 3);
}

#[test]
fn search_without_hits_is_empty() {
    let mut store = TaskStore::new();
    store.add(String::from("alpha"), None);
    assert!(store.search("zzz").is_empty());
}

#[test]
fn listing_scenario_with_two_tasks_and_a_sort() {
    let mut store = TaskStore::new();
    store.add(String::from("Buy milk"), None);
    store.add(String::from("Pay rent"), Some(date(2024, 1, 15)));
    let all = store.view_all();
    assert_eq!(
        format_task_line(all[0].0, &all[0].1),
        "1: [ ] Buy milk (Due: No due date)"
    );
    assert_eq!(
        format_task_line(all[1].0, &all[1].1),
        "2: [ ] Pay rent (Due: 2024-01-15)"
    );
    store.sort_by_due_date();
    let all = store.view_all();
    assert_eq!(all[0].1.description, "Buy milk");
    assert_eq!(all[1].1.description, "Pay rent");
}

#[test]
fn completed_marker_appears_in_the_line() {
    let mut store = TaskStore::new();
    store.add(String::from("done thing"), Some(date(2024, 12, 31)));
    store.mark_completed(1).unwrap();
    let all = store.view_all();
    assert_eq!(
        format_task_line(all[0].0, &all[0].1),
        "1: [\u{2714}] done thing (Due: 2024-12-31)"
    );
}
