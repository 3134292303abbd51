use chrono::NaiveDate;
use todo_list::codec::{from_json, to_json};
use todo_list::date::{format_date, parse_date, Date};
use todo_list::menu::{command_of_choice, parse_index, Command};
use todo_list::task::Task;
use todo_list::TodoError;

fn date(y: u16, m: u8, d: u8) -> Date {
    Date::new(y, m, d).unwrap()
}

fn sample_tasks() -> Vec<Task> {
    vec![
        Task::new(String::from("Buy milk"), None),
        Task::new(String::from("Pay rent"), Some(date(2024, 1, 15))),
    ]
}

#[test]
fn renders_the_expected_json() {
    let s = to_json(&sample_tasks());
    assert_eq!(
        s,
        "[{\"task\":\"Buy milk\",\"completed\":false,\"due_date\":null},\
         {\"task\":\"Pay rent\",\"completed\":false,\"due_date\":\"2024-01-15\"}]"
    );
}

#[test]
fn renders_the_empty_list() {
    let v: Vec<Task> = Vec::new();
    assert_eq!(to_json(&v), "[]");
    let back = from_json("[]").unwrap();
    assert!(back.is_empty());
}

#[test]
fn save_then_load_reproduces_the_tasks() {
    let mut tasks = sample_tasks();
    tasks[1].completed = true;
    tasks.push(Task::new(String::from("edge \"quoted\" and \\slashed\\"), None));
    tasks.push(Task::new(String::from("tab\there\nand newline"), Some(date(2000, 2, 29))));
    tasks.push(Task::new(String::new(), None));
    let s = to_json(&tasks);
    let back = from_json(&s).unwrap();
    assert_eq!(back.len(), tasks.len());
    for (a, b) in tasks.iter().zip(back.iter()) {
        assert_eq!(a.description, b.description);
        assert_eq!(a.completed, b.completed);
        assert_eq!(a.due_date, b.due_date);
    }
}

#[test]
fn control_characters_are_escaped_and_recovered() {
    let tasks = vec![Task::new(String::from("a\u{1}b\u{1f}c"), None)];
    let s = to_json(&tasks);
    assert!(s.contains("\\u0001"));
    assert!(s.contains("\\u001f"));
    let back = from_json(&s).unwrap();
    assert_eq!(back[0].description, "a\u{1}b\u{1f}c");
}

#[test]
fn malformed_input_is_a_parse_error() {
    assert!(matches!(from_json(""), Err(TodoError::ParseError)));
    assert!(matches!(from_json("not json"), Err(TodoError::ParseError)));
    assert!(matches!(from_json("["), Err(TodoError::ParseError)));
    assert!(matches!(from_json("[}"), Err(TodoError::ParseError)));
    assert!(matches!(from_json("[]trailing"), Err(TodoError::ParseError)));
    assert!(matches!(
        from_json("[{\"task\":\"x\",\"completed\":false,\"due_date\":\"2024-13-01\"}]"),
        Err(TodoError::ParseError)
    ));
    assert!(matches!(
        from_json("[{\"task\":\"x\",\"completed\":maybe,\"due_date\":null}]"),
        Err(TodoError::ParseError)
    ));
}

#[test]
fn the_output_is_json_that_serde_also_reads() {
    let mut tasks = sample_tasks();
    tasks[1].completed = true;
    let s = to_json(&tasks);
    let v: serde_json::Value = serde_json::from_str(&s).unwrap();
    let arr = v.as_array().unwrap();
    assert_eq!(arr.len(), 2);
    assert_eq!(arr[0]["task"].as_str(), Some("Buy milk"));
    assert_eq!(arr[0]["completed"].as_bool(), Some(false));
    assert!(arr[0]["due_date"].is_null());
    assert_eq!(arr[1]["task"].as_str(), Some("Pay rent"));
    assert_eq!(arr[1]["completed"].as_bool(), Some(true));
    assert_eq!(arr[1]["due_date"].as_str(), Some("2024-01-15"));
}

#[test]
fn date_parsing_agrees_with_chrono() {
    let ours = parse_date("2024-01-15").unwrap();
    let theirs = NaiveDate::parse_from_str("2024-01-15", "%Y-%m-%d").unwrap();
    assert_eq!(format_date(&ours), theirs.format("%Y-%m-%d").to_string());

    assert!(parse_date("2024-02-29").is_ok());
    assert!(NaiveDate::parse_from_str("2024-02-29", "%Y-%m-%d").is_ok());

    assert_eq!(parse_date("2023-02-29"), Err(TodoError::DateFormatError));
    assert!(NaiveDate::parse_from_str("2023-02-29", "%Y-%m-%d").is_err());

    assert_eq!(parse_date("2024-02-30"), Err(TodoError::DateFormatError));
    assert!(NaiveDate::parse_from_str("2024-02-30", "%Y-%m-%d").is_err());

    assert_eq!(parse_date("1900-02-29"), Err(TodoError::DateFormatError));
    assert!(parse_date("2000-02-29").is_ok());
}

#[test]
fn date_format_errors() {
    assert_eq!(parse_date(""), Err(TodoError::DateFormatError));
    assert_eq!(parse_date("2024-13-01"), Err(TodoError::DateFormatError));
    assert_eq!(parse_date("2024-00-10"), Err(TodoError::DateFormatError));
    assert_eq!(parse_date("2024-01-00"), Err(TodoError::DateFormatError));
    assert_eq!(parse_date("2024-04-31"), Err(TodoError::DateFormatError));
    assert_eq!(parse_date("24-01-15"), Err(TodoError::DateFormatError));
    assert_eq!(parse_date("2024/01/15"), Err(TodoError::DateFormatError));
    assert_eq!(parse_date("not a date"), Err(TodoError::DateFormatError));
}

#[test]
fn date_accessors_return_the_parts() {
    let d = date(2024, 1, 15);
    assert_eq!(d.year(), 2024);
    assert_eq!(d.month(), 1);
    assert_eq!(d.day(), 15);
    assert_eq!(format_date(&d), "2024-01-15");
    assert_eq!(format_date(&date(987, 6, 5)), "0987-06-05");
}

#[test]
fn invalid_triples_make_no_date() {
    assert!(Date::new(2024, 13, 1).is_none());
    assert!(Date::new(2024, 0, 1).is_none());
    assert!(Date::new(2024, 2, 30).is_none());
    assert!(Date::new(10000, 1, 1).is_none());
}

#[test]
fn menu_choices_map_to_commands() {
    assert_eq!(command_of_choice(1), Some(Command::AddTask));
    assert_eq!(command_of_choice(2), Some(Command::ViewTasks));
    assert_eq!(command_of_choice(3), Some(Command::CompleteTask));
    assert_eq!(command_of_choice(4), Some(Command::RemoveTask));
    assert_eq!(command_of_choice(5), Some(Command::ViewByDate));
    assert_eq!(command_of_choice(6), Some(Command::SearchTasks));
    assert_eq!(command_of_choice(7), Some(Command::Quit));
    assert_eq!(command_of_choice(0), None);
    assert_eq!(command_of_choice(8), None);
}

#[test]
fn numeric_input_parses_exactly() {
    assert_eq!(parse_index("0"), Ok(0));
    assert_eq!(parse_index("42"), Ok(42));
    assert_eq!(parse_index("007"), Ok(7));
    assert_eq!(parse_index(""), Err(TodoError::ParseError));
    assert_eq!(parse_index("4 2"), Err(TodoError::ParseError));
    assert_eq!(parse_index("-1"), Err(TodoError::ParseError));
    assert_eq!(parse_index("two"), Err(TodoError::ParseError));
    assert_eq!(
        parse_index("99999999999999999999999999999999"),
        Err(TodoError::ParseError)
    );
}
