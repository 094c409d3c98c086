use todo_tasks::codec::{deserialize_tasks, serialize_tasks};
use todo_tasks::date::{parse_due_date, Date};
use todo_tasks::task::{Priority, TaskList};

fn strings(v: &[&str]) -> Vec<String> {
    v.iter().map(|s| s.to_string()).collect()
}

#[test]
fn empty_collection_renders_as_brackets() {
    let list = TaskList::default();
    assert_eq!(serialize_tasks(&list), "[]");
}

#[test]
fn one_plain_task_renders_exactly() {
    let mut list = TaskList::default();
    list.add_task("Buy milk".to_string(), None, Priority::Medium, vec![]);
    assert_eq!(
        serialize_tasks(&list),
        "[{\"description\":\"Buy milk\",\"completed\":false,\"due_date\":null,\"priority\":\"Medium\",\"tags\":[]}]"
    );
}

#[test]
fn full_task_renders_exactly() {
    let mut list = TaskList::default();
    list.add_task(
        "Call Alice".to_string(),
        Some(Date { year: 2024, month: 5, day: 1 }),
        Priority::High,
        strings(&["urgent", "phone"]),
    );
    list.complete_task(0).unwrap();
    assert_eq!(
        serialize_tasks(&list),
        "[{\"description\":\"Call Alice\",\"completed\":true,\"due_date\":\"2024-05-01\",\"priority\":\"High\",\"tags\":[\"urgent\",\"phone\"]}]"
    );
}

#[test]
fn quotes_and_backslashes_are_escaped() {
    let mut list = TaskList::default();
    list.add_task("say \"hi\" \\ done".to_string(), None, Priority::Low, vec![]);
    assert_eq!(
        serialize_tasks(&list),
        "[{\"description\":\"say \\\"hi\\\" \\\\ done\",\"completed\":false,\"due_date\":null,\"priority\":\"Low\",\"tags\":[]}]"
    );
}

#[test]
fn round_trip_reproduces_every_field() {
    let mut list = TaskList::default();
    list.add_task(
        "a \"quoted\" \\ description".to_string(),
        Some(Date { year: 1999, month: 12, day: 31 }),
        Priority::High,
        strings(&["ur\"gent", "ba\\ck"]),
    );
    list.add_task("plain".to_string(), None, Priority::Low, vec![]);
    list.add_task("third, [with] {punctuation}".to_string(), Some(Date { year: 2025, month: 1, day: 2 }), Priority::Medium, strings(&["x"]));
    list.complete_task(1).unwrap();
    let text = serialize_tasks(&list);
    let back = deserialize_tasks(&text);
    let a = list.list_tasks();
    let b = back.list_tasks();
    assert_eq!(a.len(), b.len());
    for k in 0..a.len() {
        assert_eq!(a[k].0, b[k].0);
        assert_eq!(a[k].1.description, b[k].1.description);
        assert_eq!(a[k].1.completed, b[k].1.completed);
        assert_eq!(a[k].1.due_date, b[k].1.due_date);
        assert_eq!(a[k].1.priority, b[k].1.priority);
        assert_eq!(a[k].1.tags, b[k].1.tags);
    }
}

#[test]
fn round_trip_of_empty_collection() {
    let list = TaskList::default();
    let back = deserialize_tasks(&serialize_tasks(&list));
    assert!(back.is_empty());
}

#[test]
fn invalid_content_parses_to_empty_collection() {
    let back = deserialize_tasks("this is { not ] a document");
    assert!(back.is_empty());
    assert!(deserialize_tasks("").is_empty());
    assert!(deserialize_tasks("[{\"description\":\"truncated").is_empty());
    assert!(deserialize_tasks("[]trailing").is_empty());
}

#[test]
fn parse_due_date_reads_iso_dates() {
    assert_eq!(parse_due_date("2024-05-01"), Some(Date { year: 2024, month: 5, day: 1 }));
    assert_eq!(parse_due_date("1999-12-31"), Some(Date { year: 1999, month: 12, day: 31 }));
    assert_eq!(parse_due_date("not-a-date"), None);
    assert_eq!(parse_due_date("2024-13-01"), None);
    assert_eq!(parse_due_date("2024-02-30"), None);
    assert_eq!(parse_due_date(""), None);
}
