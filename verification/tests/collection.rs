use todo_tasks::date::Date;
use todo_tasks::task::{Priority, TaskList};

fn strings(v: &[&str]) -> Vec<String> {
    v.iter().map(|s| s.to_string()).collect()
}

#[test]
fn add_returns_old_length_and_grows_by_one() {
    let mut list = TaskList::default();
    assert!(list.is_empty());
    let id0 = list.add_task("first".to_string(), None, Priority::Medium, vec![]);
    assert_eq!(id0, 0);
    assert_eq!(list.list_tasks().len(), 1);
    let id1 = list.add_task("second".to_string(), None, Priority::Low, vec![]);
    assert_eq!(id1, 1);
    assert_eq!(list.list_tasks().len(), 2);
    assert!(!list.is_empty());
}

#[test]
fn new_task_fields_default_as_specified() {
    let mut list = TaskList::default();
    list.add_task("walk dog".to_string(), None, Priority::default(), vec![]);
    let l = list.list_tasks();
    assert_eq!(l[0].1.description, "walk dog");
    assert!(!l[0].1.completed);
    assert!(l[0].1.due_date.is_none());
    assert_eq!(l[0].1.priority, Priority::Medium);
    assert!(l[0].1.tags.is_empty());
}

#[test]
fn out_of_range_ids_fail_and_change_nothing() {
    let mut list = TaskList::default();
    list.add_task("only".to_string(), None, Priority::Medium, strings(&["t"]));
    assert_eq!(list.complete_task(7), Err("Invalid task ID".to_string()));
    assert_eq!(list.remove_task(1), Err("Invalid task ID".to_string()));
    assert_eq!(list.add_tags(2, strings(&["x"])), Err("Invalid task ID".to_string()));
    assert_eq!(list.remove_tags(3, strings(&["t"])), Err("Invalid task ID".to_string()));
    let l = list.list_tasks();
    assert_eq!(l.len(), 1);
    assert_eq!(l[0].1.description, "only");
    assert!(!l[0].1.completed);
    assert_eq!(l[0].1.tags, strings(&["t"]));
}

#[test]
fn complete_sets_only_the_flag() {
    let mut list = TaskList::default();
    list.add_task("a".to_string(), None, Priority::High, strings(&["x"]));
    list.add_task("b".to_string(), None, Priority::Low, vec![]);
    assert_eq!(list.complete_task(0), Ok(()));
    let l = list.list_tasks();
    assert!(l[0].1.completed);
    assert_eq!(l[0].1.description, "a");
    assert_eq!(l[0].1.priority, Priority::High);
    assert_eq!(l[0].1.tags, strings(&["x"]));
    assert!(!l[1].1.completed);
}

#[test]
fn remove_shifts_later_tasks_down() {
    let mut list = TaskList::default();
    list.add_task("a".to_string(), None, Priority::Medium, vec![]);
    list.add_task("b".to_string(), None, Priority::Medium, vec![]);
    list.add_task("c".to_string(), None, Priority::Medium, vec![]);
    assert_eq!(list.remove_task(1), Ok(()));
    let l = list.list_tasks();
    assert_eq!(l.len(), 2);
    assert_eq!(l[0].0, 0);
    assert_eq!(l[0].1.description, "a");
    assert_eq!(l[1].0, 1);
    assert_eq!(l[1].1.description, "c");
}

#[test]
fn add_tags_is_idempotent_for_a_present_tag() {
    let mut list = TaskList::default();
    list.add_task("a".to_string(), None, Priority::Medium, vec![]);
    assert_eq!(list.add_tags(0, strings(&["t"])), Ok(()));
    assert_eq!(list.add_tags(0, strings(&["t"])), Ok(()));
    let l = list.list_tasks();
    assert_eq!(l[0].1.tags, strings(&["t"]));
}

#[test]
fn add_tags_deduplicates_within_one_call() {
    let mut list = TaskList::default();
    list.add_task("a".to_string(), None, Priority::Medium, vec![]);
    assert_eq!(list.add_tags(0, strings(&["a", "a", "b"])), Ok(()));
    let l = list.list_tasks();
    assert_eq!(l[0].1.tags, strings(&["a", "b"]));
}

#[test]
fn add_tags_keeps_first_seen_order_and_skips_present() {
    let mut list = TaskList::default();
    list.add_task("a".to_string(), None, Priority::Medium, strings(&["x"]));
    assert_eq!(list.add_tags(0, strings(&["y", "x", "z"])), Ok(()));
    let l = list.list_tasks();
    assert_eq!(l[0].1.tags, strings(&["x", "y", "z"]));
}

#[test]
fn remove_tags_of_absent_tag_succeeds_and_changes_nothing() {
    let mut list = TaskList::default();
    list.add_task("a".to_string(), None, Priority::Medium, strings(&["x", "y"]));
    assert_eq!(list.remove_tags(0, strings(&["absent"])), Ok(()));
    let l = list.list_tasks();
    assert_eq!(l[0].1.tags, strings(&["x", "y"]));
}

#[test]
fn remove_tags_removes_every_match_in_order() {
    let mut list = TaskList::default();
    list.add_task("a".to_string(), None, Priority::Medium, strings(&["x", "y", "x", "z"]));
    assert_eq!(list.remove_tags(0, strings(&["x", "z"])), Ok(()));
    let l = list.list_tasks();
    assert_eq!(l[0].1.tags, strings(&["y"]));
}

#[test]
fn list_by_tag_filters_with_exact_match() {
    let mut list = TaskList::default();
    list.add_task("a".to_string(), None, Priority::Medium, strings(&["home"]));
    list.add_task("b".to_string(), None, Priority::Medium, strings(&["work"]));
    list.add_task("c".to_string(), None, Priority::Medium, strings(&["home", "work"]));
    let l = list.list_tasks_by_tag("home");
    assert_eq!(l.len(), 2);
    assert_eq!(l[0].0, 0);
    assert_eq!(l[0].1.description, "a");
    assert_eq!(l[1].0, 2);
    assert_eq!(l[1].1.description, "c");
    assert_eq!(list.list_tasks_by_tag("Home").len(), 0);
}

#[test]
fn scenario_add_complete_remove_then_filter() {
    let mut list = TaskList::default();
    assert!(list.is_empty());
    let id0 = list.add_task("Buy milk".to_string(), None, Priority::Medium, vec![]);
    assert_eq!(id0, 0);
    assert_eq!(list.list_tasks().len(), 1);
    let id1 = list.add_task(
        "Call Alice".to_string(),
        Some(Date { year: 2024, month: 5, day: 1 }),
        Priority::High,
        strings(&["urgent"]),
    );
    assert_eq!(id1, 1);
    assert_eq!(list.complete_task(0), Ok(()));
    assert!(list.list_tasks()[0].1.completed);
    assert_eq!(list.remove_task(0), Ok(()));
    let l = list.list_tasks();
    assert_eq!(l.len(), 1);
    assert_eq!(l[0].0, 0);
    assert_eq!(l[0].1.description, "Call Alice");
    assert_eq!(l[0].1.tags, strings(&["urgent"]));
    assert_eq!(l[0].1.due_date, Some(Date { year: 2024, month: 5, day: 1 }));
    let f = list.list_tasks_by_tag("urgent");
    assert_eq!(f.len(), 1);
    assert_eq!(f[0].0, 0);
    assert_eq!(f[0].1.description, "Call Alice");
}

#[test]
fn priority_labels_and_default() {
    assert_eq!(Priority::High.label(), "High");
    assert_eq!(Priority::Medium.label(), "Medium");
    assert_eq!(Priority::Low.label(), "Low");
    assert_eq!(Priority::default(), Priority::Medium);
}
