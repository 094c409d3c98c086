use todo_tasks::command::{apply_command, parse_priority, Command, Outcome};
use todo_tasks::date::Date;
use todo_tasks::error::TodoError;
use todo_tasks::task::{Priority, TaskList};

fn strings(v: &[&str]) -> Vec<String> {
    v.iter().map(|s| s.to_string()).collect()
}

#[test]
fn priority_tokens_parse_case_insensitively() {
    assert_eq!(parse_priority("low"), Ok(Priority::Low));
    assert_eq!(parse_priority("LOW"), Ok(Priority::Low));
    assert_eq!(parse_priority("Medium"), Ok(Priority::Medium));
    assert_eq!(parse_priority("mEdIuM"), Ok(Priority::Medium));
    assert_eq!(parse_priority("HIGH"), Ok(Priority::High));
    assert_eq!(parse_priority("urgent"), Err(TodoError::InvalidPriority));
    assert_eq!(parse_priority(""), Err(TodoError::InvalidPriority));
    assert_eq!(parse_priority("low "), Err(TodoError::InvalidPriority));
}

#[test]
fn add_command_parses_date_and_priority() {
    let mut list = TaskList::default();
    let r = apply_command(
        &mut list,
        Command::Add {
            description: "Call Alice".to_string(),
            due_date: Some("2024-05-01".to_string()),
            priority: "high".to_string(),
            tags: Some(strings(&["urgent"])),
        },
    );
    assert!(matches!(r, Ok(Outcome::Added { id: 0 })));
    let l = list.list_tasks();
    assert_eq!(l[0].1.due_date, Some(Date { year: 2024, month: 5, day: 1 }));
    assert_eq!(l[0].1.priority, Priority::High);
    assert_eq!(l[0].1.tags, strings(&["urgent"]));
}

#[test]
fn add_command_with_bad_date_fails_and_changes_nothing() {
    let mut list = TaskList::default();
    let r = apply_command(
        &mut list,
        Command::Add {
            description: "x".to_string(),
            due_date: Some("05/01/2024".to_string()),
            priority: "low".to_string(),
            tags: None,
        },
    );
    assert_eq!(
        match r {
            Err(e) => e,
            Ok(_) => panic!("expected an error"),
        },
        TodoError::InvalidTaskId
    );
    assert!(list.is_empty());
}

#[test]
fn add_command_with_bad_priority_fails_and_changes_nothing() {
    let mut list = TaskList::default();
    let r = apply_command(
        &mut list,
        Command::Add {
            description: "x".to_string(),
            due_date: None,
            priority: "urgent".to_string(),
            tags: None,
        },
    );
    assert_eq!(
        match r {
            Err(e) => e,
            Ok(_) => panic!("expected an error"),
        },
        TodoError::InvalidPriority
    );
    assert!(list.is_empty());
}

#[test]
fn task_commands_on_out_of_range_id_fail() {
    let mut list = TaskList::default();
    let r = apply_command(&mut list, Command::Complete { id: 3 });
    assert!(matches!(r, Err(TodoError::InvalidTaskId)));
    let r = apply_command(&mut list, Command::Remove { id: 0 });
    assert!(matches!(r, Err(TodoError::InvalidTaskId)));
    let r = apply_command(&mut list, Command::AddTags { id: 1, tags: strings(&["t"]) });
    assert!(matches!(r, Err(TodoError::InvalidTaskId)));
    let r = apply_command(&mut list, Command::RemoveTags { id: 1, tags: strings(&["t"]) });
    assert!(matches!(r, Err(TodoError::InvalidTaskId)));
}

#[test]
fn list_commands_report_entries() {
    let mut list = TaskList::default();
    apply_command(
        &mut list,
        Command::Add {
            description: "a".to_string(),
            due_date: None,
            priority: "medium".to_string(),
            tags: Some(strings(&["home"])),
        },
    )
    .unwrap();
    apply_command(
        &mut list,
        Command::Add {
            description: "b".to_string(),
            due_date: None,
            priority: "low".to_string(),
            tags: None,
        },
    )
    .unwrap();
    match apply_command(&mut list, Command::List).unwrap() {
        Outcome::Listing { entries } => {
            assert_eq!(entries.len(), 2);
            assert_eq!(entries[0].0, 0);
            assert_eq!(entries[1].1.description, "b");
        },
        _ => panic!("expected a listing"),
    }
    match apply_command(&mut list, Command::ListByTag { tag: "home".to_string() }).unwrap() {
        Outcome::Listing { entries } => {
            assert_eq!(entries.len(), 1);
            assert_eq!(entries[0].1.description, "a");
        },
        _ => panic!("expected a listing"),
    }
}

#[test]
fn complete_and_remove_commands_report_their_task() {
    let mut list = TaskList::default();
    apply_command(
        &mut list,
        Command::Add {
            description: "a".to_string(),
            due_date: None,
            priority: "medium".to_string(),
            tags: None,
        },
    )
    .unwrap();
    assert!(matches!(
        apply_command(&mut list, Command::Complete { id: 0 }),
        Ok(Outcome::Completed { id: 0 })
    ));
    assert!(list.list_tasks()[0].1.completed);
    assert!(matches!(
        apply_command(&mut list, Command::Remove { id: 0 }),
        Ok(Outcome::Removed { id: 0 })
    ));
    assert!(list.is_empty());
}

#[test]
fn error_messages_are_one_line() {
    assert_eq!(TodoError::InvalidTaskId.message(), "Invalid task ID");
    assert_eq!(
        TodoError::InvalidPriority.message(),
        "Invalid priority level. Use 'low', 'medium', or 'high'"
    );
}
