//! Structured commands and their application to a collection.
//!
//! The command interpreter hands the core exactly one validated command per
//! run; applying it mutates the collection and reports an outcome for the
//! caller to display.

use vstd::prelude::*;
use vstd::string::*;

use crate::date::{date_from_parts, iso_date_of, parse_due_date};
use crate::error::TodoError;
use crate::task::{add_tags_seq, listing_by_tag, remove_tags_seq, tag_views, Priority, Task,
    TaskList, TaskView};

verus! {

/// One command, as parsed from the command line.
#[allow(inconsistent_fields)]
pub enum Command {
    Add {
        description: String,
        due_date: Option<String>,
        priority: String,
        tags: Option<Vec<String>>,
    },
    Complete { id: usize },
    Remove { id: usize },
    List,
    AddTags { id: usize, tags: Vec<String> },
    RemoveTags { id: usize, tags: Vec<String> },
    ListByTag { tag: String },
}

/// What applying a command reports back. Listings carry the `(identifier,
/// task)` pairs to display; the other outcomes name the task acted on.
pub enum Outcome {
    Added { id: usize },
    Completed { id: usize },
    Removed { id: usize },
    TagsAdded { id: usize },
    TagsRemoved { id: usize },
    Listing { entries: Vec<(usize, Task)> },
}

/// The character with an upper-case ASCII letter folded to lower case; every
/// other character stands as itself.
pub open spec fn lower_char(c: char) -> char {
    if 65 <= c as u32 <= 90 {
        (((c as u32) + 32) as u8) as char
    } else {
        c
    }
}

/// The characters with ASCII letters folded to lower case.
pub open spec fn lower_of(s: Seq<char>) -> Seq<char> {
    s.map_values(|c: char| lower_char(c))
}

/// The priority for a token: matched case-insensitively (ASCII) against
/// `low`, `medium` and `high`; anything else is rejected.
pub open spec fn spec_parse_priority(s: Seq<char>) -> Result<Priority, TodoError> {
    if lower_of(s) == "low"@ {
        Ok(Priority::Low)
    } else if lower_of(s) == "medium"@ {
        Ok(Priority::Medium)
    } else if lower_of(s) == "high"@ {
        Ok(Priority::High)
    } else {
        Err(TodoError::InvalidPriority)
    }
}

/// The character with an upper-case ASCII letter folded to lower case.
fn lower_char_exec(c: char) -> (r: char)
    ensures
        r == lower_char(c),
{
    let u = c as u32;
    if 65 <= u && u <= 90 {
        ((u + 32) as u8) as char
    } else {
        c
    }
}

/// Whether `s`, ASCII-lower-cased, holds exactly the characters of `t`.
fn eq_lowered(s: &str, t: &str) -> (r: bool)
    ensures
        r == (lower_of(s@) == t@),
{
    let n = s.unicode_len();
    let m = t.unicode_len();
    if n != m {
        proof {
            assert(lower_of(s@).len() == s@.len());
        }
        return false;
    }
    let mut k: usize = 0;
    while k < n
        invariant
            k <= n,
            n == s@.len(),
            n == t@.len(),
            forall|x: int| 0 <= x < k ==> lower_of(s@)[x] == t@[x],
        decreases n - k,
    {
        let c = lower_char_exec(s.get_char(k));
        if c != t.get_char(k) {
            proof {
                assert(lower_of(s@)[k as int] == c);
            }
            return false;
        }
        k = k + 1;
    }
    proof {
        assert(lower_of(s@) =~= t@);
    }
    true
}

/// Parses a priority token, case-insensitively (ASCII) against `low`,
/// `medium` and `high`; any other token is rejected as an invalid priority.
pub fn parse_priority(priority: &str) -> (r: Result<Priority, TodoError>)
    ensures
        r == spec_parse_priority(priority@),
{
    if eq_lowered(priority, "low") {
        Ok(Priority::Low)
    } else if eq_lowered(priority, "medium") {
        Ok(Priority::Medium)
    } else if eq_lowered(priority, "high") {
        Ok(Priority::High)
    } else {
        Err(TodoError::InvalidPriority)
    }
}

/// Applies one command to the collection. An `Add` whose due date is not an
/// ISO calendar date fails with `InvalidTaskId` (as the surrounding tool
/// always reported for a failed add), and one with an unrecognized priority
/// token fails with `InvalidPriority`; a task operation on an out-of-range
/// identifier fails with `InvalidTaskId`; listings always succeed and change
/// nothing. A failed command leaves the collection unmodified.
pub fn apply_command(list: &mut TaskList, cmd: Command) -> (r: Result<Outcome, TodoError>)
    ensures
        (cmd matches Command::Add { description, due_date, priority, tags } ==> {
            let bad_date = (due_date matches Some(ds) && date_from_parts(iso_date_of(ds@))
                is None);
            let dd = (match due_date {
                Some(ds) => date_from_parts(iso_date_of(ds@)),
                None => None,
            });
            let tg = (match tags {
                Some(v) => tag_views(v@),
                None => Seq::empty(),
            });
            &&& bad_date ==> r == Err::<Outcome, TodoError>(TodoError::InvalidTaskId)
                && *final(list) == *old(list)
            &&& (!bad_date && spec_parse_priority(priority@) is Err) ==> r == Err::<
                Outcome,
                TodoError,
            >(TodoError::InvalidPriority) && *final(list) == *old(list)
            &&& !bad_date ==> (spec_parse_priority(priority@) matches Ok(p) ==> r == Ok::<
                Outcome,
                TodoError,
            >(Outcome::Added { id: old(list)@.len() as usize }) && final(list)@ == old(list)@.push(
                (TaskView {
                    description: description@,
                    completed: false,
                    due_date: dd,
                    priority: p,
                    tags: tg,
                }),
            ))
        }),
        (cmd matches Command::Complete { id } ==> {
            &&& id < old(list)@.len() ==> r == Ok::<Outcome, TodoError>(Outcome::Completed { id })
                && final(list)@ == old(list)@.update(
                id as int,
                (TaskView { completed: true, ..old(list)@[id as int] }),
            )
            &&& id >= old(list)@.len() ==> r == Err::<Outcome, TodoError>(TodoError::InvalidTaskId)
                && *final(list) == *old(list)
        }),
        (cmd matches Command::Remove { id } ==> {
            &&& id < old(list)@.len() ==> r == Ok::<Outcome, TodoError>(Outcome::Removed { id })
                && final(list)@ == old(list)@.remove(id as int)
            &&& id >= old(list)@.len() ==> r == Err::<Outcome, TodoError>(TodoError::InvalidTaskId)
                && *final(list) == *old(list)
        }),
        (cmd matches Command::AddTags { id, tags } ==> {
            &&& id < old(list)@.len() ==> r == Ok::<Outcome, TodoError>(Outcome::TagsAdded { id })
                && final(list)@ == old(list)@.update(
                id as int,
                (TaskView {
                    tags: add_tags_seq(old(list)@[id as int].tags, tag_views(tags@)),
                    ..old(list)@[id as int]
                }),
            )
            &&& id >= old(list)@.len() ==> r == Err::<Outcome, TodoError>(TodoError::InvalidTaskId)
                && *final(list) == *old(list)
        }),
        (cmd matches Command::RemoveTags { id, tags } ==> {
            &&& id < old(list)@.len() ==> r == Ok::<Outcome, TodoError>(
                Outcome::TagsRemoved { id },
            ) && final(list)@ == old(list)@.update(
                id as int,
                (TaskView {
                    tags: remove_tags_seq(old(list)@[id as int].tags, tag_views(tags@)),
                    ..old(list)@[id as int]
                }),
            )
            &&& id >= old(list)@.len() ==> r == Err::<Outcome, TodoError>(TodoError::InvalidTaskId)
                && *final(list) == *old(list)
        }),
        (cmd is List ==> {
            &&& *final(list) == *old(list)
            &&& r matches Ok(o) && o matches Outcome::Listing { entries } && entries@.len() == old(
                list,
            )@.len() && (forall|i: int|
                0 <= i < entries@.len() ==> (#[trigger] entries@[i]).0 == i && entries@[i].1@
                    == old(list)@[i])
        }),
        (cmd matches Command::ListByTag { tag } ==> {
            let l = listing_by_tag(old(list)@, tag@, old(list)@.len() as int);
            &&& *final(list) == *old(list)
            &&& r matches Ok(o) && o matches Outcome::Listing { entries } && entries@.len()
                == l.len() && (forall|i: int|
                0 <= i < entries@.len() ==> (#[trigger] entries@[i]).0 == l[i].0 && entries@[i].1@
                    == l[i].1)
        }),
{
    match cmd {
        Command::Add { description, due_date, priority, tags } => {
            let parsed_due = match &due_date {
                Some(ds) => match parse_due_date(ds.as_str()) {
                    Some(d) => Some(d),
                    None => {
                        return Err(TodoError::InvalidTaskId);
                    },
                },
                None => None,
            };
            let p = match parse_priority(priority.as_str()) {
                Ok(p) => p,
                Err(e) => {
                    return Err(e);
                },
            };
            let tags_v = match tags {
                Some(v) => v,
                None => {
                    let v: Vec<String> = Vec::new();
                    proof {
                        assert(tag_views(v@) =~= Seq::<Seq<char>>::empty());
                    }
                    v
                },
            };
            let id = list.add_task(description, parsed_due, p, tags_v);
            Ok(Outcome::Added { id })
        },
        Command::Complete { id } => match list.complete_task(id) {
            Ok(_) => Ok(Outcome::Completed { id }),
            Err(_) => Err(TodoError::InvalidTaskId),
        },
        Command::Remove { id } => match list.remove_task(id) {
            Ok(_) => Ok(Outcome::Removed { id }),
            Err(_) => Err(TodoError::InvalidTaskId),
        },
        Command::AddTags { id, tags } => match list.add_tags(id, tags) {
            Ok(_) => Ok(Outcome::TagsAdded { id }),
            Err(_) => Err(TodoError::InvalidTaskId),
        },
        Command::RemoveTags { id, tags } => match list.remove_tags(id, tags) {
            Ok(_) => Ok(Outcome::TagsRemoved { id }),
            Err(_) => Err(TodoError::InvalidTaskId),
        },
        Command::List => Ok(Outcome::Listing { entries: list.list_tasks() }),
        Command::ListByTag { tag } => Ok(
            Outcome::Listing { entries: list.list_tasks_by_tag(tag.as_str()) },
        ),
    }
}

} // verus!
