//! The task collection: an ordered sequence of tasks identified by position.

use vstd::prelude::*;
use vstd::string::*;

use crate::date::Date;

verus! {

/// A task's priority level.
#[derive(Clone, Copy, Debug, PartialEq, Eq, Structural)]
pub enum Priority {
    High,
    Medium,
    Low,
}

impl Default for Priority {
    /// The default priority is `Medium`.
    fn default() -> (r: Self)
        ensures
            r == Priority::Medium,
    {
        Priority::Medium
    }
}

impl Priority {
    /// The literal token naming this level in the persisted format and in
    /// listings.
    pub fn label(&self) -> (r: String)
        ensures
            *self is High ==> r@ == "High"@,
            *self is Medium ==> r@ == "Medium"@,
            *self is Low ==> r@ == "Low"@,
    {
        match self {
            Priority::High => String::from_str("High"),
            Priority::Medium => String::from_str("Medium"),
            Priority::Low => String::from_str("Low"),
        }
    }
}

/// One to-do item.
#[derive(Debug)]
pub struct Task {
    pub description: String,
    pub completed: bool,
    pub due_date: Option<Date>,
    pub priority: Priority,
    pub tags: Vec<String>,
}

/// The mathematical value of a task: its text fields as character sequences.
#[verifier::ext_equal]
pub ghost struct TaskView {
    pub description: Seq<char>,
    pub completed: bool,
    pub due_date: Option<Date>,
    pub priority: Priority,
    pub tags: Seq<Seq<char>>,
}

/// The character sequences of a sequence of strings.
pub open spec fn tag_views(s: Seq<String>) -> Seq<Seq<char>> {
    Seq::new(s.len(), |i: int| s[i]@)
}

impl View for Task {
    type V = TaskView;

    open spec fn view(&self) -> TaskView {
        TaskView {
            description: self.description@,
            completed: self.completed,
            due_date: self.due_date,
            priority: self.priority,
            tags: tag_views(self.tags@),
        }
    }
}

/// The mathematical values of a sequence of tasks.
pub open spec fn task_views(s: Seq<Task>) -> Seq<TaskView> {
    Seq::new(s.len(), |i: int| s[i]@)
}

/// An ordered collection of tasks. A task's identifier is its zero-based
/// position at the time of query: removing a task shifts every later task
/// down by one position, so identifiers are not stable across removals.
pub struct TaskList {
    tasks: Vec<Task>,
}

impl View for TaskList {
    type V = Seq<TaskView>;

    closed spec fn view(&self) -> Seq<TaskView> {
        task_views(self.tasks@)
    }
}

impl Default for TaskList {
    /// A fresh, empty collection.
    fn default() -> (r: Self)
        ensures
            r@ == Seq::<TaskView>::empty(),
    {
        let r = TaskList { tasks: Vec::new() };
        proof {
            assert(r@ =~= Seq::<TaskView>::empty());
        }
        r
    }
}

/// Clones each string of a vector; the clones carry the same values.
fn clone_strings(v: &Vec<String>) -> (r: Vec<String>)
    ensures
        r@ == v@,
{
    let mut r: Vec<String> = Vec::new();
    let n = v.len();
    let mut i: usize = 0;
    while i < n
        invariant
            i <= n,
            n == v@.len(),
            r@ =~= v@.take(i as int),
        decreases n - i,
    {
        r.push(v[i].clone());
        i = i + 1;
    }
    proof {
        assert(v@.take(n as int) =~= v@);
    }
    r
}

impl Clone for Task {
    /// A clone carries the same field values as the original task.
    fn clone(&self) -> (r: Self)
        ensures
            r@ == self@,
    {
        Task {
            description: self.description.clone(),
            completed: self.completed,
            due_date: self.due_date,
            priority: self.priority,
            tags: clone_strings(&self.tags),
        }
    }
}

/// Whether some string of `v` holds exactly the characters of `s`.
fn contains_string(v: &Vec<String>, s: &String) -> (r: bool)
    ensures
        r == tag_views(v@).contains(s@),
{
    let n = v.len();
    let mut i: usize = 0;
    while i < n
        invariant
            i <= n,
            n == v@.len(),
            forall|k: int| 0 <= k < i ==> tag_views(v@)[k] != s@,
        decreases n - i,
    {
        if v[i] == *s {
            proof {
                assert(tag_views(v@)[i as int] == s@);
            }
            return true;
        }
        i = i + 1;
    }
    proof {
        assert(!tag_views(v@).contains(s@)) by {
            assert(forall|k: int| 0 <= k < tag_views(v@).len() ==> tag_views(v@)[k] != s@);
        }
    }
    false
}

/// The tag sequence after adding each tag of `new` in turn, appending a tag
/// only where it is not already present (case-sensitive exact match). A tag
/// that occurs twice in `new` is appended at most once: the first copy, once
/// appended, is already present when the second is reached.
pub open spec fn add_tags_seq(tags: Seq<Seq<char>>, new: Seq<Seq<char>>) -> Seq<Seq<char>>
    decreases new.len(),
{
    if new.len() == 0 {
        tags
    } else {
        let prev = add_tags_seq(tags, new.drop_last());
        if prev.contains(new.last()) {
            prev
        } else {
            prev.push(new.last())
        }
    }
}

/// The tag sequence after removing every tag equal to some entry of `remove`,
/// keeping the others in order.
pub open spec fn remove_tags_seq(tags: Seq<Seq<char>>, remove: Seq<Seq<char>>) -> Seq<Seq<char>> {
    tags.filter(|t: Seq<char>| !remove.contains(t))
}

/// The ascending `(position, task)` pairs, over the first `n` tasks, of the
/// tasks whose tag sequence contains `tag`.
pub open spec fn listing_by_tag(tasks: Seq<TaskView>, tag: Seq<char>, n: int) -> Seq<(int, TaskView)>
    decreases n,
{
    if n <= 0 {
        Seq::empty()
    } else {
        let prev = listing_by_tag(tasks, tag, n - 1);
        if tasks[n - 1].tags.contains(tag) {
            prev.push(((n - 1, tasks[n - 1])))
        } else {
            prev
        }
    }
}

impl TaskList {
    /// Appends a task as it stands, fields included.
    pub(crate) fn push_task(&mut self, t: Task)
        ensures
            final(self)@ == old(self)@.push(t@),
    {
        let ghost before = self.tasks@;
        let ghost tv = t@;
        self.tasks.push(t);
        proof {
            assert(self@ =~= task_views(before).push(tv));
        }
    }

    /// Appends a new, uncompleted task and returns its identifier: the
    /// collection's length before the call. Always succeeds.
    pub fn add_task(
        &mut self,
        description: String,
        due_date: Option<Date>,
        priority: Priority,
        tags: Vec<String>,
    ) -> (id: usize)
        ensures
            id == old(self)@.len(),
            final(self)@ == old(self)@.push(
                (TaskView {
                    description: description@,
                    completed: false,
                    due_date,
                    priority,
                    tags: tag_views(tags@),
                }),
            ),
    {
        let id = self.tasks.len();
        let ghost before = self.tasks@;
        let task = Task { description, completed: false, due_date, priority, tags };
        let ghost tv = task@;
        self.tasks.push(task);
        proof {
            assert(self@ =~= task_views(before).push(tv));
        }
        id
    }

    /// Marks the task at position `id` completed; every other field and every
    /// other task is unchanged. Fails, changing nothing, exactly when `id` is
    /// out of range.
    pub fn complete_task(&mut self, id: usize) -> (r: Result<(), String>)
        ensures
            id < old(self)@.len() ==> r is Ok && final(self)@ == old(self)@.update(
                id as int,
                (TaskView { completed: true, ..old(self)@[id as int] }),
            ),
            id >= old(self)@.len() ==> r is Err && *final(self) == *old(self),
            r matches Err(e) ==> e@ == "Invalid task ID"@,
    {
        if id < self.tasks.len() {
            let ghost before = self.tasks@;
            let t = &mut self.tasks[id];
            t.completed = true;
            proof {
                assert(self@ =~= task_views(before).update(
                    id as int,
                    (TaskView { completed: true, ..task_views(before)[id as int] }),
                ));
            }
            Ok(())
        } else {
            Err(String::from_str("Invalid task ID"))
        }
    }

    /// Deletes the task at position `id`, shifting every later task down by
    /// one position. Fails, changing nothing, exactly when `id` is out of
    /// range.
    pub fn remove_task(&mut self, id: usize) -> (r: Result<(), String>)
        ensures
            id < old(self)@.len() ==> r is Ok && final(self)@ == old(self)@.remove(id as int),
            id >= old(self)@.len() ==> r is Err && *final(self) == *old(self),
            r matches Err(e) ==> e@ == "Invalid task ID"@,
    {
        if id < self.tasks.len() {
            let ghost before = self.tasks@;
            self.tasks.remove(id);
            proof {
                assert(self@ =~= task_views(before).remove(id as int));
            }
            Ok(())
        } else {
            Err(String::from_str("Invalid task ID"))
        }
    }

    /// True exactly when the collection holds no task.
    pub fn is_empty(&self) -> (r: bool)
        ensures
            r == (self@.len() == 0),
    {
        self.tasks.len() == 0
    }

    /// Appends to the task at position `id` each given tag that the task does
    /// not already hold, in first-seen order; tags already present, and
    /// repeats within the same call, are passed over. Fails, changing
    /// nothing, exactly when `id` is out of range.
    pub fn add_tags(&mut self, id: usize, new_tags: Vec<String>) -> (r: Result<(), String>)
        ensures
            id < old(self)@.len() ==> r is Ok && final(self)@ == old(self)@.update(
                id as int,
                (TaskView {
                    tags: add_tags_seq(old(self)@[id as int].tags, tag_views(new_tags@)),
                    ..old(self)@[id as int]
                }),
            ),
            id >= old(self)@.len() ==> r is Err && *final(self) == *old(self),
            r matches Err(e) ==> e@ == "Invalid task ID"@,
    {
        if id < self.tasks.len() {
            let ghost before = self.tasks@;
            let t = &mut self.tasks[id];
            let ghost t0 = *t;
            let n = new_tags.len();
            let mut i: usize = 0;
            while i < n
                invariant
                    i <= n,
                    n == new_tags@.len(),
                    t.description == t0.description,
                    t.completed == t0.completed,
                    t.due_date == t0.due_date,
                    t.priority == t0.priority,
                    tag_views(t.tags@) == add_tags_seq(
                        tag_views(t0.tags@),
                        tag_views(new_tags@).take(i as int),
                    ),
                decreases n - i,
            {
                let ghost held = tag_views(t.tags@);
                let tag = new_tags[i].clone();
                proof {
                    assert(tag_views(new_tags@).take(i + 1).drop_last() =~= tag_views(
                        new_tags@,
                    ).take(i as int));
                    assert(tag_views(new_tags@).take(i + 1).last() == tag@);
                }
                if !contains_string(&t.tags, &tag) {
                    t.tags.push(tag);
                    proof {
                        assert(tag_views(t.tags@) =~= held.push(
                            tag_views(new_tags@).take(i + 1).last(),
                        ));
                    }
                }
                i = i + 1;
            }
            proof {
                assert(tag_views(new_tags@).take(n as int) =~= tag_views(new_tags@));
                assert(self@ =~= task_views(before).update(
                    id as int,
                    (TaskView {
                        tags: add_tags_seq(tag_views(t0.tags@), tag_views(new_tags@)),
                        ..task_views(before)[id as int]
                    }),
                ));
            }
            Ok(())
        } else {
            Err(String::from_str("Invalid task ID"))
        }
    }

    /// Removes from the task at position `id` every tag equal to some entry
    /// of `tags_to_remove`; entries not present are silently passed over.
    /// Fails, changing nothing, exactly when `id` is out of range.
    pub fn remove_tags(&mut self, id: usize, tags_to_remove: Vec<String>) -> (r: Result<(), String>)
        ensures
            id < old(self)@.len() ==> r is Ok && final(self)@ == old(self)@.update(
                id as int,
                (TaskView {
                    tags: remove_tags_seq(old(self)@[id as int].tags, tag_views(tags_to_remove@)),
                    ..old(self)@[id as int]
                }),
            ),
            id >= old(self)@.len() ==> r is Err && *final(self) == *old(self),
            r matches Err(e) ==> e@ == "Invalid task ID"@,
    {
        if id < self.tasks.len() {
            let ghost before = self.tasks@;
            let t = &mut self.tasks[id];
            let ghost t0 = *t;
            let ghost pred = |x: Seq<char>| !tag_views(tags_to_remove@).contains(x);
            let mut kept: Vec<String> = Vec::new();
            let n = t.tags.len();
            let mut j: usize = 0;
            while j < n
                invariant
                    j <= n,
                    n == t.tags@.len(),
                    t.tags == t0.tags,
                    t.description == t0.description,
                    t.completed == t0.completed,
                    t.due_date == t0.due_date,
                    t.priority == t0.priority,
                    pred == (|x: Seq<char>| !tag_views(tags_to_remove@).contains(x)),
                    tag_views(kept@) == tag_views(t.tags@).take(j as int).filter(pred),
                decreases n - j,
            {
                let ghost held = tag_views(kept@);
                proof {
                    assert(tag_views(t.tags@).take(j + 1).drop_last() =~= tag_views(
                        t.tags@,
                    ).take(j as int));
                    assert(tag_views(t.tags@).take(j + 1).last() == tag_views(t.tags@)[j as int]);
                    reveal_with_fuel(Seq::filter, 2);
                }
                if !contains_string(&tags_to_remove, &t.tags[j]) {
                    kept.push(t.tags[j].clone());
                    proof {
                        assert(tag_views(kept@) =~= held.push(tag_views(t.tags@)[j as int]));
                    }
                }
                j = j + 1;
            }
            proof {
                assert(tag_views(t.tags@).take(n as int) =~= tag_views(t.tags@));
            }
            t.tags = kept;
            proof {
                assert(self@ =~= task_views(before).update(
                    id as int,
                    (TaskView {
                        tags: remove_tags_seq(tag_views(t0.tags@), tag_views(tags_to_remove@)),
                        ..task_views(before)[id as int]
                    }),
                ));
            }
            Ok(())
        } else {
            Err(String::from_str("Invalid task ID"))
        }
    }

    /// The `(identifier, task)` pairs of the whole collection, in ascending
    /// position order. Pure: the collection is unchanged, and each call
    /// starts from scratch.
    pub fn list_tasks(&self) -> (r: Vec<(usize, Task)>)
        ensures
            r@.len() == self@.len(),
            forall|i: int|
                0 <= i < r@.len() ==> (#[trigger] r@[i]).0 == i && r@[i].1@ == self@[i],
    {
        let mut r: Vec<(usize, Task)> = Vec::new();
        let n = self.tasks.len();
        let mut i: usize = 0;
        while i < n
            invariant
                i <= n,
                n == self.tasks@.len(),
                r@.len() == i,
                forall|k: int|
                    0 <= k < i ==> (#[trigger] r@[k]).0 == k && r@[k].1@ == self@[k],
            decreases n - i,
        {
            r.push((i, self.tasks[i].clone()));
            i = i + 1;
        }
        r
    }

    /// The `(identifier, task)` pairs, in ascending position order, of the
    /// tasks whose tag sequence holds an exact match for `tag`. A caller that
    /// gets an empty listing is expected to report that no task was found.
    pub fn list_tasks_by_tag(&self, tag: &str) -> (r: Vec<(usize, Task)>)
        ensures
            ({
                let l = listing_by_tag(self@, tag@, self@.len() as int);
                r@.len() == l.len() && forall|i: int|
                    0 <= i < r@.len() ==> (#[trigger] r@[i]).0 == l[i].0 && r@[i].1@ == l[i].1
            }),
    {
        let owned = String::from_str(tag);
        let mut r: Vec<(usize, Task)> = Vec::new();
        let n = self.tasks.len();
        let mut i: usize = 0;
        while i < n
            invariant
                i <= n,
                n == self.tasks@.len(),
                owned@ == tag@,
                ({
                    let l = listing_by_tag(self@, tag@, i as int);
                    r@.len() == l.len() && forall|k: int|
                        0 <= k < r@.len() ==> (#[trigger] r@[k]).0 == l[k].0 && r@[k].1@ == l[k].1
                }),
            decreases n - i,
        {
            if contains_string(&self.tasks[i].tags, &owned) {
                r.push((i, self.tasks[i].clone()));
            }
            i = i + 1;
        }
        r
    }
}

/// Removing the task at a position shortens the sequence by one, keeps every
/// earlier task at its position, and shifts every later task down by one.
pub proof fn lemma_remove_shifts(ts: Seq<TaskView>, id: int)
    requires
        0 <= id < ts.len(),
    ensures
        ts.remove(id).len() == ts.len() - 1,
        forall|j: int| 0 <= j < id ==> #[trigger] ts.remove(id)[j] == ts[j],
        forall|j: int| id < j < ts.len() ==> #[trigger] ts.remove(id)[j - 1] == ts[j],
{
}

/// Adding one tag is idempotent: a second add of the same tag changes
/// nothing, an add of a tag already present changes nothing, and a tag that
/// was absent is present exactly once afterwards.
pub proof fn lemma_add_tag_idempotent(tags: Seq<Seq<char>>, t: Seq<char>)
    ensures
        add_tags_seq(add_tags_seq(tags, seq![t]), seq![t]) == add_tags_seq(tags, seq![t]),
        tags.contains(t) ==> add_tags_seq(tags, seq![t]) == tags,
        !tags.contains(t) ==> add_tags_seq(tags, seq![t]) == tags.push(t),
        !tags.contains(t) ==> add_tags_seq(tags, seq![t]).to_multiset().count(t) == 1,
{
    broadcast use vstd::seq_lib::group_to_multiset_ensures;

    let s1 = seq![t];
    assert(s1.drop_last() =~= Seq::<Seq<char>>::empty());
    assert(s1.last() == t);
    assert(add_tags_seq(tags, s1.drop_last()) == tags);
    let a1 = add_tags_seq(tags, s1);
    if tags.contains(t) {
        assert(a1 == tags);
    } else {
        assert(a1 == tags.push(t));
        assert(tags.push(t)[tags.len() as int] == t);
        assert(a1.contains(t));
        assert(tags.to_multiset().count(t) == 0);
        assert(tags.push(t).to_multiset() =~= tags.to_multiset().insert(t));
    }
    assert(add_tags_seq(a1, s1.drop_last()) == a1);
    assert(add_tags_seq(a1, s1) == a1);
}

/// Removing a tag that is not present succeeds and changes nothing.
pub proof fn lemma_remove_absent_tag_noop(tags: Seq<Seq<char>>, t: Seq<char>)
    requires
        !tags.contains(t),
    ensures
        remove_tags_seq(tags, seq![t]) == tags,
    decreases tags.len(),
{
    reveal(Seq::filter);
    let pred = |x: Seq<char>| !seq![t].contains(x);
    if tags.len() == 0 {
        assert(tags.filter(pred) =~= tags);
    } else {
        let last = tags.last();
        assert(tags[tags.len() - 1] == last);
        assert(last != t);
        assert(seq![t].contains(last) ==> seq![t][0] == last);
        assert(pred(last));
        assert(!tags.drop_last().contains(t)) by {
            if tags.drop_last().contains(t) {
                let w = choose|w: int| 0 <= w < tags.drop_last().len() && tags.drop_last()[w] == t;
                assert(tags[w] == t);
            }
        }
        lemma_remove_absent_tag_noop(tags.drop_last(), t);
        assert(tags.filter(pred) == tags.drop_last().filter(pred).push(last));
        assert(tags.drop_last().push(last) =~= tags);
    }
}

} // verus!
