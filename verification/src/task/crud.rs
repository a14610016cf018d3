//! The task store: the collection of tasks as it is persisted, and the
//! operations that add, update, delete and change the status of a task.

use crate::clock::{is_timestamp, timestamp_now};
use crate::task::local_store::{
    counter_value, get_next_id, is_garbled, next_id, stored_text, Allocation,
};
use crate::text::{decimal, eq_ignore_case, folded};
use vstd::prelude::*;

verus! {

/// One unit of work, as it is persisted.
#[derive(Debug, Clone, PartialEq, Eq)]
pub struct Task {
    /// The identifier, issued by the sequence allocator and never changed.
    pub id: u32,
    pub title: String,
    pub description: String,
    /// When the task was created.
    pub f_start: String,
    /// When the task was last set to done; empty until then.
    pub f_end: String,
    /// The status, spelled as the caller gave it.
    pub status: String,
}

/// What a task holds, with each text as a sequence of characters.
pub struct TaskView {
    pub id: u32,
    pub title: Seq<char>,
    pub description: Seq<char>,
    pub f_start: Seq<char>,
    pub f_end: Seq<char>,
    pub status: Seq<char>,
}

impl View for Task {
    type V = TaskView;

    open spec fn view(&self) -> TaskView {
        TaskView {
            id: self.id,
            title: self.title@,
            description: self.description@,
            f_start: self.f_start@,
            f_end: self.f_end@,
            status: self.status@,
        }
    }
}

/// The collection, task by task, as views.
pub open spec fn views(tasks: Seq<Task>) -> Seq<TaskView> {
    Seq::new(tasks.len(), |i: int| tasks[i]@)
}

/// The states that a task passes through.
#[derive(Debug, Clone, Copy, PartialEq, Eq, Structural)]
pub enum Status {
    Pending,
    InProgress,
    Done,
}

/// The status that a text names, whatever the case of its letters:
/// `pendiente`, `adelantando`, and for done `completada` or `hecha`.
pub open spec fn status_of(text: Seq<char>) -> Option<Status> {
    let word = folded(text);
    if word == folded("pendiente"@) {
        Some(Status::Pending)
    } else if word == folded("adelantando"@) {
        Some(Status::InProgress)
    } else if word == folded("completada"@) || word == folded("hecha"@) {
        Some(Status::Done)
    } else {
        None
    }
}

impl Status {
    /// Reads a status from the text that names it.
    pub fn parse(text: &str) -> (status: Option<Status>)
        ensures
            status == status_of(text@),
    {
        if eq_ignore_case(text, "pendiente") {
            Some(Status::Pending)
        } else if eq_ignore_case(text, "adelantando") {
            Some(Status::InProgress)
        } else if eq_ignore_case(text, "completada") || eq_ignore_case(text, "hecha") {
            Some(Status::Done)
        } else {
            None
        }
    }
}

/// The position of the first task that has the identifier `id`, if any has.
pub open spec fn position_of(tasks: Seq<TaskView>, id: u32) -> Option<int>
    decreases tasks.len(),
{
    if tasks.len() == 0 {
        None
    } else if tasks[0].id == id {
        Some(0)
    } else {
        match position_of(tasks.drop_first(), id) {
            Some(i) => Some(i + 1),
            None => None,
        }
    }
}

/// `position_of` finds the first task with the identifier, and finds none
/// only where no task has it.
pub proof fn lemma_position_of(tasks: Seq<TaskView>, id: u32)
    ensures
        match position_of(tasks, id) {
            Some(i) => {
                &&& 0 <= i < tasks.len()
                &&& tasks[i].id == id
                &&& forall|j: int| 0 <= j < i ==> tasks[j].id != id
            },
            None => forall|j: int| 0 <= j < tasks.len() ==> tasks[j].id != id,
        },
    decreases tasks.len(),
{
    if tasks.len() > 0 && tasks[0].id != id {
        let rest = tasks.drop_first();
        lemma_position_of(rest, id);
        match position_of(rest, id) {
            Some(i) => {
                assert forall|j: int| 0 <= j < i + 1 implies tasks[j].id != id by {
                    if j > 0 {
                        assert(tasks[j] == rest[j - 1]);
                    }
                }
            },
            None => {
                assert forall|j: int| 0 <= j < tasks.len() implies tasks[j].id != id by {
                    if j > 0 {
                        assert(tasks[j] == rest[j - 1]);
                    }
                }
            },
        }
    }
}

/// Looks a task up by its identifier: the index of the first task that has it.
pub fn find_task(tasks: &Vec<Task>, id: u32) -> (found: Option<usize>)
    ensures
        match found {
            Some(i) => position_of(views(tasks@), id) == Some(i as int),
            None => position_of(views(tasks@), id) is None,
        },
{
    let mut i: usize = 0;
    while i < tasks.len()
        invariant
            i <= tasks@.len(),
            forall|j: int| 0 <= j < i ==> views(tasks@)[j].id != id,
        decreases tasks@.len() - i,
    {
        if tasks[i].id == id {
            proof {
                assert(views(tasks@)[i as int].id == id);
                lemma_position_of(views(tasks@), id);
            }
            return Some(i);
        }
        i += 1;
    }
    proof {
        lemma_position_of(views(tasks@), id);
    }
    None
}

/// The text of an optional field, if one is given.
pub open spec fn given(field: Option<String>) -> Option<Seq<char>> {
    match field {
        Some(text) => Some(text@),
        None => None,
    }
}

/// A task after an update: each field that is given replaces the old one, and
/// every other field stays.
pub open spec fn updated(
    task: TaskView,
    title: Option<Seq<char>>,
    description: Option<Seq<char>>,
) -> TaskView {
    TaskView {
        title: match title {
            Some(text) => text,
            None => task.title,
        },
        description: match description {
            Some(text) => text,
            None => task.description,
        },
        ..task
    }
}

/// The collection after an update of the task `id`: the first task with that
/// identifier is updated, and a collection without such a task stays as it is.
pub open spec fn update_spec(
    tasks: Seq<TaskView>,
    id: u32,
    title: Option<Seq<char>>,
    description: Option<Seq<char>>,
) -> Seq<TaskView> {
    match position_of(tasks, id) {
        Some(i) => tasks.update(i, updated(tasks[i], title, description)),
        None => tasks,
    }
}

/// Overwrites the title and the description of the task `id`, each only where
/// a new one is given. Returns whether the task was found: only then is there
/// anything to save.
pub fn update_task(
    tasks: &mut Vec<Task>,
    id: u32,
    title: &Option<String>,
    description: &Option<String>,
) -> (found: bool)
    ensures
        found == position_of(views(old(tasks)@), id) is Some,
        views(final(tasks)@) == update_spec(
            views(old(tasks)@),
            id,
            given(*title),
            given(*description),
        ),
        !found ==> final(tasks)@ == old(tasks)@,
{
    match find_task(tasks, id) {
        Some(i) => {
            proof {
                lemma_position_of(views(tasks@), id);
            }
            if let Some(text) = title {
                tasks[i].title = text.clone();
            }
            if let Some(text) = description {
                tasks[i].description = text.clone();
            }
            assert(views(tasks@) =~= update_spec(
                views(old(tasks)@),
                id,
                given(*title),
                given(*description),
            ));
            true
        },
        None => false,
    }
}

/// A task after its status is set to `text` at the moment `now`: the status
/// is the text as it was given, and the end time is `now` where the text
/// names done. Any other status leaves the end time as it was.
pub open spec fn restated(task: TaskView, text: Seq<char>, now: Seq<char>) -> TaskView {
    TaskView {
        status: text,
        f_end: if status_of(text) == Some(Status::Done) {
            now
        } else {
            task.f_end
        },
        ..task
    }
}

/// Whether a change of status applies: the task exists and the text names a
/// status.
pub open spec fn status_applies(tasks: Seq<TaskView>, id: u32, text: Seq<char>) -> bool {
    position_of(tasks, id) is Some && status_of(text) is Some
}

/// The collection after the status of the task `id` is set to `text` at the
/// moment `now`. Where the change does not apply the collection stays as it is.
pub open spec fn change_status_spec(
    tasks: Seq<TaskView>,
    id: u32,
    text: Seq<char>,
    now: Seq<char>,
) -> Seq<TaskView> {
    if status_applies(tasks, id, text) {
        let i = position_of(tasks, id)->0;
        tasks.update(i, restated(tasks[i], text, now))
    } else {
        tasks
    }
}

/// Sets the status of the task `id` at the moment `now`. Returns whether the
/// change applied: only then is there anything to save.
pub fn change_status_task_at(
    tasks: &mut Vec<Task>,
    id: u32,
    status: &str,
    now: &str,
) -> (changed: bool)
    ensures
        changed == status_applies(views(old(tasks)@), id, status@),
        views(final(tasks)@) == change_status_spec(views(old(tasks)@), id, status@, now@),
        !changed ==> final(tasks)@ == old(tasks)@,
{
    let named = Status::parse(status);
    match (find_task(tasks, id), named) {
        (Some(i), Some(state)) => {
            proof {
                lemma_position_of(views(tasks@), id);
            }
            tasks[i].status = status.to_owned();
            if state == Status::Done {
                tasks[i].f_end = now.to_owned();
            }
            assert(views(tasks@) =~= change_status_spec(
                views(old(tasks)@),
                id,
                status@,
                now@,
            ));
            true
        },
        _ => false,
    }
}

/// Sets the status of the task `id`, and stamps the end time from the clock
/// where the status is done. Returns whether the change applied: only then is
/// there anything to save.
pub fn change_status_task(tasks: &mut Vec<Task>, id: u32, status: &str) -> (changed: bool)
    ensures
        changed == status_applies(views(old(tasks)@), id, status@),
        !changed ==> final(tasks)@ == old(tasks)@,
        changed ==> {
            let i = position_of(views(old(tasks)@), id)->0;
            let stamp = views(final(tasks)@)[i].f_end;
            &&& views(final(tasks)@) == change_status_spec(
                views(old(tasks)@),
                id,
                status@,
                stamp,
            )
            &&& status_of(status@) == Some(Status::Done) ==> is_timestamp(stamp)
        },
{
    let done = match Status::parse(status) {
        Some(Status::Done) => find_task(tasks, id).is_some(),
        _ => false,
    };
    let now = if done {
        timestamp_now()
    } else {
        String::new()
    };
    let changed = change_status_task_at(tasks, id, status, now.as_str());
    proof {
        if changed {
            lemma_position_of(views(old(tasks)@), id);
            let i = position_of(views(old(tasks)@), id)->0;
            let stamp = views(tasks@)[i].f_end;
            assert(views(tasks@) =~= change_status_spec(views(old(tasks)@), id, status@, stamp));
        }
    }
    changed
}

/// The task that an addition creates: pending, started at `now`, not ended.
pub open spec fn new_task(
    id: u32,
    title: Seq<char>,
    description: Seq<char>,
    now: Seq<char>,
) -> TaskView {
    TaskView {
        id,
        title,
        description,
        f_start: now,
        f_end: Seq::empty(),
        status: "Pendiente"@,
    }
}

/// What is persisted: the task document and the counter's text.
pub struct StoreView {
    pub tasks: Seq<TaskView>,
    pub counter: Seq<char>,
}

/// What an addition is given: title, description and the moment it happens.
pub struct Entry {
    pub title: Seq<char>,
    pub description: Seq<char>,
    pub now: Seq<char>,
}

/// The store after one addition: the counter advances by one and the new
/// task, which carries the new counter value, goes to the end.
pub open spec fn add_spec(store: StoreView, entry: Entry) -> StoreView {
    let id = next_id(store.counter) as u32;
    StoreView {
        tasks: store.tasks.push(new_task(id, entry.title, entry.description, entry.now)),
        counter: decimal(id as nat),
    }
}

/// Adds a task at the moment `now`. The identifier comes from the sequence
/// allocator, which works from `stored`: the counter file's content, or `None`
/// when the file does not exist. The new task goes to the end of the
/// collection. Returns the allocation, which says what the counter file must
/// hold from now on.
///
/// The counter must have an identifier left to issue: `current_id` tells.
pub fn add_task_at(
    tasks: &mut Vec<Task>,
    stored: Option<&str>,
    title: &str,
    description: &str,
    now: &str,
) -> (issued: Allocation)
    requires
        counter_value(stored_text(stored)) < u32::MAX,
    ensures
        issued.id == next_id(stored_text(stored)),
        issued.text@ == decimal(issued.id as nat),
        counter_value(issued.text@) == issued.id,
        stored is None <==> issued.created is Some,
        issued.created matches Some(first) ==> first@ == decimal(0),
        issued.recovered == is_garbled(stored_text(stored)),
        views(final(tasks)@) == views(old(tasks)@).push(
            new_task(issued.id, title@, description@, now@),
        ),
        (StoreView { tasks: views(final(tasks)@), counter: issued.text@ }) == add_spec(
            StoreView { tasks: views(old(tasks)@), counter: stored_text(stored) },
            Entry { title: title@, description: description@, now: now@ },
        ),
{
    let issued = get_next_id(stored);
    let task = Task {
        id: issued.id,
        title: title.to_owned(),
        description: description.to_owned(),
        f_start: now.to_owned(),
        f_end: String::new(),
        status: "Pendiente".to_owned(),
    };
    tasks.push(task);
    assert(views(tasks@) =~= views(old(tasks)@).push(
        new_task(issued.id, title@, description@, now@),
    ));
    issued
}

/// Adds a task, started at the moment the clock gives. The identifier comes
/// from the sequence allocator, which works from `stored`: the counter file's
/// content, or `None` when the file does not exist. Returns the allocation,
/// which says what the counter file must hold from now on.
///
/// The counter must have an identifier left to issue: `current_id` tells.
pub fn add_task(
    tasks: &mut Vec<Task>,
    stored: Option<&str>,
    title: &str,
    description: &str,
) -> (issued: Allocation)
    requires
        counter_value(stored_text(stored)) < u32::MAX,
    ensures
        issued.id == next_id(stored_text(stored)),
        issued.text@ == decimal(issued.id as nat),
        counter_value(issued.text@) == issued.id,
        stored is None <==> issued.created is Some,
        issued.created matches Some(first) ==> first@ == decimal(0),
        issued.recovered == is_garbled(stored_text(stored)),
        final(tasks)@.len() == old(tasks)@.len() + 1,
        is_timestamp(final(tasks)@.last().f_start@),
        views(final(tasks)@) == views(old(tasks)@).push(
            new_task(issued.id, title@, description@, final(tasks)@.last().f_start@),
        ),
{
    let now = timestamp_now();
    let issued = add_task_at(tasks, stored, title, description, now.as_str());
    assert(views(tasks@).last() == tasks@.last()@);
    issued
}

/// The test that a deletion keeps a task by: its identifier is not `id`.
pub open spec fn kept(id: u32) -> spec_fn(TaskView) -> bool {
    |task: TaskView| task.id != id
}

/// The collection without the tasks that have the identifier `id`.
pub open spec fn without_id(tasks: Seq<TaskView>, id: u32) -> Seq<TaskView> {
    tasks.filter(kept(id))
}

/// Taking one more task into view extends what a deletion leaves by that
/// task, or by nothing where the task has the identifier.
proof fn lemma_without_id_step(tasks: Seq<Task>, id: u32, k: int)
    requires
        0 <= k < tasks.len(),
    ensures
        without_id(views(tasks.take(k + 1)), id) == if tasks[k].id != id {
            without_id(views(tasks.take(k)), id).push(tasks[k]@)
        } else {
            without_id(views(tasks.take(k)), id)
        },
{
    assert(views(tasks.take(k + 1)) =~= views(tasks.take(k)).push(tasks[k]@));
    views(tasks.take(k)).lemma_filter_push(tasks[k]@, kept(id));
}

/// Removes every task that has the identifier `id`. Returns whether any was
/// removed: only then is there anything to save.
pub fn delete_task(tasks: &mut Vec<Task>, id: u32) -> (removed: bool)
    ensures
        views(final(tasks)@) == without_id(views(old(tasks)@), id),
        removed == position_of(views(old(tasks)@), id) is Some,
        removed == (final(tasks)@.len() < old(tasks)@.len()),
        !removed ==> final(tasks)@ == old(tasks)@,
{
    let ghost before = tasks@;
    let ghost mut seen: int = 0;
    let initial = tasks.len();
    let mut i: usize = 0;
    proof {
        reveal(Seq::filter);
        assert(views(before.take(0)) =~= Seq::<TaskView>::empty());
        assert(views(tasks@.take(0)) =~= Seq::<TaskView>::empty());
        assert(tasks@.skip(0) =~= before.skip(0));
    }
    while i < tasks.len()
        invariant
            i <= tasks@.len(),
            i <= seen <= before.len(),
            initial == before.len(),
            tasks@.len() - i == before.len() - seen,
            tasks@.skip(i as int) == before.skip(seen),
            views(tasks@.take(i as int)) == without_id(views(before.take(seen)), id),
            seen == i ==> tasks@ == before,
            seen == i <==> forall|j: int| 0 <= j < seen ==> before[j].id != id,
        decreases tasks@.len() - i,
    {
        let ghost current = tasks@;
        proof {
            assert(current[i as int] == current.skip(i as int)[0]);
            assert(before[seen] == before.skip(seen)[0]);
            lemma_without_id_step(before, id, seen);
        }
        if tasks[i].id == id {
            tasks.remove(i);
            proof {
                assert(tasks@.take(i as int) =~= current.take(i as int));
                assert(tasks@.skip(i as int) =~= current.skip(i as int).skip(1));
                assert(before.skip(seen + 1) =~= before.skip(seen).skip(1));
                seen = seen + 1;
            }
        } else {
            proof {
                assert(tasks@.take(i + 1) =~= tasks@.take(i as int).push(tasks@[i as int]));
                assert(views(tasks@.take(i + 1)) =~= views(tasks@.take(i as int)).push(
                    tasks@[i as int]@,
                ));
                assert(tasks@.skip(i + 1) =~= current.skip(i as int).skip(1));
                assert(before.skip(seen + 1) =~= before.skip(seen).skip(1));
                seen = seen + 1;
            }
            i += 1;
        }
    }
    proof {
        assert(tasks@.take(i as int) =~= tasks@);
        assert(before.take(seen) =~= before);
        lemma_position_of(views(before), id);
        if seen == i {
            assert forall|j: int| 0 <= j < views(before).len() implies views(before)[j].id
                != id by {
                assert(before[j].id != id);
            }
        } else {
            let j = choose|j: int| 0 <= j < seen && before[j].id == id;
            assert(views(before)[j].id == id);
        }
    }
    tasks.len() < initial
}

/// Settles what a load yields. `document` is the task document as it was
/// read and decoded, or `None` where there is no document or it cannot be
/// decoded: a missing or corrupt document is an empty collection, not an error.
pub fn load_tasks(document: Option<Vec<Task>>) -> (tasks: Vec<Task>)
    ensures
        match document {
            Some(decoded) => tasks == decoded,
            None => tasks@ == Seq::<Task>::empty(),
        },
{
    match document {
        Some(decoded) => decoded,
        None => Vec::new(),
    }
}

} // verus!
