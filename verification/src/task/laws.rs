//! What holds of the task store across its operations, stated over the
//! persisted contents: the tasks and the counter's text.

use crate::task::crud::{
    add_spec, change_status_spec, lemma_position_of, new_task, position_of, restated,
    status_applies, status_of, update_spec, without_id, Entry, Status, StoreView, TaskView,
};
use crate::task::local_store::{counter_value, next_id};
use crate::text::{folded, lemma_parse_decimal_round_trip};
use vstd::prelude::*;

verus! {

/// The store after the additions `entries`, made one after the other.
pub open spec fn add_all(store: StoreView, entries: Seq<Entry>) -> StoreView
    decreases entries.len(),
{
    if entries.len() == 0 {
        store
    } else {
        add_spec(add_all(store, entries.drop_last()), entries.last())
    }
}

/// The store's invariant: identifiers are positive, grow strictly along the
/// collection, and none is above what the counter has issued.
pub open spec fn ids_in_order(store: StoreView) -> bool {
    &&& forall|i: int, j: int|
        0 <= i < j < store.tasks.len() ==> store.tasks[i].id < store.tasks[j].id
    &&& forall|i: int|
        0 <= i < store.tasks.len() ==> 1 <= #[trigger] store.tasks[i].id <= counter_value(
            store.counter,
        )
}

/// No identifier occurs twice in the collection.
pub open spec fn distinct_ids(tasks: Seq<TaskView>) -> bool {
    forall|i: int, j: int| 0 <= i < j < tasks.len() ==> tasks[i].id != tasks[j].id
}

/// Every task that is done has an end time. The converse does not hold: a
/// task that was done once keeps its end time when its status changes again.
pub open spec fn done_is_stamped(tasks: Seq<TaskView>) -> bool {
    forall|i: int|
        #![trigger tasks[i]]
        0 <= i < tasks.len() && status_of(tasks[i].status) == Some(Status::Done)
            ==> tasks[i].f_end.len() > 0
}

/// Additions number the tasks in the order they are made. Starting from an
/// empty collection and a counter that holds zero, `n` additions leave `n`
/// tasks, the `i`-th of which has the identifier `i` and the fields it was
/// added with, and a counter that holds `n`.
pub proof fn lemma_additions_number_in_order(counter: Seq<char>, entries: Seq<Entry>)
    requires
        counter_value(counter) == 0,
        entries.len() <= u32::MAX,
    ensures
        ({
            let end = add_all(StoreView { tasks: Seq::empty(), counter }, entries);
            &&& end.tasks.len() == entries.len()
            &&& counter_value(end.counter) == entries.len()
            &&& forall|i: int|
                0 <= i < entries.len() ==> #[trigger] end.tasks[i] == new_task(
                    (i + 1) as u32,
                    entries[i].title,
                    entries[i].description,
                    entries[i].now,
                )
        }),
    decreases entries.len(),
{
    if entries.len() > 0 {
        lemma_additions_number_in_order(counter, entries.drop_last());
        lemma_parse_decimal_round_trip(entries.len() as u32);
    }
}

/// An addition keeps the invariant: the new identifier is above every
/// identifier in the collection, also above those of tasks deleted since they
/// were issued, because the counter never goes back.
pub proof fn lemma_add_keeps_ids_in_order(store: StoreView, entry: Entry)
    requires
        ids_in_order(store),
        counter_value(store.counter) < u32::MAX,
    ensures
        ids_in_order(add_spec(store, entry)),
        add_spec(store, entry).tasks.last().id == counter_value(store.counter) + 1,
        counter_value(add_spec(store, entry).counter) == counter_value(store.counter) + 1,
{
    lemma_parse_decimal_round_trip(next_id(store.counter) as u32);
}

/// An update changes no identifier, so it keeps the invariant.
pub proof fn lemma_update_keeps_ids_in_order(
    store: StoreView,
    id: u32,
    title: Option<Seq<char>>,
    description: Option<Seq<char>>,
)
    requires
        ids_in_order(store),
    ensures
        ids_in_order(
            StoreView { tasks: update_spec(store.tasks, id, title, description), ..store },
        ),
{
    lemma_position_of(store.tasks, id);
}

/// A change of status changes no identifier, so it keeps the invariant.
pub proof fn lemma_change_status_keeps_ids_in_order(
    store: StoreView,
    id: u32,
    text: Seq<char>,
    now: Seq<char>,
)
    requires
        ids_in_order(store),
    ensures
        ids_in_order(StoreView { tasks: change_status_spec(store.tasks, id, text, now), ..store }),
{
    lemma_position_of(store.tasks, id);
}

/// Where exactly one task has the identifier, a deletion takes that task out
/// and leaves every other task where it was.
pub proof fn lemma_without_id_at(tasks: Seq<TaskView>, id: u32, at: int)
    requires
        0 <= at < tasks.len(),
        tasks[at].id == id,
        forall|j: int| 0 <= j < tasks.len() && j != at ==> tasks[j].id != id,
    ensures
        without_id(tasks, id) == tasks.remove(at),
    decreases tasks.len(),
{
    reveal(Seq::filter);
    let rest = tasks.drop_last();
    if at == tasks.len() - 1 {
        lemma_without_id_absent(rest, id);
        assert(tasks.remove(at) =~= rest);
    } else {
        lemma_without_id_at(rest, id, at);
        assert(tasks.remove(at) =~= rest.remove(at).push(tasks.last()));
    }
}

/// Where no task has the identifier, a deletion leaves the collection as it is.
pub proof fn lemma_without_id_absent(tasks: Seq<TaskView>, id: u32)
    requires
        forall|j: int| 0 <= j < tasks.len() ==> tasks[j].id != id,
    ensures
        without_id(tasks, id) == tasks,
    decreases tasks.len(),
{
    reveal(Seq::filter);
    if tasks.len() > 0 {
        lemma_without_id_absent(tasks.drop_last(), id);
        assert(tasks.drop_last().push(tasks.last()) =~= tasks);
    }
}

/// A deletion removes exactly one task. In a collection whose identifiers
/// are distinct, deleting an identifier that a task has takes out that task
/// alone: the collection is one shorter and every other task is still there,
/// in its place.
pub proof fn lemma_delete_removes_exactly_one(tasks: Seq<TaskView>, id: u32)
    requires
        distinct_ids(tasks),
        position_of(tasks, id) is Some,
    ensures
        without_id(tasks, id) == tasks.remove(position_of(tasks, id)->0),
        without_id(tasks, id).len() == tasks.len() - 1,
{
    lemma_position_of(tasks, id);
    lemma_without_id_at(tasks, id, position_of(tasks, id)->0);
}

/// Deleting an identifier that no task has changes nothing.
pub proof fn lemma_delete_absent_changes_nothing(tasks: Seq<TaskView>, id: u32)
    requires
        position_of(tasks, id) is None,
    ensures
        without_id(tasks, id) == tasks,
{
    lemma_position_of(tasks, id);
    lemma_without_id_absent(tasks, id);
}

/// A deletion takes tasks out and makes none: whatever it leaves stood in the
/// collection before, and has another identifier than the one deleted.
pub proof fn lemma_without_id_members(tasks: Seq<TaskView>, id: u32)
    ensures
        forall|i: int|
            0 <= i < without_id(tasks, id).len() ==> tasks.contains(
                #[trigger] without_id(tasks, id)[i],
            ) && without_id(tasks, id)[i].id != id,
    decreases tasks.len(),
{
    reveal(Seq::filter);
    if tasks.len() > 0 {
        let rest = tasks.drop_last();
        let left = without_id(rest, id);
        lemma_without_id_members(rest, id);
        assert forall|i: int| 0 <= i < left.len() implies tasks.contains(#[trigger] left[i]) by {
            let k = choose|k: int| 0 <= k < rest.len() && rest[k] == left[i];
            assert(tasks[k] == left[i]);
        }
        assert(tasks.contains(tasks.last())) by {
            assert(tasks[tasks.len() - 1] == tasks.last());
        }
    }
}

/// A deletion moves no task: where identifiers grow along the collection,
/// they still do along what is left.
pub proof fn lemma_without_id_keeps_order(tasks: Seq<TaskView>, id: u32)
    requires
        forall|i: int, j: int| 0 <= i < j < tasks.len() ==> tasks[i].id < tasks[j].id,
    ensures
        forall|i: int, j: int|
            0 <= i < j < without_id(tasks, id).len() ==> without_id(tasks, id)[i].id
                < without_id(tasks, id)[j].id,
    decreases tasks.len(),
{
    reveal(Seq::filter);
    if tasks.len() > 0 {
        let rest = tasks.drop_last();
        let left = without_id(rest, id);
        lemma_without_id_keeps_order(rest, id);
        lemma_without_id_members(rest, id);
        assert forall|i: int| 0 <= i < left.len() implies #[trigger] left[i].id
            < tasks.last().id by {
            let k = choose|k: int| 0 <= k < rest.len() && rest[k] == left[i];
            assert(tasks[k] == left[i]);
        }
    }
}

/// A deletion keeps the invariant, and leaves the counter alone: the
/// identifier of a deleted task is never issued again.
pub proof fn lemma_delete_keeps_ids_in_order(store: StoreView, id: u32)
    requires
        ids_in_order(store),
    ensures
        ids_in_order(StoreView { tasks: without_id(store.tasks, id), ..store }),
{
    lemma_without_id_keeps_order(store.tasks, id);
    lemma_without_id_members(store.tasks, id);
    let left = without_id(store.tasks, id);
    assert forall|i: int| 0 <= i < left.len() implies 1 <= #[trigger] left[i].id
        <= counter_value(store.counter) by {
        let k = choose|k: int| 0 <= k < store.tasks.len() && store.tasks[k] == left[i];
        assert(1 <= store.tasks[k].id);
    }
}

/// An update touches only the fields it is given. With a title alone, the task
/// gets the title and keeps every other field; with a description alone, it
/// gets the description and keeps every other field. No other task changes.
pub proof fn lemma_update_touches_given_fields_only(
    tasks: Seq<TaskView>,
    id: u32,
    text: Seq<char>,
)
    requires
        position_of(tasks, id) is Some,
    ensures
        ({
            let at = position_of(tasks, id)->0;
            let retitled = update_spec(tasks, id, Some(text), None);
            let redescribed = update_spec(tasks, id, None, Some(text));
            &&& 0 <= at < tasks.len()
            &&& retitled == tasks.update(at, TaskView { title: text, ..tasks[at] })
            &&& redescribed == tasks.update(at, TaskView { description: text, ..tasks[at] })
            &&& update_spec(tasks, id, None, None) == tasks
        }),
{
    lemma_position_of(tasks, id);
    let at = position_of(tasks, id)->0;
    assert(update_spec(tasks, id, None, None) =~= tasks);
}

/// Setting a task to done stamps its end time; setting it to another status
/// leaves the end time as it was. Either way the status is the text as
/// given, and nothing else changes.
pub proof fn lemma_done_stamps_end_time(
    tasks: Seq<TaskView>,
    id: u32,
    text: Seq<char>,
    now: Seq<char>,
)
    requires
        status_applies(tasks, id, text),
    ensures
        ({
            let at = position_of(tasks, id)->0;
            let after = change_status_spec(tasks, id, text, now);
            &&& 0 <= at < tasks.len()
            &&& after.len() == tasks.len()
            &&& after[at].status == text
            &&& status_of(text) == Some(Status::Done) ==> after[at].f_end == now
            &&& status_of(text) != Some(Status::Done) ==> after[at].f_end == tasks[at].f_end
            &&& after == tasks.update(
                at,
                TaskView { status: text, f_end: after[at].f_end, ..tasks[at] },
            )
        }),
{
    lemma_position_of(tasks, id);
}

/// A new task is pending.
pub proof fn lemma_new_task_is_pending(
    id: u32,
    title: Seq<char>,
    description: Seq<char>,
    now: Seq<char>,
)
    ensures
        status_of(new_task(id, title, description, now).status) == Some(Status::Pending),
{
    reveal_strlit("Pendiente");
    reveal_strlit("pendiente");
    assert(folded("Pendiente"@) =~= folded("pendiente"@));
}

/// An addition keeps every done task stamped: the task it adds is pending.
pub proof fn lemma_add_keeps_done_stamped(store: StoreView, entry: Entry)
    requires
        done_is_stamped(store.tasks),
    ensures
        done_is_stamped(add_spec(store, entry).tasks),
{
    let id = next_id(store.counter) as u32;
    lemma_new_task_is_pending(id, entry.title, entry.description, entry.now);
}

/// An update keeps every done task stamped: it touches neither status nor
/// end time.
pub proof fn lemma_update_keeps_done_stamped(
    tasks: Seq<TaskView>,
    id: u32,
    title: Option<Seq<char>>,
    description: Option<Seq<char>>,
)
    requires
        done_is_stamped(tasks),
    ensures
        done_is_stamped(update_spec(tasks, id, title, description)),
{
    lemma_position_of(tasks, id);
    let after = update_spec(tasks, id, title, description);
    assert forall|i: int|
        #![trigger after[i]]
        0 <= i < after.len() && status_of(after[i].status) == Some(Status::Done)
        implies after[i].f_end.len() > 0 by {
        assert(after[i].status == tasks[i].status && after[i].f_end == tasks[i].f_end);
    }
}

/// A change of status at a moment that is written down keeps every done task
/// stamped: the task that becomes done gets its end time with the status.
pub proof fn lemma_change_status_keeps_done_stamped(
    tasks: Seq<TaskView>,
    id: u32,
    text: Seq<char>,
    now: Seq<char>,
)
    requires
        done_is_stamped(tasks),
        now.len() > 0,
    ensures
        done_is_stamped(change_status_spec(tasks, id, text, now)),
{
    lemma_position_of(tasks, id);
    let after = change_status_spec(tasks, id, text, now);
    assert forall|i: int|
        #![trigger after[i]]
        0 <= i < after.len() && status_of(after[i].status) == Some(Status::Done)
        implies after[i].f_end.len() > 0 by {
        if after[i] != tasks[i] {
            assert(after[i] == restated(tasks[i], text, now));
        }
    }
}

/// A deletion keeps every done task stamped: it changes no task that it leaves.
pub proof fn lemma_delete_keeps_done_stamped(tasks: Seq<TaskView>, id: u32)
    requires
        done_is_stamped(tasks),
    ensures
        done_is_stamped(without_id(tasks, id)),
{
    lemma_without_id_members(tasks, id);
    let left = without_id(tasks, id);
    assert forall|i: int|
        #![trigger left[i]]
        0 <= i < left.len() && status_of(left[i].status) == Some(Status::Done)
        implies left[i].f_end.len() > 0 by {
        let k = choose|k: int| 0 <= k < tasks.len() && tasks[k] == left[i];
        assert(tasks[k].f_end.len() > 0);
    }
}

} // verus!
