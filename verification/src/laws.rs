//! Properties that relate several registry operations to one another.
//!
//! Each law is stated over the registry's mathematical model and the spec
//! transitions of `task_manager`, which the executable operations are proved
//! to implement exactly.

use vstd::prelude::*;

use crate::task::TaskError;
use crate::task::TaskView;
use crate::task::precedes;
use crate::task::valid_priority;
use crate::task_manager::Filter;
use crate::task_manager::RegistryView;
use crate::task_manager::add_spec;
use crate::task_manager::complete_spec;
use crate::task_manager::edit_spec;
use crate::task_manager::lemma_add_preserves_wf;
use crate::task_manager::lemma_complete_preserves_wf;
use crate::task_manager::lemma_edit_preserves_wf;
use crate::task_manager::lemma_index_unique;
use crate::task_manager::lemma_remove_preserves_wf;
use crate::task_manager::lemma_selected_push;
use crate::task_manager::lemma_selected_sub;
use crate::task_manager::listed;
use crate::task_manager::remove_spec;
use crate::task_manager::selected;
use crate::task_manager::sorted_for_presentation;

verus! {

/// One registry operation, by its arguments.
pub ghost enum Op {
    Add(Seq<char>, u8),
    Complete(int),
    Edit(int, Option<Seq<char>>, Option<u8>),
    Remove(int),
}

/// The registry state one operation leads to.
pub open spec fn step(m: RegistryView, op: Op) -> RegistryView {
    match op {
        Op::Add(d, p) => add_spec(m, d, p).0,
        Op::Complete(id) => complete_spec(m, id).0,
        Op::Edit(id, d, p) => edit_spec(m, id, d, p).0,
        Op::Remove(id) => remove_spec(m, id).0,
    }
}

/// The registry state a whole sequence of operations leads to.
pub open spec fn run(m: RegistryView, ops: Seq<Op>) -> RegistryView
    decreases ops.len(),
{
    if ops.len() == 0 {
        m
    } else {
        run(step(m, ops[0]), ops.drop_first())
    }
}

/// Every operation preserves well-formedness.
pub proof fn lemma_step_preserves_wf(m: RegistryView, op: Op)
    requires
        m.wf(),
    ensures
        step(m, op).wf(),
{
    match op {
        Op::Add(d, p) => lemma_add_preserves_wf(m, d, p),
        Op::Complete(id) => lemma_complete_preserves_wf(m, id),
        Op::Edit(id, d, p) => lemma_edit_preserves_wf(m, id, d, p),
        Op::Remove(id) => lemma_remove_preserves_wf(m, id),
    }
}

/// Law: with a priority in range, `add` never fails, and the id it assigns is
/// the registry's counter, which each success moves up — so the ids of
/// successive successful adds grow strictly.
pub proof fn lemma_add_ids_strictly_increase(
    m: RegistryView,
    d1: Seq<char>,
    p1: u8,
    d2: Seq<char>,
    p2: u8,
)
    requires
        valid_priority(p1),
        valid_priority(p2),
    ensures
        add_spec(m, d1, p1).1 == Ok::<int, TaskError>(m.next_id),
        add_spec(add_spec(m, d1, p1).0, d2, p2).1 == Ok::<int, TaskError>(
            add_spec(m, d1, p1).0.next_id,
        ),
        m.next_id < add_spec(m, d1, p1).0.next_id,
{
}

/// Law: an out-of-range priority (0 and 6 among them) makes `add` fail with
/// `InvalidPriority` and leaves the registry, its id counter included,
/// untouched — so the next successful add is assigned the very id the failed
/// call would have taken.
pub proof fn lemma_rejected_add_keeps_counter(
    m: RegistryView,
    d1: Seq<char>,
    p1: u8,
    d2: Seq<char>,
    p2: u8,
)
    requires
        !valid_priority(p1),
        valid_priority(p2),
    ensures
        add_spec(m, d1, p1) == (m, Err::<int, TaskError>(TaskError::InvalidPriority)),
        add_spec(add_spec(m, d1, p1).0, d2, p2).1 == Ok::<int, TaskError>(m.next_id),
{
}

/// Law: `complete` on an unknown id fails with `NotFound` and changes
/// nothing; on a known id it succeeds, and completing a second time leaves
/// the very state one completion leaves.
pub proof fn lemma_complete_idempotent(m: RegistryView, id: int)
    requires
        m.wf(),
    ensures
        !m.contains_id(id) ==> complete_spec(m, id) == (
            m,
            Err::<(), TaskError>(TaskError::NotFound),
        ),
        m.contains_id(id) ==> complete_spec(m, id).1 == Ok::<(), TaskError>(()),
        complete_spec(complete_spec(m, id).0, id).0 == complete_spec(m, id).0,
{
    if m.contains_id(id) {
        let i = m.index_of(id);
        let m1 = complete_spec(m, id).0;
        lemma_complete_preserves_wf(m, id);
        assert(m1.tasks[i].id == id);
        assert(m1.contains_id(id));
        lemma_index_unique(m1, i, m1.index_of(id));
        assert(complete_spec(m1, id).0.tasks =~= m1.tasks);
    }
}

/// Law: an edit that hands in an out-of-range priority fails with
/// `InvalidPriority` and leaves the task — description and priority alike —
/// and with it the whole registry unchanged.
pub proof fn lemma_rejected_edit_changes_nothing(
    m: RegistryView,
    id: int,
    d: Option<Seq<char>>,
    p: u8,
)
    requires
        !valid_priority(p),
    ensures
        edit_spec(m, id, d, Some(p)).0 == m,
        m.contains_id(id) ==> edit_spec(m, id, d, Some(p)).1 == Err::<(), TaskError>(
            TaskError::InvalidPriority,
        ),
{
}

/// A retired id — absent from the registry and below its counter — stays
/// retired across any single operation.
proof fn lemma_retired_stays(m: RegistryView, id: int, op: Op)
    requires
        m.wf(),
        !m.contains_id(id),
        id < m.next_id,
    ensures
        step(m, op).wf(),
        !step(m, op).contains_id(id),
        id < step(m, op).next_id,
{
    lemma_step_preserves_wf(m, op);
    let m1 = step(m, op);
    match op {
        Op::Add(d, p) => {
            if m1.contains_id(id) {
                let k = choose|k: int| 0 <= k < m1.tasks.len() && m1.tasks[k].id == id;
                if k < m.tasks.len() {
                    assert(m.tasks[k].id == id);
                }
            }
        },
        Op::Complete(cid) => {
            if m1.contains_id(id) {
                let k = choose|k: int| 0 <= k < m1.tasks.len() && m1.tasks[k].id == id;
                assert(m.tasks[k].id == id);
            }
        },
        Op::Edit(eid, d, p) => {
            if m1.contains_id(id) {
                let k = choose|k: int| 0 <= k < m1.tasks.len() && m1.tasks[k].id == id;
                assert(m.tasks[k].id == id);
            }
        },
        Op::Remove(rid) => {
            if m.contains_id(rid) {
                m.tasks.remove_ensures(m.index_of(rid));
                if m1.contains_id(id) {
                    let k = choose|k: int| 0 <= k < m1.tasks.len() && m1.tasks[k].id == id;
                    if k < m.index_of(rid) {
                        assert(m.tasks[k].id == id);
                    } else {
                        assert(m.tasks[k + 1].id == id);
                    }
                }
            }
        },
    }
}

/// A retired id stays retired across any sequence of operations.
proof fn lemma_retired_forever(m: RegistryView, id: int, ops: Seq<Op>)
    requires
        m.wf(),
        !m.contains_id(id),
        id < m.next_id,
    ensures
        run(m, ops).wf(),
        !run(m, ops).contains_id(id),
        id < run(m, ops).next_id,
    decreases ops.len(),
{
    if ops.len() > 0 {
        lemma_retired_stays(m, id, ops[0]);
        lemma_retired_forever(step(m, ops[0]), id, ops.drop_first());
    }
}

/// Law: a removed id is gone for good.  Right after the removal, `complete`
/// and `edit` on that id fail with `NotFound`; and after any further sequence
/// of operations no task carries the id, and no add ever assigns it again.
pub proof fn lemma_removed_id_never_returns(m: RegistryView, id: int, ops: Seq<Op>)
    requires
        m.wf(),
        m.contains_id(id),
    ensures
        remove_spec(m, id).1 == Ok::<(), TaskError>(()),
        !remove_spec(m, id).0.contains_id(id),
        complete_spec(remove_spec(m, id).0, id).1 == Err::<(), TaskError>(TaskError::NotFound),
        forall|d: Option<Seq<char>>, p: Option<u8>|
            edit_spec(remove_spec(m, id).0, id, d, p).1 == Err::<(), TaskError>(
                TaskError::NotFound,
            ),
        !run(remove_spec(m, id).0, ops).contains_id(id),
        forall|d: Seq<char>, p: u8|
            add_spec(run(remove_spec(m, id).0, ops), d, p).1 != Ok::<int, TaskError>(id),
{
    let i = m.index_of(id);
    let m1 = remove_spec(m, id).0;
    lemma_remove_preserves_wf(m, id);
    m.tasks.remove_ensures(i);
    assert(!m1.contains_id(id)) by {
        if m1.contains_id(id) {
            let k = choose|k: int| 0 <= k < m1.tasks.len() && m1.tasks[k].id == id;
            if k < i {
                lemma_index_unique(m, k, i);
            } else {
                assert(m.tasks[k + 1].id == id);
                lemma_index_unique(m, k + 1, i);
            }
        }
    }
    lemma_retired_forever(m1, id, ops);
}

/// Law: presentation order is deterministic.  Two sequences that are both
/// sorted for presentation and hold the same tasks are the same sequence —
/// so the contract of `list_tasks` (sorted, with exactly the selected tasks)
/// admits one result only.
pub proof fn lemma_presentation_order_unique(x: Seq<TaskView>, y: Seq<TaskView>)
    requires
        sorted_for_presentation(x),
        sorted_for_presentation(y),
        x.to_multiset() == y.to_multiset(),
    ensures
        x == y,
    decreases x.len(),
{
    x.to_multiset_ensures();
    y.to_multiset_ensures();
    if x.len() == 0 || y.len() == 0 {
        assert(x.to_multiset().len() == y.to_multiset().len());
        assert(x =~= y);
    } else {
        assert(x.to_multiset().contains(x[0]));
        assert(y.contains(x[0]));
        assert(y.to_multiset().contains(y[0]));
        assert(x.contains(y[0]));
        let i = choose|i: int| 0 <= i < y.len() && y[i] == x[0];
        let j = choose|j: int| 0 <= j < x.len() && x[j] == y[0];
        assert(x[0] == y[0]) by {
            if i > 0 && j > 0 {
                assert(precedes(y[0], y[i]));
                assert(precedes(x[0], x[j]));
            } else if i > 0 {
                assert(precedes(y[0], y[i]));
            } else if j > 0 {
                assert(precedes(x[0], x[j]));
            }
        }
        assert(x.drop_first() =~= x.remove(0));
        assert(y.drop_first() =~= y.remove(0));
        assert(x.remove(0).to_multiset() =~= x.to_multiset().remove(x[0]));
        assert(y.remove(0).to_multiset() =~= y.to_multiset().remove(y[0]));
        lemma_presentation_order_unique(x.drop_first(), y.drop_first());
        assert(x =~= Seq::<TaskView>::empty().push(x[0]) + x.drop_first());
        assert(y =~= Seq::<TaskView>::empty().push(y[0]) + y.drop_first());
    }
}

/// Filtering a sequence of tasks by completion splits it in two: the
/// completed and the incomplete tasks together are exactly the whole.
proof fn lemma_selected_splits(s: Seq<TaskView>)
    ensures
        selected(s, Filter::CompletedOnly).to_multiset().add(
            selected(s, Filter::IncompleteOnly).to_multiset(),
        ) == selected(s, Filter::All).to_multiset(),
    decreases s.len(),
{
    broadcast use vstd::seq_lib::group_to_multiset_ensures;

    if s.len() == 0 {
        reveal(Seq::filter);
        assert(selected(s, Filter::CompletedOnly).to_multiset().add(
            selected(s, Filter::IncompleteOnly).to_multiset(),
        ) =~= selected(s, Filter::All).to_multiset());
    } else {
        let prefix = s.drop_last();
        let x = s.last();
        lemma_selected_splits(prefix);
        assert(prefix.push(x) =~= s);
        lemma_selected_push(prefix, Filter::CompletedOnly, x);
        lemma_selected_push(prefix, Filter::IncompleteOnly, x);
        lemma_selected_push(prefix, Filter::All, x);
        assert(selected(s, Filter::CompletedOnly).to_multiset().add(
            selected(s, Filter::IncompleteOnly).to_multiset(),
        ) =~= selected(s, Filter::All).to_multiset());
    }
}

/// Law: the completed-only and the incomplete-only listings together hold
/// exactly the tasks of the full listing — as multisets, and so in
/// particular as sets — whatever sequence of operations built the registry.
pub proof fn lemma_list_filters_partition(m: RegistryView)
    ensures
        listed(m, Filter::CompletedOnly).to_multiset().add(
            listed(m, Filter::IncompleteOnly).to_multiset(),
        ) == listed(m, Filter::All).to_multiset(),
        listed(m, Filter::CompletedOnly).to_set().union(listed(m, Filter::IncompleteOnly).to_set())
            == listed(m, Filter::All).to_set(),
{
    broadcast use vstd::seq_lib::group_filter_ensures;

    lemma_selected_splits(m.tasks);
    let s = m.tasks;
    assert forall|x: TaskView|
        listed(m, Filter::CompletedOnly).to_set().union(
            listed(m, Filter::IncompleteOnly).to_set(),
        ).contains(x) == listed(m, Filter::All).to_set().contains(x) by {
        if selected(s, Filter::CompletedOnly).contains(x) {
            lemma_selected_sub(s, Filter::CompletedOnly, x);
            let k = choose|k: int| 0 <= k < s.len() && s[k] == x;
            assert(selected(s, Filter::All).contains(s[k]));
        }
        if selected(s, Filter::IncompleteOnly).contains(x) {
            lemma_selected_sub(s, Filter::IncompleteOnly, x);
            let k = choose|k: int| 0 <= k < s.len() && s[k] == x;
            assert(selected(s, Filter::All).contains(s[k]));
        }
        if selected(s, Filter::All).contains(x) {
            lemma_selected_sub(s, Filter::All, x);
            let k = choose|k: int| 0 <= k < s.len() && s[k] == x;
            if x.completed {
                assert(selected(s, Filter::CompletedOnly).contains(s[k]));
            } else {
                assert(selected(s, Filter::IncompleteOnly).contains(s[k]));
            }
        }
    }
    assert(listed(m, Filter::CompletedOnly).to_set().union(
        listed(m, Filter::IncompleteOnly).to_set(),
    ) =~= listed(m, Filter::All).to_set());
}

} // verus!
