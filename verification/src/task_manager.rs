//! The registry that owns the tasks.

use vstd::prelude::*;

use crate::task::Task;
use crate::task::TaskError;
use crate::task::TaskView;
use crate::task::precedes;
use crate::task::valid_priority;

verus! {

/// Mathematical model of the registry: the tasks in creation order, and the
/// id the next successful add will assign.
#[verifier::ext_equal]
pub ghost struct RegistryView {
    pub tasks: Seq<TaskView>,
    pub next_id: int,
}

impl RegistryView {
    /// Well-formedness: ids start at 1, grow strictly along the sequence
    /// (creation order), stay below `next_id`, and every stored priority is
    /// in range.
    pub open spec fn wf(self) -> bool {
        &&& 1 <= self.next_id
        &&& forall|i: int|
            0 <= i < self.tasks.len() ==> valid_priority(#[trigger] self.tasks[i].priority)
        &&& forall|i: int| 0 <= i < self.tasks.len() ==> 1 <= (#[trigger] self.tasks[i].id)
            < self.next_id
        &&& forall|i: int, j: int|
            0 <= i < j < self.tasks.len() ==> #[trigger] self.tasks[i].id
                < #[trigger] self.tasks[j].id
    }

    /// Whether some task carries the given id.
    pub open spec fn contains_id(self, id: int) -> bool {
        exists|i: int| 0 <= i < self.tasks.len() && #[trigger] self.tasks[i].id == id
    }

    /// The position of the task with the given id (meaningful only when
    /// `contains_id` holds; unique under `wf`).
    pub open spec fn index_of(self, id: int) -> int {
        choose|i: int| 0 <= i < self.tasks.len() && #[trigger] self.tasks[i].id == id
    }
}

/// The task views of a sequence of stored tasks.
pub open spec fn views_of(s: Seq<Task>) -> Seq<TaskView> {
    s.map_values(|t: Task| t@)
}

/// The view of an optional replacement description.
pub open spec fn option_view(d: Option<String>) -> Option<Seq<char>> {
    match d {
        Some(s) => Some(s@),
        None => None,
    }
}

/// What `add` does to the registry: on a valid priority, a fresh task with id
/// `next_id` is appended and the counter advances; otherwise the registry is
/// left untouched and the call fails with `InvalidPriority`.
pub open spec fn add_spec(m: RegistryView, description: Seq<char>, priority: u8) -> (
    RegistryView,
    Result<int, TaskError>,
) {
    if valid_priority(priority) {
        (
            RegistryView {
                tasks: m.tasks.push(
                    TaskView { id: m.next_id, description, priority, completed: false },
                ),
                next_id: m.next_id + 1,
            },
            Ok(m.next_id),
        )
    } else {
        (m, Err(TaskError::InvalidPriority))
    }
}

/// What `complete` does: the task with the given id gets its completion flag
/// set (a no-op success when it is already set); an unknown id fails with
/// `NotFound` and changes nothing.
pub open spec fn complete_spec(m: RegistryView, id: int) -> (RegistryView, Result<(), TaskError>) {
    if m.contains_id(id) {
        let i = m.index_of(id);
        (
            RegistryView {
                tasks: m.tasks.update(i, TaskView { completed: true, ..m.tasks[i] }),
                ..m
            },
            Ok(()),
        )
    } else {
        (m, Err(TaskError::NotFound))
    }
}

/// What `edit` does: all-or-nothing.  An unknown id fails with `NotFound`; a
/// present but out-of-range priority fails with `InvalidPriority`; in both
/// failure cases the registry, the task's description included, is left
/// entirely unchanged.  Otherwise the fields for which a new value is present
/// are replaced.
pub open spec fn edit_spec(
    m: RegistryView,
    id: int,
    new_description: Option<Seq<char>>,
    new_priority: Option<u8>,
) -> (RegistryView, Result<(), TaskError>) {
    if !m.contains_id(id) {
        (m, Err(TaskError::NotFound))
    } else if match new_priority {
        Some(p) => !valid_priority(p),
        None => false,
    } {
        (m, Err(TaskError::InvalidPriority))
    } else {
        let i = m.index_of(id);
        let t = m.tasks[i];
        let edited = TaskView {
            description: match new_description {
                Some(d) => d,
                None => t.description,
            },
            priority: match new_priority {
                Some(p) => p,
                None => t.priority,
            },
            ..t
        };
        (RegistryView { tasks: m.tasks.update(i, edited), ..m }, Ok(()))
    }
}

/// What `remove` does: the task with the given id leaves the registry, whose
/// counter does not move back, so the id is never assigned again; an unknown
/// id fails with `NotFound` and changes nothing.
pub open spec fn remove_spec(m: RegistryView, id: int) -> (RegistryView, Result<(), TaskError>) {
    if m.contains_id(id) {
        (RegistryView { tasks: m.tasks.remove(m.index_of(id)), ..m }, Ok(()))
    } else {
        (m, Err(TaskError::NotFound))
    }
}

/// The selection a listing applies.
#[derive(Clone, Copy, Debug, PartialEq, Eq, Structural)]
pub enum Filter {
    /// Every task.
    All,
    /// Only tasks already completed.
    CompletedOnly,
    /// Only tasks not yet completed.
    IncompleteOnly,
}

/// Whether a task passes the given filter.
pub open spec fn admitted(f: Filter, t: TaskView) -> bool {
    match f {
        Filter::All => true,
        Filter::CompletedOnly => t.completed,
        Filter::IncompleteOnly => !t.completed,
    }
}

/// The tasks of `s` that pass the filter, in the order of `s`.
pub open spec fn selected(s: Seq<TaskView>, f: Filter) -> Seq<TaskView> {
    s.filter(|t: TaskView| admitted(f, t))
}

/// The tasks a listing under `f` consists of, here in creation order; the
/// listing presents exactly these, sorted by `precedes`.
pub open spec fn listed(m: RegistryView, f: Filter) -> Seq<TaskView> {
    selected(m.tasks, f)
}

/// Strictly sorted for presentation: each task precedes every later one.
pub open spec fn sorted_for_presentation(s: Seq<TaskView>) -> bool {
    forall|i: int, j: int| 0 <= i < j < s.len() ==> precedes(#[trigger] s[i], #[trigger] s[j])
}

/// Filtering one more task keeps the earlier selection and appends the task
/// exactly when it passes the filter.
pub proof fn lemma_selected_push(s: Seq<TaskView>, f: Filter, x: TaskView)
    ensures
        selected(s.push(x), f) == (if admitted(f, x) {
            selected(s, f).push(x)
        } else {
            selected(s, f)
        }),
{
    reveal(Seq::filter);
    assert(s.push(x).drop_last() =~= s);
    assert(s.push(x).last() == x);
}

/// A task in a selection came from the underlying sequence and passes the
/// filter.
pub proof fn lemma_selected_sub(s: Seq<TaskView>, f: Filter, x: TaskView)
    requires
        selected(s, f).contains(x),
    ensures
        s.contains(x),
        admitted(f, x),
    decreases s.len(),
{
    reveal(Seq::filter);
    if s.len() == 0 {
    } else {
        let prefix = s.drop_last();
        assert(prefix.push(s.last()) =~= s);
        lemma_selected_push(prefix, f, s.last());
        if admitted(f, s.last()) && x == s.last() {
            assert(s[s.len() - 1] == x);
        } else {
            let sel = selected(prefix, f);
            if admitted(f, s.last()) {
                let i = choose|i: int| 0 <= i < sel.push(s.last()).len() && sel.push(s.last())[i] == x;
                assert(sel[i] == x);
            }
            lemma_selected_sub(prefix, f, x);
            let k = choose|k: int| 0 <= k < prefix.len() && prefix[k] == x;
            assert(s[k] == x);
        }
    }
}

/// Under `wf`, ids are unique: two positions carrying the same id coincide.
pub proof fn lemma_index_unique(m: RegistryView, i: int, j: int)
    requires
        m.wf(),
        0 <= i < m.tasks.len(),
        0 <= j < m.tasks.len(),
        m.tasks[i].id == m.tasks[j].id,
    ensures
        i == j,
{
}

/// Adding preserves well-formedness.
pub proof fn lemma_add_preserves_wf(m: RegistryView, description: Seq<char>, priority: u8)
    requires
        m.wf(),
    ensures
        add_spec(m, description, priority).0.wf(),
{
}

/// Completing preserves well-formedness.
pub proof fn lemma_complete_preserves_wf(m: RegistryView, id: int)
    requires
        m.wf(),
    ensures
        complete_spec(m, id).0.wf(),
{
}

/// Editing preserves well-formedness.
pub proof fn lemma_edit_preserves_wf(
    m: RegistryView,
    id: int,
    new_description: Option<Seq<char>>,
    new_priority: Option<u8>,
)
    requires
        m.wf(),
    ensures
        edit_spec(m, id, new_description, new_priority).0.wf(),
{
}

/// Removing preserves well-formedness.
pub proof fn lemma_remove_preserves_wf(m: RegistryView, id: int)
    requires
        m.wf(),
    ensures
        remove_spec(m, id).0.wf(),
{
    if m.contains_id(id) {
        let i = m.index_of(id);
        m.tasks.remove_ensures(i);
    }
}

/// Whether the task passes the filter.
fn admits(f: Filter, t: &Task) -> (r: bool)
    ensures
        r == admitted(f, t@),
{
    match f {
        Filter::All => true,
        Filter::CompletedOnly => t.is_completed(),
        Filter::IncompleteOnly => !t.is_completed(),
    }
}

/// Inserts a task into a presentation-sorted vector at its ordered position.
fn sorted_insert(v: &mut Vec<Task>, t: Task)
    requires
        sorted_for_presentation(views_of(old(v)@)),
        forall|k: int|
            0 <= k < old(v)@.len() ==> (#[trigger] views_of(old(v)@)[k]).id != t@.id,
    ensures
        views_of(final(v)@).to_multiset() == views_of(old(v)@).to_multiset().insert(t@),
        sorted_for_presentation(views_of(final(v)@)),
{
    let ghost w = views_of(old(v)@);
    let mut j: usize = 0;
    while j < v.len() && v[j].precedes(&t)
        invariant
            v@ == old(v)@,
            w == views_of(v@),
            j <= v@.len(),
            forall|k: int| 0 <= k < j ==> precedes(#[trigger] w[k], t@),
        decreases v@.len() - j,
    {
        proof {
            assert(w[j as int] == v@[j as int]@);
        }
        j += 1;
    }
    proof {
        assert forall|k: int| j <= k < w.len() implies precedes(t@, #[trigger] w[k]) by {
            assert(!precedes(w[j as int], t@));
            assert(w[j as int].id != t@.id);
            assert(precedes(t@, w[j as int]));
            if k > j {
                assert(precedes(w[j as int], w[k]));
            }
        }
    }
    v.insert(j, t);
    proof {
        broadcast use vstd::seq_lib::group_to_multiset_ensures;

        w.insert_ensures(j as int, t@);
        assert(views_of(v@) =~= w.insert(j as int, t@));
        assert(views_of(v@).to_multiset() =~= w.to_multiset().insert(t@));
        assert forall|a: int, b: int|
            0 <= a < b < views_of(v@).len() implies precedes(
            #[trigger] views_of(v@)[a],
            #[trigger] views_of(v@)[b],
        ) by {
            let u = views_of(v@);
            if a < j && b < j {
                assert(u[a] == w[a] && u[b] == w[b]);
            } else if a < j && b == j {
                assert(u[a] == w[a] && u[b] == t@);
            } else if a < j && b > j {
                assert(u[a] == w[a] && u[b] == w[b - 1]);
            } else if a == j {
                assert(u[a] == t@ && u[b] == w[b - 1]);
            } else {
                assert(u[a] == w[a - 1] && u[b] == w[b - 1]);
            }
        }
    }
}

/// The registry.  Owns every task, assigns ids, and never reuses one.
pub struct TaskManager {
    tasks: Vec<Task>,
    next_id: u32,
}

impl View for TaskManager {
    type V = RegistryView;

    closed spec fn view(&self) -> RegistryView {
        RegistryView { tasks: views_of(self.tasks@), next_id: self.next_id as int }
    }
}

impl TaskManager {
    /// An empty registry whose first task will get id 1.
    pub fn new() -> (r: TaskManager)
        ensures
            r@ == (RegistryView { tasks: Seq::<TaskView>::empty(), next_id: 1int }),
            r@.wf(),
    {
        let r = TaskManager { tasks: Vec::new(), next_id: 1 };
        proof {
            assert(r@.tasks =~= Seq::<TaskView>::empty());
        }
        r
    }

    /// The id the next successful `add_task` will assign.
    pub fn next_id(&self) -> (r: u32)
        ensures
            r as int == self@.next_id,
    {
        self.next_id
    }

    /// The number of tasks currently held.
    pub fn len(&self) -> (r: usize)
        ensures
            r == self@.tasks.len(),
    {
        self.tasks.len()
    }

    /// Adds a task with the given description and priority.  On success the
    /// assigned id is returned; an out-of-range priority is rejected with
    /// `InvalidPriority`, and then neither a task is stored nor the counter
    /// advanced.
    pub fn add_task(&mut self, description: String, priority: u8) -> (r: Result<u32, TaskError>)
        requires
            old(self)@.wf(),
            old(self)@.next_id < u32::MAX as int,
        ensures
            final(self)@ == add_spec(old(self)@, description@, priority).0,
            match (r, add_spec(old(self)@, description@, priority).1) {
                (Ok(id), Ok(sid)) => id as int == sid,
                (Err(e), Err(se)) => e == se,
                _ => false,
            },
            final(self)@.wf(),
    {
        let id = self.next_id;
        match Task::new(id, description, priority) {
            Ok(task) => {
                proof {
                    lemma_add_preserves_wf(old(self)@, description@, priority);
                }
                self.tasks.push(task);
                self.next_id = id + 1;
                proof {
                    assert(self@.tasks =~= add_spec(old(self)@, description@, priority).0.tasks);
                }
                Ok(id)
            },
            Err(e) => Err(e),
        }
    }

    /// The position of the task with the given id, when there is one.
    fn find_index(&self, id: u32) -> (r: Option<usize>)
        requires
            self@.wf(),
        ensures
            match r {
                Some(i) => i < self@.tasks.len() && self@.tasks[i as int].id == id as int
                    && i == self@.index_of(id as int),
                None => !self@.contains_id(id as int),
            },
    {
        let mut i: usize = 0;
        while i < self.tasks.len()
            invariant
                self@.wf(),
                i <= self@.tasks.len(),
                forall|k: int| 0 <= k < i ==> (#[trigger] self@.tasks[k].id) != id as int,
            decreases self@.tasks.len() - i,
        {
            if self.tasks[i].id() == id {
                proof {
                    assert(self@.tasks[i as int].id == id as int);
                    assert(self@.contains_id(id as int));
                    lemma_index_unique(self@, i as int, self@.index_of(id as int));
                }
                return Some(i);
            }
            i += 1;
        }
        None
    }

    /// Lists snapshots of the tasks that pass the filter, sorted for
    /// presentation: priority descending, ties broken by ascending id.  The
    /// result holds exactly the tasks of `listed(self@, filter)` and nothing
    /// else; when nothing matches it is empty, never an error.
    pub fn list_tasks(&self, filter: Filter) -> (r: Vec<Task>)
        requires
            self@.wf(),
        ensures
            views_of(r@).to_multiset() == listed(self@, filter).to_multiset(),
            sorted_for_presentation(views_of(r@)),
    {
        let ghost m = self@;
        let mut out: Vec<Task> = Vec::new();
        let mut i: usize = 0;
        proof {
            reveal(Seq::filter);
            assert(views_of(out@) =~= Seq::<TaskView>::empty());
            assert(m.tasks.subrange(0, 0) =~= Seq::<TaskView>::empty());
        }
        while i < self.tasks.len()
            invariant
                self@.wf(),
                m == self@,
                i <= m.tasks.len(),
                views_of(out@).to_multiset() == selected(
                    m.tasks.subrange(0, i as int),
                    filter,
                ).to_multiset(),
                sorted_for_presentation(views_of(out@)),
            decreases m.tasks.len() - i,
        {
            let ghost prefix = m.tasks.subrange(0, i as int);
            proof {
                broadcast use vstd::seq_lib::group_to_multiset_ensures;

                assert(m.tasks.subrange(0, i + 1) =~= prefix.push(m.tasks[i as int]));
                lemma_selected_push(prefix, filter, m.tasks[i as int]);
                assert forall|k: int|
                    0 <= k < out@.len() implies (#[trigger] views_of(out@)[k]).id
                    != m.tasks[i as int].id by {
                    let x = views_of(out@)[k];
                    assert(views_of(out@).contains(x));
                    assert(selected(prefix, filter).to_multiset().count(x) > 0);
                    assert(selected(prefix, filter).contains(x));
                    lemma_selected_sub(prefix, filter, x);
                    let l = choose|l: int| 0 <= l < prefix.len() && prefix[l] == x;
                    assert(m.tasks[l] == x);
                }
            }
            if admits(filter, &self.tasks[i]) {
                let t = self.tasks[i].clone();
                sorted_insert(&mut out, t);
                proof {
                    broadcast use vstd::seq_lib::group_to_multiset_ensures;

                    assert(selected(m.tasks.subrange(0, i + 1), filter) == selected(
                        prefix,
                        filter,
                    ).push(m.tasks[i as int]));
                }
            }
            i += 1;
        }
        proof {
            assert(m.tasks.subrange(0, m.tasks.len() as int) =~= m.tasks);
        }
        out
    }

    /// Marks the task with the given id as completed; a no-op success when it
    /// already is.  An unknown id fails with `NotFound`.
    pub fn complete_task(&mut self, id: u32) -> (r: Result<(), TaskError>)
        requires
            old(self)@.wf(),
        ensures
            final(self)@ == complete_spec(old(self)@, id as int).0,
            r == complete_spec(old(self)@, id as int).1,
            final(self)@.wf(),
    {
        proof {
            lemma_complete_preserves_wf(old(self)@, id as int);
        }
        match self.find_index(id) {
            None => Err(TaskError::NotFound),
            Some(i) => {
                let mut task = self.tasks.remove(i);
                task.complete();
                self.tasks.insert(i, task);
                proof {
                    assert(self@.tasks =~= complete_spec(old(self)@, id as int).0.tasks);
                }
                Ok(())
            },
        }
    }

    /// Edits the task with the given id, all-or-nothing: an absent id fails
    /// with `NotFound`, a present but out-of-range priority fails with
    /// `InvalidPriority`, and on failure nothing — the description included —
    /// is changed.  On success each field for which a new value was handed in
    /// is replaced.
    pub fn edit_task(
        &mut self,
        id: u32,
        new_description: Option<String>,
        new_priority: Option<u8>,
    ) -> (r: Result<(), TaskError>)
        requires
            old(self)@.wf(),
        ensures
            final(self)@ == edit_spec(
                old(self)@,
                id as int,
                option_view(new_description),
                new_priority,
            ).0,
            r == edit_spec(old(self)@, id as int, option_view(new_description), new_priority).1,
            final(self)@.wf(),
    {
        proof {
            lemma_edit_preserves_wf(
                old(self)@,
                id as int,
                option_view(new_description),
                new_priority,
            );
        }
        match self.find_index(id) {
            None => Err(TaskError::NotFound),
            Some(i) => {
                if let Some(p) = new_priority {
                    if p < 1 || p > 5 {
                        return Err(TaskError::InvalidPriority);
                    }
                }
                let mut task = self.tasks.remove(i);
                if let Some(d) = new_description {
                    task.set_description(d);
                }
                if let Some(p) = new_priority {
                    let _ = task.set_priority(p);
                }
                self.tasks.insert(i, task);
                proof {
                    assert(self@.tasks =~= edit_spec(
                        old(self)@,
                        id as int,
                        option_view(new_description),
                        new_priority,
                    ).0.tasks);
                }
                Ok(())
            },
        }
    }

    /// Removes the task with the given id; its id is never assigned again.
    /// An unknown id fails with `NotFound`.
    pub fn remove_task(&mut self, id: u32) -> (r: Result<(), TaskError>)
        requires
            old(self)@.wf(),
        ensures
            final(self)@ == remove_spec(old(self)@, id as int).0,
            r == remove_spec(old(self)@, id as int).1,
            final(self)@.wf(),
    {
        proof {
            lemma_remove_preserves_wf(old(self)@, id as int);
        }
        match self.find_index(id) {
            None => Err(TaskError::NotFound),
            Some(i) => {
                let _ = self.tasks.remove(i);
                proof {
                    assert(self@.tasks =~= remove_spec(old(self)@, id as int).0.tasks);
                }
                Ok(())
            },
        }
    }
}

} // verus!
