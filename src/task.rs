//! Tasks and the ordered collection that hands out their identifiers.
use crate::timestamp::Timestamp;
use vstd::prelude::*;

verus! {

#[derive(Clone, Copy, Debug, PartialEq, Eq, Structural)]
pub enum TaskStatus {
    Todo,
    Done,
}

impl TaskStatus {
    pub open spec fn marker_spec(self) -> Seq<char> {
        match self {
            TaskStatus::Todo => seq!['[', ' ', ']'],
            TaskStatus::Done => seq!['[', 'x', ']'],
        }
    }

    /// The check box that shows the status: `[ ]` or `[x]`.
    pub fn marker(&self) -> (r: &'static str)
        ensures
            r@ == self.marker_spec(),
    {
        match self {
            TaskStatus::Todo => {
                proof {
                    reveal_strlit("[ ]");
                }
                "[ ]"
            },
            TaskStatus::Done => {
                proof {
                    reveal_strlit("[x]");
                }
                "[x]"
            },
        }
    }
}

/// What a task holds, with its title as a sequence of characters.
pub struct TaskModel {
    pub id: u32,
    pub title: Seq<char>,
    pub status: TaskStatus,
    pub created_at: Timestamp,
    pub done_at: Option<Timestamp>,
}

#[derive(Clone, Debug)]
pub struct Task {
    pub id: u32,
    pub title: String,
    pub status: TaskStatus,
    pub created_at: Timestamp,
    pub done_at: Option<Timestamp>,
}

impl View for Task {
    type V = TaskModel;

    open spec fn view(&self) -> TaskModel {
        TaskModel {
            id: self.id,
            title: self.title@,
            status: self.status,
            created_at: self.created_at,
            done_at: self.done_at,
        }
    }
}

impl Task {
    /// A new pending task created at `now`.
    pub fn new(id: u32, title: String, now: Timestamp) -> (r: Task)
        ensures
            r@ == (TaskModel {
                id,
                title: title@,
                status: TaskStatus::Todo,
                created_at: now,
                done_at: None,
            }),
    {
        Task { id, title, status: TaskStatus::Todo, created_at: now, done_at: None }
    }

    /// Marks the task done at `now`; marking it again moves the time of completion.
    pub fn mark_done(&mut self, now: Timestamp)
        ensures
            final(self)@ == (TaskModel {
                status: TaskStatus::Done,
                done_at: Some(now),
                ..old(self)@
            }),
    {
        self.status = TaskStatus::Done;
        self.done_at = Some(now);
    }

    pub fn is_done(&self) -> (r: bool)
        ensures
            r == (self.status == TaskStatus::Done),
    {
        self.status == TaskStatus::Done
    }
}

/// The tasks of `s` whose status is `Todo`, in order.
pub open spec fn pending(s: Seq<TaskModel>) -> Seq<TaskModel> {
    s.filter(|t: TaskModel| t.status == TaskStatus::Todo)
}

/// The tasks of `s` whose status is `Done`, in order.
pub open spec fn finished(s: Seq<TaskModel>) -> Seq<TaskModel> {
    s.filter(|t: TaskModel| t.status == TaskStatus::Done)
}

/// The largest identifier in `s`, or 0 for none.
pub open spec fn max_id(s: Seq<TaskModel>) -> nat
    decreases s.len(),
{
    if s.len() == 0 {
        0
    } else {
        let m = max_id(s.drop_last());
        if s.last().id > m {
            s.last().id as nat
        } else {
            m
        }
    }
}

/// Some task of `s` has identifier `id`.
pub open spec fn has_id(s: Seq<TaskModel>, id: u32) -> bool {
    exists|i: int| 0 <= i < s.len() && s[i].id == id
}

/// `i` is the position of the first task of `s` with identifier `id`.
pub open spec fn is_first_with(s: Seq<TaskModel>, i: int, id: u32) -> bool {
    &&& 0 <= i < s.len()
    &&& s[i].id == id
    &&& forall|j: int| 0 <= j < i ==> s[j].id != id
}

/// The position of the first task of `s` with identifier `id`.
pub open spec fn first_with(s: Seq<TaskModel>, id: u32) -> int {
    choose|i: int| is_first_with(s, i, id)
}

pub proof fn lemma_first_with(s: Seq<TaskModel>, i: int, id: u32)
    requires
        is_first_with(s, i, id),
    ensures
        first_with(s, id) == i,
{
    let k = first_with(s, id);
    assert(is_first_with(s, k, id));
    if k < i {
        assert(s[k].id != id);
    } else if i < k {
        assert(s[i].id != id);
    }
}

pub proof fn lemma_first_exists(s: Seq<TaskModel>, id: u32)
    requires
        has_id(s, id),
    ensures
        is_first_with(s, first_with(s, id), id),
    decreases s.len(),
{
    let p = s.drop_last();
    if has_id(p, id) {
        lemma_first_exists(p, id);
        let i = first_with(p, id);
        assert forall|j: int| 0 <= j < i implies s[j].id != id by {
            assert(p[j] == s[j]);
        }
        assert(p[i] == s[i]);
        lemma_first_with(s, i, id);
    } else {
        assert(is_first_with(s, s.len() - 1, id)) by {
            let w = choose|w: int| 0 <= w < s.len() && s[w].id == id;
            if w < s.len() - 1 {
                assert(p[w].id == id);
            }
            assert forall|j: int| 0 <= j < s.len() - 1 implies s[j].id != id by {
                assert(p[j] == s[j]);
            }
        }
        lemma_first_with(s, s.len() - 1, id);
    }
}

/// No two tasks share an identifier, and the next identifier to hand out is
/// above all of them.
pub open spec fn ids_fresh(s: Seq<TaskModel>, next_id: nat) -> bool {
    &&& forall|i: int, j: int| 0 <= i < j < s.len() ==> s[i].id != s[j].id
    &&& forall|i: int| 0 <= i < s.len() ==> s[i].id < next_id
}

/// An ordered collection of tasks and the next identifier to hand out.
#[derive(Debug)]
pub struct TaskList {
    pub tasks: Vec<Task>,
    pub next_id: u64,
}

impl TaskList {
    /// The next identifier to hand out.
    pub open spec fn counter(&self) -> nat {
        self.next_id as nat
    }

    /// The next identifier to hand out.
    pub fn next_id(&self) -> (r: u64)
        ensures
            r == self.counter(),
    {
        self.next_id
    }

    pub open spec fn model(&self) -> Seq<TaskModel> {
        self.tasks@.map_values(|t: Task| t@)
    }

    /// The counter can still reach every identifier the collection will hand out.
    pub open spec fn wf(&self) -> bool {
        1 <= self.counter() <= u32::MAX as nat + 1
    }

    pub fn new() -> (r: TaskList)
        ensures
            r.model() == Seq::<TaskModel>::empty(),
            r.counter() == 1,
            r.wf(),
    {
        TaskList { tasks: Vec::new(), next_id: 1 }
    }

    /// A collection of the given tasks, whose next identifier is one above the
    /// largest among them (1 when there are none).
    pub fn with_tasks(tasks: Vec<Task>) -> (r: TaskList)
        ensures
            r.tasks@ == tasks@,
            r.counter() == max_id(r.model()) + 1,
            r.wf(),
    {
        let mut m: u32 = 0;
        let mut i: usize = 0;
        while i < tasks.len()
            invariant
                i <= tasks.len(),
                m == max_id(tasks@.subrange(0, i as int).map_values(|t: Task| t@)),
            decreases tasks.len() - i,
        {
            proof {
                let pre = tasks@.subrange(0, i as int).map_values(|t: Task| t@);
                let post = tasks@.subrange(0, i + 1).map_values(|t: Task| t@);
                assert(post.drop_last() =~= pre);
            }
            if tasks[i].id > m {
                m = tasks[i].id;
            }
            i += 1;
        }
        assert(tasks@.subrange(0, i as int) =~= tasks@);
        TaskList { tasks, next_id: m as u64 + 1 }
    }

    /// Appends a pending task titled `title`, created at `now`, under the next
    /// identifier, and moves the counter on.
    pub fn add(&mut self, title: String, now: Timestamp) -> (r: &Task)
        requires
            old(self).counter() <= u32::MAX,
        ensures
            final(self).model() == old(self).model().push(
                TaskModel {
                    id: old(self).counter() as u32,
                    title: title@,
                    status: TaskStatus::Todo,
                    created_at: now,
                    done_at: None,
                },
            ),
            final(self).counter() == old(self).counter() + 1,
            (final(self).model(), final(self).counter()) == apply(
                old(self).model(),
                old(self).counter(),
                Change::Add { title: title@, now },
            ),
            r@ == final(self).model().last(),
    {
        let task = Task::new(self.next_id as u32, title, now);
        self.next_id = self.next_id + 1;
        self.tasks.push(task);
        assert(self.model() =~= old(self).model().push(task@));
        let n = self.tasks.len();
        &self.tasks[n - 1]
    }

    /// Finds the position of the first task with identifier `id`.
    fn index_of(&self, id: u32) -> (r: Option<usize>)
        ensures
            r is None <==> !has_id(self.model(), id),
            r matches Some(i) ==> is_first_with(self.model(), i as int, id) && first_with(
                self.model(),
                id,
            ) == i,
    {
        let mut i: usize = 0;
        while i < self.tasks.len()
            invariant
                i <= self.tasks.len(),
                forall|j: int| 0 <= j < i ==> self.model()[j].id != id,
            decreases self.tasks.len() - i,
        {
            if self.tasks[i].id == id {
                proof {
                    lemma_first_with(self.model(), i as int, id);
                }
                return Some(i);
            }
            i += 1;
        }
        None
    }

    /// The first task with identifier `id`, to change in place.
    pub fn find_mut(&mut self, id: u32) -> (r: Option<&mut Task>)
        ensures
            final(self).counter() == old(self).counter(),
            r is None <==> !has_id(old(self).model(), id),
            r is None ==> final(self).tasks@ == old(self).tasks@,
            r matches Some(t) ==> {
                let i = first_with(old(self).model(), id);
                &&& *t == old(self).tasks@[i]
                &&& final(self).tasks@ == old(self).tasks@.update(i, *final(t))
            },
    {
        match self.index_of(id) {
            Some(i) => Some(&mut self.tasks[i]),
            None => None,
        }
    }

    /// Takes out the first task with identifier `id`, keeping the order of the others.
    pub fn remove(&mut self, id: u32) -> (r: Option<Task>)
        ensures
            final(self).counter() == old(self).counter(),
            r is None <==> !has_id(old(self).model(), id),
            r is None ==> final(self).tasks@ == old(self).tasks@,
            r matches Some(t) ==> {
                let i = first_with(old(self).model(), id);
                &&& t == old(self).tasks@[i]
                &&& final(self).tasks@ == old(self).tasks@.remove(i)
            },
            final(self).model() == remove_model(old(self).model(), id),
            (final(self).model(), final(self).counter()) == apply(
                old(self).model(),
                old(self).counter(),
                Change::Remove { id },
            ),
    {
        match self.index_of(id) {
            Some(i) => {
                let t = self.tasks.remove(i);
                assert(self.model() =~= old(self).model().remove(i as int));
                Some(t)
            },
            None => None,
        }
    }

    /// The pending tasks, in collection order.
    pub fn todo_tasks(&self) -> (r: Vec<&Task>)
        ensures
            r@.map_values(|t: &Task| t@) == pending(self.model()),
    {
        let mut r: Vec<&Task> = Vec::new();
        let mut i: usize = 0;
        while i < self.tasks.len()
            invariant
                i <= self.tasks.len(),
                r@.map_values(|t: &Task| t@) == pending(self.model().subrange(0, i as int)),
            decreases self.tasks.len() - i,
        {
            proof {
                let m = self.model();
                assert(m.subrange(0, i + 1).drop_last() =~= m.subrange(0, i as int));
                reveal(Seq::filter);
            }
            if !self.tasks[i].is_done() {
                r.push(&self.tasks[i]);
            }
            i += 1;
            assert(r@.map_values(|t: &Task| t@) =~= pending(self.model().subrange(0, i as int)));
        }
        assert(self.model().subrange(0, i as int) =~= self.model());
        r
    }

    /// Every task, in collection order.
    pub fn all_tasks(&self) -> (r: Vec<&Task>)
        ensures
            r@.map_values(|t: &Task| t@) == self.model(),
    {
        let mut r: Vec<&Task> = Vec::new();
        let mut i: usize = 0;
        while i < self.tasks.len()
            invariant
                i <= self.tasks.len(),
                r.len() == i,
                forall|j: int| 0 <= j < i ==> *r@[j] == self.tasks@[j],
            decreases self.tasks.len() - i,
        {
            r.push(&self.tasks[i]);
            i += 1;
        }
        assert(r@.map_values(|t: &Task| t@) =~= self.model());
        r
    }
}

/// The tasks after taking out the first one with identifier `id`, if any.
pub open spec fn remove_model(s: Seq<TaskModel>, id: u32) -> Seq<TaskModel> {
    if has_id(s, id) {
        s.remove(first_with(s, id))
    } else {
        s
    }
}

/// One change to a collection of tasks: adding one or removing one by identifier.
pub enum Change {
    Add { title: Seq<char>, now: Timestamp },
    Remove { id: u32 },
}

/// The tasks and the counter after one change, as `TaskList::add` and
/// `TaskList::remove` make it.
pub open spec fn apply(s: Seq<TaskModel>, next: nat, c: Change) -> (Seq<TaskModel>, nat) {
    match c {
        Change::Add { title, now } => (
            s.push(
                TaskModel {
                    id: next as u32,
                    title,
                    status: TaskStatus::Todo,
                    created_at: now,
                    done_at: None,
                },
            ),
            next + 1,
        ),
        Change::Remove { id } => (remove_model(s, id), next),
    }
}

/// The tasks and the counter after a sequence of changes.
pub open spec fn apply_all(s: Seq<TaskModel>, next: nat, cs: Seq<Change>) -> (
    Seq<TaskModel>,
    nat,
)
    decreases cs.len(),
{
    if cs.len() == 0 {
        (s, next)
    } else {
        let prev = apply_all(s, next, cs.drop_last());
        apply(prev.0, prev.1, cs.last())
    }
}

/// The counter after a sequence of changes: one more for each task added.
pub open spec fn next_after(next: nat, cs: Seq<Change>) -> nat
    decreases cs.len(),
{
    if cs.len() == 0 {
        next
    } else {
        next_after(next, cs.drop_last()) + if cs.last() is Add {
            1nat
        } else {
            0nat
        }
    }
}

proof fn lemma_counter(s: Seq<TaskModel>, next: nat, cs: Seq<Change>)
    ensures
        apply_all(s, next, cs).1 == next_after(next, cs),
        next <= next_after(next, cs) <= next + cs.len(),
    decreases cs.len(),
{
    if cs.len() > 0 {
        lemma_counter(s, next, cs.drop_last());
    }
}

proof fn lemma_counter_grows(next: nat, cs: Seq<Change>, k1: int, k2: int)
    requires
        0 <= k1 < k2 <= cs.len(),
        cs[k1] is Add,
    ensures
        next_after(next, cs.take(k1)) < next_after(next, cs.take(k2)),
    decreases k2,
{
    assert(cs.take(k2).drop_last() =~= cs.take(k2 - 1));
    if k2 > k1 + 1 {
        lemma_counter_grows(next, cs, k1, k2 - 1);
    }
}

proof fn lemma_fresh_step(s: Seq<TaskModel>, next: nat, c: Change)
    requires
        ids_fresh(s, next),
        next <= u32::MAX,
    ensures
        ids_fresh(apply(s, next, c).0, apply(s, next, c).1),
{
    match c {
        Change::Add { title, now } => {
            let t = apply(s, next, c).0;
            assert forall|i: int, j: int| 0 <= i < j < t.len() implies t[i].id != t[j].id by {
                if j == s.len() {
                    assert(s[i].id < next);
                }
            }
        },
        Change::Remove { id } => {
            if has_id(s, id) {
                let k = first_with(s, id);
                lemma_first_exists(s, id);
                let t = s.remove(k);
                assert forall|i: int, j: int| 0 <= i < j < t.len() implies t[i].id != t[j].id by {
                    let a = if i < k { i } else { i + 1 };
                    let b = if j < k { j } else { j + 1 };
                    assert(t[i] == s[a] && t[j] == s[b] && a < b);
                }
                assert forall|i: int| 0 <= i < t.len() implies t[i].id < next by {
                    let a = if i < k { i } else { i + 1 };
                    assert(t[i] == s[a]);
                }
            }
        },
    }
}

/// Over any sequence of adds and removes, started from a collection whose
/// identifiers are distinct and below its counter, no two tasks ever share an
/// identifier, the counter never goes back, and each add hands out an
/// identifier above every one handed out before it, so a removed identifier
/// never comes back.
pub proof fn law_identifiers_unique_and_never_reused(
    s: Seq<TaskModel>,
    next: nat,
    cs: Seq<Change>,
)
    requires
        ids_fresh(s, next),
        next + cs.len() <= u32::MAX as nat + 1,
    ensures
        ids_fresh(apply_all(s, next, cs).0, apply_all(s, next, cs).1),
        apply_all(s, next, cs).1 >= next,
        forall|k1: int, k2: int|
            0 <= k1 < k2 <= cs.len() && cs[k1] is Add ==> #[trigger] apply_all(
                s,
                next,
                cs.take(k1),
            ).1 < #[trigger] apply_all(s, next, cs.take(k2)).1,
    decreases cs.len(),
{
    lemma_counter(s, next, cs);
    if cs.len() > 0 {
        law_identifiers_unique_and_never_reused(s, next, cs.drop_last());
        lemma_counter(s, next, cs.drop_last());
        let prev = apply_all(s, next, cs.drop_last());
        if cs.last() is Add {
            assert(prev.1 <= u32::MAX);
        }
        lemma_fresh_step(prev.0, prev.1, cs.last());
    }
    assert forall|k1: int, k2: int|
        0 <= k1 < k2 <= cs.len() && cs[k1] is Add implies #[trigger] apply_all(
            s,
            next,
            cs.take(k1),
        ).1 < #[trigger] apply_all(s, next, cs.take(k2)).1 by {
        lemma_counter(s, next, cs.take(k1));
        lemma_counter(s, next, cs.take(k2));
        lemma_counter_grows(next, cs, k1, k2);
    }
}

} // verus!
