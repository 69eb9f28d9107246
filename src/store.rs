use vstd::prelude::*;
use crate::tasks::{Task, TaskView};
use crate::text::{is_meaningful, trim, trim_of};

verus! {

/// Why a store operation was refused.
#[derive(Debug, Clone, Copy, PartialEq, Eq, Structural)]
pub enum StoreError {
    /// The description is empty once surrounding whitespace is removed.
    InvalidInput,
    /// No task has the requested id.
    NotFound,
}

/// Which tasks a listing shows.
#[derive(Debug, Clone, Copy, PartialEq, Eq, Structural)]
pub enum Filter {
    Pending,
    Completed,
}

/// The completion flag that a filter selects.
pub open spec fn wants_completed(f: Filter) -> bool {
    f == Filter::Completed
}

/// The tasks of `s` whose flag is `completed`, in the order of the list.
pub open spec fn with_status(s: Seq<TaskView>, completed: bool) -> Seq<TaskView> {
    s.filter(status_is(completed))
}

/// The predicate that holds of tasks whose flag is `completed`.
pub open spec fn status_is(completed: bool) -> spec_fn(TaskView) -> bool {
    |t: TaskView| t.completed == completed
}

/// The position of the first task of `s` with the given id, if any.
pub open spec fn position_of(s: Seq<TaskView>, id: usize) -> Option<int>
    decreases s.len(),
{
    if s.len() == 0 {
        None
    } else if s[0].id == id {
        Some(0)
    } else {
        match position_of(s.drop_first(), id) {
            Some(k) => Some(k + 1),
            None => None,
        }
    }
}

/// `s` with the flag of the first task with the given id set to `value`;
/// `s` itself when no task has that id.
pub open spec fn with_completed(s: Seq<TaskView>, id: usize, value: bool) -> Seq<TaskView> {
    match position_of(s, id) {
        Some(k) => s.update(k, TaskView { completed: value, ..s[k] }),
        None => s,
    }
}

/// `s` with the description of the first task with the given id replaced by
/// `d`; `s` itself when no task has that id.
pub open spec fn with_description(s: Seq<TaskView>, id: usize, d: Seq<char>) -> Seq<TaskView> {
    match position_of(s, id) {
        Some(k) => s.update(k, TaskView { description: d, ..s[k] }),
        None => s,
    }
}

/// The largest id in `s`, or zero when `s` is empty.
pub open spec fn max_id(s: Seq<TaskView>) -> nat
    decreases s.len(),
{
    if s.len() == 0 {
        0
    } else {
        let m = max_id(s.drop_last());
        if s.last().id as nat > m {
            s.last().id as nat
        } else {
            m
        }
    }
}

/// The store that loading `s` gives: the tasks as they are, and the next id
/// one past the largest of them.
pub open spec fn restored(s: Seq<TaskView>) -> StoreView {
    StoreView { tasks: s, next_id: max_id(s) + 1 }
}

/// The views of a sequence of tasks, in order.
pub open spec fn views(v: Seq<Task>) -> Seq<TaskView> {
    v.map_values(|t: Task| t@)
}

/// Whether some task of `s` has the given id.
pub open spec fn has_id(s: Seq<TaskView>, id: usize) -> bool {
    exists|k: int| 0 <= k < s.len() && s[k].id == id
}

/// Whether no two tasks of `s` share an id.
pub open spec fn ids_unique(s: Seq<TaskView>) -> bool {
    forall|i: int, j: int| 0 <= i < j < s.len() ==> s[i].id != s[j].id
}

/// The value of a store: its tasks in insertion order and the next id to issue.
pub struct StoreView {
    pub tasks: Seq<TaskView>,
    pub next_id: nat,
}

impl StoreView {
    /// Every id in the store is below the next id to be issued, which is at least one.
    pub open spec fn wf(self) -> bool {
        &&& self.next_id >= 1
        &&& forall|k: int| 0 <= k < self.tasks.len() ==> (self.tasks[k].id as nat) < self.next_id
    }
}

/// The relation between a store before and after `create` added task `t`
/// with description `d`.
pub open spec fn created(pre: StoreView, post: StoreView, d: Seq<char>, t: TaskView) -> bool {
    &&& t.id as nat == pre.next_id
    &&& t.description == d
    &&& !t.completed
    &&& post.tasks == pre.tasks.push(t)
    &&& post.next_id == pre.next_id + 1
}

/// The task store: owns the ordered task list and the id sequence.
pub struct TodoApp {
    tasks: Vec<Task>,
    next_id: usize,
}

impl View for TodoApp {
    type V = StoreView;

    closed spec fn view(&self) -> StoreView {
        StoreView { tasks: views(self.tasks@), next_id: self.next_id as nat }
    }
}

impl TodoApp {
    /// An empty store whose first id is one.
    pub fn new() -> (r: TodoApp)
        ensures
            r@.tasks == Seq::<TaskView>::empty(),
            r@.next_id == 1,
            r@.wf(),
    {
        TodoApp { tasks: Vec::new(), next_id: 1 }
    }

    /// The next id that `create` will issue.
    pub fn next_id(&self) -> (r: usize)
        ensures
            r as nat == self@.next_id,
    {
        self.next_id
    }

    /// The number of tasks in the store.
    pub fn len(&self) -> (r: usize)
        ensures
            r as nat == self@.tasks.len(),
    {
        self.tasks.len()
    }

    /// The task at position `i` in insertion order.
    pub fn get(&self, i: usize) -> (r: &Task)
        requires
            (i as int) < self@.tasks.len(),
        ensures
            r@ == self@.tasks[i as int],
    {
        &self.tasks[i]
    }

    /// The position of the task with the given id, if any.
    pub fn find(&self, id: usize) -> (r: Option<usize>)
        ensures
            r matches Some(k) ==> position_of(self@.tasks, id) == Some(k as int),
            r is None ==> position_of(self@.tasks, id) is None,
    {
        let ghost s = self@.tasks;
        let mut i: usize = 0;
        while i < self.tasks.len()
            invariant
                i <= self.tasks@.len(),
                s == self@.tasks,
                forall|k: int| 0 <= k < i ==> s[k].id != id,
            decreases self.tasks@.len() - i,
        {
            if self.tasks[i].id == id {
                proof {
                    lemma_position_first(s, id, i as int);
                }
                return Some(i);
            }
            i = i + 1;
        }
        proof {
            lemma_position_none(s, id);
        }
        None
    }

    /// Appends a pending task with the next id and the given, already trimmed,
    /// description; an empty description is refused and nothing changes.
    pub fn create_trimmed(&mut self, description: String) -> (r: Result<Task, StoreError>)
        requires
            old(self)@.wf(),
            old(self)@.next_id < usize::MAX,
        ensures
            final(self)@.wf(),
            description@.len() == 0 ==> r == Err::<Task, StoreError>(StoreError::InvalidInput)
                && final(self)@ == old(self)@,
            description@.len() > 0 ==> (r matches Ok(t) && created(
                old(self)@,
                final(self)@,
                description@,
                t@,
            )),
    {
        if description.as_str().is_empty() {
            return Err(StoreError::InvalidInput);
        }
        let t = Task::new(self.next_id, description);
        let out = t.duplicate();
        self.tasks.push(t);
        self.next_id = self.next_id + 1;
        proof {
            assert(self@.tasks =~= old(self)@.tasks.push(out@));
        }
        Ok(out)
    }

    /// Appends a pending task whose description is `description` trimmed;
    /// a description that is blank once trimmed is refused and nothing changes.
    pub fn create(&mut self, description: &str) -> (r: Result<Task, StoreError>)
        requires
            old(self)@.wf(),
            old(self)@.next_id < usize::MAX,
        ensures
            final(self)@.wf(),
            !is_meaningful(description@) ==> r == Err::<Task, StoreError>(StoreError::InvalidInput)
                && final(self)@ == old(self)@,
            is_meaningful(description@) ==> (r matches Ok(t) && created(
                old(self)@,
                final(self)@,
                trim_of(description@),
                t@,
            )),
    {
        let trimmed = trim(description).to_owned();
        self.create_trimmed(trimmed)
    }

    /// Sets the completion flag of the task with the given id.
    pub fn set_completed(&mut self, id: usize, value: bool) -> (r: Result<(), StoreError>)
        requires
            old(self)@.wf(),
        ensures
            final(self)@.wf(),
            final(self)@.next_id == old(self)@.next_id,
            r is Ok <==> has_id(old(self)@.tasks, id),
            r is Err ==> r == Err::<(), StoreError>(StoreError::NotFound),
            final(self)@.tasks == with_completed(old(self)@.tasks, id, value),
    {
        proof {
            lemma_position_has_id(self@.tasks, id);
        }
        match self.find(id) {
            None => Err(StoreError::NotFound),
            Some(k) => {
                self.tasks[k].completed = value;
                proof {
                    assert(self@.tasks =~= old(self)@.tasks.update(
                        k as int,
                        TaskView { completed: value, ..old(self)@.tasks[k as int] },
                    ));
                }
                Ok(())
            },
        }
    }

    /// Replaces, verbatim, the description of the task with the given id; a
    /// description that is blank once trimmed is refused and nothing changes.
    pub fn update_description(&mut self, id: usize, description: String) -> (r: Result<
        (),
        StoreError,
    >)
        requires
            old(self)@.wf(),
        ensures
            final(self)@.wf(),
            final(self)@.next_id == old(self)@.next_id,
            r == Err::<(), StoreError>(StoreError::NotFound) <==> !has_id(old(self)@.tasks, id),
            r == Err::<(), StoreError>(StoreError::InvalidInput) <==> has_id(old(self)@.tasks, id)
                && !is_meaningful(description@),
            r is Err ==> final(self)@ == old(self)@,
            r is Ok ==> final(self)@.tasks == with_description(old(self)@.tasks, id, description@),
    {
        proof {
            lemma_position_has_id(self@.tasks, id);
        }
        match self.find(id) {
            None => Err(StoreError::NotFound),
            Some(k) => {
                if !trim(description.as_str()).is_empty() {
                    self.tasks[k].description = description;
                    proof {
                        assert(self@.tasks =~= old(self)@.tasks.update(
                            k as int,
                            TaskView { description: description@, ..old(self)@.tasks[k as int] },
                        ));
                    }
                    Ok(())
                } else {
                    Err(StoreError::InvalidInput)
                }
            },
        }
    }

    /// The tasks that the filter selects, in insertion order.
    pub fn list(&self, filter: Filter) -> (r: Vec<Task>)
        ensures
            views(r@) == with_status(self@.tasks, wants_completed(filter)),
    {
        let want = match filter {
            Filter::Pending => false,
            Filter::Completed => true,
        };
        let ghost s = self@.tasks;
        let ghost pred = status_is(want);
        let mut out: Vec<Task> = Vec::new();
        let mut i: usize = 0;
        while i < self.tasks.len()
            invariant
                i <= self.tasks@.len(),
                s == self@.tasks,
                want == wants_completed(filter),
                pred == status_is(want),
                views(out@) == s.take(i as int).filter(pred),
            decreases self.tasks@.len() - i,
        {
            proof {
                reveal(Seq::filter);
                assert(s[i as int] == self.tasks@[i as int]@);
                assert(s.take(i + 1).drop_last() =~= s.take(i as int));
                assert(s.take(i + 1).filter(pred) == if pred(s[i as int]) {
                    s.take(i as int).filter(pred).push(s[i as int])
                } else {
                    s.take(i as int).filter(pred)
                });
            }
            if self.tasks[i].completed == want {
                out.push(self.tasks[i].duplicate());
                proof {
                    assert(views(out@) =~= s.take(i as int).filter(pred).push(s[i as int]));
                }
            }
            i = i + 1;
        }
        proof {
            assert(s.take(i as int) =~= s);
        }
        out
    }

    /// A store holding `tasks` as they are, whose next id is one more than
    /// the largest id among them, or one when there are none.
    pub fn from_tasks(tasks: Vec<Task>) -> (r: TodoApp)
        requires
            forall|k: int| 0 <= k < tasks@.len() ==> tasks@[k].id < usize::MAX,
        ensures
            r@ == restored(views(tasks@)),
            r@.wf(),
    {
        let ghost s = views(tasks@);
        let mut top: usize = 0;
        let mut i: usize = 0;
        while i < tasks.len()
            invariant
                i <= tasks@.len(),
                s == views(tasks@),
                forall|k: int| 0 <= k < tasks@.len() ==> tasks@[k].id < usize::MAX,
                top as nat == max_id(s.take(i as int)),
                top < usize::MAX,
            decreases tasks@.len() - i,
        {
            proof {
                assert(s.take(i + 1).drop_last() =~= s.take(i as int));
            }
            if tasks[i].id > top {
                top = tasks[i].id;
            }
            i = i + 1;
        }
        proof {
            assert(s.take(i as int) =~= s);
            lemma_max_id_bounds(s);
        }
        TodoApp { tasks, next_id: top + 1 }
    }

    /// The tasks in insertion order: what a save writes out.
    pub fn snapshot(&self) -> (r: Vec<Task>)
        ensures
            views(r@) == self@.tasks,
    {
        let mut out: Vec<Task> = Vec::new();
        let mut i: usize = 0;
        while i < self.tasks.len()
            invariant
                i <= self.tasks@.len(),
                views(out@) == views(self.tasks@).take(i as int),
            decreases self.tasks@.len() - i,
        {
            let t = self.tasks[i].duplicate();
            let ghost before = out@;
            out.push(t);
            proof {
                assert(views(self.tasks@)[i as int] == t@);
                assert(views(out@) =~= views(before).push(t@));
                assert(views(out@) =~= views(self.tasks@).take(i + 1));
            }
            i = i + 1;
        }
        proof {
            assert(views(self.tasks@).take(i as int) =~= views(self.tasks@));
        }
        out
    }
}

/// The first matching position is found where every earlier id differs.
proof fn lemma_position_first(s: Seq<TaskView>, id: usize, i: int)
    requires
        0 <= i < s.len(),
        s[i].id == id,
        forall|k: int| 0 <= k < i ==> s[k].id != id,
    ensures
        position_of(s, id) == Some(i),
    decreases i,
{
    if i > 0 {
        lemma_position_first(s.drop_first(), id, i - 1);
    }
}

/// Without a matching id there is no position.
proof fn lemma_position_none(s: Seq<TaskView>, id: usize)
    requires
        forall|k: int| 0 <= k < s.len() ==> s[k].id != id,
    ensures
        position_of(s, id) is None,
    decreases s.len(),
{
    if s.len() > 0 {
        lemma_position_none(s.drop_first(), id);
    }
}

} // verus!

verus! {

/// A position exists exactly when some task has the id, and then it holds one.
pub proof fn lemma_position_has_id(s: Seq<TaskView>, id: usize)
    ensures
        position_of(s, id) is None <==> !has_id(s, id),
        position_of(s, id) matches Some(k) ==> 0 <= k < s.len() && s[k].id == id,
    decreases s.len(),
{
    if s.len() > 0 {
        lemma_position_has_id(s.drop_first(), id);
        if has_id(s, id) && s[0].id != id {
            let k = choose|k: int| 0 <= k < s.len() && s[k].id == id;
            assert(s.drop_first()[k - 1].id == id);
        }
        if has_id(s.drop_first(), id) {
            let k = choose|k: int| 0 <= k < s.len() - 1 && s.drop_first()[k].id == id;
            assert(s[k + 1].id == id);
        }
    }
}

} // verus!

verus! {

/// The largest id bounds every id.
pub proof fn lemma_max_id_bounds(s: Seq<TaskView>)
    ensures
        forall|k: int| 0 <= k < s.len() ==> s[k].id as nat <= max_id(s),
    decreases s.len(),
{
    if s.len() > 0 {
        lemma_max_id_bounds(s.drop_last());
        assert forall|k: int| 0 <= k < s.len() implies s[k].id as nat <= max_id(s) by {
            if k < s.len() - 1 {
                assert(s.drop_last()[k] == s[k]);
            }
        }
    }
}

} // verus!
