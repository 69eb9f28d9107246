use vstd::prelude::*;
use crate::store::{TodoApp, restored, views};
use crate::tasks::{Task, TaskView};

verus! {

/// Whether every task's id leaves room for a next id.
pub open spec fn ids_continuable(s: Seq<Task>) -> bool {
    forall|k: int| 0 <= k < s.len() ==> s[k].id < usize::MAX
}

/// True exactly when every task's id is below the largest `usize`.
pub fn ids_fit(tasks: &Vec<Task>) -> (r: bool)
    ensures
        r == ids_continuable(tasks@),
{
    let mut i: usize = 0;
    while i < tasks.len()
        invariant
            i <= tasks@.len(),
            forall|k: int| 0 <= k < i ==> tasks@[k].id < usize::MAX,
        decreases tasks@.len() - i,
    {
        if tasks[i].id == usize::MAX {
            return false;
        }
        i = i + 1;
    }
    true
}

/// The store to start from, given what was read back from storage: `None`
/// when the file was missing, unreadable or unparseable. Anything that
/// cannot be continued from degrades to an empty store rather than failing.
pub fn restore(loaded: Option<Vec<Task>>) -> (r: TodoApp)
    ensures
        r@.wf(),
        loaded is None ==> r@ == restored(Seq::<TaskView>::empty()),
        loaded matches Some(v) ==> (ids_continuable(v@) ==> r@ == restored(views(v@))),
        loaded matches Some(v) ==> (!ids_continuable(v@) ==> r@ == restored(
            Seq::<TaskView>::empty(),
        )),
{
    match loaded {
        None => TodoApp::new(),
        Some(v) => {
            if ids_fit(&v) {
                TodoApp::from_tasks(v)
            } else {
                TodoApp::new()
            }
        },
    }
}

} // verus!
