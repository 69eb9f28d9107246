use vstd::prelude::*;
use crate::store::{
    StoreView, created, has_id, ids_unique, position_of, restored, status_is, with_completed, with_description,
    with_status, max_id, lemma_max_id_bounds, lemma_position_has_id,
};
use crate::tasks::TaskView;

verus! {

/// One successful `create` keeps the store well formed, issues an id above
/// every id already in the store, and keeps ids unique.
pub proof fn lemma_create_step(pre: StoreView, post: StoreView, d: Seq<char>, t: TaskView)
    requires
        pre.wf(),
        created(pre, post, d, t),
    ensures
        post.wf(),
        post.next_id > pre.next_id,
        forall|k: int| 0 <= k < pre.tasks.len() ==> pre.tasks[k].id < t.id,
        ids_unique(pre.tasks) ==> ids_unique(post.tasks),
{
    assert forall|k: int| 0 <= k < post.tasks.len() implies (post.tasks[k].id as nat)
        < post.next_id by {
        if k < pre.tasks.len() {
            assert(post.tasks[k] == pre.tasks[k]);
        }
    }
    if ids_unique(pre.tasks) {
        assert forall|i: int, j: int| 0 <= i < j < post.tasks.len() implies post.tasks[i].id
            != post.tasks[j].id by {
            assert(post.tasks[i] == pre.tasks[i]);
            if j < pre.tasks.len() {
                assert(post.tasks[j] == pre.tasks[j]);
            }
        }
    }
}

/// Over any run of successful `create` calls, where `ss[i]` becomes
/// `ss[i + 1]` by adding `ts[i]`, the issued ids strictly increase, and
/// hence are pairwise distinct.
pub proof fn lemma_create_run_ids_increase(
    ss: Seq<StoreView>,
    ds: Seq<Seq<char>>,
    ts: Seq<TaskView>,
)
    requires
        ss.len() == ts.len() + 1,
        ds.len() == ts.len(),
        forall|i: int| 0 <= i < ts.len() ==> created(#[trigger] ss[i], ss[i + 1], ds[i], ts[i]),
    ensures
        forall|i: int, j: int| 0 <= i < j < ts.len() ==> ts[i].id < ts[j].id,
        forall|i: int, j: int| 0 <= i < j < ts.len() ==> ts[i].id != ts[j].id,
{
    lemma_run_next_ids(ss, ds, ts, ts.len() as int);
    assert forall|i: int, j: int| 0 <= i < j < ts.len() implies ts[i].id < ts[j].id by {
        assert(created(ss[i], ss[i + 1], ds[i], ts[i]));
        assert(created(ss[j], ss[j + 1], ds[j], ts[j]));
    }
}

/// Along such a run the next id grows by one at each step.
proof fn lemma_run_next_ids(ss: Seq<StoreView>, ds: Seq<Seq<char>>, ts: Seq<TaskView>, n: int)
    requires
        ss.len() == ts.len() + 1,
        ds.len() == ts.len(),
        0 <= n <= ts.len(),
        forall|i: int| 0 <= i < ts.len() ==> created(#[trigger] ss[i], ss[i + 1], ds[i], ts[i]),
    ensures
        forall|i: int| 0 <= i <= n ==> #[trigger] ss[i].next_id == ss[0].next_id + i,
    decreases n,
{
    if n > 0 {
        lemma_run_next_ids(ss, ds, ts, n - 1);
        assert(created(ss[n - 1], ss[n], ds[n - 1], ts[n - 1]));
    }
}

/// Two lists whose ids agree position by position find an id at the same place.
pub proof fn lemma_position_same_ids(s: Seq<TaskView>, u: Seq<TaskView>, id: usize)
    requires
        s.len() == u.len(),
        forall|k: int| 0 <= k < s.len() ==> s[k].id == u[k].id,
    ensures
        position_of(s, id) == position_of(u, id),
    decreases s.len(),
{
    if s.len() > 0 {
        lemma_position_same_ids(s.drop_first(), u.drop_first(), id);
    }
}

/// Marking a task done twice is the same as marking it done once: the id is
/// still there for the second call, and the task stays completed.
pub proof fn lemma_set_completed_idempotent(s: Seq<TaskView>, id: usize)
    requires
        has_id(s, id),
    ensures
        has_id(with_completed(s, id, true), id),
        with_completed(with_completed(s, id, true), id, true) == with_completed(s, id, true),
        position_of(s, id) matches Some(k) ==> with_completed(s, id, true)[k].completed,
{
    let once = with_completed(s, id, true);
    let k = choose|k: int| 0 <= k < s.len() && s[k].id == id;
    match position_of(s, id) {
        Some(p) => {
            lemma_position_has_id(s, id);
            lemma_position_same_ids(s, once, id);
            assert(once[k].id == id);
            assert(once.update(p, TaskView { completed: true, ..once[p] }) =~= once);
        },
        None => {
            lemma_position_has_id(s, id);
        },
    }
}

/// Setting a flag or replacing a description leaves every id in place, so a
/// list with unique ids keeps them unique and a well-formed store stays so.
pub proof fn lemma_edits_keep_ids(s: StoreView, id: usize, value: bool, d: Seq<char>)
    ensures
        with_completed(s.tasks, id, value).len() == s.tasks.len(),
        with_description(s.tasks, id, d).len() == s.tasks.len(),
        forall|k: int| 0 <= k < s.tasks.len() ==> with_completed(s.tasks, id, value)[k].id
            == s.tasks[k].id,
        forall|k: int| 0 <= k < s.tasks.len() ==> with_description(s.tasks, id, d)[k].id
            == s.tasks[k].id,
        ids_unique(s.tasks) ==> ids_unique(with_completed(s.tasks, id, value)),
        ids_unique(s.tasks) ==> ids_unique(with_description(s.tasks, id, d)),
        s.wf() ==> (StoreView { tasks: with_completed(s.tasks, id, value), ..s }).wf(),
        s.wf() ==> (StoreView { tasks: with_description(s.tasks, id, d), ..s }).wf(),
{
    lemma_position_has_id(s.tasks, id);
}

/// The pending and the completed listings split a task list: together they
/// hold as many tasks as the list, each holds only tasks of its status, and
/// every task of the list is in the listing of its status. Both keep the
/// list's order, being filters of it.
pub proof fn lemma_status_partition(s: Seq<TaskView>)
    ensures
        with_status(s, false).len() + with_status(s, true).len() == s.len(),
        forall|i: int| 0 <= i < with_status(s, false).len() ==> !with_status(s, false)[i].completed,
        forall|i: int| 0 <= i < with_status(s, true).len() ==> with_status(s, true)[i].completed,
        forall|k: int| 0 <= k < s.len() ==> with_status(s, s[k].completed).contains(s[k]),
    decreases s.len(),
{
    broadcast use vstd::seq_lib::group_filter_ensures;

    reveal(Seq::filter);
    if s.len() > 0 {
        lemma_status_partition(s.drop_last());
    }
    assert forall|k: int| 0 <= k < s.len() implies with_status(s, s[k].completed).contains(
        s[k],
    ) by {
        assert((status_is(s[k].completed))(s[k]));
    }
}

/// Restoring what a save wrote gives back the same tasks in the same order,
/// every saved id can be continued from, and the restored store is well
/// formed with a next id no larger than before.
pub proof fn lemma_save_then_restore(s: StoreView)
    requires
        s.wf(),
        s.next_id <= usize::MAX,
    ensures
        forall|k: int| 0 <= k < s.tasks.len() ==> s.tasks[k].id < usize::MAX,
        restored(s.tasks).tasks == s.tasks,
        restored(s.tasks).wf(),
        restored(s.tasks).next_id <= s.next_id,
{
    lemma_max_id_bounds(s.tasks);
    lemma_max_id_below(s.tasks, s.next_id);
}

/// When every id is below `n`, so is the largest, unless the list is empty.
proof fn lemma_max_id_below(s: Seq<TaskView>, n: nat)
    requires
        n >= 1,
        forall|k: int| 0 <= k < s.len() ==> (s[k].id as nat) < n,
    ensures
        max_id(s) < n,
    decreases s.len(),
{
    if s.len() > 0 {
        lemma_max_id_below(s.drop_last(), n);
    }
}

} // verus!
