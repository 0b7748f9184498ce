//! A run as a whole: the serial run, which needs no threads, and what holds
//! of the outcomes of any run, however its tasks were scheduled.

use vstd::prelude::*;
use crate::executor::{
    lemma_done_all_finished,
    lemma_outcomes_are_the_work,
    outcomes_of,
    Completion,
    Executor,
    ExecutorView,
};
use crate::outcome::{
    failing,
    lemma_count_single,
    lemma_tally_failed,
    sync_categories,
    sync_category,
    sync_statuses,
    tally,
    Category,
    SyncOutcome,
};

verus! {

/// Runs the tasks `0` to `total - 1` one after the other, each by a call of
/// `work`, and returns what they reported, in that order. One task's
/// outcome, a failure too, keeps no other task from running.
pub fn run_serial<T, F: Fn(usize) -> T>(total: usize, work: F) -> (outcomes: Vec<T>)
    requires
        forall|task: usize| task < total ==> call_requires(work, (task,)),
    ensures
        outcomes@.len() == total,
        forall|task: usize|
            task < total ==> call_ensures(work, (task,), #[trigger] outcomes@[task as int]),
{
    let mut executor = Executor::<T>::new(total, 1).unwrap();
    while !executor.is_done()
        invariant
            executor@.wf(),
            executor@.total == total,
            executor@.parallelism == 1,
            executor@.running.len() == 0,
            forall|task: usize| task < total ==> call_requires(work, (task,)),
            forall|k: int|
                0 <= k < executor@.finished.len() ==> (#[trigger] executor@.finished[k]).task == k
                    && call_ensures(work, (k as usize,), executor@.finished[k].outcome),
        decreases total - executor@.next,
    {
        let ghost before = executor@;
        let task = executor.dispatch().unwrap();
        let outcome = work(task);
        proof {
            let started = before.dispatched();
            assert(started.running[0] == task);
            assert(started.is_running(task));
            assert(started.running_place(task) == 0);
            assert(started.completed(task, outcome).running =~= Seq::empty());
        }
        let recorded = executor.complete(task, outcome);
        assert(recorded is Ok);
    }
    executor.into_outcomes()
}

/// The kinds of the outcomes of a synchronisation run, in the order in
/// which the projects completed.
pub open spec fn completed_categories(finished: Seq<Completion<SyncOutcome>>) -> Seq<Category> {
    sync_categories(sync_statuses(outcomes_of(finished)))
}

/// Failure isolation: in a run that is over, where every task reported
/// what `work` gives for it and `work` fails for one task and for no
/// other, every task has its own outcome on record, and the failures
/// counted are exactly one. This holds for every number of workers and
/// every order of completion.
pub proof fn lemma_failure_isolated(
    v: ExecutorView<SyncOutcome>,
    work: spec_fn(usize) -> SyncOutcome,
    failed: usize,
)
    requires
        v.wf(),
        v.done(),
        v.reports(work),
        failed < v.total,
        sync_category(work(failed).status@).is_failure(),
        forall|task: usize|
            task < v.total && task != failed ==> !sync_category(
                (#[trigger] work(task)).status@,
            ).is_failure(),
    ensures
        forall|task: usize| task < v.total ==> v.is_finished(task) && v.outcome_of(task) == work(task),
        tally(completed_categories(v.finished)).failed() == 1,
{
    lemma_outcomes_are_the_work(v, work);
    lemma_done_all_finished(v);
    let categories = completed_categories(v.finished);
    assert(v.is_finished(failed));
    let k = choose|k: int| 0 <= k < v.finished.len() && v.finished[k].task == failed;
    assert(v.finished[k].outcome == work(v.finished[k].task));
    assert forall|i: int| 0 <= i < categories.len() && i != k implies !failing()(categories[i]) by {
        assert(v.finished[i].outcome == work(v.finished[i].task));
        if i < k {
            assert(v.finished[i].task != v.finished[k].task);
        } else {
            assert(v.finished[k].task != v.finished[i].task);
        }
        assert(v.is_finished(v.finished[i].task));
    }
    lemma_count_single(categories, failing(), k);
    lemma_tally_failed(categories);
}

} // verus!
