//! The bookkeeping of a bounded pool of workers: which task starts next,
//! how many run at once, and what each of them reported. The pool itself,
//! its threads and the work they do, belong to the caller, who asks this
//! state for the next task and tells it of each completion.

use vstd::prelude::*;

verus! {

/// The least number of workers.
pub const MIN_PARALLELISM: usize = 1;

/// The greatest number of workers.
pub const MAX_PARALLELISM: usize = 128;

/// The number of workers of a synchronisation where none is asked for.
pub const DEFAULT_PARALLELISM: usize = 8;

/// Why the executor refused a request.
#[derive(Debug, Clone, Copy, PartialEq, Eq)]
pub enum ExecutorError {
    /// The number of workers is not between 1 and 128.
    InvalidParallelism,
    /// The task that is said to have completed is not running.
    NotRunning,
}

/// Whether `parallelism` workers are accepted: 1 to 128 of them.
pub open spec fn valid_parallelism(parallelism: nat) -> bool {
    1 <= parallelism <= 128
}

/// Accepts a number of workers from 1 to 128 and refuses every other; the
/// number is never adjusted.
pub fn check_parallelism(parallelism: usize) -> (r: Result<usize, ExecutorError>)
    ensures
        valid_parallelism(parallelism as nat) ==> r == Ok::<usize, ExecutorError>(parallelism),
        !valid_parallelism(parallelism as nat) ==> r == Err::<usize, ExecutorError>(
            ExecutorError::InvalidParallelism,
        ),
{
    if MIN_PARALLELISM <= parallelism && parallelism <= MAX_PARALLELISM {
        Ok(parallelism)
    } else {
        Err(ExecutorError::InvalidParallelism)
    }
}

/// What one task reported when it completed.
#[derive(Debug)]
pub struct Completion<T> {
    /// The task's place in the order of submission.
    pub task: usize,
    pub outcome: T,
}

/// The state of one run over `total` tasks, numbered in the order of
/// submission, with at most `parallelism` of them running at once.
#[derive(Debug)]
pub struct Executor<T> {
    total: usize,
    parallelism: usize,
    next: usize,
    running: Vec<usize>,
    finished: Vec<Completion<T>>,
}

/// A run as a value.
pub struct ExecutorView<T> {
    /// The number of tasks.
    pub total: nat,
    /// The bound on the tasks that run at once.
    pub parallelism: nat,
    /// The tasks below `next` have been started.
    pub next: nat,
    /// The tasks that run, in the order in which they started.
    pub running: Seq<usize>,
    /// The completions, in the order in which they were reported.
    pub finished: Seq<Completion<T>>,
}

impl<T> ExecutorView<T> {
    /// Whether `task` is running.
    pub open spec fn is_running(self, task: usize) -> bool {
        exists|i: int| 0 <= i < self.running.len() && self.running[i] == task
    }

    /// Whether `task` has completed.
    pub open spec fn is_finished(self, task: usize) -> bool {
        exists|k: int| 0 <= k < self.finished.len() && self.finished[k].task == task
    }

    /// There is a worker, the bound on the workers is respected, and every
    /// task that was started either runs or has completed, and not both and
    /// not twice.
    pub open spec fn wf(self) -> bool {
        &&& self.parallelism >= 1
        &&& self.next <= self.total
        &&& self.running.len() <= self.parallelism
        &&& self.running.len() + self.finished.len() == self.next
        &&& forall|i: int, j: int|
            0 <= i < j < self.running.len() ==> self.running[i] != self.running[j]
        &&& forall|i: int, j: int|
            0 <= i < j < self.finished.len() ==> self.finished[i].task != self.finished[j].task
        &&& forall|i: int, k: int|
            0 <= i < self.running.len() && 0 <= k < self.finished.len() ==> self.running[i]
                != self.finished[k].task
        &&& forall|task: usize|
            task < self.next <==> self.is_running(task) || self.is_finished(task)
    }

    /// Whether a task can start now: one is left and a worker is free.
    pub open spec fn can_dispatch(self) -> bool {
        self.next < self.total && self.running.len() < self.parallelism
    }

    /// Whether the run is over: every task was started and none runs.
    pub open spec fn done(self) -> bool {
        self.next == self.total && self.running.len() == 0
    }

    /// The state after the next task started.
    pub open spec fn dispatched(self) -> ExecutorView<T> {
        ExecutorView {
            next: self.next + 1,
            running: self.running.push(self.next as usize),
            ..self
        }
    }

    /// The place of `task` among the running tasks.
    pub open spec fn running_place(self, task: usize) -> int {
        choose|i: int| 0 <= i < self.running.len() && self.running[i] == task
    }

    /// The state after the running task `task` reported `outcome`.
    pub open spec fn completed(self, task: usize, outcome: T) -> ExecutorView<T> {
        ExecutorView {
            running: self.running.remove(self.running_place(task)),
            finished: self.finished.push(Completion { task, outcome }),
            ..self
        }
    }

    /// What `task` reported.
    pub open spec fn outcome_of(self, task: usize) -> T {
        self.finished[choose|k: int| 0 <= k < self.finished.len() && self.finished[k].task == task].outcome
    }

    /// Every completion holds what `work` gives for its task.
    pub open spec fn reports(self, work: spec_fn(usize) -> T) -> bool {
        forall|k: int|
            0 <= k < self.finished.len() ==> (#[trigger] self.finished[k]).outcome == work(
                self.finished[k].task,
            )
    }
}

/// What the tasks of `finished` reported, in the order of `finished`.
pub open spec fn outcomes_of<T>(finished: Seq<Completion<T>>) -> Seq<T> {
    Seq::new(finished.len(), |k: int| finished[k].outcome)
}

/// Starting the next task keeps the state well formed.
pub proof fn lemma_dispatched_wf<T>(v: ExecutorView<T>)
    requires
        v.wf(),
        v.can_dispatch(),
        v.total <= usize::MAX,
    ensures
        v.dispatched().wf(),
{
    let after = v.dispatched();
    let started = v.next as usize;
    assert(!v.is_running(started) && !v.is_finished(started));
    assert forall|i: int, j: int| 0 <= i < j < after.running.len() implies after.running[i]
        != after.running[j] by {
        if j == v.running.len() {
            assert(v.is_running(v.running[i]));
        }
    }
    assert forall|i: int, k: int|
        0 <= i < after.running.len() && 0 <= k < after.finished.len() implies after.running[i]
        != after.finished[k].task by {
        if i == v.running.len() {
            assert(v.is_finished(v.finished[k].task));
        }
    }
    assert forall|task: usize| task < after.next <==> after.is_running(task) || after.is_finished(
        task,
    ) by {
        if task < after.next {
            if task < v.next {
                if v.is_running(task) {
                    let i = choose|i: int| 0 <= i < v.running.len() && v.running[i] == task;
                    assert(after.running[i] == task);
                } else {
                    assert(v.is_finished(task));
                    let k = choose|k: int| 0 <= k < v.finished.len() && v.finished[k].task == task;
                    assert(after.finished[k].task == task);
                }
            } else {
                assert(task == started);
                assert(after.running[v.running.len() as int] == task);
            }
        }
        if after.is_running(task) {
            let i = choose|i: int| 0 <= i < after.running.len() && after.running[i] == task;
            if i < v.running.len() {
                assert(v.running[i] == task);
                assert(v.is_running(task));
            } else {
                assert(task == started);
            }
        }
        if after.is_finished(task) {
            let k = choose|k: int| 0 <= k < after.finished.len() && after.finished[k].task == task;
            assert(v.finished[k].task == task);
            assert(v.is_finished(task));
        }
    }
}

/// Recording the completion of the task that runs at place `i` keeps the
/// state well formed, whatever the task reported.
pub proof fn lemma_completed_wf<T>(v: ExecutorView<T>, i: int, outcome: T)
    requires
        v.wf(),
        0 <= i < v.running.len(),
    ensures
        v.running_place(v.running[i]) == i,
        v.completed(v.running[i], outcome).wf(),
{
    let task = v.running[i];
    let place = v.running_place(task);
    if place < i {
        assert(v.running[place] != v.running[i]);
    } else if i < place {
        assert(v.running[i] != v.running[place]);
    }
    let after = v.completed(task, outcome);
    assert forall|a: int| 0 <= a < after.running.len() implies after.running[a] == v.running[if a
        < i {
        a
    } else {
        a + 1
    }] by {}
    assert forall|a: int, b: int| 0 <= a < b < after.running.len() implies after.running[a]
        != after.running[b] by {
        let x = if a < i { a } else { a + 1 };
        let y = if b < i { b } else { b + 1 };
        assert(v.running[x] != v.running[y]);
    }
    assert forall|a: int, b: int| 0 <= a < b < after.finished.len() implies after.finished[a].task
        != after.finished[b].task by {
        if b == v.finished.len() {
            assert(v.running[i] != v.finished[a].task);
        }
    }
    assert forall|a: int, k: int|
        0 <= a < after.running.len() && 0 <= k < after.finished.len() implies after.running[a]
        != after.finished[k].task by {
        let x = if a < i { a } else { a + 1 };
        if k == v.finished.len() {
            if x < i {
                assert(v.running[x] != v.running[i]);
            } else {
                assert(v.running[i] != v.running[x]);
            }
        } else {
            assert(v.running[x] != v.finished[k].task);
        }
    }
    assert forall|t: usize| t < after.next <==> after.is_running(t) || after.is_finished(t) by {
        if t < v.next {
            if t == task {
                assert(after.finished[v.finished.len() as int].task == t);
            } else if v.is_running(t) {
                let a = choose|a: int| 0 <= a < v.running.len() && v.running[a] == t;
                let x = if a < i { a } else { a - 1 };
                assert(after.running[x] == t);
            } else {
                let k = choose|k: int| 0 <= k < v.finished.len() && v.finished[k].task == t;
                assert(after.finished[k].task == t);
            }
        }
        if after.is_running(t) {
            let a = choose|a: int| 0 <= a < after.running.len() && after.running[a] == t;
            let x = if a < i { a } else { a + 1 };
            assert(v.running[x] == t);
            assert(v.is_running(t));
        }
        if after.is_finished(t) {
            let k = choose|k: int| 0 <= k < after.finished.len() && after.finished[k].task == t;
            if k == v.finished.len() {
                assert(v.is_running(t));
            } else {
                assert(v.is_finished(t));
            }
        }
    }
}

/// A run that is not over can always go on: either a task can start or
/// one is running, whatever the tasks before it reported.
pub proof fn lemma_never_stuck<T>(v: ExecutorView<T>)
    requires
        v.wf(),
        !v.done(),
    ensures
        v.can_dispatch() || v.running.len() > 0,
{
}

/// Never do more tasks run at once than there are workers.
pub proof fn lemma_within_bound<T>(v: ExecutorView<T>)
    requires
        v.wf(),
    ensures
        v.running.len() <= v.parallelism,
{
}

/// With one worker the tasks run one after the other.
pub proof fn lemma_one_worker_is_serial<T>(v: ExecutorView<T>)
    requires
        v.wf(),
        v.parallelism == 1,
    ensures
        v.running.len() <= 1,
{
}

/// What a task reports plays no part in what happens to the others: the
/// tasks that run, the task that starts next and whether one can start are
/// the same after a failure as after a success, and what the earlier tasks
/// reported stays as it was.
pub proof fn lemma_outcome_plays_no_part<T>(v: ExecutorView<T>, task: usize, a: T, b: T)
    requires
        v.wf(),
        v.is_running(task),
    ensures
        v.completed(task, a).running == v.completed(task, b).running,
        v.completed(task, a).next == v.completed(task, b).next,
        v.completed(task, a).can_dispatch() == v.completed(task, b).can_dispatch(),
        v.completed(task, a).done() == v.completed(task, b).done(),
        forall|k: int|
            0 <= k < v.finished.len() ==> v.completed(task, a).finished[k] == v.finished[k],
        v.completed(task, a).finished.last() == (Completion { task, outcome: a }),
{
}

/// When the run is over every task has reported, each of them once.
pub proof fn lemma_done_all_finished<T>(v: ExecutorView<T>)
    requires
        v.wf(),
        v.done(),
    ensures
        v.finished.len() == v.total,
        forall|task: usize| task < v.total <==> v.is_finished(task),
        forall|i: int, j: int|
            0 <= i < j < v.finished.len() ==> v.finished[i].task != v.finished[j].task,
{
    assert forall|task: usize| task < v.total <==> v.is_finished(task) by {
        if v.is_running(task) {
            let i = choose|i: int| 0 <= i < v.running.len() && v.running[i] == task;
        }
    }
}

/// Completions that hold what `work` gives for their task still do so
/// after one more such completion.
pub proof fn lemma_reports_kept<T>(
    v: ExecutorView<T>,
    work: spec_fn(usize) -> T,
    task: usize,
    outcome: T,
)
    requires
        v.reports(work),
        outcome == work(task),
    ensures
        v.completed(task, outcome).reports(work),
{
    let after = v.completed(task, outcome);
    assert forall|k: int| 0 <= k < after.finished.len() implies (
    #[trigger] after.finished[k]).outcome == work(after.finished[k].task) by {
        if k < v.finished.len() {
            assert(after.finished[k] == v.finished[k]);
        }
    }
}

/// In a run that is over, where every task reported what `work` gives for
/// it, the outcome on record for each task is what `work` gives for it.
pub proof fn lemma_outcomes_are_the_work<T>(v: ExecutorView<T>, work: spec_fn(usize) -> T)
    requires
        v.wf(),
        v.done(),
        v.reports(work),
    ensures
        forall|task: usize| task < v.total ==> v.is_finished(task) && v.outcome_of(task) == work(task),
{
    lemma_done_all_finished(v);
    assert forall|task: usize| task < v.total implies v.is_finished(task) && v.outcome_of(task)
        == work(task) by {
        assert(v.is_finished(task));
        let k = choose|k: int| 0 <= k < v.finished.len() && v.finished[k].task == task;
        assert(v.finished[k].outcome == work(v.finished[k].task));
    }
}

/// The outcome of each task is the same whatever the number of workers and
/// whatever the order in which the tasks completed: two runs over the same
/// tasks, say one with one worker and one with eight, in which every task
/// reported what `work` gives for it, hold the same outcome for each task.
pub proof fn lemma_outcomes_independent_of_schedule<T>(
    a: ExecutorView<T>,
    b: ExecutorView<T>,
    work: spec_fn(usize) -> T,
)
    requires
        a.wf(),
        b.wf(),
        a.done(),
        b.done(),
        a.total == b.total,
        a.reports(work),
        b.reports(work),
    ensures
        forall|task: usize| task < a.total ==> a.outcome_of(task) == b.outcome_of(task),
{
    lemma_outcomes_are_the_work(a, work);
    lemma_outcomes_are_the_work(b, work);
}

impl<T> View for Executor<T> {
    type V = ExecutorView<T>;

    closed spec fn view(&self) -> ExecutorView<T> {
        ExecutorView {
            total: self.total as nat,
            parallelism: self.parallelism as nat,
            next: self.next as nat,
            running: self.running@,
            finished: self.finished@,
        }
    }
}

impl<T> Executor<T> {
    /// A run over `total` tasks with at most `parallelism` of them at once.
    /// A number of workers outside 1 to 128 is refused, before any task is
    /// started.
    pub fn new(total: usize, parallelism: usize) -> (r: Result<Executor<T>, ExecutorError>)
        ensures
            match r {
                Ok(e) => {
                    &&& valid_parallelism(parallelism as nat)
                    &&& e@ == (ExecutorView::<T> {
                        total: total as nat,
                        parallelism: parallelism as nat,
                        next: 0,
                        running: Seq::empty(),
                        finished: Seq::empty(),
                    })
                    &&& e@.wf()
                },
                Err(e) => !valid_parallelism(parallelism as nat) && e
                    == ExecutorError::InvalidParallelism,
            },
    {
        match check_parallelism(parallelism) {
            Err(e) => Err(e),
            Ok(parallelism) => {
                let e = Executor {
                    total,
                    parallelism,
                    next: 0,
                    running: Vec::new(),
                    finished: Vec::new(),
                };
                Ok(e)
            },
        }
    }

    /// A run over `total` tasks for a caller who asked for no number of
    /// workers: with as many as the machine offers, which is not held to
    /// the bounds of a number that is asked for, and with one where the
    /// machine names none.
    pub fn with_workers(total: usize, workers: usize) -> (e: Executor<T>)
        ensures
            e@ == (ExecutorView::<T> {
                total: total as nat,
                parallelism: if workers == 0 {
                    1nat
                } else {
                    workers as nat
                },
                next: 0,
                running: Seq::empty(),
                finished: Seq::empty(),
            }),
            e@.wf(),
    {
        let parallelism = if workers == 0 {
            1
        } else {
            workers
        };
        Executor { total, parallelism, next: 0, running: Vec::new(), finished: Vec::new() }
    }

    /// Gives up the tasks that have not started, for a caller who wants the
    /// run to end early; the tasks that run are still awaited. Returns how
    /// many tasks were given up. Nothing but a call of this ends a run
    /// before every task was started.
    pub fn cancel_pending(&mut self) -> (dropped: usize)
        requires
            old(self)@.wf(),
        ensures
            final(self)@.wf(),
            final(self)@ == (ExecutorView { total: old(self)@.next, ..old(self)@ }),
            dropped == old(self)@.total - old(self)@.next,
    {
        let dropped = self.total - self.next;
        self.total = self.next;
        proof {
            let before = old(self)@;
            let after = self@;
            assert(after.running == before.running && after.finished == before.finished);
            assert forall|task: usize| task < after.next <==> after.is_running(task)
                || after.is_finished(task) by {
                assert(after.is_running(task) == before.is_running(task));
                assert(after.is_finished(task) == before.is_finished(task));
            }
        }
        dropped
    }

    /// Starts the next task, in the order of submission, if one is left and
    /// fewer than `parallelism` are running; `None`, and no change, if not.
    pub fn dispatch(&mut self) -> (task: Option<usize>)
        requires
            old(self)@.wf(),
        ensures
            final(self)@.wf(),
            old(self)@.can_dispatch() ==> task == Some(old(self)@.next as usize) && final(self)@
                == old(self)@.dispatched(),
            !old(self)@.can_dispatch() ==> task is None && final(self)@ == old(self)@,
    {
        if self.next < self.total && self.running.len() < self.parallelism {
            let task = self.next;
            proof {
                lemma_dispatched_wf(self@);
            }
            self.running.push(task);
            self.next = self.next + 1;
            Some(task)
        } else {
            None
        }
    }

    /// Records that the running task `task` completed with `outcome`, and
    /// frees its worker. Refused, with no change, if `task` is not running.
    /// What the task reported plays no part in what happens to the others.
    pub fn complete(&mut self, task: usize, outcome: T) -> (r: Result<(), ExecutorError>)
        requires
            old(self)@.wf(),
        ensures
            final(self)@.wf(),
            old(self)@.is_running(task) ==> r is Ok && final(self)@ == old(self)@.completed(
                task,
                outcome,
            ),
            !old(self)@.is_running(task) ==> r == Err::<(), ExecutorError>(
                ExecutorError::NotRunning,
            ) && final(self)@ == old(self)@,
    {
        let mut i: usize = 0;
        while i < self.running.len()
            invariant
                i <= self.running@.len(),
                *self == *old(self),
                self@.wf(),
                forall|j: int| 0 <= j < i ==> self.running@[j] != task,
            decreases self.running@.len() - i,
        {
            if self.running[i] == task {
                proof {
                    lemma_completed_wf(self@, i as int, outcome);
                }
                self.running.remove(i);
                self.finished.push(Completion { task, outcome });
                return Ok(());
            }
            i += 1;
        }
        Err(ExecutorError::NotRunning)
    }

    /// Whether the run is over: every task was started and has completed.
    pub fn is_done(&self) -> (r: bool)
        ensures
            r == self@.done(),
    {
        self.next == self.total && self.running.len() == 0
    }

    /// The number of workers.
    pub fn parallelism(&self) -> (n: usize)
        ensures
            n == self@.parallelism,
    {
        self.parallelism
    }

    /// The number of tasks that run now.
    pub fn in_flight(&self) -> (n: usize)
        ensures
            n == self@.running.len(),
    {
        self.running.len()
    }

    /// The number of tasks that have not started yet.
    pub fn pending(&self) -> (n: usize)
        requires
            self@.wf(),
        ensures
            n == self@.total - self@.next,
    {
        self.total - self.next
    }

    /// The completions so far, in the order in which they were reported.
    pub fn completions(&self) -> (r: &Vec<Completion<T>>)
        ensures
            r@ == self@.finished,
    {
        &self.finished
    }

    /// Ends the run and hands out the completions, in the order in which
    /// they were reported.
    pub fn into_completions(self) -> (r: Vec<Completion<T>>)
        ensures
            r@ == self@.finished,
    {
        self.finished
    }

    /// Ends the run and hands out what the tasks reported, in the order in
    /// which they completed.
    pub fn into_outcomes(self) -> (r: Vec<T>)
        ensures
            r@ == outcomes_of(self@.finished),
    {
        let finished = self.finished;
        let ghost all = finished@;
        let mut out: Vec<T> = Vec::new();
        for completion in it: finished
            invariant
                it.seq() == all,
                out@.len() == it.index(),
                forall|k: int| 0 <= k < out@.len() ==> out@[k] == all[k].outcome,
        {
            out.push(completion.outcome);
        }
        assert(out@ =~= outcomes_of(all));
        out
    }
}

} // verus!
