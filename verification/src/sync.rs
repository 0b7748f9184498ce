//! The decisions of one project's synchronisation. The caller looks at the
//! disk and runs git; after each such step it reports what happened and is
//! told what to do next, until the project's status is settled.

use vstd::prelude::*;
use vstd::string::*;
use crate::model::Project;
use crate::outcome::{FailureReason, FailureView, SyncStatus, SyncStatusView};

verus! {

/// How projects are synchronised.
#[derive(Debug, Clone, Copy, PartialEq, Eq)]
pub struct SyncOptions {
    /// Accept only updates that need no merge commit.
    pub fast_forward_only: bool,
    /// Leave alone every project whose local path exists.
    pub only_new: bool,
}

impl SyncOptions {
    /// Fast-forward only, and existing projects are updated.
    pub fn new() -> (options: SyncOptions)
        ensures
            options == (SyncOptions { fast_forward_only: true, only_new: false }),
    {
        SyncOptions { fast_forward_only: true, only_new: false }
    }
}

impl Default for SyncOptions {
    fn default() -> (options: SyncOptions)
        ensures
            options == (SyncOptions { fast_forward_only: true, only_new: false }),
    {
        SyncOptions::new()
    }
}

/// How the working branch stands to what was fetched.
#[derive(Debug, Clone, Copy, PartialEq, Eq)]
pub enum MergeAnalysis {
    /// There is nothing new.
    UpToDate,
    /// The branch can be moved forward without a merge commit.
    FastForward,
    /// Both sides have commits of their own.
    Diverged,
}

/// What stands at a project's local path.
#[derive(Debug, Clone, Copy, PartialEq, Eq)]
pub enum PathState {
    /// Nothing.
    Missing,
    /// An empty directory.
    Empty,
    /// Something else: a directory with entries, or a file.
    Occupied,
}

/// Where a synchronisation stands: what it waits for.
#[derive(Debug, Clone, Copy, PartialEq, Eq)]
pub enum SyncState {
    /// For the caller to say what is asked for: a synchronisation, by saying
    /// whether the local path exists, or a clone or an update alone.
    Start,
    /// For the clone.
    Cloning,
    /// For the remote at this place to be configured in the new clone.
    AddingRemote(usize),
    /// For the after-clone hook.
    RunningHook,
    /// For the fetch from the project's own url.
    FetchingOrigin,
    /// For the remote at this place to be configured in the existing clone.
    ConfiguringRemote(usize),
    /// For the fetch from the remote at this place.
    FetchingRemote(usize),
    /// For the comparison of the working branch with what was fetched.
    Analysing,
    /// For the fast-forward.
    FastForwarding,
    /// For the merge.
    Merging,
    /// For nothing: the status is settled.
    Finished,
}

/// What the caller reports.
#[derive(Debug, Clone, PartialEq, Eq)]
pub enum SyncEvent {
    /// A synchronisation is asked for, and this is whether the project's
    /// local path exists.
    PathChecked(bool),
    /// A clone alone is asked for, and this is what stands at the local
    /// path.
    CloneRequested(PathState),
    /// An update alone is asked for.
    UpdateRequested,
    /// The step that was asked for succeeded.
    Succeeded,
    /// The step that was asked for failed.
    Failed(FailureReason),
    /// The comparison that was asked for gave this.
    Analysed(MergeAnalysis),
    /// The hook that was asked for ran and exited with this status.
    HookExited(i32),
}

/// A report as a value.
pub enum SyncEventView {
    PathChecked(bool),
    CloneRequested(PathState),
    UpdateRequested,
    Succeeded,
    Failed(FailureView),
    Analysed(MergeAnalysis),
    HookExited(int),
}

impl View for SyncEvent {
    type V = SyncEventView;

    open spec fn view(&self) -> SyncEventView {
        match *self {
            SyncEvent::PathChecked(present) => SyncEventView::PathChecked(present),
            SyncEvent::CloneRequested(path) => SyncEventView::CloneRequested(path),
            SyncEvent::UpdateRequested => SyncEventView::UpdateRequested,
            SyncEvent::Succeeded => SyncEventView::Succeeded,
            SyncEvent::Failed(reason) => SyncEventView::Failed(reason@),
            SyncEvent::Analysed(analysis) => SyncEventView::Analysed(analysis),
            SyncEvent::HookExited(code) => SyncEventView::HookExited(code as int),
        }
    }
}

/// What the caller is to do next.
#[derive(Debug, Clone, PartialEq, Eq)]
pub enum SyncAction {
    /// Clone the project's url into its local path.
    Clone,
    /// Make the remote at this place known to the clone, under its name and
    /// with its url, if it is not.
    ConfigureRemote(usize),
    /// Run the project's effective after-clone hook.
    RunAfterClone,
    /// Fetch from the project's own url.
    FetchOrigin,
    /// Fetch from the remote at this place.
    FetchRemote(usize),
    /// Compare the working branch with what was fetched.
    Analyse,
    /// Move the working branch forward.
    FastForward,
    /// Merge what was fetched into the working branch.
    Merge,
    /// Nothing more: this is the project's status.
    Finish(SyncStatus),
}

/// An instruction as a value.
pub enum SyncActionView {
    Clone,
    ConfigureRemote(usize),
    RunAfterClone,
    FetchOrigin,
    FetchRemote(usize),
    Analyse,
    FastForward,
    Merge,
    Finish(SyncStatusView),
}

impl View for SyncAction {
    type V = SyncActionView;

    open spec fn view(&self) -> SyncActionView {
        match *self {
            SyncAction::Clone => SyncActionView::Clone,
            SyncAction::ConfigureRemote(i) => SyncActionView::ConfigureRemote(i),
            SyncAction::RunAfterClone => SyncActionView::RunAfterClone,
            SyncAction::FetchOrigin => SyncActionView::FetchOrigin,
            SyncAction::FetchRemote(i) => SyncActionView::FetchRemote(i),
            SyncAction::Analyse => SyncActionView::Analyse,
            SyncAction::FastForward => SyncActionView::FastForward,
            SyncAction::Merge => SyncActionView::Merge,
            SyncAction::Finish(status) => SyncActionView::Finish(status@),
        }
    }
}

/// The reason given when the after-clone hook exits with another status
/// than 0.
pub open spec fn hook_failed() -> Seq<char> {
    "after-clone hook failed"@
}

/// The reason given when a clone is asked for and the local path is taken.
pub open spec fn path_occupied() -> Seq<char> {
    "local path exists and is not empty"@
}

/// The reason given when a report does not answer what was asked.
pub open spec fn unexpected_report() -> Seq<char> {
    "unexpected report"@
}

/// The end of a synchronisation with `status`.
pub open spec fn finish(status: SyncStatusView) -> (SyncState, SyncActionView) {
    (SyncState::Finished, SyncActionView::Finish(status))
}

/// The end of a synchronisation on a report that answers nothing that was
/// asked.
pub open spec fn finish_unexpected() -> (SyncState, SyncActionView) {
    finish(SyncStatusView::Failed(FailureView::Other(unexpected_report())))
}

/// What follows the clone and the configuration of the remotes before
/// `next`: the next remote, or the hook when none is left.
pub open spec fn after_remote_added(next: nat, remotes: nat) -> (SyncState, SyncActionView) {
    if next < remotes {
        (SyncState::AddingRemote(next as usize), SyncActionView::ConfigureRemote(next as usize))
    } else {
        (SyncState::RunningHook, SyncActionView::RunAfterClone)
    }
}

/// What follows the fetches from the url and from the remotes before
/// `next`: the next remote, which is configured before it is fetched from,
/// or the comparison when none is left.
pub open spec fn after_fetch(next: nat, remotes: nat) -> (SyncState, SyncActionView) {
    if next < remotes {
        (
            SyncState::ConfiguringRemote(next as usize),
            SyncActionView::ConfigureRemote(next as usize),
        )
    } else {
        (SyncState::Analysing, SyncActionView::Analyse)
    }
}

/// Whether a step of the caller's is awaited in `state`.
pub open spec fn awaits_step(state: SyncState) -> bool {
    !(state is Start) && !(state is Finished)
}

/// The decision: from where the synchronisation of a project with `remotes`
/// remotes stands and what the caller reports, where it stands next and
/// what the caller is to do.
///
/// A synchronisation clones the project if its path does not exist, skips
/// it if the path exists and only new projects are wanted, and updates it
/// otherwise. A clone is followed by the configuration of the project's
/// remotes and by its after-clone hook; asked for by itself, it fails where
/// the path is occupied. An update fetches from the url and from every
/// remote, each of which is configured first, so that a remote that the
/// model got since the clone reaches the disk here; then the working branch
/// is brought up to date, by a fast-forward where that is possible, by a
/// merge where it is not and merges are allowed, and not at all, with
/// `DivergedHistory`, where they are not. A step that fails settles the
/// status with its reason.
pub open spec fn sync_step(
    state: SyncState,
    remotes: nat,
    options: SyncOptions,
    event: SyncEventView,
) -> (SyncState, SyncActionView) {
    match (state, event) {
        (SyncState::Start, SyncEventView::PathChecked(present)) => {
            if !present {
                (SyncState::Cloning, SyncActionView::Clone)
            } else if options.only_new {
                finish(SyncStatusView::Skipped)
            } else {
                (SyncState::FetchingOrigin, SyncActionView::FetchOrigin)
            }
        },
        (SyncState::Start, SyncEventView::CloneRequested(path)) => {
            if path is Occupied {
                finish(SyncStatusView::Failed(FailureView::Other(path_occupied())))
            } else {
                (SyncState::Cloning, SyncActionView::Clone)
            }
        },
        (SyncState::Start, SyncEventView::UpdateRequested) => (
            SyncState::FetchingOrigin,
            SyncActionView::FetchOrigin,
        ),
        (SyncState::Cloning, SyncEventView::Succeeded) => after_remote_added(0, remotes),
        (SyncState::AddingRemote(i), SyncEventView::Succeeded) => after_remote_added(
            (i + 1) as nat,
            remotes,
        ),
        (SyncState::RunningHook, SyncEventView::HookExited(code)) => {
            if code == 0 {
                finish(SyncStatusView::Cloned)
            } else {
                finish(SyncStatusView::Failed(FailureView::Other(hook_failed())))
            }
        },
        (SyncState::FetchingOrigin, SyncEventView::Succeeded) => after_fetch(0, remotes),
        (SyncState::ConfiguringRemote(i), SyncEventView::Succeeded) => (
            SyncState::FetchingRemote(i),
            SyncActionView::FetchRemote(i),
        ),
        (SyncState::FetchingRemote(i), SyncEventView::Succeeded) => after_fetch(
            (i + 1) as nat,
            remotes,
        ),
        (SyncState::Analysing, SyncEventView::Analysed(analysis)) => {
            match analysis {
                MergeAnalysis::UpToDate => finish(SyncStatusView::UpToDate),
                MergeAnalysis::FastForward => (
                    SyncState::FastForwarding,
                    SyncActionView::FastForward,
                ),
                MergeAnalysis::Diverged => if options.fast_forward_only {
                    finish(SyncStatusView::Failed(FailureView::DivergedHistory))
                } else {
                    (SyncState::Merging, SyncActionView::Merge)
                },
            }
        },
        (SyncState::FastForwarding, SyncEventView::Succeeded) => finish(SyncStatusView::Updated),
        (SyncState::Merging, SyncEventView::Succeeded) => finish(SyncStatusView::Updated),
        (_, SyncEventView::Failed(reason)) => {
            if awaits_step(state) {
                finish(SyncStatusView::Failed(reason))
            } else {
                finish_unexpected()
            }
        },
        _ => finish_unexpected(),
    }
}

/// The synchronisation of one project.
#[derive(Debug, Clone, Copy, PartialEq, Eq)]
pub struct SyncTask {
    state: SyncState,
    remotes: usize,
    options: SyncOptions,
}

/// A synchronisation as a value: where it stands, and the number of
/// remotes and the options it was begun with.
pub struct SyncTaskView {
    pub state: SyncState,
    pub remotes: nat,
    pub options: SyncOptions,
}

impl View for SyncTask {
    type V = SyncTaskView;

    closed spec fn view(&self) -> SyncTaskView {
        SyncTaskView { state: self.state, remotes: self.remotes as nat, options: self.options }
    }
}

impl SyncTask {
    /// The synchronisation of a project with `remotes` remotes, before
    /// anything is known of it.
    pub fn new(remotes: usize, options: SyncOptions) -> (task: SyncTask)
        ensures
            task@ == (SyncTaskView { state: SyncState::Start, remotes: remotes as nat, options }),
    {
        SyncTask { state: SyncState::Start, remotes, options }
    }

    /// The synchronisation of `project`, before anything is known of it.
    pub fn for_project(project: &Project, options: SyncOptions) -> (task: SyncTask)
        ensures
            task@ == (SyncTaskView {
                state: SyncState::Start,
                remotes: project@.remotes.len(),
                options,
            }),
    {
        SyncTask::new(project.remotes().len(), options)
    }

    /// Where the synchronisation stands.
    pub fn state(&self) -> (state: SyncState)
        ensures
            state == self@.state,
    {
        self.state
    }

    /// Whether the status is settled.
    pub fn is_finished(&self) -> (r: bool)
        ensures
            r == (self@.state is Finished),
    {
        match self.state {
            SyncState::Finished => true,
            _ => false,
        }
    }

    fn settle(&mut self, status: SyncStatus) -> (action: SyncAction)
        ensures
            final(self)@ == (SyncTaskView { state: SyncState::Finished, ..old(self)@ }),
            action@ == SyncActionView::Finish(status@),
    {
        self.state = SyncState::Finished;
        SyncAction::Finish(status)
    }

    fn settle_unexpected(&mut self) -> (action: SyncAction)
        ensures
            (final(self)@.state, action@) == finish_unexpected(),
            final(self)@ == (SyncTaskView { state: SyncState::Finished, ..old(self)@ }),
    {
        self.settle(SyncStatus::Failed(FailureReason::Other(String::from_str("unexpected report"))))
    }

    fn add_remote_or_hook(&mut self, next: usize) -> (action: SyncAction)
        ensures
            (final(self)@.state, action@) == after_remote_added(next as nat, old(self)@.remotes),
            final(self)@ == (SyncTaskView { state: final(self)@.state, ..old(self)@ }),
    {
        if next < self.remotes {
            self.state = SyncState::AddingRemote(next);
            SyncAction::ConfigureRemote(next)
        } else {
            self.state = SyncState::RunningHook;
            SyncAction::RunAfterClone
        }
    }

    fn fetch_or_analyse(&mut self, next: usize) -> (action: SyncAction)
        ensures
            (final(self)@.state, action@) == after_fetch(next as nat, old(self)@.remotes),
            final(self)@ == (SyncTaskView { state: final(self)@.state, ..old(self)@ }),
    {
        if next < self.remotes {
            self.state = SyncState::ConfiguringRemote(next);
            SyncAction::ConfigureRemote(next)
        } else {
            self.state = SyncState::Analysing;
            SyncAction::Analyse
        }
    }

    /// Takes the caller's report and says what to do next.
    pub fn step(&mut self, event: SyncEvent) -> (action: SyncAction)
        ensures
            (final(self)@.state, action@) == sync_step(
                old(self)@.state,
                old(self)@.remotes,
                old(self)@.options,
                event@,
            ),
            final(self)@.remotes == old(self)@.remotes,
            final(self)@.options == old(self)@.options,
    {
        let state = self.state;
        match event {
            SyncEvent::Failed(reason) => {
                match state {
                    SyncState::Start => self.settle_unexpected(),
                    SyncState::Finished => self.settle_unexpected(),
                    _ => self.settle(SyncStatus::Failed(reason)),
                }
            },
            SyncEvent::PathChecked(present) => {
                match state {
                    SyncState::Start => {
                        if !present {
                            self.state = SyncState::Cloning;
                            SyncAction::Clone
                        } else if self.options.only_new {
                            self.settle(SyncStatus::Skipped)
                        } else {
                            self.state = SyncState::FetchingOrigin;
                            SyncAction::FetchOrigin
                        }
                    },
                    _ => self.settle_unexpected(),
                }
            },
            SyncEvent::CloneRequested(path) => {
                match state {
                    SyncState::Start => {
                        match path {
                            PathState::Occupied => self.settle(
                                SyncStatus::Failed(
                                    FailureReason::Other(
                                        String::from_str("local path exists and is not empty"),
                                    ),
                                ),
                            ),
                            _ => {
                                self.state = SyncState::Cloning;
                                SyncAction::Clone
                            },
                        }
                    },
                    _ => self.settle_unexpected(),
                }
            },
            SyncEvent::UpdateRequested => {
                match state {
                    SyncState::Start => {
                        self.state = SyncState::FetchingOrigin;
                        SyncAction::FetchOrigin
                    },
                    _ => self.settle_unexpected(),
                }
            },
            SyncEvent::Succeeded => {
                match state {
                    SyncState::Cloning => self.add_remote_or_hook(0),
                    SyncState::AddingRemote(i) => {
                        if i < self.remotes {
                            self.add_remote_or_hook(i + 1)
                        } else {
                            self.state = SyncState::RunningHook;
                            SyncAction::RunAfterClone
                        }
                    },
                    SyncState::FetchingOrigin => self.fetch_or_analyse(0),
                    SyncState::ConfiguringRemote(i) => {
                        self.state = SyncState::FetchingRemote(i);
                        SyncAction::FetchRemote(i)
                    },
                    SyncState::FetchingRemote(i) => {
                        if i < self.remotes {
                            self.fetch_or_analyse(i + 1)
                        } else {
                            self.state = SyncState::Analysing;
                            SyncAction::Analyse
                        }
                    },
                    SyncState::FastForwarding => self.settle(SyncStatus::Updated),
                    SyncState::Merging => self.settle(SyncStatus::Updated),
                    _ => self.settle_unexpected(),
                }
            },
            SyncEvent::Analysed(analysis) => {
                match state {
                    SyncState::Analysing => {
                        match analysis {
                            MergeAnalysis::UpToDate => self.settle(SyncStatus::UpToDate),
                            MergeAnalysis::FastForward => {
                                self.state = SyncState::FastForwarding;
                                SyncAction::FastForward
                            },
                            MergeAnalysis::Diverged => {
                                if self.options.fast_forward_only {
                                    self.settle(
                                        SyncStatus::Failed(FailureReason::DivergedHistory),
                                    )
                                } else {
                                    self.state = SyncState::Merging;
                                    SyncAction::Merge
                                }
                            },
                        }
                    },
                    _ => self.settle_unexpected(),
                }
            },
            SyncEvent::HookExited(code) => {
                match state {
                    SyncState::RunningHook => {
                        if code == 0 {
                            self.settle(SyncStatus::Cloned)
                        } else {
                            self.settle(
                                SyncStatus::Failed(
                                    FailureReason::Other(
                                        String::from_str("after-clone hook failed"),
                                    ),
                                ),
                            )
                        }
                    },
                    _ => self.settle_unexpected(),
                }
            },
        }
    }
}

/// Where a synchronisation that stood at `state` stands after the reports
/// `events`.
pub open spec fn sync_state_after(
    state: SyncState,
    remotes: nat,
    options: SyncOptions,
    events: Seq<SyncEventView>,
) -> SyncState
    decreases events.len(),
{
    if events.len() == 0 {
        state
    } else {
        sync_step(
            sync_state_after(state, remotes, options, events.drop_last()),
            remotes,
            options,
            events.last(),
        ).0
    }
}

/// What the caller is told to do on each of the reports `events`, the
/// first of which meets the synchronisation at `state`.
pub open spec fn sync_actions(
    state: SyncState,
    remotes: nat,
    options: SyncOptions,
    events: Seq<SyncEventView>,
) -> Seq<SyncActionView> {
    Seq::new(
        events.len(),
        |k: int|
            sync_step(
                sync_state_after(state, remotes, options, events.take(k)),
                remotes,
                options,
                events[k],
            ).1,
    )
}

/// A bound on the reports that a synchronisation at `state` can still take
/// before its status is settled.
pub open spec fn steps_left(state: SyncState, remotes: nat) -> nat {
    match state {
        SyncState::Start => 2 * remotes + 4,
        SyncState::Cloning => remotes + 2,
        SyncState::AddingRemote(i) => if i < remotes {
            (remotes - i + 1) as nat
        } else {
            2
        },
        SyncState::RunningHook => 1,
        SyncState::FetchingOrigin => 2 * remotes + 3,
        SyncState::ConfiguringRemote(i) => if i < remotes {
            (2 * (remotes - i) + 2) as nat
        } else {
            4
        },
        SyncState::FetchingRemote(i) => if i < remotes {
            (2 * (remotes - i) + 1) as nat
        } else {
            3
        },
        SyncState::Analysing => 2,
        SyncState::FastForwarding => 1,
        SyncState::Merging => 1,
        SyncState::Finished => 0,
    }
}

/// Every report brings a synchronisation nearer to its end, whatever it
/// says, and the caller is told the status exactly when it is settled.
pub proof fn lemma_sync_step_progress(
    state: SyncState,
    remotes: nat,
    options: SyncOptions,
    event: SyncEventView,
)
    requires
        remotes < usize::MAX,
    ensures
        !(state is Finished) ==> steps_left(sync_step(state, remotes, options, event).0, remotes)
            < steps_left(state, remotes),
        state is Finished ==> sync_step(state, remotes, options, event).0 is Finished,
        sync_step(state, remotes, options, event).1 is Finish <==> sync_step(
            state,
            remotes,
            options,
            event,
        ).0 is Finished,
{
}

/// A synchronisation ends: after as many reports as `steps_left` allows,
/// at most `2 * remotes + 4` from the start, its status is settled, whatever
/// the reports say.
pub proof fn lemma_sync_ends(
    state: SyncState,
    remotes: nat,
    options: SyncOptions,
    events: Seq<SyncEventView>,
)
    requires
        remotes < usize::MAX,
    ensures
        steps_left(sync_state_after(state, remotes, options, events), remotes) + events.len()
            <= steps_left(state, remotes) || sync_state_after(
            state,
            remotes,
            options,
            events,
        ) is Finished,
        events.len() >= steps_left(state, remotes) ==> sync_state_after(
            state,
            remotes,
            options,
            events,
        ) is Finished,
    decreases events.len(),
{
    if events.len() > 0 {
        let before = sync_state_after(state, remotes, options, events.drop_last());
        lemma_sync_ends(state, remotes, options, events.drop_last());
        lemma_sync_step_progress(before, remotes, options, events.last());
    }
}

/// The reports of a clone in which every step succeeds: the path is not
/// there, the clone succeeds, each remote is configured, the hook exits
/// with 0.
pub open spec fn clean_clone(remotes: nat) -> Seq<SyncEventView> {
    seq![SyncEventView::PathChecked(false), SyncEventView::Succeeded] + Seq::new(
        remotes,
        |i: int| SyncEventView::Succeeded,
    ) + seq![SyncEventView::HookExited(0)]
}

/// The reports of an update that finds nothing new: the path is there, the
/// fetch from the url succeeds, each remote is configured and fetched from,
/// the working branch is up to date.
pub open spec fn clean_update(remotes: nat) -> Seq<SyncEventView> {
    seq![SyncEventView::PathChecked(true), SyncEventView::Succeeded] + Seq::new(
        2 * remotes,
        |i: int| SyncEventView::Succeeded,
    ) + seq![SyncEventView::Analysed(MergeAnalysis::UpToDate)]
}

/// Where only new projects are wanted, a project whose local path exists
/// is skipped at once: the first thing that the caller is told is the
/// status, so that no git step is ever asked for.
pub proof fn lemma_existing_project_is_skipped(remotes: nat, options: SyncOptions)
    requires
        options.only_new,
    ensures
        sync_step(SyncState::Start, remotes, options, SyncEventView::PathChecked(true)) == finish(
            SyncStatusView::Skipped,
        ),
        sync_actions(
            SyncState::Start,
            remotes,
            options,
            seq![SyncEventView::PathChecked(true)],
        ) == seq![SyncActionView::Finish(SyncStatusView::Skipped)],
{
    let events = seq![SyncEventView::PathChecked(true)];
    assert(events.take(0) =~= Seq::empty());
    assert(sync_actions(SyncState::Start, remotes, options, events) =~= seq![
        SyncActionView::Finish(SyncStatusView::Skipped),
    ]);
}

/// No report leads back to the start.
proof fn lemma_never_back_to_start(
    state: SyncState,
    remotes: nat,
    options: SyncOptions,
    events: Seq<SyncEventView>,
)
    requires
        events.len() > 0,
    ensures
        !(sync_state_after(state, remotes, options, events) is Start),
{
}

/// A project whose local path exists is never cloned, whatever is
/// reported afterwards.
pub proof fn lemma_existing_project_is_never_cloned(
    remotes: nat,
    options: SyncOptions,
    events: Seq<SyncEventView>,
)
    requires
        events.len() > 0,
        events[0] == SyncEventView::PathChecked(true),
    ensures
        !sync_actions(SyncState::Start, remotes, options, events).contains(SyncActionView::Clone),
{
    let actions = sync_actions(SyncState::Start, remotes, options, events);
    assert forall|k: int| 0 <= k < actions.len() implies actions[k] != SyncActionView::Clone by {
        if k == 0 {
            assert(events.take(0) =~= Seq::empty());
        } else {
            lemma_never_back_to_start(SyncState::Start, remotes, options, events.take(k));
        }
    }
}

/// After the clone and `done` configured remotes the next remote is
/// awaited, or the hook when none is left.
proof fn lemma_clone_progress(remotes: nat, options: SyncOptions, done: nat)
    requires
        done <= remotes < usize::MAX,
    ensures
        sync_state_after(
            SyncState::Start,
            remotes,
            options,
            seq![SyncEventView::PathChecked(false), SyncEventView::Succeeded] + Seq::new(
                done,
                |i: int| SyncEventView::Succeeded,
            ),
        ) == if done < remotes {
            SyncState::AddingRemote(done as usize)
        } else {
            SyncState::RunningHook
        },
    decreases done,
{
    let head = seq![SyncEventView::PathChecked(false), SyncEventView::Succeeded];
    let events = head + Seq::new(done, |i: int| SyncEventView::Succeeded);
    if done == 0 {
        assert(events =~= head);
        assert(head.drop_last() =~= seq![SyncEventView::PathChecked(false)]);
        assert(head.drop_last().drop_last() =~= Seq::empty());
        reveal_with_fuel(sync_state_after, 3);
    } else {
        let before = head + Seq::new((done - 1) as nat, |i: int| SyncEventView::Succeeded);
        lemma_clone_progress(remotes, options, (done - 1) as nat);
        assert(events.drop_last() =~= before);
        assert(events.last() == SyncEventView::Succeeded);
    }
}

/// After the fetch from the url and `steps` more steps that succeeded, two
/// for each remote, the next remote awaits its configuration or its fetch,
/// or the comparison is awaited when none is left.
proof fn lemma_update_progress(remotes: nat, options: SyncOptions, steps: nat)
    requires
        !options.only_new,
        steps <= 2 * remotes,
        remotes < usize::MAX,
    ensures
        sync_state_after(
            SyncState::Start,
            remotes,
            options,
            seq![SyncEventView::PathChecked(true), SyncEventView::Succeeded] + Seq::new(
                steps,
                |i: int| SyncEventView::Succeeded,
            ),
        ) == if steps == 2 * remotes {
            SyncState::Analysing
        } else if steps % 2 == 0 {
            SyncState::ConfiguringRemote((steps / 2) as usize)
        } else {
            SyncState::FetchingRemote((steps / 2) as usize)
        },
    decreases steps,
{
    let head = seq![SyncEventView::PathChecked(true), SyncEventView::Succeeded];
    let events = head + Seq::new(steps, |i: int| SyncEventView::Succeeded);
    if steps == 0 {
        assert(events =~= head);
        assert(head.drop_last() =~= seq![SyncEventView::PathChecked(true)]);
        assert(head.drop_last().drop_last() =~= Seq::empty());
        reveal_with_fuel(sync_state_after, 3);
    } else {
        let before = head + Seq::new((steps - 1) as nat, |i: int| SyncEventView::Succeeded);
        lemma_update_progress(remotes, options, (steps - 1) as nat);
        assert(events.drop_last() =~= before);
        assert(events.last() == SyncEventView::Succeeded);
    }
}

/// Synchronising twice in a row converges: where every step succeeds, the
/// first run on a project that is not there yet ends in `Cloned`, and a
/// second run, which finds the path and nothing new, ends in `UpToDate`
/// without cloning again.
pub proof fn lemma_sync_twice(remotes: nat, first: SyncOptions, second: SyncOptions)
    requires
        remotes < usize::MAX,
        !second.only_new,
    ensures
        sync_actions(SyncState::Start, remotes, first, clean_clone(remotes)).last()
            == SyncActionView::Finish(SyncStatusView::Cloned),
        sync_actions(SyncState::Start, remotes, second, clean_update(remotes)).last()
            == SyncActionView::Finish(SyncStatusView::UpToDate),
        !sync_actions(SyncState::Start, remotes, second, clean_update(remotes)).contains(
            SyncActionView::Clone,
        ),
{
    let cloning = clean_clone(remotes);
    let cloned = seq![SyncEventView::PathChecked(false), SyncEventView::Succeeded] + Seq::new(
        remotes,
        |i: int| SyncEventView::Succeeded,
    );
    lemma_clone_progress(remotes, first, remotes);
    assert(cloning.take(cloning.len() - 1) =~= cloned);
    let updating = clean_update(remotes);
    let fetched = seq![SyncEventView::PathChecked(true), SyncEventView::Succeeded] + Seq::new(
        2 * remotes,
        |i: int| SyncEventView::Succeeded,
    );
    lemma_update_progress(remotes, second, 2 * remotes);
    assert(updating.take(updating.len() - 1) =~= fetched);
    lemma_existing_project_is_never_cloned(remotes, second, updating);
}

} // verus!
