//! What a unit of work reports, and how the reports of a run add up.

use vstd::prelude::*;
use vstd::string::*;

verus! {

/// Why a unit of work failed.
#[derive(Debug, Clone, PartialEq, Eq)]
pub enum FailureReason {
    NotARepo,
    NetworkError,
    DivergedHistory,
    DirtyWorkingTree,
    Other(String),
}

/// A failure as a value.
pub enum FailureView {
    NotARepo,
    NetworkError,
    DivergedHistory,
    DirtyWorkingTree,
    Other(Seq<char>),
}

impl View for FailureReason {
    type V = FailureView;

    open spec fn view(&self) -> FailureView {
        match *self {
            FailureReason::NotARepo => FailureView::NotARepo,
            FailureReason::NetworkError => FailureView::NetworkError,
            FailureReason::DivergedHistory => FailureView::DivergedHistory,
            FailureReason::DirtyWorkingTree => FailureView::DirtyWorkingTree,
            FailureReason::Other(message) => FailureView::Other(message@),
        }
    }
}

/// How the synchronisation of one project ended.
#[derive(Debug, Clone, PartialEq, Eq)]
pub enum SyncStatus {
    Cloned,
    Updated,
    UpToDate,
    Skipped,
    Failed(FailureReason),
}

/// A synchronisation status as a value.
pub enum SyncStatusView {
    Cloned,
    Updated,
    UpToDate,
    Skipped,
    Failed(FailureView),
}

impl View for SyncStatus {
    type V = SyncStatusView;

    open spec fn view(&self) -> SyncStatusView {
        match *self {
            SyncStatus::Cloned => SyncStatusView::Cloned,
            SyncStatus::Updated => SyncStatusView::Updated,
            SyncStatus::UpToDate => SyncStatusView::UpToDate,
            SyncStatus::Skipped => SyncStatusView::Skipped,
            SyncStatus::Failed(reason) => SyncStatusView::Failed(reason@),
        }
    }
}

/// How a command that was run for one project ended.
#[derive(Debug, Clone, PartialEq, Eq)]
pub enum CommandStatus {
    /// The command ran and exited with this status.
    ExitCode(i32),
    Failed(FailureReason),
}

/// A command status as a value.
pub enum CommandStatusView {
    ExitCode(int),
    Failed(FailureView),
}

impl View for CommandStatus {
    type V = CommandStatusView;

    open spec fn view(&self) -> CommandStatusView {
        match *self {
            CommandStatus::ExitCode(code) => CommandStatusView::ExitCode(code as int),
            CommandStatus::Failed(reason) => CommandStatusView::Failed(reason@),
        }
    }
}

/// The record of one project's synchronisation.
#[derive(Debug, Clone, PartialEq, Eq)]
pub struct SyncOutcome {
    pub project: String,
    pub status: SyncStatus,
    /// What the processes printed.
    pub log: String,
}

/// The record of one project's command.
#[derive(Debug, Clone, PartialEq, Eq)]
pub struct CommandOutcome {
    pub project: String,
    pub status: CommandStatus,
    /// What the command printed.
    pub log: String,
}

/// The statuses of `outcomes`, in their order.
pub open spec fn sync_statuses(outcomes: Seq<SyncOutcome>) -> Seq<SyncStatusView> {
    Seq::new(outcomes.len(), |i: int| outcomes[i].status@)
}

/// The statuses of `outcomes`, in their order.
pub open spec fn command_statuses(outcomes: Seq<CommandOutcome>) -> Seq<CommandStatusView> {
    Seq::new(outcomes.len(), |i: int| outcomes[i].status@)
}

/// The message of a command that could not be started.
pub open spec fn command_not_found() -> Seq<char> {
    "command not found"@
}

/// The status of a command from what became of its process: the exit
/// status where it ran, and a failure, not a crash, where it could not be
/// started.
pub open spec fn status_of_exit(exit: Option<i32>) -> CommandStatusView {
    match exit {
        Some(code) => CommandStatusView::ExitCode(code as int),
        None => CommandStatusView::Failed(FailureView::Other(command_not_found())),
    }
}

/// The status of a command whose process exited with `exit`, or could not
/// be started where `exit` is `None`.
pub fn command_status(exit: Option<i32>) -> (status: CommandStatus)
    ensures
        status@ == status_of_exit(exit),
{
    match exit {
        Some(code) => CommandStatus::ExitCode(code),
        None => CommandStatus::Failed(FailureReason::Other(String::from_str("command not found"))),
    }
}

/// How many members of `s` satisfy `pred`.
pub open spec fn count_where<T>(s: Seq<T>, pred: spec_fn(T) -> bool) -> nat {
    s.filter(pred).len()
}

/// One member more counts for one more if it satisfies `pred`, and for
/// nothing if it does not.
pub proof fn lemma_count_push<T>(s: Seq<T>, x: T, pred: spec_fn(T) -> bool)
    ensures
        count_where(s.push(x), pred) == count_where(s, pred) + if pred(x) {
            1nat
        } else {
            0nat
        },
        count_where(s, pred) <= s.len(),
{
    s.lemma_filter_push(x, pred);
    s.lemma_filter_len(pred);
}

/// The count of a list in two parts is the sum of the counts of the parts.
pub proof fn lemma_count_concat<T>(a: Seq<T>, b: Seq<T>, pred: spec_fn(T) -> bool)
    ensures
        count_where(a + b, pred) == count_where(a, pred) + count_where(b, pred),
{
    Seq::filter_distributes_over_add(a, b, pred);
}

/// Taking one member out lowers the count by one if it satisfies `pred`.
pub proof fn lemma_count_remove<T>(s: Seq<T>, i: int, pred: spec_fn(T) -> bool)
    requires
        0 <= i < s.len(),
    ensures
        count_where(s, pred) == count_where(s.remove(i), pred) + if pred(s[i]) {
            1nat
        } else {
            0nat
        },
{
    let front = s.take(i);
    let back = s.skip(i + 1);
    assert(s =~= front.push(s[i]) + back);
    assert(s.remove(i) =~= front + back);
    lemma_count_concat(front.push(s[i]), back, pred);
    lemma_count_concat(front, back, pred);
    lemma_count_push(front, s[i], pred);
}

/// A count does not depend on the order of the list: lists that hold the
/// same members equally often have the same count.
pub proof fn lemma_count_permutation<T>(a: Seq<T>, b: Seq<T>, pred: spec_fn(T) -> bool)
    requires
        a.to_multiset() == b.to_multiset(),
    ensures
        count_where(a, pred) == count_where(b, pred),
    decreases a.len(),
{
    broadcast use vstd::seq_lib::group_to_multiset_ensures;

    a.to_multiset_ensures();
    b.to_multiset_ensures();
    if a.len() == 0 {
        assert(b.len() == 0);
        assert(a =~= b);
    } else {
        let x = a.last();
        let shorter = a.drop_last();
        assert(a.to_multiset().count(x) > 0);
        assert(b.to_multiset().contains(x));
        assert(b.contains(x));
        let i = choose|i: int| 0 <= i < b.len() && b[i] == x;
        let rest = b.remove(i);
        assert(shorter =~= a.remove(a.len() - 1));
        assert(shorter.to_multiset() =~= rest.to_multiset());
        lemma_count_permutation(shorter, rest, pred);
        lemma_count_remove(b, i, pred);
        lemma_count_remove(a, a.len() - 1, pred);
    }
}

/// The kinds of outcome that a summary counts.
#[derive(Debug, Clone, Copy, PartialEq, Eq)]
pub enum Category {
    /// The project was cloned.
    Cloned,
    /// The project was brought up to date.
    Updated,
    /// The project was up to date already.
    UpToDate,
    /// The project was left alone.
    Skipped,
    /// The command exited with status 0.
    Succeeded,
    /// The command exited with another status.
    ExitedNonZero,
    /// Failed: the directory holds no repository.
    NotARepo,
    /// Failed: the remote could not be reached.
    NetworkError,
    /// Failed: the histories have diverged.
    DivergedHistory,
    /// Failed: the working tree has changes.
    DirtyWorkingTree,
    /// Failed for another reason.
    Other,
}

impl Category {
    /// Whether an outcome of this kind is a success: the work was done, or
    /// rightly left undone.
    pub open spec fn is_success(self) -> bool {
        self is Cloned || self is Updated || self is UpToDate || self is Skipped
            || self is Succeeded
    }

    /// Whether an outcome of this kind is a failure with a reason.
    pub open spec fn is_failure(self) -> bool {
        self is NotARepo || self is NetworkError || self is DivergedHistory
            || self is DirtyWorkingTree || self is Other
    }
}

/// The kind of a failure.
pub open spec fn failure_category(reason: FailureView) -> Category {
    match reason {
        FailureView::NotARepo => Category::NotARepo,
        FailureView::NetworkError => Category::NetworkError,
        FailureView::DivergedHistory => Category::DivergedHistory,
        FailureView::DirtyWorkingTree => Category::DirtyWorkingTree,
        FailureView::Other(_) => Category::Other,
    }
}

/// The kind of a synchronisation status.
pub open spec fn sync_category(status: SyncStatusView) -> Category {
    match status {
        SyncStatusView::Cloned => Category::Cloned,
        SyncStatusView::Updated => Category::Updated,
        SyncStatusView::UpToDate => Category::UpToDate,
        SyncStatusView::Skipped => Category::Skipped,
        SyncStatusView::Failed(reason) => failure_category(reason),
    }
}

/// The kind of a command status.
pub open spec fn command_category(status: CommandStatusView) -> Category {
    match status {
        CommandStatusView::ExitCode(code) => if code == 0 {
            Category::Succeeded
        } else {
            Category::ExitedNonZero
        },
        CommandStatusView::Failed(reason) => failure_category(reason),
    }
}

/// The kinds of `statuses`, in their order.
pub open spec fn sync_categories(statuses: Seq<SyncStatusView>) -> Seq<Category> {
    Seq::new(statuses.len(), |i: int| sync_category(statuses[i]))
}

/// The kinds of `statuses`, in their order.
pub open spec fn command_categories(statuses: Seq<CommandStatusView>) -> Seq<Category> {
    Seq::new(statuses.len(), |i: int| command_category(statuses[i]))
}

/// The test for the kind `category`.
pub open spec fn of_kind(category: Category) -> spec_fn(Category) -> bool {
    |c: Category| c == category
}

/// The test for a success.
pub open spec fn succeeding() -> spec_fn(Category) -> bool {
    |c: Category| c.is_success()
}

/// The test for a failure with a reason.
pub open spec fn failing() -> spec_fn(Category) -> bool {
    |c: Category| c.is_failure()
}

/// The test that holds where `pred` does not.
pub open spec fn negated<T>(pred: spec_fn(T) -> bool) -> spec_fn(T) -> bool {
    |x: T| !pred(x)
}

/// How many outcomes of a run were of the kind `category`.
pub open spec fn count_of(categories: Seq<Category>, category: Category) -> nat {
    count_where(categories, of_kind(category))
}

/// The counts of a run, one for each kind of outcome.
pub struct Tally {
    pub cloned: nat,
    pub updated: nat,
    pub up_to_date: nat,
    pub skipped: nat,
    pub succeeded: nat,
    pub exited_nonzero: nat,
    pub not_a_repo: nat,
    pub network_error: nat,
    pub diverged_history: nat,
    pub dirty_working_tree: nat,
    pub other: nat,
}

impl Tally {
    /// The count for `category`.
    pub open spec fn of(self, category: Category) -> nat {
        match category {
            Category::Cloned => self.cloned,
            Category::Updated => self.updated,
            Category::UpToDate => self.up_to_date,
            Category::Skipped => self.skipped,
            Category::Succeeded => self.succeeded,
            Category::ExitedNonZero => self.exited_nonzero,
            Category::NotARepo => self.not_a_repo,
            Category::NetworkError => self.network_error,
            Category::DivergedHistory => self.diverged_history,
            Category::DirtyWorkingTree => self.dirty_working_tree,
            Category::Other => self.other,
        }
    }

    /// The counts with one more outcome of the kind `category`.
    pub open spec fn with(self, category: Category) -> Tally {
        match category {
            Category::Cloned => Tally { cloned: self.cloned + 1, ..self },
            Category::Updated => Tally { updated: self.updated + 1, ..self },
            Category::UpToDate => Tally { up_to_date: self.up_to_date + 1, ..self },
            Category::Skipped => Tally { skipped: self.skipped + 1, ..self },
            Category::Succeeded => Tally { succeeded: self.succeeded + 1, ..self },
            Category::ExitedNonZero => Tally { exited_nonzero: self.exited_nonzero + 1, ..self },
            Category::NotARepo => Tally { not_a_repo: self.not_a_repo + 1, ..self },
            Category::NetworkError => Tally { network_error: self.network_error + 1, ..self },
            Category::DivergedHistory => Tally { diverged_history: self.diverged_history + 1, ..self },
            Category::DirtyWorkingTree => Tally { dirty_working_tree: self.dirty_working_tree + 1, ..self },
            Category::Other => Tally { other: self.other + 1, ..self },
        }
    }

    /// The counts of two runs taken together.
    pub open spec fn plus(self, other: Tally) -> Tally {
        Tally {
            cloned: self.cloned + other.cloned,
            updated: self.updated + other.updated,
            up_to_date: self.up_to_date + other.up_to_date,
            skipped: self.skipped + other.skipped,
            succeeded: self.succeeded + other.succeeded,
            exited_nonzero: self.exited_nonzero + other.exited_nonzero,
            not_a_repo: self.not_a_repo + other.not_a_repo,
            network_error: self.network_error + other.network_error,
            diverged_history: self.diverged_history + other.diverged_history,
            dirty_working_tree: self.dirty_working_tree + other.dirty_working_tree,
            other: self.other + other.other,
        }
    }

    /// The number of failures with a reason.
    pub open spec fn failed(self) -> nat {
        self.not_a_repo + self.network_error + self.diverged_history + self.dirty_working_tree
            + self.other
    }

    /// The number of successes.
    pub open spec fn succeeded(self) -> nat {
        self.cloned + self.updated + self.up_to_date + self.skipped + self.succeeded
    }

    /// The number of outcomes.
    pub open spec fn total(self) -> nat {
        self.succeeded() + self.exited_nonzero + self.failed()
    }

    /// The exit status of the process: 0 if every unit of work succeeded,
    /// and 1 if any failed or exited with another status than 0.
    pub open spec fn exit_status(self) -> int {
        if self.failed() == 0 && self.exited_nonzero == 0 {
            0
        } else {
            1
        }
    }
}

/// The counts of the outcomes of the kinds `categories`.
pub open spec fn tally(categories: Seq<Category>) -> Tally {
    Tally {
        cloned: count_of(categories, Category::Cloned),
        updated: count_of(categories, Category::Updated),
        up_to_date: count_of(categories, Category::UpToDate),
        skipped: count_of(categories, Category::Skipped),
        succeeded: count_of(categories, Category::Succeeded),
        exited_nonzero: count_of(categories, Category::ExitedNonZero),
        not_a_repo: count_of(categories, Category::NotARepo),
        network_error: count_of(categories, Category::NetworkError),
        diverged_history: count_of(categories, Category::DivergedHistory),
        dirty_working_tree: count_of(categories, Category::DirtyWorkingTree),
        other: count_of(categories, Category::Other),
    }
}

/// The counts of no outcome.
pub open spec fn empty_tally() -> Tally {
    Tally {
        cloned: 0,
        updated: 0,
        up_to_date: 0,
        skipped: 0,
        succeeded: 0,
        exited_nonzero: 0,
        not_a_repo: 0,
        network_error: 0,
        diverged_history: 0,
        dirty_working_tree: 0,
        other: 0,
    }
}

/// One outcome more counts for its own kind only.
pub proof fn lemma_count_of_push(categories: Seq<Category>, added: Category, category: Category)
    ensures
        count_of(categories.push(added), category) == count_of(categories, category) + if added
            == category {
            1nat
        } else {
            0nat
        },
{
    lemma_count_push(categories, added, of_kind(category));
}

/// The count of a kind does not depend on the order of the outcomes.
pub proof fn lemma_count_of_permutation(a: Seq<Category>, b: Seq<Category>, category: Category)
    requires
        a.to_multiset() == b.to_multiset(),
    ensures
        count_of(a, category) == count_of(b, category),
{
    lemma_count_permutation(a, b, of_kind(category));
}

/// The count of a kind in a list in two parts is the sum over the parts.
pub proof fn lemma_count_of_concat(a: Seq<Category>, b: Seq<Category>, category: Category)
    ensures
        count_of(a + b, category) == count_of(a, category) + count_of(b, category),
{
    lemma_count_concat(a, b, of_kind(category));
}

/// One outcome more adds one to the count of its kind and leaves the other
/// counts alone.
pub proof fn lemma_tally_push(categories: Seq<Category>, category: Category)
    ensures
        tally(categories.push(category)) == tally(categories).with(category),
{
    lemma_count_of_push(categories, category, Category::Cloned);
    lemma_count_of_push(categories, category, Category::Updated);
    lemma_count_of_push(categories, category, Category::UpToDate);
    lemma_count_of_push(categories, category, Category::Skipped);
    lemma_count_of_push(categories, category, Category::Succeeded);
    lemma_count_of_push(categories, category, Category::ExitedNonZero);
    lemma_count_of_push(categories, category, Category::NotARepo);
    lemma_count_of_push(categories, category, Category::NetworkError);
    lemma_count_of_push(categories, category, Category::DivergedHistory);
    lemma_count_of_push(categories, category, Category::DirtyWorkingTree);
    lemma_count_of_push(categories, category, Category::Other);
}

/// No outcome, no counts.
pub proof fn lemma_tally_empty()
    ensures
        tally(Seq::empty()) == empty_tally(),
{
    reveal(Seq::filter);
}

/// The counts of a run in two parts are the sums of the counts of the
/// parts.
pub proof fn lemma_tally_concat(a: Seq<Category>, b: Seq<Category>)
    ensures
        tally(a + b) == tally(a).plus(tally(b)),
{
    lemma_count_of_concat(a, b, Category::Cloned);
    lemma_count_of_concat(a, b, Category::Updated);
    lemma_count_of_concat(a, b, Category::UpToDate);
    lemma_count_of_concat(a, b, Category::Skipped);
    lemma_count_of_concat(a, b, Category::Succeeded);
    lemma_count_of_concat(a, b, Category::ExitedNonZero);
    lemma_count_of_concat(a, b, Category::NotARepo);
    lemma_count_of_concat(a, b, Category::NetworkError);
    lemma_count_of_concat(a, b, Category::DivergedHistory);
    lemma_count_of_concat(a, b, Category::DirtyWorkingTree);
    lemma_count_of_concat(a, b, Category::Other);
}

/// Adding counts up is commutative and associative, and the empty tally
/// changes nothing.
pub proof fn lemma_tally_plus_monoid(a: Tally, b: Tally, c: Tally)
    ensures
        a.plus(b) == b.plus(a),
        a.plus(b).plus(c) == a.plus(b.plus(c)),
        a.plus(empty_tally()) == a,
        empty_tally().plus(a) == a,
{
}

/// The counts do not depend on the order in which the outcomes came in.
pub proof fn lemma_tally_permutation(a: Seq<Category>, b: Seq<Category>)
    requires
        a.to_multiset() == b.to_multiset(),
    ensures
        tally(a) == tally(b),
{
    lemma_count_of_permutation(a, b, Category::Cloned);
    lemma_count_of_permutation(a, b, Category::Updated);
    lemma_count_of_permutation(a, b, Category::UpToDate);
    lemma_count_of_permutation(a, b, Category::Skipped);
    lemma_count_of_permutation(a, b, Category::Succeeded);
    lemma_count_of_permutation(a, b, Category::ExitedNonZero);
    lemma_count_of_permutation(a, b, Category::NotARepo);
    lemma_count_of_permutation(a, b, Category::NetworkError);
    lemma_count_of_permutation(a, b, Category::DivergedHistory);
    lemma_count_of_permutation(a, b, Category::DirtyWorkingTree);
    lemma_count_of_permutation(a, b, Category::Other);
}

/// Every outcome is counted once.
pub proof fn lemma_tally_total(categories: Seq<Category>)
    ensures
        tally(categories).total() == categories.len(),
    decreases categories.len(),
{
    if categories.len() == 0 {
        assert(categories =~= Seq::empty());
        lemma_tally_empty();
    } else {
        let shorter = categories.drop_last();
        lemma_tally_total(shorter);
        lemma_tally_push(shorter, categories.last());
        assert(shorter.push(categories.last()) =~= categories);
    }
}

/// The failures counted are the outcomes of a failing kind, the successes
/// those of a succeeding kind.
pub proof fn lemma_tally_failed(categories: Seq<Category>)
    ensures
        tally(categories).failed() == count_where(categories, failing()),
        tally(categories).succeeded() == count_where(categories, succeeding()),
    decreases categories.len(),
{
    if categories.len() == 0 {
        assert(categories =~= Seq::empty());
        lemma_tally_empty();
        reveal(Seq::filter);
    } else {
        let shorter = categories.drop_last();
        lemma_tally_failed(shorter);
        lemma_tally_push(shorter, categories.last());
        lemma_count_push(shorter, categories.last(), failing());
        lemma_count_push(shorter, categories.last(), succeeding());
        assert(shorter.push(categories.last()) =~= categories);
    }
}

/// Nothing is counted where nothing satisfies `pred`, and only there.
pub proof fn lemma_count_zero<T>(s: Seq<T>, pred: spec_fn(T) -> bool)
    ensures
        count_where(s, pred) == 0 <==> forall|i: int| 0 <= i < s.len() ==> !pred(s[i]),
    decreases s.len(),
{
    reveal(Seq::filter);
    if s.len() > 0 {
        let shorter = s.drop_last();
        lemma_count_zero(shorter, pred);
        lemma_count_push(shorter, s.last(), pred);
        assert(shorter.push(s.last()) =~= s);
        if count_where(s, pred) == 0 {
            assert forall|i: int| 0 <= i < s.len() implies !pred(s[i]) by {
                if i < s.len() - 1 {
                    assert(shorter[i] == s[i]);
                }
            }
        } else {
            if forall|i: int| 0 <= i < s.len() ==> !pred(s[i]) {
                assert(!pred(s[s.len() - 1]));
                assert forall|i: int| 0 <= i < shorter.len() implies !pred(shorter[i]) by {
                    assert(shorter[i] == s[i]);
                }
            }
        }
    }
}

/// One is counted where one member satisfies `pred` and no other does.
pub proof fn lemma_count_single<T>(s: Seq<T>, pred: spec_fn(T) -> bool, k: int)
    requires
        0 <= k < s.len(),
        pred(s[k]),
        forall|i: int| 0 <= i < s.len() && i != k ==> !pred(s[i]),
    ensures
        count_where(s, pred) == 1,
{
    lemma_count_remove(s, k, pred);
    let rest = s.remove(k);
    lemma_count_zero(rest, pred);
    assert forall|i: int| 0 <= i < rest.len() implies !pred(rest[i]) by {
        assert(rest[i] == s[if i < k { i } else { i + 1 }]);
    }
}

/// The exit status is 0 exactly when every outcome is a success.
pub proof fn lemma_exit_status(categories: Seq<Category>)
    ensures
        tally(categories).exit_status() == 0 <==> forall|i: int|
            0 <= i < categories.len() ==> categories[i].is_success(),
        tally(categories).exit_status() == 0 || tally(categories).exit_status() == 1,
{
    lemma_tally_failed(categories);
    lemma_tally_total(categories);
    lemma_count_zero(categories, negated(succeeding()));
    lemma_count_split(categories, succeeding());
}

/// Every member either satisfies `pred` or does not.
pub proof fn lemma_count_split<T>(s: Seq<T>, pred: spec_fn(T) -> bool)
    ensures
        count_where(s, pred) + count_where(s, negated(pred)) == s.len(),
    decreases s.len(),
{
    reveal(Seq::filter);
    if s.len() > 0 {
        let shorter = s.drop_last();
        lemma_count_split(shorter, pred);
        lemma_count_push(shorter, s.last(), pred);
        lemma_count_push(shorter, s.last(), negated(pred));
        assert(shorter.push(s.last()) =~= s);
    }
}

/// The counts of a run, one for each kind of outcome.
#[derive(Debug, Clone, Copy, PartialEq, Eq)]
pub struct Summary {
    pub cloned: usize,
    pub updated: usize,
    pub up_to_date: usize,
    pub skipped: usize,
    pub succeeded: usize,
    pub exited_nonzero: usize,
    pub not_a_repo: usize,
    pub network_error: usize,
    pub diverged_history: usize,
    pub dirty_working_tree: usize,
    pub other: usize,
}

impl View for Summary {
    type V = Tally;

    open spec fn view(&self) -> Tally {
        Tally {
            cloned: self.cloned as nat,
            updated: self.updated as nat,
            up_to_date: self.up_to_date as nat,
            skipped: self.skipped as nat,
            succeeded: self.succeeded as nat,
            exited_nonzero: self.exited_nonzero as nat,
            not_a_repo: self.not_a_repo as nat,
            network_error: self.network_error as nat,
            diverged_history: self.diverged_history as nat,
            dirty_working_tree: self.dirty_working_tree as nat,
            other: self.other as nat,
        }
    }
}

/// The kind of the failure `reason`.
pub fn category_of_failure(reason: &FailureReason) -> (category: Category)
    ensures
        category == failure_category(reason@),
{
    match reason {
        FailureReason::NotARepo => Category::NotARepo,
        FailureReason::NetworkError => Category::NetworkError,
        FailureReason::DivergedHistory => Category::DivergedHistory,
        FailureReason::DirtyWorkingTree => Category::DirtyWorkingTree,
        FailureReason::Other(_) => Category::Other,
    }
}

/// The kind of the synchronisation status `status`.
pub fn category_of_sync(status: &SyncStatus) -> (category: Category)
    ensures
        category == sync_category(status@),
{
    match status {
        SyncStatus::Cloned => Category::Cloned,
        SyncStatus::Updated => Category::Updated,
        SyncStatus::UpToDate => Category::UpToDate,
        SyncStatus::Skipped => Category::Skipped,
        SyncStatus::Failed(reason) => category_of_failure(reason),
    }
}

/// The kind of the command status `status`.
pub fn category_of_command(status: &CommandStatus) -> (category: Category)
    ensures
        category == command_category(status@),
{
    match status {
        CommandStatus::ExitCode(code) => if *code == 0 {
            Category::Succeeded
        } else {
            Category::ExitedNonZero
        },
        CommandStatus::Failed(reason) => category_of_failure(reason),
    }
}

impl Default for Summary {
    fn default() -> (summary: Summary)
        ensures
            summary@ == empty_tally(),
    {
        Summary::new()
    }
}

impl Summary {
    /// The summary of a run without outcomes.
    pub fn new() -> (summary: Summary)
        ensures
            summary@ == empty_tally(),
    {
        Summary {
            cloned: 0,
            updated: 0,
            up_to_date: 0,
            skipped: 0,
            succeeded: 0,
            exited_nonzero: 0,
            not_a_repo: 0,
            network_error: 0,
            diverged_history: 0,
            dirty_working_tree: 0,
            other: 0,
        }
    }

    /// Counts one more outcome of the kind `category`.
    pub fn record(&mut self, category: Category)
        requires
            old(self)@.total() < usize::MAX,
        ensures
            final(self)@ == old(self)@.with(category),
    {
        match category {
            Category::Cloned => {
                self.cloned = self.cloned + 1;
            },
            Category::Updated => {
                self.updated = self.updated + 1;
            },
            Category::UpToDate => {
                self.up_to_date = self.up_to_date + 1;
            },
            Category::Skipped => {
                self.skipped = self.skipped + 1;
            },
            Category::Succeeded => {
                self.succeeded = self.succeeded + 1;
            },
            Category::ExitedNonZero => {
                self.exited_nonzero = self.exited_nonzero + 1;
            },
            Category::NotARepo => {
                self.not_a_repo = self.not_a_repo + 1;
            },
            Category::NetworkError => {
                self.network_error = self.network_error + 1;
            },
            Category::DivergedHistory => {
                self.diverged_history = self.diverged_history + 1;
            },
            Category::DirtyWorkingTree => {
                self.dirty_working_tree = self.dirty_working_tree + 1;
            },
            Category::Other => {
                self.other = self.other + 1;
            },
        }
    }

    /// The number of failures with a reason.
    pub fn failed(&self) -> (n: usize)
        requires
            self@.total() <= usize::MAX,
        ensures
            n == self@.failed(),
    {
        self.not_a_repo + self.network_error + self.diverged_history + self.dirty_working_tree
            + self.other
    }

    /// The number of outcomes.
    pub fn total(&self) -> (n: usize)
        requires
            self@.total() <= usize::MAX,
        ensures
            n == self@.total(),
    {
        self.cloned + self.updated + self.up_to_date + self.skipped + self.succeeded
            + self.exited_nonzero + self.failed()
    }

    /// The exit status of the process: 0 if every unit of work succeeded,
    /// 1 if any failed or exited with another status than 0.
    pub fn exit_status(&self) -> (status: i32)
        ensures
            status == self@.exit_status(),
    {
        if self.not_a_repo == 0 && self.network_error == 0 && self.diverged_history == 0
            && self.dirty_working_tree == 0 && self.other == 0 && self.exited_nonzero == 0 {
            0
        } else {
            1
        }
    }
}

/// The counts of the synchronisation outcomes `outcomes`.
pub fn summarize_sync(outcomes: &Vec<SyncOutcome>) -> (summary: Summary)
    ensures
        summary@ == tally(sync_categories(sync_statuses(outcomes@))),
        summary@.total() == outcomes@.len(),
{
    let ghost categories = sync_categories(sync_statuses(outcomes@));
    let mut summary = Summary::new();
    let mut i: usize = 0;
    proof {
        lemma_tally_empty();
        assert(categories.take(0) =~= Seq::empty());
    }
    while i < outcomes.len()
        invariant
            i <= outcomes@.len(),
            categories == sync_categories(sync_statuses(outcomes@)),
            summary@ == tally(categories.take(i as int)),
        decreases outcomes@.len() - i,
    {
        proof {
            lemma_tally_total(categories.take(i as int));
            lemma_tally_push(categories.take(i as int), categories[i as int]);
            assert(categories.take(i as int).push(categories[i as int]) =~= categories.take(i + 1));
        }
        summary.record(category_of_sync(&outcomes[i].status));
        i += 1;
    }
    proof {
        assert(categories.take(outcomes@.len() as int) =~= categories);
        lemma_tally_total(categories);
    }
    summary
}

/// The counts of the command outcomes `outcomes`.
pub fn summarize_commands(outcomes: &Vec<CommandOutcome>) -> (summary: Summary)
    ensures
        summary@ == tally(command_categories(command_statuses(outcomes@))),
        summary@.total() == outcomes@.len(),
{
    let ghost categories = command_categories(command_statuses(outcomes@));
    let mut summary = Summary::new();
    let mut i: usize = 0;
    proof {
        lemma_tally_empty();
        assert(categories.take(0) =~= Seq::empty());
    }
    while i < outcomes.len()
        invariant
            i <= outcomes@.len(),
            categories == command_categories(command_statuses(outcomes@)),
            summary@ == tally(categories.take(i as int)),
        decreases outcomes@.len() - i,
    {
        proof {
            lemma_tally_total(categories.take(i as int));
            lemma_tally_push(categories.take(i as int), categories[i as int]);
            assert(categories.take(i as int).push(categories[i as int]) =~= categories.take(i + 1));
        }
        summary.record(category_of_command(&outcomes[i].status));
        i += 1;
    }
    proof {
        assert(categories.take(outcomes@.len() as int) =~= categories);
        lemma_tally_total(categories);
    }
    summary
}

} // verus!
