use fw::git::{analyse, classify_failure, mentions_phrase};
use fw::outcome::FailureReason;
use fw::sync::MergeAnalysis;

#[test]
fn the_branch_is_up_to_date_when_it_holds_all_that_was_fetched() {
    assert_eq!(analyse(true, true), MergeAnalysis::UpToDate);
    assert_eq!(analyse(true, false), MergeAnalysis::UpToDate);
}

#[test]
fn the_branch_can_move_forward_when_it_has_nothing_of_its_own() {
    assert_eq!(analyse(false, true), MergeAnalysis::FastForward);
}

#[test]
fn the_histories_have_diverged_when_both_sides_have_their_own() {
    assert_eq!(analyse(false, false), MergeAnalysis::Diverged);
}

#[test]
fn a_phrase_is_found_wherever_it_stands() {
    let texts = ["", "a", "abc", "aab", "abab", "fatal: not a git repository", "grüße", "日本語"];
    let phrases = ["", "a", "b", "ab", "bc", "abc", "abcd", "aab", "bab", "not a git", "ü", "本", "ß"];
    for text in texts {
        for phrase in phrases {
            assert_eq!(
                mentions_phrase(text, phrase),
                text.contains(phrase),
                "{:?} in {:?}",
                phrase,
                text
            );
        }
    }
}

#[test]
fn a_missing_repository_is_told_from_the_complaint() {
    assert_eq!(
        classify_failure("fatal: not a git repository (or any of the parent directories): .git"),
        FailureReason::NotARepo
    );
}

#[test]
fn an_unreachable_remote_is_a_network_error() {
    assert_eq!(
        classify_failure("fatal: unable to access 'https://example.org/api.git/': timeout"),
        FailureReason::NetworkError
    );
    assert_eq!(
        classify_failure("ssh: Could not resolve hostname example.org\nfatal: Could not read from remote repository."),
        FailureReason::NetworkError
    );
    assert_eq!(
        classify_failure("curl: (6) Could not resolve host: example.org"),
        FailureReason::NetworkError
    );
}

#[test]
fn a_refused_fast_forward_is_diverged_history() {
    assert_eq!(
        classify_failure("fatal: Not possible to fast-forward, aborting."),
        FailureReason::DivergedHistory
    );
}

#[test]
fn local_changes_in_the_way_are_a_dirty_working_tree() {
    assert_eq!(
        classify_failure(
            "error: Your local changes to the following files would be overwritten by merge:\n\tREADME.md"
        ),
        FailureReason::DirtyWorkingTree
    );
}

#[test]
fn any_other_complaint_is_kept_as_the_message() {
    assert_eq!(
        classify_failure("fatal: destination path 'api' already exists and is not an empty directory."),
        FailureReason::Other(String::from(
            "fatal: destination path 'api' already exists and is not an empty directory."
        ))
    );
    assert_eq!(classify_failure(""), FailureReason::Other(String::new()));
}

#[test]
fn the_first_phrase_that_applies_decides() {
    assert_eq!(
        classify_failure("fatal: not a git repository; also unable to access the remote"),
        FailureReason::NotARepo
    );
}
