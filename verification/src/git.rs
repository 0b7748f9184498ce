//! Reading what git says: what its answers mean for the working branch, and
//! which kind of failure its complaints stand for. Running git is the
//! caller's part.

use vstd::prelude::*;
use vstd::string::*;
use vstd::utf8::*;
use crate::outcome::{FailureReason, FailureView};
use crate::sync::MergeAnalysis;

verus! {

/// How the working branch stands to what was fetched, from two facts:
/// whether everything fetched is in the branch already, and whether
/// everything in the branch is in what was fetched.
pub open spec fn merge_analysis(fetched_in_branch: bool, branch_in_fetched: bool) -> MergeAnalysis {
    if fetched_in_branch {
        MergeAnalysis::UpToDate
    } else if branch_in_fetched {
        MergeAnalysis::FastForward
    } else {
        MergeAnalysis::Diverged
    }
}

/// How the working branch stands to what was fetched: up to date where
/// everything fetched is in the branch already; else ready for a
/// fast-forward where the branch has nothing of its own; else diverged.
pub fn analyse(fetched_in_branch: bool, branch_in_fetched: bool) -> (analysis: MergeAnalysis)
    ensures
        analysis == merge_analysis(fetched_in_branch, branch_in_fetched),
{
    if fetched_in_branch {
        MergeAnalysis::UpToDate
    } else if branch_in_fetched {
        MergeAnalysis::FastForward
    } else {
        MergeAnalysis::Diverged
    }
}

/// Whether the bytes `needle` stand in `hay` from place `i` on.
pub open spec fn occurs_at(hay: Seq<u8>, needle: Seq<u8>, i: int) -> bool {
    0 <= i && i + needle.len() <= hay.len() && hay.subrange(i, i + needle.len()) == needle
}

/// Whether the bytes `needle` stand somewhere in `hay`.
pub open spec fn occurs_in(hay: Seq<u8>, needle: Seq<u8>) -> bool {
    exists|i: int| occurs_at(hay, needle, i)
}

/// Whether `text` holds `phrase`: whether the UTF-8 encoding of `phrase`
/// stands somewhere in that of `text`.
pub open spec fn mentions(text: Seq<char>, phrase: Seq<char>) -> bool {
    occurs_in(encode_utf8(text), encode_utf8(phrase))
}

/// Whether `text` holds `phrase`.
pub fn mentions_phrase(text: &str, phrase: &str) -> (r: bool)
    ensures
        r == mentions(text@, phrase@),
{
    let hay = text.as_bytes();
    let needle = phrase.as_bytes();
    if needle.len() > hay.len() {
        assert(!occurs_in(hay@, needle@)) by {
            assert forall|i: int| !occurs_at(hay@, needle@, i) by {}
        }
        return false;
    }
    let last = hay.len() - needle.len();
    let mut i: usize = 0;
    assert(hay@.len() <= usize::MAX);
    while i <= last
        invariant
            i <= last + 1,
            last == hay@.len() - needle@.len(),
            hay@.len() <= usize::MAX,
            hay@ == encode_utf8(text@),
            needle@ == encode_utf8(phrase@),
            forall|j: int| 0 <= j < i ==> !occurs_at(hay@, needle@, j),
        decreases last + 1 - i,
    {
        let mut k: usize = 0;
        while k < needle.len() && hay[i + k] == needle[k]
            invariant
                k <= needle@.len(),
                i <= last,
                last == hay@.len() - needle@.len(),
                hay@.len() <= usize::MAX,
                forall|j: int| 0 <= j < k ==> hay@[i + j] == needle@[j],
            decreases needle@.len() - k,
        {
            k += 1;
        }
        if k == needle.len() {
            assert(hay@.subrange(i as int, i + needle@.len()) =~= needle@);
            assert(occurs_at(hay@, needle@, i as int));
            return true;
        }
        assert(!occurs_at(hay@, needle@, i as int)) by {
            if occurs_at(hay@, needle@, i as int) {
                assert(hay@.subrange(i as int, i + needle@.len())[k as int] == needle@[k as int]);
            }
        }
        i += 1;
    }
    assert(!occurs_in(hay@, needle@)) by {
        assert forall|j: int| !occurs_at(hay@, needle@, j) by {}
    }
    false
}

/// The kind of failure that git's complaint `complaint` stands for: by the
/// phrase it holds, the first of these that applies; a complaint that
/// holds none of them is a failure of another kind, with the complaint as
/// its message.
pub open spec fn failure_of(complaint: Seq<char>) -> FailureView {
    if mentions(complaint, "not a git repository"@) {
        FailureView::NotARepo
    } else if mentions(complaint, "Could not resolve host"@) || mentions(
        complaint,
        "Could not read from remote repository"@,
    ) || mentions(complaint, "unable to access"@) {
        FailureView::NetworkError
    } else if mentions(complaint, "Not possible to fast-forward"@) {
        FailureView::DivergedHistory
    } else if mentions(complaint, "would be overwritten"@) {
        FailureView::DirtyWorkingTree
    } else {
        FailureView::Other(complaint)
    }
}

/// The kind of failure that git's complaint `complaint` stands for.
pub fn classify_failure(complaint: &str) -> (reason: FailureReason)
    ensures
        reason@ == failure_of(complaint@),
{
    if mentions_phrase(complaint, "not a git repository") {
        FailureReason::NotARepo
    } else if mentions_phrase(complaint, "Could not resolve host") || mentions_phrase(
        complaint,
        "Could not read from remote repository",
    ) || mentions_phrase(complaint, "unable to access") {
        FailureReason::NetworkError
    } else if mentions_phrase(complaint, "Not possible to fast-forward") {
        FailureReason::DivergedHistory
    } else if mentions_phrase(complaint, "would be overwritten") {
        FailureReason::DirtyWorkingTree
    } else {
        FailureReason::Other(String::from_str(complaint))
    }
}

} // verus!
