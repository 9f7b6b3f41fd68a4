//! Committing on the `work` branch: only what is valid on top of the finalized block.
use vstd::prelude::*;

use crate::data::{BlockHeader, Commit, ReservedState, SemanticCommit};
use crate::error::{Blame, ErrorView};
use crate::hash::{CommitHash, Hash256};
use crate::host::{Reply, RequestView};
use crate::laws::{
    accepted, asked, did, extends, group_past, holds, lemma_holds, lemma_started_kept, up_to,
    verifier_started, Law, Step,
};
use crate::steps::{publish_checkout, publish_clean, publish_commit, publish_plan};
use crate::{FINALIZED_BRANCH_NAME, WORK_BRANCH_NAME};

verus! {

/// The steps that show that `work` is on top of `finalized`, and which commits are between them.
pub open spec fn on_top(
    past: Seq<Step>,
    work: CommitHash,
    last: CommitHash,
    commits: Vec<(Commit, CommitHash)>,
) -> bool {
    &&& asked(past, RequestView::LocateBranch(WORK_BRANCH_NAME@), Reply::Commit(Ok(work)))
    &&& asked(past, RequestView::LocateBranch(FINALIZED_BRANCH_NAME@), Reply::Commit(Ok(last)))
    &&& asked(past, RequestView::FindMergeBase(last, work), Reply::Commit(Ok(last)))
    &&& asked(past, RequestView::ReadCommits(last, work), Reply::Commits(Ok(commits)))
}

/// What a new commit is put on: the last finalized header, the reserved state, the two branches
/// and the commits between them.
pub struct Ground {
    pub header: BlockHeader,
    pub state: ReservedState,
    pub work: CommitHash,
    pub last: CommitHash,
    pub commits: Vec<(Commit, CommitHash)>,
}

/// The steps that show that the commits on `work` are valid on top of the finalized block.
pub open spec fn ground_checked(past: Seq<Step>, ground: Ground) -> bool {
    &&& on_top(past, ground.work, ground.last, ground.commits)
    &&& verifier_started(past, ground.header, ground.state)
    &&& accepted(past, ground.commits@)
}

/// The steps that show that a new commit is valid on top of `work`.
pub open spec fn checked(past: Seq<Step>, ground: Ground, new: Commit) -> bool {
    &&& ground_checked(past, ground)
    &&& did(past, RequestView::ApplyCommit(new))
}

/// The steps that commit on `work`.
pub open spec fn published(past: Seq<Step>, new: Commit, state: ReservedState, commit: CommitHash)
    -> bool {
    &&& did(past, RequestView::Checkout(WORK_BRANCH_NAME@))
    &&& exists|stored: SemanticCommit|
        committed(past, new, state, stored, commit)
}

/// The steps that encode a commit and store it in the repository.
pub open spec fn committed(
    past: Seq<Step>,
    new: Commit,
    state: ReservedState,
    stored: SemanticCommit,
    commit: CommitHash,
) -> bool {
    &&& asked(past, RequestView::EncodeCommit(new, state), Reply::SemanticCommit(Ok(stored)))
    &&& asked(past, RequestView::CreateSemanticCommit(stored), Reply::Commit(Ok(commit)))
}

/// Whether a write is one of those that commit on `work`: the working tree is put on `work` as it
/// was committed, and the encoded form of the new commit is stored.
pub open spec fn writes_work(past: Seq<Step>, request: RequestView, new: Commit, state: ReservedState)
    -> bool {
    match request {
        RequestView::CheckoutClean => true,
        RequestView::Checkout(name) => name == WORK_BRANCH_NAME@,
        RequestView::CreateSemanticCommit(stored) => asked(
            past,
            RequestView::EncodeCommit(new, state),
            Reply::SemanticCommit(Ok(stored)),
        ),
        _ => false,
    }
}

/// The steps that make the branch of a new commit.
pub open spec fn marked(
    past: Seq<Step>,
    new: Commit,
    commit: CommitHash,
    hash: Hash256,
    name: Seq<char>,
) -> bool {
    &&& asked(past, RequestView::HashCommit(new), Reply::Hash(hash))
    &&& did(past, RequestView::CreateBranch(name, commit))
}

/// What is checked stays checked.
pub proof fn lemma_checked(past: Seq<Step>, then: Seq<Step>, ground: Ground)
    requires
        extends(then, past),
    ensures
        ground_checked(past, ground) ==> ground_checked(then, ground),
        forall|new: Commit| #[trigger]
            checked(past, ground, new) ==> checked(then, ground, new),
{
    if ground_checked(past, ground) {
        lemma_started_kept(past, then, ground.header, ground.state);
    }
}

/// What is committed on `work` stays committed there.
pub proof fn lemma_published(
    past: Seq<Step>,
    then: Seq<Step>,
    new: Commit,
    state: ReservedState,
    commit: CommitHash,
)
    requires
        published(past, new, state, commit),
        extends(then, past),
    ensures
        published(then, new, state, commit),
{
    let stored = choose|stored: SemanticCommit| committed(past, new, state, stored, commit);
    assert(committed(then, new, state, stored, commit));
}

/// Committing on `work` makes only the writes of [`writes_work`] and, where it ends well, commits
/// there.
pub proof fn lemma_publish<O>(
    new: Commit,
    state: ReservedState,
    blame: Blame,
    past: Seq<Step>,
    law: Law<O>,
    between: spec_fn(Seq<Step>, CommitHash) -> bool,
)
    requires
        forall|then: Seq<Step>, request: RequestView|
            extends(then, past) && (!request.writes() || writes_work(then, request, new, state))
                ==> #[trigger] (law.rule)(then, request),
        forall|then: Seq<Step>, error: ErrorView|
            extends(then, past) ==> #[trigger] (law.end)(then, Err(error)),
        forall|then: Seq<Step>, commit: CommitHash|
            extends(then, past) && published(then, new, state, commit) ==> #[trigger] between(
                then,
                commit,
            ),
    ensures
        holds(publish_plan(new, state, blame), past, up_to(law, between)),
{
    broadcast use group_past;

    let law1 = up_to(law, between);
    let plan = publish_plan(new, state, blame);
    assert forall|reply: Reply| holds(
        #[trigger] plan.after(reply),
        past.push((plan.request(), reply)),
        law1,
    ) by {
        let past1 = past.push((plan.request(), reply));
        if let Reply::SemanticCommit(Ok(stored)) = reply {
            let plan = publish_clean(stored, blame);
            assert forall|reply: Reply| holds(
                #[trigger] plan.after(reply),
                past1.push((plan.request(), reply)),
                law1,
            ) by {
                let past2 = past1.push((plan.request(), reply));
                if let Reply::Nothing(Ok(_)) = reply {
                    let plan = publish_checkout(stored, blame);
                    assert forall|reply: Reply| holds(
                        #[trigger] plan.after(reply),
                        past2.push((plan.request(), reply)),
                        law1,
                    ) by {
                        let past3 = past2.push((plan.request(), reply));
                        if let Reply::Nothing(Ok(_)) = reply {
                            let plan = publish_commit(stored);
                            assert forall|reply: Reply| holds(
                                #[trigger] plan.after(reply),
                                past3.push((plan.request(), reply)),
                                law1,
                            ) by {
                                let past4 = past3.push((plan.request(), reply));
                                if let Reply::Commit(Ok(commit)) = reply {
                                    assert(committed(past4, new, state, stored, commit));
                                }
                            }
                            lemma_holds(plan, past3, law1);
                        }
                    }
                    lemma_holds(plan, past2, law1);
                }
            }
            lemma_holds(plan, past1, law1);
        }
    }
    lemma_holds(plan, past, law1);
}

} // verus!
