//! Moving the `finalized` branch: only to a verified descendant, and with its proof.
use vstd::prelude::*;

use crate::data::{BlockHeader, Commit, FinalizationProof, LastFinalizationProof, ReservedState};
use crate::error::ErrorView;
use crate::hash::{block_branch, CommitHash, Hash256};
use crate::host::{Reply, RequestView};
use crate::laws::{
    accepted, asked, did, extends, group_past, header_read, holds, lemma_apply_all,
    lemma_bind_holds, lemma_holds, lemma_last_header, lemma_record_proof, lemma_started_kept,
    proof_recorded, unwritten, writes_proof, verifier_started, Law, Step,
};
use crate::query::last_header_plan;
use crate::steps::{apply_from, checkout_fp};
use crate::sync::{
    sync_clean, sync_descends, sync_finalization, sync_header, sync_if_new, sync_move_finalized,
    sync_move_fp, sync_new, sync_plan, sync_read, sync_state, sync_verifier, sync_verify,
};
use crate::{FINALIZED_BRANCH_NAME, FP_BRANCH_NAME};

verus! {

/// The steps that show where a block stands: its branch is located, it descends from the commit
/// that `finalized` is at, and the commits on the way end in a block.
pub open spec fn sync_placed(
    past: Seq<Step>,
    hash: Hash256,
    block: CommitHash,
    current: CommitHash,
    commits: Vec<(Commit, CommitHash)>,
) -> bool {
    &&& asked(past, RequestView::LocateBranch(block_branch(hash)), Reply::Commit(Ok(block)))
    &&& asked(past, RequestView::LocateBranch(FINALIZED_BRANCH_NAME@), Reply::Commit(Ok(current)))
    &&& asked(past, RequestView::ReadCommits(current, block), Reply::Commits(Ok(commits)))
    &&& commits@.len() > 0
    &&& commits@.last().0 is Block
    &&& asked(past, RequestView::FindMergeBase(current, block), Reply::Commit(Ok(current)))
}

/// The steps that justify that `finalized` moves to a block.
pub open spec fn sync_justified(
    past: Seq<Step>,
    hash: Hash256,
    proof: FinalizationProof,
    block: CommitHash,
    current: CommitHash,
    commits: Vec<(Commit, CommitHash)>,
) -> bool {
    &&& sync_placed(past, hash, block, current, commits)
    &&& exists|header: BlockHeader, state: ReservedState|
        #[trigger] verifier_started(past, header, state)
    &&& accepted(past, commits@)
    &&& did(past, RequestView::VerifyLastHeaderFinalization(proof))
}

/// The steps that move `finalized` and `fp` to a block and record the proof of the block.
pub open spec fn sync_moved(past: Seq<Step>, proof: FinalizationProof, block: CommitHash, last: Commit)
    -> bool {
    &&& did(past, RequestView::MoveBranch(FINALIZED_BRANCH_NAME@, block))
    &&& did(past, RequestView::MoveBranch(FP_BRANCH_NAME@, block))
    &&& last is Block
    &&& proof_recorded(past, LastFinalizationProof { height: last->Block_0.height, proof })
}

/// Whether a write is one of those of a move to a block: the working tree is put as it was
/// committed, `finalized` and `fp` move to the block, and the proof is recorded on `fp`.
pub open spec fn sync_writes(
    past: Seq<Step>,
    request: RequestView,
    proof: FinalizationProof,
    block: CommitHash,
    last: Commit,
) -> bool {
    match request {
        RequestView::CheckoutClean => true,
        RequestView::MoveBranch(name, to) => {
            &&& name == FINALIZED_BRANCH_NAME@ || name == FP_BRANCH_NAME@
            &&& to == block
        },
        _ => writes_proof(
            past,
            request,
            LastFinalizationProof { height: last->Block_0.height, proof },
        ),
    }
}

/// Nothing is written before the move to a block is justified, and then nothing but that move.
/// The end is good only where the block was finalized already and nothing was written, or where
/// both branches have moved to it and the proof is recorded.
pub open spec fn sync_law(hash: Hash256, proof: FinalizationProof) -> Law<()> {
    Law {
        rule: |past: Seq<Step>, request: RequestView|
            request.writes() ==> exists|
                block: CommitHash,
                current: CommitHash,
                commits: Vec<(Commit, CommitHash)>,
            |
                {
                    &&& #[trigger] sync_justified(past, hash, proof, block, current, commits)
                    &&& sync_writes(past, request, proof, block, commits@.last().0)
                },
        end: |past: Seq<Step>, result: Result<(), ErrorView>|
            result is Ok ==> {
                ||| exists|block: CommitHash| #[trigger] sync_needless(past, hash, block)
                ||| exists|
                    block: CommitHash,
                    current: CommitHash,
                    commits: Vec<(Commit, CommitHash)>,
                |
                    {
                        &&& #[trigger] sync_justified(past, hash, proof, block, current, commits)
                        &&& sync_moved(past, proof, block, commits@.last().0)
                    }
            },
    }
}

/// The steps that show that a block is finalized already.
pub open spec fn sync_needless(past: Seq<Step>, hash: Hash256, block: CommitHash) -> bool {
    &&& unwritten(past)
    &&& asked(past, RequestView::LocateBranch(block_branch(hash)), Reply::Commit(Ok(block)))
    &&& asked(past, RequestView::LocateBranch(FINALIZED_BRANCH_NAME@), Reply::Commit(Ok(block)))
}

/// In every run of a sync nothing is written, and so no branch moves, before the block is shown
/// to descend from the finalized commit, every commit on the way to be valid, and the proof to
/// finalize the block. Then nothing is written but the moves of `finalized` and `fp` to the block
/// and the proof on `fp`. A run ends well only with `finalized` and `fp` at the block and the proof
/// recorded, or with nothing written where the block was finalized already.
pub proof fn law_sync(hash: Hash256, proof: FinalizationProof)
    ensures
        holds(sync_plan(hash, proof), Seq::empty(), sync_law(hash, proof)),
{
    broadcast use group_past;

    let plan = sync_plan(hash, proof);
    let past = Seq::<Step>::empty();
    let law = sync_law(hash, proof);
    assert forall|reply: Reply| holds(
        #[trigger] plan.after(reply),
        past.push((plan.request(), reply)),
        law,
    ) by {
        if let Reply::Commit(Ok(block)) = reply {
            lemma_if_new(hash, proof, block, past.push((plan.request(), reply)));
        }
    }
    lemma_holds(plan, past, law);
}

proof fn lemma_if_new(hash: Hash256, proof: FinalizationProof, block: CommitHash, past: Seq<Step>)
    requires
        unwritten(past),
        asked(past, RequestView::LocateBranch(block_branch(hash)), Reply::Commit(Ok(block))),
    ensures
        holds(sync_if_new(hash, proof, block), past, sync_law(hash, proof)),
{
    broadcast use group_past;

    let plan = sync_if_new(hash, proof, block);
    let law = sync_law(hash, proof);
    assert forall|reply: Reply| holds(
        #[trigger] plan.after(reply),
        past.push((plan.request(), reply)),
        law,
    ) by {
        let then = past.push((plan.request(), reply));
        if let Reply::Commit(Ok(finalized)) = reply {
            if finalized == block {
                assert(sync_needless(then, hash, block));
            } else {
                lemma_new(hash, proof, block, then);
            }
        }
    }
    lemma_holds(plan, past, law);
}

proof fn lemma_new(hash: Hash256, proof: FinalizationProof, block: CommitHash, past: Seq<Step>)
    requires
        asked(past, RequestView::LocateBranch(block_branch(hash)), Reply::Commit(Ok(block))),
    ensures
        holds(sync_new(hash, proof, block), past, sync_law(hash, proof)),
{
    broadcast use group_past;

    let plan = sync_new(hash, proof, block);
    let law = sync_law(hash, proof);
    assert forall|reply: Reply| holds(
        #[trigger] plan.after(reply),
        past.push((plan.request(), reply)),
        law,
    ) by {
        if let Reply::Commit(Ok(current)) = reply {
            lemma_read(hash, proof, block, current, past.push((plan.request(), reply)));
        }
    }
    lemma_holds(plan, past, law);
}

proof fn lemma_read(
    hash: Hash256,
    proof: FinalizationProof,
    block: CommitHash,
    current: CommitHash,
    past: Seq<Step>,
)
    requires
        asked(past, RequestView::LocateBranch(block_branch(hash)), Reply::Commit(Ok(block))),
        asked(past, RequestView::LocateBranch(FINALIZED_BRANCH_NAME@), Reply::Commit(Ok(current))),
    ensures
        holds(sync_read(hash, proof, block, current), past, sync_law(hash, proof)),
{
    broadcast use group_past;

    let plan = sync_read(hash, proof, block, current);
    let law = sync_law(hash, proof);
    assert forall|reply: Reply| holds(
        #[trigger] plan.after(reply),
        past.push((plan.request(), reply)),
        law,
    ) by {
        let then = past.push((plan.request(), reply));
        if let Reply::Commits(Ok(commits)) = reply {
            if commits@.len() > 0 && commits@.last().0 is Block {
                let height = commits@.last().0->Block_0.height;
                let inner = sync_descends(hash, proof, block, current, commits@, height);
                assert forall|reply: Reply| holds(
                    #[trigger] inner.after(reply),
                    then.push((inner.request(), reply)),
                    law,
                ) by {
                    if reply == Reply::Commit(Ok(current)) {
                        lemma_header(
                            hash,
                            proof,
                            block,
                            current,
                            commits,
                            then.push((inner.request(), reply)),
                        );
                    }
                }
                lemma_holds(inner, then, law);
            }
        }
    }
    lemma_holds(plan, past, law);
}

proof fn lemma_header(
    hash: Hash256,
    proof: FinalizationProof,
    block: CommitHash,
    current: CommitHash,
    commits: Vec<(Commit, CommitHash)>,
    past: Seq<Step>,
)
    requires
        sync_placed(past, hash, block, current, commits),
    ensures
        holds(
            sync_header(
                last_header_plan(),
                proof,
                block,
                commits@,
                commits@.last().0->Block_0.height,
            ),
            past,
            sync_law(hash, proof),
        ),
{
    let law = sync_law(hash, proof);
    let height = commits@.last().0->Block_0.height;
    let second = |header: BlockHeader| sync_state(proof, block, commits@, height, header);
    let between = |then: Seq<Step>, header: BlockHeader|
        sync_placed(then, hash, block, current, commits) && header_read(then, header);
    lemma_last_header(past, law, between);
    assert forall|then: Seq<Step>, header: BlockHeader| #[trigger]
        between(then, header) implies holds(second(header), then, law) by {
        lemma_state(hash, proof, block, current, commits, header, then);
    }
    lemma_bind_holds(last_header_plan(), second, past, law, between);
}

proof fn lemma_state(
    hash: Hash256,
    proof: FinalizationProof,
    block: CommitHash,
    current: CommitHash,
    commits: Vec<(Commit, CommitHash)>,
    header: BlockHeader,
    past: Seq<Step>,
)
    requires
        sync_placed(past, hash, block, current, commits),
        header_read(past, header),
    ensures
        holds(
            sync_state(proof, block, commits@, commits@.last().0->Block_0.height, header),
            past,
            sync_law(hash, proof),
        ),
{
    broadcast use group_past;

    let law = sync_law(hash, proof);
    let height = commits@.last().0->Block_0.height;
    let plan = sync_state(proof, block, commits@, height, header);
    assert forall|reply: Reply| holds(
        #[trigger] plan.after(reply),
        past.push((plan.request(), reply)),
        law,
    ) by {
        let past1 = past.push((plan.request(), reply));
        if let Reply::ReservedState(Ok(state)) = reply {
            let plan = sync_verifier(proof, block, commits@, height, header, state);
            assert forall|reply: Reply| holds(
                #[trigger] plan.after(reply),
                past1.push((plan.request(), reply)),
                law,
            ) by {
                let past2 = past1.push((plan.request(), reply));
                if let Reply::Nothing(Ok(_)) = reply {
                    assert(verifier_started(past2, header, state));
                    lemma_verify(hash, proof, block, current, commits, header, state, past2);
                }
            }
            lemma_holds(plan, past1, law);
        }
    }
    lemma_holds(plan, past, law);
}

proof fn lemma_verify(
    hash: Hash256,
    proof: FinalizationProof,
    block: CommitHash,
    current: CommitHash,
    commits: Vec<(Commit, CommitHash)>,
    header: BlockHeader,
    state: ReservedState,
    past: Seq<Step>,
)
    requires
        sync_placed(past, hash, block, current, commits),
        verifier_started(past, header, state),
    ensures
        holds(
            sync_verify(
                apply_from(commits@, 0),
                proof,
                block,
                commits@.last().0->Block_0.height,
            ),
            past,
            sync_law(hash, proof),
        ),
{
    broadcast use group_past;

    let law = sync_law(hash, proof);
    let height = commits@.last().0->Block_0.height;
    let second = |_commits: Seq<(Commit, CommitHash)>| sync_finalization(proof, block, height);
    let between = |then: Seq<Step>, _commits: Seq<(Commit, CommitHash)>|
        {
            &&& sync_placed(then, hash, block, current, commits)
            &&& verifier_started(then, header, state)
            &&& accepted(then, commits@)
        };
    assert forall|then: Seq<Step>|
        extends(then, past) && accepted(then, commits@) implies #[trigger] between(
        then,
        commits@,
    ) by {
        lemma_started_kept(past, then, header, state);
    }
    lemma_apply_all(commits@, 0, past, law, between);
    assert forall|then: Seq<Step>, verified: Seq<(Commit, CommitHash)>| #[trigger]
        between(then, verified) implies holds(second(verified), then, law) by {
        let plan = sync_finalization(proof, block, height);
        assert forall|reply: Reply| holds(
            #[trigger] plan.after(reply),
            then.push((plan.request(), reply)),
            law,
        ) by {
            let past1 = then.push((plan.request(), reply));
            if let Reply::Nothing(Ok(_)) = reply {
                assert(verifier_started(past1, header, state));
                assert(sync_justified(past1, hash, proof, block, current, commits));
                lemma_move(hash, proof, block, current, commits, past1);
            }
        }
        lemma_holds(plan, then, law);
    }
    lemma_bind_holds(apply_from(commits@, 0), second, past, law, between);
}

/// A justified run stays justified.
proof fn lemma_justified(
    hash: Hash256,
    proof: FinalizationProof,
    block: CommitHash,
    current: CommitHash,
    commits: Vec<(Commit, CommitHash)>,
    past: Seq<Step>,
    then: Seq<Step>,
)
    requires
        sync_justified(past, hash, proof, block, current, commits),
        extends(then, past),
    ensures
        sync_justified(then, hash, proof, block, current, commits),
{
    let (header, state) = choose|header: BlockHeader, state: ReservedState|
        #[trigger] verifier_started(past, header, state);
    lemma_started_kept(past, then, header, state);
}

proof fn lemma_move(
    hash: Hash256,
    proof: FinalizationProof,
    block: CommitHash,
    current: CommitHash,
    commits: Vec<(Commit, CommitHash)>,
    past: Seq<Step>,
)
    requires
        sync_justified(past, hash, proof, block, current, commits),
    ensures
        holds(
            sync_clean(proof, block, commits@.last().0->Block_0.height),
            past,
            sync_law(hash, proof),
        ),
{
    broadcast use group_past;

    let law = sync_law(hash, proof);
    let height = commits@.last().0->Block_0.height;
    assert forall|then: Seq<Step>| #[trigger] extends(then, past) implies sync_justified(
        then,
        hash,
        proof,
        block,
        current,
        commits,
    ) by {
        lemma_justified(hash, proof, block, current, commits, past, then);
    }
    let plan = sync_clean(proof, block, height);
    assert forall|reply: Reply| holds(
        #[trigger] plan.after(reply),
        past.push((plan.request(), reply)),
        law,
    ) by {
        let past1 = past.push((plan.request(), reply));
        assert(extends(past1, past));
        if let Reply::Nothing(Ok(_)) = reply {
            let plan = sync_move_finalized(proof, block, height);
            assert forall|reply: Reply| holds(
                #[trigger] plan.after(reply),
                past1.push((plan.request(), reply)),
                law,
            ) by {
                let past2 = past1.push((plan.request(), reply));
                assert(extends(past2, past));
                if let Reply::Nothing(Ok(_)) = reply {
                    let plan = sync_move_fp(proof, block, height);
                    assert forall|reply: Reply| holds(
                        #[trigger] plan.after(reply),
                        past2.push((plan.request(), reply)),
                        law,
                    ) by {
                        let past3 = past2.push((plan.request(), reply));
                        assert(extends(past3, past));
                        if let Reply::Nothing(Ok(_)) = reply {
                            lemma_record(hash, proof, block, current, commits, past3);
                        }
                    }
                    lemma_holds(plan, past2, law);
                }
            }
            lemma_holds(plan, past1, law);
        }
    }
    lemma_holds(plan, past, law);
}

proof fn lemma_record(
    hash: Hash256,
    proof: FinalizationProof,
    block: CommitHash,
    current: CommitHash,
    commits: Vec<(Commit, CommitHash)>,
    past: Seq<Step>,
)
    requires
        sync_justified(past, hash, proof, block, current, commits),
        did(past, RequestView::MoveBranch(FINALIZED_BRANCH_NAME@, block)),
        did(past, RequestView::MoveBranch(FP_BRANCH_NAME@, block)),
    ensures
        holds(
            checkout_fp(
                LastFinalizationProof { height: commits@.last().0->Block_0.height, proof },
            ),
            past,
            sync_law(hash, proof),
        ),
{
    let law = sync_law(hash, proof);
    let record = LastFinalizationProof { height: commits@.last().0->Block_0.height, proof };
    assert forall|then: Seq<Step>| #[trigger] extends(then, past) implies sync_justified(
        then,
        hash,
        proof,
        block,
        current,
        commits,
    ) by {
        lemma_justified(hash, proof, block, current, commits, past, then);
    }
    assert forall|then: Seq<Step>|
        extends(then, past) && proof_recorded(then, record) implies #[trigger] (law.end)(
        then,
        Ok(()),
    ) by {
        assert(sync_justified(then, hash, proof, block, current, commits));
        assert(sync_moved(then, proof, block, commits@.last().0));
    }
    lemma_record_proof(record, past, law);
}

} // verus!
