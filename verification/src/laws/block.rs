//! Creating a block: only one that is valid on top of `work`.
use vstd::prelude::*;

use crate::block::{
    bare, block_apply, block_checkout, block_decode_fp, block_fp, block_header, block_last,
    block_mark, block_name, block_previous, block_publish, block_read, block_read_fp, block_rebased,
    block_root, block_state, block_time, block_validators, block_verifier, block_verify,
    create_block_plan, header_from, BlockStart, NewBlock,
};
use crate::data::{BlockHeader, Commit, LastFinalizationProof, ReservedState, SemanticCommit};
use crate::error::ErrorView;
use crate::hash::{block_branch, CommitHash, Hash256};
use crate::host::{Reply, RequestView};
use crate::laws::work::{
    checked, ground_checked, lemma_checked, lemma_publish, lemma_published, marked, on_top,
    published, writes_work, Ground,
};
use crate::laws::{
    accepted, asked, extends, group_past, header_read, holds, lemma_apply_all, lemma_bind_holds,
    lemma_holds, lemma_last_header, lemma_started_kept, verifier_started, Law, Step,
};
use crate::query::last_header_plan;
use crate::steps::{apply_from, no_work_branch, publish_plan};
use crate::{FP_BRANCH_NAME, WORK_BRANCH_NAME};

verus! {

/// The steps that read the proof of the last finalized block from the `fp` branch.
pub open spec fn proof_read(
    past: Seq<Step>,
    fp: CommitHash,
    stored: SemanticCommit,
    proof: LastFinalizationProof,
) -> bool {
    &&& asked(past, RequestView::LocateBranch(FP_BRANCH_NAME@), Reply::Commit(Ok(fp)))
    &&& asked(past, RequestView::ReadSemanticCommit(fp), Reply::SemanticCommit(Ok(stored)))
    &&& asked(past, RequestView::DecodeProof(stored), Reply::DecodedProof(Ok(proof)))
}

/// The steps that the parts of a header come from which are known before the time: it is of the
/// given author and version, of the height after the last one, and it names the last header by its
/// hash and holds the proof of that.
pub open spec fn block_started(
    past: Seq<Step>,
    block: NewBlock,
    ground: Ground,
    start: BlockStart,
) -> bool {
    &&& start.author == block.author
    &&& start.version == block.version
    &&& start.height == ground.header.height + 1
    &&& asked(past, RequestView::HashHeader(ground.header), Reply::Hash(start.previous_hash))
    &&& exists|fp: CommitHash, stored: SemanticCommit, proof: LastFinalizationProof|
        #[trigger] proof_read(past, fp, stored, proof) && start.proof == proof.proof
}

/// The steps that a header is made of: besides its start, the time of day, the root of the commits
/// on `work` and the validators of the reserved state.
pub open spec fn block_made(
    past: Seq<Step>,
    block: NewBlock,
    ground: Ground,
    header: BlockHeader,
) -> bool {
    &&& exists|start: BlockStart|
        {
            &&& #[trigger] block_started(past, block, ground, start)
            &&& header == header_from(
                start,
                header.timestamp,
                header.commit_merkle_root,
                header.validator_set,
            )
        }
    &&& asked(past, RequestView::GetTimestamp, Reply::Timestamp(header.timestamp))
    &&& asked(
        past,
        RequestView::CalculateCommitMerkleRoot(bare(ground.commits@)),
        Reply::Hash(header.commit_merkle_root),
    )
    &&& asked(
        past,
        RequestView::GetValidatorSet(ground.state),
        Reply::ValidatorSet(Ok(header.validator_set)),
    )
}

/// The steps that justify that a block is put on `work`.
pub open spec fn block_justified(
    past: Seq<Step>,
    block: NewBlock,
    ground: Ground,
    header: BlockHeader,
) -> bool {
    &&& checked(past, ground, Commit::Block(header))
    &&& block_made(past, block, ground, header)
}

/// Whether a write makes the branch of a block that is on `work`.
pub open spec fn writes_block_branch(
    past: Seq<Step>,
    request: RequestView,
    header: BlockHeader,
    state: ReservedState,
) -> bool {
    exists|commit: CommitHash, hash: Hash256|
        {
            &&& #[trigger] published(past, Commit::Block(header), state, commit)
            &&& #[trigger] asked(
                past,
                RequestView::HashCommit(Commit::Block(header)),
                Reply::Hash(hash),
            )
            &&& request == RequestView::CreateBranch(block_branch(hash), commit)
        }
}

/// The steps that put a block on `work` and make its branch.
pub open spec fn block_created(
    past: Seq<Step>,
    block: NewBlock,
    header: BlockHeader,
    commit: CommitHash,
) -> bool {
    exists|ground: Ground, hash: Hash256|
        {
            &&& #[trigger] block_justified(past, block, ground, header)
            &&& published(past, Commit::Block(header), ground.state, commit)
            &&& #[trigger] marked(past, Commit::Block(header), commit, hash, block_branch(hash))
        }
}

/// Before a block is shown to be valid on top of `work`, nothing is written but that `work` is
/// checked out, and then nothing but that block and its branch. The end is good only where the
/// block is committed and its branch is there.
pub open spec fn block_law(block: NewBlock) -> Law<(BlockHeader, CommitHash)> {
    Law {
        rule: |past: Seq<Step>, request: RequestView|
            request.writes() && request != RequestView::Checkout(WORK_BRANCH_NAME@) ==> exists|
                ground: Ground,
                header: BlockHeader,
            |
                {
                    &&& #[trigger] block_justified(past, block, ground, header)
                    &&& writes_work(past, request, Commit::Block(header), ground.state)
                        || writes_block_branch(past, request, header, ground.state)
                },
        end: |past: Seq<Step>, result: Result<(BlockHeader, CommitHash), ErrorView>|
            result matches Ok(output) ==> block_created(past, block, output.0, output.1),
    }
}

/// In every run that creates a block, nothing is committed and no branch is made before `work` is
/// shown to be on top of the finalized block, every commit on it to be valid, and so the block on
/// top of them. The block is of the next height, names the last header by its hash, and holds the
/// proof that the `fp` branch holds. A run ends well only with the block committed on `work` and a
/// branch of its name at the commit.
pub proof fn law_create_block(block: NewBlock)
    ensures
        holds(create_block_plan(block), Seq::empty(), block_law(block)),
{
    broadcast use group_past;

    let law = block_law(block);
    let past = Seq::<Step>::empty();
    let plan = create_block_plan(block);
    assert forall|reply: Reply| holds(
        #[trigger] plan.after(reply),
        past.push((plan.request(), reply)),
        law,
    ) by {
        let past1 = past.push((plan.request(), reply));
        if let Reply::Commit(Ok(work)) = reply {
            let plan = block_last(block, work);
            assert forall|reply: Reply| holds(
                #[trigger] plan.after(reply),
                past1.push((plan.request(), reply)),
                law,
            ) by {
                let past2 = past1.push((plan.request(), reply));
                if let Reply::Commit(Ok(last)) = reply {
                    let plan = block_rebased(block, work, last);
                    assert forall|reply: Reply| holds(
                        #[trigger] plan.after(reply),
                        past2.push((plan.request(), reply)),
                        law,
                    ) by {
                        let past3 = past2.push((plan.request(), reply));
                        if let Reply::Commit(Ok(base)) = reply {
                            if base == last {
                                let plan = block_read(block, work, last);
                                assert forall|reply: Reply| holds(
                                    #[trigger] plan.after(reply),
                                    past3.push((plan.request(), reply)),
                                    law,
                                ) by {
                                    let past4 = past3.push((plan.request(), reply));
                                    if let Reply::Commits(Ok(commits)) = reply {
                                        lemma_header(block, work, last, commits, past4);
                                    }
                                }
                                lemma_holds(plan, past3, law);
                            }
                        }
                    }
                    lemma_holds(plan, past2, law);
                }
            }
            lemma_holds(plan, past1, law);
        }
    }
    lemma_holds(plan, past, law);
}

proof fn lemma_header(
    block: NewBlock,
    work: CommitHash,
    last: CommitHash,
    commits: Vec<(Commit, CommitHash)>,
    past: Seq<Step>,
)
    requires
        on_top(past, work, last, commits),
    ensures
        holds(block_header(last_header_plan(), block, commits@), past, block_law(block)),
{
    let law = block_law(block);
    let second = |header: BlockHeader| block_checkout(block, commits@, header);
    let between = |then: Seq<Step>, header: BlockHeader|
        header_read(then, header) && on_top(then, work, last, commits);
    lemma_last_header(past, law, between);
    assert forall|then: Seq<Step>, header: BlockHeader| #[trigger]
        between(then, header) implies holds(second(header), then, law) by {
        lemma_start(block, header, work, last, commits, then);
    }
    lemma_bind_holds(last_header_plan(), second, past, law, between);
}

proof fn lemma_start(
    block: NewBlock,
    header: BlockHeader,
    work: CommitHash,
    last: CommitHash,
    commits: Vec<(Commit, CommitHash)>,
    past: Seq<Step>,
)
    requires
        header_read(past, header),
        on_top(past, work, last, commits),
    ensures
        holds(block_checkout(block, commits@, header), past, block_law(block)),
{
    broadcast use group_past;

    let law = block_law(block);
    let plan = block_checkout(block, commits@, header);
    assert forall|reply: Reply| holds(
        #[trigger] plan.after(reply),
        past.push((plan.request(), reply)),
        law,
    ) by {
        let past1 = past.push((plan.request(), reply));
        if let Reply::Nothing(Ok(_)) = reply {
            let plan = block_state(block, commits@, header);
            assert forall|reply: Reply| holds(
                #[trigger] plan.after(reply),
                past1.push((plan.request(), reply)),
                law,
            ) by {
                let past2 = past1.push((plan.request(), reply));
                if let Reply::ReservedState(Ok(state)) = reply {
                    let plan = block_verifier(block, commits@, header, state);
                    assert forall|reply: Reply| holds(
                        #[trigger] plan.after(reply),
                        past2.push((plan.request(), reply)),
                        law,
                    ) by {
                        let past3 = past2.push((plan.request(), reply));
                        if let Reply::Nothing(Ok(_)) = reply {
                            assert(verifier_started(past3, header, state));
                            lemma_verify(
                                block,
                                Ground { header, state, work, last, commits },
                                past3,
                            );
                        }
                    }
                    lemma_holds(plan, past2, law);
                }
            }
            lemma_holds(plan, past1, law);
        }
    }
    lemma_holds(plan, past, law);
}

proof fn lemma_verify(block: NewBlock, ground: Ground, past: Seq<Step>)
    requires
        on_top(past, ground.work, ground.last, ground.commits),
        verifier_started(past, ground.header, ground.state),
    ensures
        holds(
            block_verify(apply_from(ground.commits@, 0), block, ground.header, ground.state),
            past,
            block_law(block),
        ),
{
    let law = block_law(block);
    let commits = ground.commits@;
    let header = ground.header;
    let state = ground.state;
    let second = |commits: Seq<(Commit, CommitHash)>|
        block_fp(block, header, state, bare(commits));
    let between = |then: Seq<Step>, verified: Seq<(Commit, CommitHash)>|
        verified == commits && ground_checked(then, ground);
    assert forall|then: Seq<Step>|
        extends(then, past) && accepted(then, commits) implies #[trigger] between(then, commits) by {
        lemma_started_kept(past, then, ground.header, ground.state);
    }
    lemma_apply_all(commits, 0, past, law, between);
    assert forall|then: Seq<Step>, verified: Seq<(Commit, CommitHash)>| #[trigger]
        between(then, verified) implies holds(second(verified), then, law) by {
        lemma_fp(block, ground, then);
    }
    lemma_bind_holds(apply_from(commits, 0), second, past, law, between);
}

proof fn lemma_fp(block: NewBlock, ground: Ground, past: Seq<Step>)
    requires
        ground_checked(past, ground),
    ensures
        holds(
            block_fp(block, ground.header, ground.state, bare(ground.commits@)),
            past,
            block_law(block),
        ),
{
    broadcast use group_past;

    let law = block_law(block);
    let header = ground.header;
    let state = ground.state;
    let commits = bare(ground.commits@);
    let plan = block_fp(block, header, state, commits);
    assert forall|reply: Reply| holds(
        #[trigger] plan.after(reply),
        past.push((plan.request(), reply)),
        law,
    ) by {
        let past1 = past.push((plan.request(), reply));
        if let Reply::Commit(Ok(fp)) = reply {
            let plan = block_read_fp(block, header, state, commits, fp);
            assert forall|reply: Reply| holds(
                #[trigger] plan.after(reply),
                past1.push((plan.request(), reply)),
                law,
            ) by {
                let past2 = past1.push((plan.request(), reply));
                if let Reply::SemanticCommit(Ok(stored)) = reply {
                    let plan = block_decode_fp(block, header, state, commits, stored);
                    assert forall|reply: Reply| holds(
                        #[trigger] plan.after(reply),
                        past2.push((plan.request(), reply)),
                        law,
                    ) by {
                        let past3 = past2.push((plan.request(), reply));
                        if let Reply::DecodedProof(Ok(proof)) = reply {
                            lemma_checked(past, past3, ground);
                            lemma_previous(block, ground, fp, stored, proof, past3);
                        }
                    }
                    lemma_holds(plan, past2, law);
                }
            }
            lemma_holds(plan, past1, law);
        }
    }
    lemma_holds(plan, past, law);
}

proof fn lemma_previous(
    block: NewBlock,
    ground: Ground,
    fp: CommitHash,
    stored: SemanticCommit,
    proof: LastFinalizationProof,
    past: Seq<Step>,
)
    requires
        ground_checked(past, ground),
        proof_read(past, fp, stored, proof),
    ensures
        holds(
            block_previous(
                block,
                ground.header,
                ground.state,
                bare(ground.commits@),
                proof.proof,
            ),
            past,
            block_law(block),
        ),
{
    broadcast use group_past;

    let law = block_law(block);
    let header = ground.header;
    let state = ground.state;
    let commits = bare(ground.commits@);
    let plan = block_previous(block, header, state, commits, proof.proof);
    assert forall|reply: Reply| holds(
        #[trigger] plan.after(reply),
        past.push((plan.request(), reply)),
        law,
    ) by {
        let past1 = past.push((plan.request(), reply));
        if let Reply::Hash(previous_hash) = reply {
            if header.height < u64::MAX {
                let start = BlockStart {
                    author: block.author,
                    proof: proof.proof,
                    previous_hash,
                    height: (header.height + 1) as u64,
                    version: block.version,
                };
                lemma_checked(past, past1, ground);
                assert(proof_read(past1, fp, stored, proof));
                assert(block_started(past1, block, ground, start));
                lemma_made(block, ground, start, past1);
            }
        }
    }
    lemma_holds(plan, past, law);
}

/// The start of a header stays as it is.
proof fn lemma_started(
    past: Seq<Step>,
    then: Seq<Step>,
    block: NewBlock,
    ground: Ground,
    start: BlockStart,
)
    requires
        block_started(past, block, ground, start),
        extends(then, past),
    ensures
        block_started(then, block, ground, start),
{
    let (fp, stored, proof) = choose|
        fp: CommitHash,
        stored: SemanticCommit,
        proof: LastFinalizationProof,
    | #[trigger] proof_read(past, fp, stored, proof) && start.proof == proof.proof;
    assert(proof_read(then, fp, stored, proof));
}

proof fn lemma_made(block: NewBlock, ground: Ground, start: BlockStart, past: Seq<Step>)
    requires
        ground_checked(past, ground),
        block_started(past, block, ground, start),
    ensures
        holds(
            block_time(ground.state, bare(ground.commits@), start),
            past,
            block_law(block),
        ),
{
    broadcast use group_past;

    let law = block_law(block);
    let state = ground.state;
    let commits = bare(ground.commits@);
    let plan = block_time(state, commits, start);
    assert forall|reply: Reply| holds(
        #[trigger] plan.after(reply),
        past.push((plan.request(), reply)),
        law,
    ) by {
        let past1 = past.push((plan.request(), reply));
        if let Reply::Timestamp(timestamp) = reply {
            let plan = block_root(state, commits, start, timestamp);
            assert forall|reply: Reply| holds(
                #[trigger] plan.after(reply),
                past1.push((plan.request(), reply)),
                law,
            ) by {
                let past2 = past1.push((plan.request(), reply));
                if let Reply::Hash(root) = reply {
                    let plan = block_validators(state, start, timestamp, root);
                    assert forall|reply: Reply| holds(
                        #[trigger] plan.after(reply),
                        past2.push((plan.request(), reply)),
                        law,
                    ) by {
                        let past3 = past2.push((plan.request(), reply));
                        if let Reply::ValidatorSet(Ok(validators)) = reply {
                            let header = header_from(start, timestamp, root, validators);
                            lemma_checked(past, past3, ground);
                            lemma_started(past, past3, block, ground, start);
                            assert(block_made(past3, block, ground, header));
                            lemma_valid(block, ground, header, past3);
                        }
                    }
                    lemma_holds(plan, past2, law);
                }
            }
            lemma_holds(plan, past1, law);
        }
    }
    lemma_holds(plan, past, law);
}

/// What justifies a block, or what it is made of, stays as it is.
proof fn lemma_kept(
    past: Seq<Step>,
    then: Seq<Step>,
    block: NewBlock,
    ground: Ground,
    header: BlockHeader,
)
    requires
        block_made(past, block, ground, header),
        extends(then, past),
    ensures
        block_made(then, block, ground, header),
        block_justified(past, block, ground, header) ==> block_justified(
            then,
            block,
            ground,
            header,
        ),
{
    let start = choose|start: BlockStart|
        {
            &&& #[trigger] block_started(past, block, ground, start)
            &&& header == header_from(
                start,
                header.timestamp,
                header.commit_merkle_root,
                header.validator_set,
            )
        };
    lemma_started(past, then, block, ground, start);
    lemma_checked(past, then, ground);
}

proof fn lemma_valid(block: NewBlock, ground: Ground, header: BlockHeader, past: Seq<Step>)
    requires
        ground_checked(past, ground),
        block_made(past, block, ground, header),
    ensures
        holds(block_apply(ground.state, header), past, block_law(block)),
{
    broadcast use group_past;

    let law = block_law(block);
    let plan = block_apply(ground.state, header);
    assert forall|reply: Reply| holds(
        #[trigger] plan.after(reply),
        past.push((plan.request(), reply)),
        law,
    ) by {
        let past1 = past.push((plan.request(), reply));
        if let Reply::Nothing(Ok(_)) = reply {
            lemma_checked(past, past1, ground);
            lemma_kept(past, past1, block, ground, header);
            lemma_committed(block, ground, header, past1);
        }
    }
    lemma_holds(plan, past, law);
}

proof fn lemma_committed(block: NewBlock, ground: Ground, header: BlockHeader, past: Seq<Step>)
    requires
        block_justified(past, block, ground, header),
    ensures
        holds(
            block_publish(
                publish_plan(Commit::Block(header), ground.state, no_work_branch()),
                header,
            ),
            past,
            block_law(block),
        ),
{
    let law = block_law(block);
    let new = Commit::Block(header);
    let state = ground.state;
    let second = |commit: CommitHash| block_name(header, commit);
    let between = |then: Seq<Step>, commit: CommitHash|
        block_justified(then, block, ground, header) && published(then, new, state, commit);
    assert forall|then: Seq<Step>| #[trigger] extends(then, past) implies block_justified(
        then,
        block,
        ground,
        header,
    ) by {
        lemma_kept(past, then, block, ground, header);
    }
    lemma_publish(new, state, no_work_branch(), past, law, between);
    assert forall|then: Seq<Step>, commit: CommitHash| #[trigger]
        between(then, commit) implies holds(second(commit), then, law) by {
        lemma_marked(block, ground, header, commit, then);
    }
    lemma_bind_holds(publish_plan(new, state, no_work_branch()), second, past, law, between);
}

proof fn lemma_marked(
    block: NewBlock,
    ground: Ground,
    header: BlockHeader,
    commit: CommitHash,
    past: Seq<Step>,
)
    requires
        block_justified(past, block, ground, header),
        published(past, Commit::Block(header), ground.state, commit),
    ensures
        holds(block_name(header, commit), past, block_law(block)),
{
    broadcast use group_past;

    let law = block_law(block);
    let new = Commit::Block(header);
    let plan = block_name(header, commit);
    assert forall|reply: Reply| holds(
        #[trigger] plan.after(reply),
        past.push((plan.request(), reply)),
        law,
    ) by {
        let past1 = past.push((plan.request(), reply));
        if let Reply::Hash(hash) = reply {
            let plan = block_mark(header, commit, block_branch(hash));
            lemma_kept(past, past1, block, ground, header);
            lemma_published(past, past1, new, ground.state, commit);
            assert(asked(past1, RequestView::HashCommit(new), Reply::Hash(hash)));
            assert(writes_block_branch(past1, plan.request(), header, ground.state));
            assert forall|reply: Reply| holds(
                #[trigger] plan.after(reply),
                past1.push((plan.request(), reply)),
                law,
            ) by {
                let past2 = past1.push((plan.request(), reply));
                if let Reply::Nothing(Ok(_)) = reply {
                    lemma_kept(past1, past2, block, ground, header);
                    lemma_published(past1, past2, new, ground.state, commit);
                    assert(marked(past2, new, commit, hash, block_branch(hash)));
                    assert(block_created(past2, block, header, commit));
                }
            }
            lemma_holds(plan, past1, law);
        }
    }
    lemma_holds(plan, past, law);
}

} // verus!
