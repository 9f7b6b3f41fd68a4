//! Moving the `finalized` branch to a block.
use vstd::pervasive::unreached;
use vstd::prelude::*;

use crate::data::{
    BlockHeader, BlockHeight, Commit, FinalizationProof, LastFinalizationProof, ReservedState,
};
use crate::error::{Blame, Error, ErrorView};
use crate::hash::{block_branch, CommitHash, Hash256};
use crate::host::{Reply, Request, RequestView};
use crate::plan::{
    ask_commit, ask_commits, ask_nothing, ask_reserved_state, begins, bind, done, fail,
    lemma_bind_after, Next, Operation, Plan,
};
use crate::query::{last_header_plan, LastHeader};
use crate::steps::{
    apply_from, checkout_fp, no_merge_base, no_merge_base_text, no_verifier, ApplyAll, RecordProof,
};
use crate::{FINALIZED_BRANCH_NAME, FP_BRANCH_NAME};

verus! {

/// The plan to move `finalized` to the block of a hash, with the proof that finalizes the block.
///
/// The block is looked up by its branch. Nothing is done where it is finalized already.
pub open spec fn sync_plan(hash: Hash256, proof: FinalizationProof) -> Plan<()> {
    ask_commit(
        RequestView::LocateBranch(block_branch(hash)),
        Blame::Pass,
        |block: CommitHash| sync_if_new(hash, proof, block),
    )
}

pub open spec fn sync_if_new(hash: Hash256, proof: FinalizationProof, block: CommitHash) -> Plan<
    (),
> {
    ask_commit(
        RequestView::LocateBranch(FINALIZED_BRANCH_NAME@),
        Blame::Pass,
        |finalized: CommitHash|
            if finalized == block {
                done(())
            } else {
                sync_new(hash, proof, block)
            },
    )
}

pub open spec fn sync_new(hash: Hash256, proof: FinalizationProof, block: CommitHash) -> Plan<()> {
    ask_commit(
        RequestView::LocateBranch(FINALIZED_BRANCH_NAME@),
        Blame::Pass,
        |current: CommitHash| sync_read(hash, proof, block, current),
    )
}

/// The commits from the current finalized one on must end in a block. There are none where the
/// block is one that `finalized` has passed.
pub open spec fn sync_read(
    hash: Hash256,
    proof: FinalizationProof,
    block: CommitHash,
    current: CommitHash,
) -> Plan<()> {
    ask_commits(
        RequestView::ReadCommits(current, block),
        |commits: Seq<(Commit, CommitHash)>|
            if commits.len() == 0 {
                fail("block commit is not a descendant of the current finalized branch"@)
            } else {
                match commits.last().0 {
                    Commit::Block(last) => sync_descends(
                        hash,
                        proof,
                        block,
                        current,
                        commits,
                        last.height,
                    ),
                    _ => fail("the last commit is not a block commit"@),
                }
            },
    )
}

/// The block must descend from the current finalized commit.
pub open spec fn sync_descends(
    hash: Hash256,
    proof: FinalizationProof,
    block: CommitHash,
    current: CommitHash,
    commits: Seq<(Commit, CommitHash)>,
    height: BlockHeight,
) -> Plan<()> {
    ask_commit(
        RequestView::FindMergeBase(current, block),
        no_merge_base(block_branch(hash)),
        |base: CommitHash|
            if base != current {
                fail("block commit is not a descendant of the current finalized branch"@)
            } else {
                sync_header(last_header_plan(), proof, block, commits, height)
            },
    )
}

pub open spec fn sync_header(
    header: Plan<BlockHeader>,
    proof: FinalizationProof,
    block: CommitHash,
    commits: Seq<(Commit, CommitHash)>,
    height: BlockHeight,
) -> Plan<()> {
    bind(header, |header: BlockHeader| sync_state(proof, block, commits, height, header))
}

pub open spec fn sync_state(
    proof: FinalizationProof,
    block: CommitHash,
    commits: Seq<(Commit, CommitHash)>,
    height: BlockHeight,
    header: BlockHeader,
) -> Plan<()> {
    ask_reserved_state(
        |state: ReservedState| sync_verifier(proof, block, commits, height, header, state),
    )
}

pub open spec fn sync_verifier(
    proof: FinalizationProof,
    block: CommitHash,
    commits: Seq<(Commit, CommitHash)>,
    height: BlockHeight,
    header: BlockHeader,
    state: ReservedState,
) -> Plan<()> {
    ask_nothing(
        RequestView::CreateVerifier(header, state),
        no_verifier(),
        sync_verify(apply_from(commits, 0), proof, block, height),
    )
}

/// Every commit along the way is verified, and then the proof.
pub open spec fn sync_verify(
    checks: Plan<Seq<(Commit, CommitHash)>>,
    proof: FinalizationProof,
    block: CommitHash,
    height: BlockHeight,
) -> Plan<()> {
    bind(checks, |_commits: Seq<(Commit, CommitHash)>| sync_finalization(proof, block, height))
}

pub open spec fn sync_finalization(
    proof: FinalizationProof,
    block: CommitHash,
    height: BlockHeight,
) -> Plan<()> {
    ask_nothing(
        RequestView::VerifyLastHeaderFinalization(proof),
        Blame::Told("verification error on the last block header: "@),
        sync_clean(proof, block, height),
    )
}

pub open spec fn sync_clean(
    proof: FinalizationProof,
    block: CommitHash,
    height: BlockHeight,
) -> Plan<()> {
    ask_nothing(
        RequestView::CheckoutClean,
        Blame::Pass,
        sync_move_finalized(proof, block, height),
    )
}

pub open spec fn sync_move_finalized(
    proof: FinalizationProof,
    block: CommitHash,
    height: BlockHeight,
) -> Plan<()> {
    ask_nothing(
        RequestView::MoveBranch(FINALIZED_BRANCH_NAME@, block),
        Blame::Pass,
        sync_move_fp(proof, block, height),
    )
}

pub open spec fn sync_move_fp(
    proof: FinalizationProof,
    block: CommitHash,
    height: BlockHeight,
) -> Plan<()> {
    ask_nothing(
        RequestView::MoveBranch(FP_BRANCH_NAME@, block),
        Blame::Pass,
        checkout_fp(LastFinalizationProof { height, proof }),
    )
}

#[allow(inconsistent_fields)]
enum SyncStage {
    Block { hash: Hash256, proof: FinalizationProof },
    IfNew { hash: Hash256, proof: FinalizationProof, block: CommitHash },
    Current { hash: Hash256, proof: FinalizationProof, block: CommitHash },
    Read { hash: Hash256, proof: FinalizationProof, block: CommitHash, current: CommitHash },
    Descends {
        hash: Hash256,
        proof: FinalizationProof,
        block: CommitHash,
        current: CommitHash,
        commits: Vec<(Commit, CommitHash)>,
        height: BlockHeight,
    },
    Header {
        inner: LastHeader,
        proof: FinalizationProof,
        block: CommitHash,
        commits: Vec<(Commit, CommitHash)>,
        height: BlockHeight,
    },
    State {
        proof: FinalizationProof,
        block: CommitHash,
        commits: Vec<(Commit, CommitHash)>,
        height: BlockHeight,
        header: BlockHeader,
    },
    Verifier {
        proof: FinalizationProof,
        block: CommitHash,
        commits: Vec<(Commit, CommitHash)>,
        height: BlockHeight,
        of: Ghost<(BlockHeader, ReservedState)>,
    },
    Verify { inner: ApplyAll, proof: FinalizationProof, block: CommitHash, height: BlockHeight },
    Finalization { proof: FinalizationProof, block: CommitHash, height: BlockHeight },
    Clean { proof: FinalizationProof, block: CommitHash, height: BlockHeight },
    MoveFinalized { proof: FinalizationProof, block: CommitHash, height: BlockHeight },
    MoveFp { proof: FinalizationProof, block: Ghost<CommitHash>, height: BlockHeight },
    Record { inner: RecordProof },
}

/// Moving the `finalized` branch to a block.
pub struct Sync {
    stage: SyncStage,
}

impl Sync {
    pub fn start(hash: Hash256, proof: FinalizationProof) -> (next: Next<Sync, ()>)
        ensures
            begins(next, sync_plan(hash, proof)),
    {
        Next::Ask(
            Request::LocateBranch(hash.block_branch()),
            Sync { stage: SyncStage::Block { hash, proof } },
        )
    }
}

impl Operation for Sync {
    type Output = ();

    type Value = ();

    open spec fn value(output: ()) -> () {
        output
    }

    closed spec fn plan(self) -> Plan<()> {
        match self.stage {
            SyncStage::Block { hash, proof } => sync_plan(hash, proof),
            SyncStage::IfNew { hash, proof, block } => sync_if_new(hash, proof, block),
            SyncStage::Current { hash, proof, block } => sync_new(hash, proof, block),
            SyncStage::Read { hash, proof, block, current } => sync_read(
                hash,
                proof,
                block,
                current,
            ),
            SyncStage::Descends { hash, proof, block, current, commits, height } => sync_descends(
                hash,
                proof,
                block,
                current,
                commits@,
                height,
            ),
            SyncStage::Header { inner, proof, block, commits, height } => if inner.plan() is Ask {
                sync_header(inner.plan(), proof, block, commits@, height)
            } else {
                Plan::Stuck
            },
            SyncStage::State { proof, block, commits, height, header } => sync_state(
                proof,
                block,
                commits@,
                height,
                header,
            ),
            SyncStage::Verifier { proof, block, commits, height, of } => sync_verifier(
                proof,
                block,
                commits@,
                height,
                of@.0,
                of@.1,
            ),
            SyncStage::Verify { inner, proof, block, height } => if inner.plan() is Ask {
                sync_verify(inner.plan(), proof, block, height)
            } else {
                Plan::Stuck
            },
            SyncStage::Finalization { proof, block, height } => sync_finalization(
                proof,
                block,
                height,
            ),
            SyncStage::Clean { proof, block, height } => sync_clean(proof, block, height),
            SyncStage::MoveFinalized { proof, block, height } => sync_move_finalized(
                proof,
                block,
                height,
            ),
            SyncStage::MoveFp { proof, block, height } => sync_move_fp(proof, block@, height),
            SyncStage::Record { inner } => inner.plan(),
        }
    }

    fn accepts(&self, reply: &Reply) -> (res: bool) {
        broadcast use lemma_bind_after;

        match (&self.stage, reply) {
            (SyncStage::Block { .. }, Reply::Commit(_)) => true,
            (SyncStage::IfNew { .. }, Reply::Commit(_)) => true,
            (SyncStage::Current { .. }, Reply::Commit(_)) => true,
            (SyncStage::Read { .. }, Reply::Commits(_)) => true,
            (SyncStage::Descends { .. }, Reply::Commit(_)) => true,
            (SyncStage::Header { inner, .. }, _) => inner.accepts(reply),
            (SyncStage::State { .. }, Reply::ReservedState(_)) => true,
            (SyncStage::Verifier { .. }, Reply::Nothing(_)) => true,
            (SyncStage::Verify { inner, .. }, _) => inner.accepts(reply),
            (SyncStage::Finalization { .. }, Reply::Nothing(_)) => true,
            (SyncStage::Clean { .. }, Reply::Nothing(_)) => true,
            (SyncStage::MoveFinalized { .. }, Reply::Nothing(_)) => true,
            (SyncStage::MoveFp { .. }, Reply::Nothing(_)) => true,
            (SyncStage::Record { inner }, _) => inner.accepts(reply),
            _ => false,
        }
    }

    fn resume(self, reply: Reply) -> (next: Next<Self, ()>) {
        broadcast use lemma_bind_after;

        match (self.stage, reply) {
            (SyncStage::Block { hash, proof }, Reply::Commit(Ok(block))) => Next::Ask(
                Request::LocateBranch(FINALIZED_BRANCH_NAME.to_owned()),
                Sync { stage: SyncStage::IfNew { hash, proof, block } },
            ),
            (SyncStage::IfNew { hash, proof, block }, Reply::Commit(Ok(finalized))) => {
                if finalized.same(&block) {
                    Next::Done(Ok(()))
                } else {
                    Next::Ask(
                        Request::LocateBranch(FINALIZED_BRANCH_NAME.to_owned()),
                        Sync { stage: SyncStage::Current { hash, proof, block } },
                    )
                }
            },
            (SyncStage::Current { hash, proof, block }, Reply::Commit(Ok(current))) => Next::Ask(
                Request::ReadCommits(current, block),
                Sync { stage: SyncStage::Read { hash, proof, block, current } },
            ),
            (SyncStage::Read { hash, proof, block, current }, Reply::Commits(Ok(commits))) => {
                if commits.len() == 0 {
                    return Sync::no_descendant();
                }
                match &commits[commits.len() - 1].0 {
                    Commit::Block(last) => {
                        let height: BlockHeight = last.height;
                        Next::Ask(
                            Request::FindMergeBase(current, block),
                            Sync {
                                stage: SyncStage::Descends {
                                    hash,
                                    proof,
                                    block,
                                    current,
                                    commits,
                                    height,
                                },
                            },
                        )
                    },
                    _ => Next::Done(
                        Err(Error::Message("the last commit is not a block commit".to_owned())),
                    ),
                }
            },
            (SyncStage::Read { .. }, Reply::Commits(Err(error))) => Next::Done(
                Err(Error::Host(error)),
            ),
            (
                SyncStage::Descends { hash: _, proof, block, current, commits, height },
                Reply::Commit(Ok(base)),
            ) => {
                if !base.same(&current) {
                    Sync::no_descendant()
                } else {
                    let (request, inner) = LastHeader::first();
                    Next::Ask(
                        request,
                        Sync { stage: SyncStage::Header { inner, proof, block, commits, height } },
                    )
                }
            },
            (SyncStage::Descends { hash, .. }, Reply::Commit(Err(error))) => {
                let branch = hash.block_branch();
                Next::Done(Err(error.not_found(no_merge_base_text(branch.as_str()))))
            },
            (SyncStage::Header { inner, proof, block, commits, height }, reply) => {
                match inner.resume(reply) {
                    Next::Ask(request, inner) => Next::Ask(
                        request,
                        Sync { stage: SyncStage::Header { inner, proof, block, commits, height } },
                    ),
                    Next::Done(Ok(header)) => Next::Ask(
                        Request::ReadReservedState,
                        Sync { stage: SyncStage::State { proof, block, commits, height, header } },
                    ),
                    Next::Done(Err(error)) => Next::Done(Err(error)),
                }
            },
            (
                SyncStage::State { proof, block, commits, height, header },
                Reply::ReservedState(Ok(state)),
            ) => {
                let ghost of = (header, state);
                Next::Ask(
                    Request::CreateVerifier(header, state),
                    Sync {
                        stage: SyncStage::Verifier { proof, block, commits, height, of: Ghost(of) },
                    },
                )
            },
            (SyncStage::State { .. }, Reply::ReservedState(Err(error))) => Next::Done(
                Err(Error::Host(error)),
            ),
            (
                SyncStage::Verifier { proof, block, commits, height, of: _ },
                Reply::Nothing(Ok(())),
            ) => {
                match ApplyAll::start(commits) {
                    Next::Ask(request, inner) => Next::Ask(
                        request,
                        Sync { stage: SyncStage::Verify { inner, proof, block, height } },
                    ),
                    Next::Done(Ok(_)) => Sync::finalization(proof, block, height),
                    Next::Done(Err(error)) => Next::Done(Err(error)),
                }
            },
            (SyncStage::Verifier { .. }, Reply::Nothing(Err(error))) => Next::Done(
                Err(error.told("failed to create a commit sequence verifier: ")),
            ),
            (SyncStage::Verify { inner, proof, block, height }, reply) => {
                match inner.resume(reply) {
                    Next::Ask(request, inner) => Next::Ask(
                        request,
                        Sync { stage: SyncStage::Verify { inner, proof, block, height } },
                    ),
                    Next::Done(Ok(_)) => Sync::finalization(proof, block, height),
                    Next::Done(Err(error)) => Next::Done(Err(error)),
                }
            },
            (SyncStage::Finalization { proof, block, height }, Reply::Nothing(Ok(()))) => Next::Ask(
                Request::CheckoutClean,
                Sync { stage: SyncStage::Clean { proof, block, height } },
            ),
            (SyncStage::Finalization { .. }, Reply::Nothing(Err(error))) => Next::Done(
                Err(error.told("verification error on the last block header: ")),
            ),
            (SyncStage::Clean { proof, block, height }, Reply::Nothing(Ok(()))) => Next::Ask(
                Request::MoveBranch(FINALIZED_BRANCH_NAME.to_owned(), block),
                Sync { stage: SyncStage::MoveFinalized { proof, block, height } },
            ),
            (SyncStage::MoveFinalized { proof, block, height }, Reply::Nothing(Ok(()))) => Next::Ask(
                Request::MoveBranch(FP_BRANCH_NAME.to_owned(), block),
                Sync { stage: SyncStage::MoveFp { proof, block: Ghost(block), height } },
            ),
            (SyncStage::MoveFp { proof, block: _, height }, Reply::Nothing(Ok(()))) => {
                let (request, inner) = RecordProof::first(LastFinalizationProof { height, proof });
                Next::Ask(request, Sync { stage: SyncStage::Record { inner } })
            },
            (SyncStage::Record { inner }, reply) => {
                match inner.resume(reply) {
                    Next::Ask(request, inner) => Next::Ask(
                        request,
                        Sync { stage: SyncStage::Record { inner } },
                    ),
                    Next::Done(res) => Next::Done(res),
                }
            },
            (_, Reply::Commit(Err(error))) => Next::Done(Err(Error::Host(error))),
            (_, Reply::Nothing(Err(error))) => Next::Done(Err(Error::Host(error))),
            _ => unreached(),
        }
    }
}

impl Sync {
    fn no_descendant() -> (res: Next<Sync, ()>)
        ensures
            res matches Next::Done(Err(error)) && error@ == ErrorView::Message(
                "block commit is not a descendant of the current finalized branch"@,
            ),
    {
        let text = "block commit is not a descendant of the current finalized branch".to_owned();
        Next::Done(Err(Error::Message(text)))
    }

    fn finalization(proof: FinalizationProof, block: CommitHash, height: BlockHeight) -> (res: Next<
        Sync,
        (),
    >)
        ensures
            res matches Next::Ask(request, operation) && {
                &&& request@ == sync_finalization(proof, block, height).request()
                &&& operation.stage == SyncStage::Finalization { proof, block, height }
            },
    {
        let request = Request::VerifyLastHeaderFinalization(proof.clone());
        Next::Ask(request, Sync { stage: SyncStage::Finalization { proof, block, height } })
    }
}

} // verus!
