//! Creating a block on top of the `work` branch.
use vstd::pervasive::unreached;
use vstd::prelude::*;

use crate::data::{
    BlockHeader, Commit, FinalizationProof, LastFinalizationProof, PublicKey, ReservedState,
    SemanticCommit, Timestamp, ValidatorSet,
};
use crate::error::{Blame, Error};
use crate::hash::{block_branch, CommitHash, Hash256};
use crate::host::{Reply, Request, RequestView};
use crate::plan::{
    ask_commit, ask_commits, ask_decoded_proof, ask_hash, ask_nothing, ask_reserved_state,
    ask_stored, ask_timestamp, ask_validator_set, begins, bind, done, fail, lemma_bind_after, Next,
    Operation, Plan,
};
use crate::query::{last_header_plan, LastHeader};
use crate::steps::{
    apply_from, no_verifier, no_work_branch, not_rebased, not_rebased_text, publish_plan, ApplyAll,
    Publish,
};
use crate::{FINALIZED_BRANCH_NAME, FP_BRANCH_NAME, WORK_BRANCH_NAME};

verus! {

/// Who creates a block, and the version of the protocol that it follows.
#[derive(Debug, PartialEq, Eq)]
pub struct NewBlock {
    pub author: PublicKey,
    pub version: String,
}

/// Some commits without their hashes in the repository.
pub open spec fn bare(commits: Seq<(Commit, CommitHash)>) -> Seq<Commit> {
    Seq::new(commits.len(), |i: int| commits[i].0)
}

/// Some commits without their hashes in the repository.
pub fn collect_commits(commits: &Vec<(Commit, CommitHash)>) -> (res: Vec<Commit>)
    ensures
        res@ == bare(commits@),
{
    let mut res: Vec<Commit> = Vec::new();
    let mut i: usize = 0;
    while i < commits.len()
        invariant
            i <= commits@.len(),
            res@.len() == i,
            forall|j: int| 0 <= j < i ==> #[trigger] res@[j] == commits@[j].0,
        decreases commits@.len() - i,
    {
        res.push(commits[i].0.clone());
        i = i + 1;
    }
    assert(res@ =~= bare(commits@));
    res
}

/// The plan to create a block on the `work` branch, which must be on top of the `finalized`
/// branch. It gives the header of the block and its commit.
pub open spec fn create_block_plan(block: NewBlock) -> Plan<(BlockHeader, CommitHash)> {
    ask_commit(
        RequestView::LocateBranch(WORK_BRANCH_NAME@),
        Blame::Pass,
        |work: CommitHash| block_last(block, work),
    )
}

pub open spec fn block_last(block: NewBlock, work: CommitHash) -> Plan<(BlockHeader, CommitHash)> {
    ask_commit(
        RequestView::LocateBranch(FINALIZED_BRANCH_NAME@),
        Blame::Pass,
        |last: CommitHash| block_rebased(block, work, last),
    )
}

pub open spec fn block_rebased(block: NewBlock, work: CommitHash, last: CommitHash) -> Plan<
    (BlockHeader, CommitHash),
> {
    ask_commit(
        RequestView::FindMergeBase(last, work),
        Blame::Pass,
        |base: CommitHash|
            if base != last {
                fail(not_rebased(WORK_BRANCH_NAME@))
            } else {
                block_read(block, work, last)
            },
    )
}

pub open spec fn block_read(block: NewBlock, work: CommitHash, last: CommitHash) -> Plan<
    (BlockHeader, CommitHash),
> {
    ask_commits(
        RequestView::ReadCommits(last, work),
        |commits: Seq<(Commit, CommitHash)>| block_header(last_header_plan(), block, commits),
    )
}

pub open spec fn block_header(
    header: Plan<BlockHeader>,
    block: NewBlock,
    commits: Seq<(Commit, CommitHash)>,
) -> Plan<(BlockHeader, CommitHash)> {
    bind(header, |header: BlockHeader| block_checkout(block, commits, header))
}

pub open spec fn block_checkout(
    block: NewBlock,
    commits: Seq<(Commit, CommitHash)>,
    header: BlockHeader,
) -> Plan<(BlockHeader, CommitHash)> {
    ask_nothing(
        RequestView::Checkout(WORK_BRANCH_NAME@),
        no_work_branch(),
        block_state(block, commits, header),
    )
}

pub open spec fn block_state(
    block: NewBlock,
    commits: Seq<(Commit, CommitHash)>,
    header: BlockHeader,
) -> Plan<(BlockHeader, CommitHash)> {
    ask_reserved_state(|state: ReservedState| block_verifier(block, commits, header, state))
}

pub open spec fn block_verifier(
    block: NewBlock,
    commits: Seq<(Commit, CommitHash)>,
    header: BlockHeader,
    state: ReservedState,
) -> Plan<(BlockHeader, CommitHash)> {
    ask_nothing(
        RequestView::CreateVerifier(header, state),
        no_verifier(),
        block_verify(apply_from(commits, 0), block, header, state),
    )
}

pub open spec fn block_verify(
    checks: Plan<Seq<(Commit, CommitHash)>>,
    block: NewBlock,
    header: BlockHeader,
    state: ReservedState,
) -> Plan<(BlockHeader, CommitHash)> {
    bind(
        checks,
        |commits: Seq<(Commit, CommitHash)>| block_fp(block, header, state, bare(commits)),
    )
}

/// The proof of the last finalized block is on the `fp` branch.
pub open spec fn block_fp(
    block: NewBlock,
    header: BlockHeader,
    state: ReservedState,
    commits: Seq<Commit>,
) -> Plan<(BlockHeader, CommitHash)> {
    ask_commit(
        RequestView::LocateBranch(FP_BRANCH_NAME@),
        Blame::Pass,
        |fp: CommitHash| block_read_fp(block, header, state, commits, fp),
    )
}

pub open spec fn block_read_fp(
    block: NewBlock,
    header: BlockHeader,
    state: ReservedState,
    commits: Seq<Commit>,
    fp: CommitHash,
) -> Plan<(BlockHeader, CommitHash)> {
    ask_stored(
        RequestView::ReadSemanticCommit(fp),
        |stored: SemanticCommit| block_decode_fp(block, header, state, commits, stored),
    )
}

pub open spec fn block_decode_fp(
    block: NewBlock,
    header: BlockHeader,
    state: ReservedState,
    commits: Seq<Commit>,
    stored: SemanticCommit,
) -> Plan<(BlockHeader, CommitHash)> {
    ask_decoded_proof(
        RequestView::DecodeProof(stored),
        |fp: LastFinalizationProof| block_previous(block, header, state, commits, fp.proof),
    )
}

pub open spec fn block_previous(
    block: NewBlock,
    header: BlockHeader,
    state: ReservedState,
    commits: Seq<Commit>,
    proof: FinalizationProof,
) -> Plan<(BlockHeader, CommitHash)> {
    ask_hash(
        RequestView::HashHeader(header),
        |previous_hash: Hash256|
            if header.height == u64::MAX {
                Plan::Stuck
            } else {
                block_time(
                    state,
                    commits,
                    BlockStart {
                        author: block.author,
                        proof,
                        previous_hash,
                        height: (header.height + 1) as u64,
                        version: block.version,
                    },
                )
            },
    )
}

pub open spec fn block_time(state: ReservedState, commits: Seq<Commit>, start: BlockStart) -> Plan<
    (BlockHeader, CommitHash),
> {
    ask_timestamp(|timestamp: Timestamp| block_root(state, commits, start, timestamp))
}

pub open spec fn block_root(
    state: ReservedState,
    commits: Seq<Commit>,
    start: BlockStart,
    timestamp: Timestamp,
) -> Plan<(BlockHeader, CommitHash)> {
    ask_hash(
        RequestView::CalculateCommitMerkleRoot(commits),
        |root: Hash256| block_validators(state, start, timestamp, root),
    )
}

pub open spec fn block_validators(
    state: ReservedState,
    start: BlockStart,
    timestamp: Timestamp,
    root: Hash256,
) -> Plan<(BlockHeader, CommitHash)> {
    ask_validator_set(
        state,
        |validators: ValidatorSet|
            block_apply(state, header_from(start, timestamp, root, validators)),
    )
}

/// The part of a new header that is known before the time and the commits are looked at.
#[derive(Debug, PartialEq, Eq)]
pub struct BlockStart {
    pub author: PublicKey,
    pub proof: FinalizationProof,
    pub previous_hash: Hash256,
    pub height: u64,
    pub version: String,
}

/// The header of a new block.
pub open spec fn header_from(
    start: BlockStart,
    timestamp: Timestamp,
    root: Hash256,
    validators: ValidatorSet,
) -> BlockHeader {
    BlockHeader {
        author: start.author,
        prev_block_finalization_proof: start.proof,
        previous_hash: start.previous_hash,
        height: start.height,
        timestamp,
        commit_merkle_root: root,
        repository_merkle_root: Hash256::zeroed(),
        validator_set: validators,
        version: start.version,
    }
}

/// The block itself must be valid on top of the commits.
pub open spec fn block_apply(state: ReservedState, header: BlockHeader) -> Plan<
    (BlockHeader, CommitHash),
> {
    ask_nothing(
        RequestView::ApplyCommit(Commit::Block(header)),
        Blame::Plain("block commit cannot be created on top of the current commit sequence"@),
        block_publish(publish_plan(Commit::Block(header), state, no_work_branch()), header),
    )
}

pub open spec fn block_publish(publish: Plan<CommitHash>, header: BlockHeader) -> Plan<
    (BlockHeader, CommitHash),
> {
    bind(publish, |commit: CommitHash| block_name(header, commit))
}

pub open spec fn block_name(header: BlockHeader, commit: CommitHash) -> Plan<
    (BlockHeader, CommitHash),
> {
    ask_hash(
        RequestView::HashCommit(Commit::Block(header)),
        |hash: Hash256| block_mark(header, commit, block_branch(hash)),
    )
}

pub open spec fn block_mark(header: BlockHeader, commit: CommitHash, branch: Seq<char>) -> Plan<
    (BlockHeader, CommitHash),
> {
    ask_nothing(
        RequestView::CreateBranch(branch, commit),
        Blame::Pass,
        done((header, commit)),
    )
}

#[allow(inconsistent_fields)]
enum CreateBlockStage {
    Work { block: NewBlock },
    Last { block: NewBlock, work: CommitHash },
    Rebased { block: NewBlock, work: CommitHash, last: CommitHash },
    Read { block: NewBlock, work: Ghost<CommitHash>, last: Ghost<CommitHash> },
    Header { inner: LastHeader, block: NewBlock, commits: Vec<(Commit, CommitHash)> },
    Checkout { block: NewBlock, commits: Vec<(Commit, CommitHash)>, header: BlockHeader },
    State { block: NewBlock, commits: Vec<(Commit, CommitHash)>, header: BlockHeader },
    Verifier {
        block: NewBlock,
        commits: Vec<(Commit, CommitHash)>,
        header: BlockHeader,
        state: ReservedState,
    },
    Verify { inner: ApplyAll, block: NewBlock, header: BlockHeader, state: ReservedState },
    Fp { block: NewBlock, header: BlockHeader, state: ReservedState, commits: Vec<Commit> },
    ReadFp {
        block: NewBlock,
        header: BlockHeader,
        state: ReservedState,
        commits: Vec<Commit>,
        fp: Ghost<CommitHash>,
    },
    DecodeFp {
        block: NewBlock,
        header: BlockHeader,
        state: ReservedState,
        commits: Vec<Commit>,
        stored: Ghost<SemanticCommit>,
    },
    Previous {
        block: NewBlock,
        header: BlockHeader,
        state: ReservedState,
        commits: Vec<Commit>,
        proof: FinalizationProof,
    },
    Time { state: ReservedState, commits: Vec<Commit>, start: BlockStart },
    Root {
        state: ReservedState,
        commits: Ghost<Seq<Commit>>,
        start: BlockStart,
        timestamp: Timestamp,
    },
    Validators { state: ReservedState, start: BlockStart, timestamp: Timestamp, root: Hash256 },
    Apply { state: ReservedState, header: BlockHeader },
    Publish { inner: Publish, header: BlockHeader },
    Name { header: BlockHeader, commit: CommitHash },
    Mark { header: BlockHeader, commit: CommitHash, branch: Ghost<Seq<char>> },
}

/// Creating a block on top of the `work` branch.
pub struct CreateBlock {
    stage: CreateBlockStage,
}

impl CreateBlock {
    pub fn start(block: NewBlock) -> (next: Next<CreateBlock, (BlockHeader, CommitHash)>)
        ensures
            begins(next, create_block_plan(block)),
    {
        Next::Ask(
            Request::LocateBranch(WORK_BRANCH_NAME.to_owned()),
            CreateBlock { stage: CreateBlockStage::Work { block } },
        )
    }

    /// Goes on once every commit is verified.
    fn verified(
        block: NewBlock,
        header: BlockHeader,
        state: ReservedState,
        commits: &Vec<(Commit, CommitHash)>,
    ) -> (res: CreateBlock)
        ensures
            res.stage matches CreateBlockStage::Fp { block: b, header: h, state: s, commits: c }
                && b == block && h == header && s == state && c@ == bare(commits@),
    {
        let commits = collect_commits(commits);
        CreateBlock { stage: CreateBlockStage::Fp { block, header, state, commits } }
    }
}

impl Operation for CreateBlock {
    type Output = (BlockHeader, CommitHash);

    type Value = (BlockHeader, CommitHash);

    open spec fn value(output: (BlockHeader, CommitHash)) -> (BlockHeader, CommitHash) {
        output
    }

    closed spec fn plan(self) -> Plan<(BlockHeader, CommitHash)> {
        match self.stage {
            CreateBlockStage::Work { block } => create_block_plan(block),
            CreateBlockStage::Last { block, work } => block_last(block, work),
            CreateBlockStage::Rebased { block, work, last } => block_rebased(block, work, last),
            CreateBlockStage::Read { block, work, last } => block_read(block, work@, last@),
            CreateBlockStage::Header { inner, block, commits } => if inner.plan() is Ask {
                block_header(inner.plan(), block, commits@)
            } else {
                Plan::Stuck
            },
            CreateBlockStage::Checkout { block, commits, header } => block_checkout(
                block,
                commits@,
                header,
            ),
            CreateBlockStage::State { block, commits, header } => block_state(
                block,
                commits@,
                header,
            ),
            CreateBlockStage::Verifier { block, commits, header, state } => block_verifier(
                block,
                commits@,
                header,
                state,
            ),
            CreateBlockStage::Verify { inner, block, header, state } => {
                if inner.plan() is Ask {
                    block_verify(inner.plan(), block, header, state)
                } else {
                    Plan::Stuck
                }
            },
            CreateBlockStage::Fp { block, header, state, commits } => block_fp(
                block,
                header,
                state,
                commits@,
            ),
            CreateBlockStage::ReadFp { block, header, state, commits, fp } => block_read_fp(
                block,
                header,
                state,
                commits@,
                fp@,
            ),
            CreateBlockStage::DecodeFp { block, header, state, commits, stored } => block_decode_fp(
                block,
                header,
                state,
                commits@,
                stored@,
            ),
            CreateBlockStage::Previous { block, header, state, commits, proof } => block_previous(
                block,
                header,
                state,
                commits@,
                proof,
            ),
            CreateBlockStage::Time { state, commits, start } => block_time(state, commits@, start),
            CreateBlockStage::Root { state, commits, start, timestamp } => block_root(
                state,
                commits@,
                start,
                timestamp,
            ),
            CreateBlockStage::Validators { state, start, timestamp, root } => block_validators(
                state,
                start,
                timestamp,
                root,
            ),
            CreateBlockStage::Apply { state, header } => block_apply(state, header),
            CreateBlockStage::Publish { inner, header } => if inner.plan() is Ask {
                block_publish(inner.plan(), header)
            } else {
                Plan::Stuck
            },
            CreateBlockStage::Name { header, commit } => block_name(header, commit),
            CreateBlockStage::Mark { header, commit, branch } => block_mark(
                header,
                commit,
                branch@,
            ),
        }
    }

    fn accepts(&self, reply: &Reply) -> (res: bool) {
        broadcast use lemma_bind_after;

        match (&self.stage, reply) {
            (CreateBlockStage::Work { .. }, Reply::Commit(_)) => true,
            (CreateBlockStage::Last { .. }, Reply::Commit(_)) => true,
            (CreateBlockStage::Rebased { .. }, Reply::Commit(_)) => true,
            (CreateBlockStage::Read { .. }, Reply::Commits(_)) => true,
            (CreateBlockStage::Header { inner, .. }, _) => inner.accepts(reply),
            (CreateBlockStage::Checkout { .. }, Reply::Nothing(_)) => true,
            (CreateBlockStage::State { .. }, Reply::ReservedState(_)) => true,
            (CreateBlockStage::Verifier { .. }, Reply::Nothing(_)) => true,
            (CreateBlockStage::Verify { inner, .. }, _) => inner.accepts(reply),
            (CreateBlockStage::Fp { .. }, Reply::Commit(_)) => true,
            (CreateBlockStage::ReadFp { .. }, Reply::SemanticCommit(_)) => true,
            (CreateBlockStage::DecodeFp { .. }, Reply::DecodedProof(Ok(_))) => true,
            (CreateBlockStage::Previous { header, .. }, Reply::Hash(_)) => header.height < u64::MAX,
            (CreateBlockStage::Time { .. }, Reply::Timestamp(_)) => true,
            (CreateBlockStage::Root { .. }, Reply::Hash(_)) => true,
            (CreateBlockStage::Validators { .. }, Reply::ValidatorSet(Ok(_))) => true,
            (CreateBlockStage::Apply { .. }, Reply::Nothing(_)) => true,
            (CreateBlockStage::Publish { inner, .. }, _) => inner.accepts(reply),
            (CreateBlockStage::Name { .. }, Reply::Hash(_)) => true,
            (CreateBlockStage::Mark { .. }, Reply::Nothing(_)) => true,
            _ => false,
        }
    }

    fn resume(self, reply: Reply) -> (next: Next<Self, (BlockHeader, CommitHash)>) {
        broadcast use lemma_bind_after;

        match (self.stage, reply) {
            (CreateBlockStage::Work { block }, Reply::Commit(Ok(work))) => Next::Ask(
                Request::LocateBranch(FINALIZED_BRANCH_NAME.to_owned()),
                CreateBlock { stage: CreateBlockStage::Last { block, work } },
            ),
            (CreateBlockStage::Last { block, work }, Reply::Commit(Ok(last))) => Next::Ask(
                Request::FindMergeBase(last, work),
                CreateBlock { stage: CreateBlockStage::Rebased { block, work, last } },
            ),
            (CreateBlockStage::Rebased { block, work, last }, Reply::Commit(Ok(base))) => {
                if !base.same(&last) {
                    Next::Done(Err(Error::Message(not_rebased_text(WORK_BRANCH_NAME))))
                } else {
                    Next::Ask(
                        Request::ReadCommits(last, work),
                        CreateBlock {
                            stage: CreateBlockStage::Read {
                                block,
                                work: Ghost(work),
                                last: Ghost(last),
                            },
                        },
                    )
                }
            },
            (CreateBlockStage::Read { block, work: _, last: _ }, Reply::Commits(Ok(commits))) => {
                let (request, inner) = LastHeader::first();
                Next::Ask(
                    request,
                    CreateBlock { stage: CreateBlockStage::Header { inner, block, commits } },
                )
            },
            (CreateBlockStage::Header { inner, block, commits }, reply) => {
                match inner.resume(reply) {
                    Next::Ask(request, inner) => Next::Ask(
                        request,
                        CreateBlock { stage: CreateBlockStage::Header { inner, block, commits } },
                    ),
                    Next::Done(Ok(header)) => Next::Ask(
                        Request::Checkout(WORK_BRANCH_NAME.to_owned()),
                        CreateBlock { stage: CreateBlockStage::Checkout { block, commits, header } },
                    ),
                    Next::Done(Err(error)) => Next::Done(Err(error)),
                }
            },
            (CreateBlockStage::Checkout { block, commits, header }, Reply::Nothing(Ok(()))) => {
                Next::Ask(
                    Request::ReadReservedState,
                    CreateBlock { stage: CreateBlockStage::State { block, commits, header } },
                )
            },
            (CreateBlockStage::Checkout { .. }, Reply::Nothing(Err(error))) => Next::Done(
                Err(error.not_found_with("failed to checkout to the work branch: ")),
            ),
            (
                CreateBlockStage::State { block, commits, header },
                Reply::ReservedState(Ok(state)),
            ) => {
                let request = Request::CreateVerifier(header.clone(), state.clone());
                Next::Ask(
                    request,
                    CreateBlock {
                        stage: CreateBlockStage::Verifier { block, commits, header, state },
                    },
                )
            },
            (
                CreateBlockStage::Verifier { block, commits, header, state },
                Reply::Nothing(Ok(())),
            ) => match ApplyAll::start(commits) {
                Next::Ask(request, inner) => Next::Ask(
                    request,
                    CreateBlock { stage: CreateBlockStage::Verify { inner, block, header, state } },
                ),
                Next::Done(Ok(commits)) => Next::Ask(
                    Request::LocateBranch(FP_BRANCH_NAME.to_owned()),
                    CreateBlock::verified(block, header, state, &commits),
                ),
                Next::Done(Err(error)) => Next::Done(Err(error)),
            },
            (CreateBlockStage::Verifier { .. }, Reply::Nothing(Err(error))) => Next::Done(
                Err(error.told("failed to create a commit sequence verifier: ")),
            ),
            (CreateBlockStage::Verify { inner, block, header, state }, reply) => {
                match inner.resume(reply) {
                    Next::Ask(request, inner) => Next::Ask(
                        request,
                        CreateBlock {
                            stage: CreateBlockStage::Verify { inner, block, header, state },
                        },
                    ),
                    Next::Done(Ok(commits)) => Next::Ask(
                        Request::LocateBranch(FP_BRANCH_NAME.to_owned()),
                        CreateBlock::verified(block, header, state, &commits),
                    ),
                    Next::Done(Err(error)) => Next::Done(Err(error)),
                }
            },
            (CreateBlockStage::Fp { block, header, state, commits }, Reply::Commit(Ok(fp))) => {
                Next::Ask(
                    Request::ReadSemanticCommit(fp),
                    CreateBlock {
                        stage: CreateBlockStage::ReadFp {
                            block,
                            header,
                            state,
                            commits,
                            fp: Ghost(fp),
                        },
                    },
                )
            },
            (
                CreateBlockStage::ReadFp { block, header, state, commits, fp: _ },
                Reply::SemanticCommit(Ok(stored)),
            ) => {
                let ghost of = stored;
                Next::Ask(
                    Request::DecodeProof(stored),
                    CreateBlock {
                        stage: CreateBlockStage::DecodeFp {
                            block,
                            header,
                            state,
                            commits,
                            stored: Ghost(of),
                        },
                    },
                )
            },
            (
                CreateBlockStage::DecodeFp { block, header, state, commits, stored: _ },
                Reply::DecodedProof(Ok(fp)),
            ) => {
                let request = Request::HashHeader(header.clone());
                Next::Ask(
                    request,
                    CreateBlock {
                        stage: CreateBlockStage::Previous {
                            block,
                            header,
                            state,
                            commits,
                            proof: fp.proof,
                        },
                    },
                )
            },
            (
                CreateBlockStage::Previous { block, header, state, commits, proof },
                Reply::Hash(previous_hash),
            ) => {
                let start = BlockStart {
                    author: block.author,
                    proof,
                    previous_hash,
                    height: header.height + 1,
                    version: block.version,
                };
                Next::Ask(
                    Request::GetTimestamp,
                    CreateBlock { stage: CreateBlockStage::Time { state, commits, start } },
                )
            },
            (CreateBlockStage::Time { state, commits, start }, Reply::Timestamp(timestamp)) => {
                let ghost of = commits@;
                Next::Ask(
                    Request::CalculateCommitMerkleRoot(commits),
                    CreateBlock {
                        stage: CreateBlockStage::Root {
                            state,
                            commits: Ghost(of),
                            start,
                            timestamp,
                        },
                    },
                )
            },
            (CreateBlockStage::Root { state, commits: _, start, timestamp }, Reply::Hash(root)) => {
                let request = Request::GetValidatorSet(state.clone());
                Next::Ask(
                    request,
                    CreateBlock {
                        stage: CreateBlockStage::Validators { state, start, timestamp, root },
                    },
                )
            },
            (
                CreateBlockStage::Validators { state, start, timestamp, root },
                Reply::ValidatorSet(Ok(validators)),
            ) => {
                let header = BlockHeader {
                    author: start.author,
                    prev_block_finalization_proof: start.proof,
                    previous_hash: start.previous_hash,
                    height: start.height,
                    timestamp,
                    commit_merkle_root: root,
                    repository_merkle_root: Hash256::zero(),
                    validator_set: validators,
                    version: start.version,
                };
                let request = Request::ApplyCommit(Commit::Block(header.clone()));
                Next::Ask(
                    request,
                    CreateBlock { stage: CreateBlockStage::Apply { state, header } },
                )
            },
            (CreateBlockStage::Apply { state, header }, Reply::Nothing(Ok(()))) => {
                let (request, inner) = Publish::first(Commit::Block(header.clone()), state, true);
                Next::Ask(
                    request,
                    CreateBlock { stage: CreateBlockStage::Publish { inner, header } },
                )
            },
            (CreateBlockStage::Apply { .. }, Reply::Nothing(Err(_))) => Next::Done(
                Err(
                    Error::Message(
                        "block commit cannot be created on top of the current commit sequence".to_owned(),
                    ),
                ),
            ),
            (CreateBlockStage::Publish { inner, header }, reply) => match inner.resume(reply) {
                Next::Ask(request, inner) => Next::Ask(
                    request,
                    CreateBlock { stage: CreateBlockStage::Publish { inner, header } },
                ),
                Next::Done(Ok(commit)) => {
                    let request = Request::HashCommit(Commit::Block(header.clone()));
                    Next::Ask(
                        request,
                        CreateBlock { stage: CreateBlockStage::Name { header, commit } },
                    )
                },
                Next::Done(Err(error)) => Next::Done(Err(error)),
            },
            (CreateBlockStage::Name { header, commit }, Reply::Hash(hash)) => {
                let branch = hash.block_branch();
                let ghost of = branch@;
                Next::Ask(
                    Request::CreateBranch(branch, commit),
                    CreateBlock {
                        stage: CreateBlockStage::Mark { header, commit, branch: Ghost(of) },
                    },
                )
            },
            (CreateBlockStage::Mark { header, commit, branch: _ }, Reply::Nothing(Ok(()))) => {
                Next::Done(Ok((header, commit)))
            },
            (_, Reply::Commit(Err(error))) => Next::Done(Err(Error::Host(error))),
            (_, Reply::Nothing(Err(error))) => Next::Done(Err(Error::Host(error))),
            (_, Reply::ReservedState(Err(error))) => Next::Done(Err(Error::Host(error))),
            (_, Reply::Commits(Err(error))) => Next::Done(Err(Error::Host(error))),
            (_, Reply::SemanticCommit(Err(error))) => Next::Done(Err(Error::Host(error))),
            _ => unreached(),
        }
    }
}

} // verus!
