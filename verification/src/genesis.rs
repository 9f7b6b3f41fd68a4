//! Starting a repository with the genesis block.
use vstd::pervasive::unreached;
use vstd::prelude::*;

use crate::data::{Commit, FinalizationProof, LastFinalizationProof, ReservedState, SemanticCommit};
use crate::error::{Blame, Error};
use crate::hash::CommitHash;
use crate::host::{Reply, Request, RequestView};
use crate::plan::{
    ask_anyway, ask_commit, ask_nothing, ask_reserved_state, ask_stored, begins, Next, Operation,
    Plan,
};
use crate::steps::{checkout_fp, RecordProof};
use crate::{FINALIZED_BRANCH_NAME, FP_BRANCH_NAME, WORK_BRANCH_NAME};

verus! {

/// How it is reported that the `finalized` branch, which ought to be there, cannot be checked out.
pub open spec fn no_finalized_branch() -> Blame {
    Blame::NotFoundWith("failed to checkout to the finalized branch: "@)
}

/// The plan to commit the genesis block on the `finalized` branch, with the `work` branch at the
/// same place, and the genesis proof on the `fp` branch. Branches that are there already are left
/// as they are.
pub open spec fn genesis_plan() -> Plan<()> {
    ask_reserved_state(|state: ReservedState| genesis_encode(state))
}

pub open spec fn genesis_encode(state: ReservedState) -> Plan<()> {
    ask_stored(
        RequestView::EncodeCommit(Commit::Block(state.genesis_info.header), state),
        |stored: SemanticCommit| genesis_clean(stored, state.genesis_info.genesis_proof),
    )
}

pub open spec fn genesis_clean(stored: SemanticCommit, proof: FinalizationProof) -> Plan<()> {
    ask_nothing(RequestView::CheckoutClean, Blame::Pass, genesis_head(stored, proof))
}

pub open spec fn genesis_head(stored: SemanticCommit, proof: FinalizationProof) -> Plan<()> {
    ask_commit(
        RequestView::GetHead,
        Blame::Pass,
        |head: CommitHash| genesis_finalized(stored, proof, head),
    )
}

pub open spec fn genesis_finalized(
    stored: SemanticCommit,
    proof: FinalizationProof,
    head: CommitHash,
) -> Plan<()> {
    ask_anyway(
        RequestView::CreateBranch(FINALIZED_BRANCH_NAME@, head),
        genesis_checkout(stored, proof),
    )
}

pub open spec fn genesis_checkout(stored: SemanticCommit, proof: FinalizationProof) -> Plan<()> {
    ask_nothing(
        RequestView::Checkout(FINALIZED_BRANCH_NAME@),
        no_finalized_branch(),
        genesis_commit(stored, proof),
    )
}

pub open spec fn genesis_commit(stored: SemanticCommit, proof: FinalizationProof) -> Plan<()> {
    ask_commit(
        RequestView::CreateSemanticCommit(stored),
        Blame::Pass,
        |commit: CommitHash| genesis_work(proof, commit),
    )
}

pub open spec fn genesis_work(proof: FinalizationProof, commit: CommitHash) -> Plan<()> {
    ask_anyway(RequestView::CreateBranch(WORK_BRANCH_NAME@, commit), genesis_fp(proof, commit))
}

pub open spec fn genesis_fp(proof: FinalizationProof, commit: CommitHash) -> Plan<()> {
    ask_anyway(
        RequestView::CreateBranch(FP_BRANCH_NAME@, commit),
        checkout_fp(LastFinalizationProof { height: 0, proof }),
    )
}

#[allow(inconsistent_fields)]
enum GenesisStage {
    State,
    Encode { state: ReservedState },
    Clean { stored: SemanticCommit, proof: FinalizationProof },
    Head { stored: SemanticCommit, proof: FinalizationProof },
    Finalized { stored: SemanticCommit, proof: FinalizationProof, head: Ghost<CommitHash> },
    Checkout { stored: SemanticCommit, proof: FinalizationProof },
    Commit { stored: Ghost<SemanticCommit>, proof: FinalizationProof },
    Work { proof: FinalizationProof, commit: CommitHash },
    Fp { proof: FinalizationProof, commit: Ghost<CommitHash> },
    Record { inner: RecordProof },
}

/// Starting a repository with the genesis block.
pub struct Genesis {
    stage: GenesisStage,
}

impl Genesis {
    pub fn start() -> (next: Next<Genesis, ()>)
        ensures
            begins(next, genesis_plan()),
    {
        Next::Ask(Request::ReadReservedState, Genesis { stage: GenesisStage::State })
    }
}

impl Operation for Genesis {
    type Output = ();

    type Value = ();

    open spec fn value(output: ()) -> () {
        output
    }

    closed spec fn plan(self) -> Plan<()> {
        match self.stage {
            GenesisStage::State => genesis_plan(),
            GenesisStage::Encode { state } => genesis_encode(state),
            GenesisStage::Clean { stored, proof } => genesis_clean(stored, proof),
            GenesisStage::Head { stored, proof } => genesis_head(stored, proof),
            GenesisStage::Finalized { stored, proof, head } => genesis_finalized(
                stored,
                proof,
                head@,
            ),
            GenesisStage::Checkout { stored, proof } => genesis_checkout(stored, proof),
            GenesisStage::Commit { stored, proof } => genesis_commit(stored@, proof),
            GenesisStage::Work { proof, commit } => genesis_work(proof, commit),
            GenesisStage::Fp { proof, commit } => genesis_fp(proof, commit@),
            GenesisStage::Record { inner } => inner.plan(),
        }
    }

    fn accepts(&self, reply: &Reply) -> (res: bool) {
        match (&self.stage, reply) {
            (GenesisStage::State, Reply::ReservedState(_)) => true,
            (GenesisStage::Encode { .. }, Reply::SemanticCommit(_)) => true,
            (GenesisStage::Clean { .. }, Reply::Nothing(_)) => true,
            (GenesisStage::Head { .. }, Reply::Commit(_)) => true,
            (GenesisStage::Finalized { .. }, Reply::Nothing(_)) => true,
            (GenesisStage::Checkout { .. }, Reply::Nothing(_)) => true,
            (GenesisStage::Commit { .. }, Reply::Commit(_)) => true,
            (GenesisStage::Work { .. }, Reply::Nothing(_)) => true,
            (GenesisStage::Fp { .. }, Reply::Nothing(_)) => true,
            (GenesisStage::Record { inner }, _) => inner.accepts(reply),
            _ => false,
        }
    }

    fn resume(self, reply: Reply) -> (next: Next<Self, ()>) {
        match (self.stage, reply) {
            (GenesisStage::State, Reply::ReservedState(Ok(state))) => {
                let block = Commit::Block(state.genesis_info.header.clone());
                let request = Request::EncodeCommit(block, state.clone());
                Next::Ask(request, Genesis { stage: GenesisStage::Encode { state } })
            },
            (GenesisStage::Encode { state }, Reply::SemanticCommit(Ok(stored))) => {
                let proof = state.genesis_info.genesis_proof;
                Next::Ask(
                    Request::CheckoutClean,
                    Genesis { stage: GenesisStage::Clean { stored, proof } },
                )
            },
            (GenesisStage::Clean { stored, proof }, Reply::Nothing(Ok(()))) => Next::Ask(
                Request::GetHead,
                Genesis { stage: GenesisStage::Head { stored, proof } },
            ),
            (GenesisStage::Head { stored, proof }, Reply::Commit(Ok(head))) => Next::Ask(
                Request::CreateBranch(FINALIZED_BRANCH_NAME.to_owned(), head),
                Genesis { stage: GenesisStage::Finalized { stored, proof, head: Ghost(head) } },
            ),
            (GenesisStage::Finalized { stored, proof, head: _ }, Reply::Nothing(_)) => Next::Ask(
                Request::Checkout(FINALIZED_BRANCH_NAME.to_owned()),
                Genesis { stage: GenesisStage::Checkout { stored, proof } },
            ),
            (GenesisStage::Checkout { stored, proof }, Reply::Nothing(Ok(()))) => {
                let ghost of = stored;
                Next::Ask(
                    Request::CreateSemanticCommit(stored),
                    Genesis { stage: GenesisStage::Commit { stored: Ghost(of), proof } },
                )
            },
            (GenesisStage::Checkout { .. }, Reply::Nothing(Err(error))) => Next::Done(
                Err(error.not_found_with("failed to checkout to the finalized branch: ")),
            ),
            (GenesisStage::Commit { stored: _, proof }, Reply::Commit(Ok(commit))) => Next::Ask(
                Request::CreateBranch(WORK_BRANCH_NAME.to_owned(), commit),
                Genesis { stage: GenesisStage::Work { proof, commit } },
            ),
            (GenesisStage::Work { proof, commit }, Reply::Nothing(_)) => Next::Ask(
                Request::CreateBranch(FP_BRANCH_NAME.to_owned(), commit),
                Genesis { stage: GenesisStage::Fp { proof, commit: Ghost(commit) } },
            ),
            (GenesisStage::Fp { proof, commit: _ }, Reply::Nothing(_)) => {
                let (request, inner) = RecordProof::first(
                    LastFinalizationProof { height: 0, proof },
                );
                Next::Ask(request, Genesis { stage: GenesisStage::Record { inner } })
            },
            (GenesisStage::Record { inner }, reply) => match inner.resume(reply) {
                Next::Ask(request, inner) => Next::Ask(
                    request,
                    Genesis { stage: GenesisStage::Record { inner } },
                ),
                Next::Done(res) => Next::Done(res),
            },
            (_, Reply::ReservedState(Err(error))) => Next::Done(Err(Error::Host(error))),
            (_, Reply::SemanticCommit(Err(error))) => Next::Done(Err(Error::Host(error))),
            (_, Reply::Commit(Err(error))) => Next::Done(Err(Error::Host(error))),
            (_, Reply::Nothing(Err(error))) => Next::Done(Err(Error::Host(error))),
            _ => unreached(),
        }
    }
}

} // verus!
