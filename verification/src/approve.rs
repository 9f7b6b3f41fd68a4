//! Recording that an agenda was approved.
use vstd::pervasive::unreached;
use vstd::prelude::*;

use crate::data::{
    AgendaProof, AgendaSignatures, BlockHeader, BlockHeight, Commit, ReservedState, SemanticCommit,
    Timestamp,
};
use crate::error::{Blame, Error};
use crate::hash::{agenda_branch, CommitHash, Hash256};
use crate::host::{Reply, Request, RequestView};
use crate::plan::{
    ask_commit, ask_commits, ask_hash, ask_names, ask_nothing, ask_reserved_state, ask_stored,
    begins, bind, done, fail, lemma_bind_after, Next, Operation, Plan,
};
use crate::query::{last_header_plan, LastHeader};
use crate::steps::{
    apply_from, no_merge_base, no_merge_base_text, no_verifier, not_rebased, not_rebased_text,
    ApplyAll,
};
use crate::FINALIZED_BRANCH_NAME;

verus! {

/// What an approval is about: the agenda, the signatures, and the time of the proof.
#[derive(Debug, PartialEq, Eq)]
pub struct Approval {
    pub agenda_hash: Hash256,
    pub proof: AgendaSignatures,
    pub timestamp: Timestamp,
}

/// The plan to record an approval on the branch of the agenda, which must be on top of the
/// `finalized` branch. It gives the commit of the agenda proof.
pub open spec fn approve_plan(approval: Approval) -> Plan<CommitHash> {
    ask_commit(
        RequestView::LocateBranch(FINALIZED_BRANCH_NAME@),
        Blame::Pass,
        |last: CommitHash| approve_locate(approval, last),
    )
}

pub open spec fn approve_locate(approval: Approval, last: CommitHash) -> Plan<CommitHash> {
    ask_commit(
        RequestView::LocateBranch(agenda_branch(approval.agenda_hash)),
        Blame::Pass,
        |agenda: CommitHash| approve_rebased(approval, last, agenda),
    )
}

pub open spec fn approve_rebased(
    approval: Approval,
    last: CommitHash,
    agenda: CommitHash,
) -> Plan<CommitHash> {
    ask_commit(
        RequestView::FindMergeBase(last, agenda),
        no_merge_base(agenda_branch(approval.agenda_hash)),
        |base: CommitHash|
            if base != last {
                fail(not_rebased(agenda_branch(approval.agenda_hash)))
            } else {
                approve_header(last_header_plan(), approval, agenda)
            },
    )
}

pub open spec fn approve_header(
    header: Plan<BlockHeader>,
    approval: Approval,
    agenda: CommitHash,
) -> Plan<CommitHash> {
    bind(header, |header: BlockHeader| approve_state(approval, agenda, header))
}

pub open spec fn approve_state(
    approval: Approval,
    agenda: CommitHash,
    header: BlockHeader,
) -> Plan<CommitHash> {
    ask_reserved_state(|state: ReservedState| approve_finalized(approval, agenda, header, state))
}

pub open spec fn approve_finalized(
    approval: Approval,
    agenda: CommitHash,
    header: BlockHeader,
    state: ReservedState,
) -> Plan<CommitHash> {
    ask_commit(
        RequestView::LocateBranch(FINALIZED_BRANCH_NAME@),
        Blame::Pass,
        |from: CommitHash| approve_read(approval, agenda, header, state, from),
    )
}

pub open spec fn approve_read(
    approval: Approval,
    agenda: CommitHash,
    header: BlockHeader,
    state: ReservedState,
    from: CommitHash,
) -> Plan<CommitHash> {
    ask_commits(
        RequestView::ReadCommits(from, agenda),
        |commits: Seq<(Commit, CommitHash)>|
            approve_verifier(approval, agenda, header, state, commits),
    )
}

pub open spec fn approve_verifier(
    approval: Approval,
    agenda: CommitHash,
    header: BlockHeader,
    state: ReservedState,
    commits: Seq<(Commit, CommitHash)>,
) -> Plan<CommitHash> {
    ask_nothing(
        RequestView::CreateVerifier(header, state),
        no_verifier(),
        approve_verify(apply_from(commits, 0), approval, agenda, state),
    )
}

/// Every commit is verified, and the last one must be an agenda.
pub open spec fn approve_verify(
    checks: Plan<Seq<(Commit, CommitHash)>>,
    approval: Approval,
    agenda: CommitHash,
    state: ReservedState,
) -> Plan<CommitHash> {
    bind(
        checks,
        |commits: Seq<(Commit, CommitHash)>|
            if commits.len() == 0 {
                Plan::Stuck
            } else {
                match commits.last().0 {
                    Commit::Agenda(last) => approve_hash(
                        approval,
                        agenda,
                        state,
                        commits.last().0,
                        last.height,
                    ),
                    _ => fail("not an agenda commit"@),
                }
            },
    )
}

pub open spec fn approve_hash(
    approval: Approval,
    agenda: CommitHash,
    state: ReservedState,
    commit: Commit,
    height: BlockHeight,
) -> Plan<CommitHash> {
    ask_hash(
        RequestView::HashCommit(commit),
        |agenda_hash: Hash256|
            approve_apply(
                approval.agenda_hash,
                agenda,
                state,
                Commit::AgendaProof(
                    AgendaProof {
                        height,
                        agenda_hash,
                        proof: approval.proof,
                        timestamp: approval.timestamp,
                    },
                ),
            ),
    )
}

/// The proof itself must be valid on top of the commits.
pub open spec fn approve_apply(
    hash: Hash256,
    agenda: CommitHash,
    state: ReservedState,
    proof: Commit,
) -> Plan<CommitHash> {
    ask_nothing(
        RequestView::ApplyCommit(proof),
        Blame::Plain(
            "agenda proof commit cannot be created on top of the current commit sequence"@,
        ),
        approve_delete(hash, agenda, state, proof),
    )
}

/// The branch named after the agenda makes way for the one named after its proof.
pub open spec fn approve_delete(
    hash: Hash256,
    agenda: CommitHash,
    state: ReservedState,
    proof: Commit,
) -> Plan<CommitHash> {
    ask_nothing(
        RequestView::DeleteBranch(agenda_branch(hash)),
        Blame::Pass,
        approve_encode(agenda, state, proof),
    )
}

pub open spec fn approve_encode(agenda: CommitHash, state: ReservedState, proof: Commit) -> Plan<
    CommitHash,
> {
    ask_stored(
        RequestView::EncodeCommit(proof, state),
        |stored: SemanticCommit| approve_name(agenda, proof, stored),
    )
}

pub open spec fn approve_name(agenda: CommitHash, proof: Commit, stored: SemanticCommit) -> Plan<
    CommitHash,
> {
    ask_hash(
        RequestView::HashCommit(proof),
        |hash: Hash256| approve_if_new(agenda, stored, agenda_branch(hash)),
    )
}

/// Where the branch of the proof is there already, so is the approval.
pub open spec fn approve_if_new(
    agenda: CommitHash,
    stored: SemanticCommit,
    branch: Seq<char>,
) -> Plan<CommitHash> {
    ask_names(
        RequestView::ListBranches,
        |names: Seq<String>|
            if lists(names, branch) {
                approve_existing(branch)
            } else {
                approve_create(agenda, stored, branch)
            },
    )
}

/// Whether a name is among some others.
pub open spec fn lists(names: Seq<String>, name: Seq<char>) -> bool {
    exists|i: int| 0 <= i < names.len() && (#[trigger] names[i])@ == name
}

pub open spec fn approve_existing(branch: Seq<char>) -> Plan<CommitHash> {
    ask_commit(
        RequestView::LocateBranch(branch),
        Blame::Pass,
        |commit: CommitHash| done(commit),
    )
}

pub open spec fn approve_create(
    agenda: CommitHash,
    stored: SemanticCommit,
    branch: Seq<char>,
) -> Plan<CommitHash> {
    ask_nothing(
        RequestView::CreateBranch(branch, agenda),
        Blame::Pass,
        approve_checkout(stored, branch),
    )
}

pub open spec fn approve_checkout(stored: SemanticCommit, branch: Seq<char>) -> Plan<CommitHash> {
    ask_nothing(RequestView::Checkout(branch), Blame::Pass, approve_commit(stored))
}

pub open spec fn approve_commit(stored: SemanticCommit) -> Plan<CommitHash> {
    ask_commit(
        RequestView::CreateSemanticCommit(stored),
        Blame::Pass,
        |commit: CommitHash| done(commit),
    )
}

/// Whether a name is among some others.
fn is_listed(names: &Vec<String>, name: &String) -> (res: bool)
    ensures
        res == lists(names@, name@),
{
    let mut i: usize = 0;
    while i < names.len()
        invariant
            i <= names@.len(),
            forall|j: int| 0 <= j < i ==> (#[trigger] names@[j])@ != name@,
        decreases names@.len() - i,
    {
        if names[i] == *name {
            return true;
        }
        i = i + 1;
    }
    false
}

#[allow(inconsistent_fields)]
enum ApproveStage {
    Finalized,
    Locate { last: CommitHash },
    Rebased { last: CommitHash, agenda: CommitHash },
    Header { inner: LastHeader, agenda: CommitHash },
    State { agenda: CommitHash, header: BlockHeader },
    FinalizedAgain { agenda: CommitHash, header: BlockHeader, state: ReservedState },
    Read {
        agenda: CommitHash,
        header: BlockHeader,
        state: ReservedState,
        from: Ghost<CommitHash>,
    },
    Verifier {
        agenda: CommitHash,
        header: Ghost<BlockHeader>,
        state: ReservedState,
        commits: Vec<(Commit, CommitHash)>,
    },
    Verify { inner: ApplyAll, agenda: CommitHash, state: ReservedState },
    Hash {
        agenda: CommitHash,
        state: ReservedState,
        commit: Ghost<Commit>,
        height: BlockHeight,
    },
    Apply { agenda: CommitHash, state: ReservedState, proof: Commit },
    Delete { agenda: CommitHash, state: ReservedState, proof: Commit },
    Encode { agenda: CommitHash, state: Ghost<ReservedState>, proof: Commit },
    Name { agenda: CommitHash, proof: Ghost<Commit>, stored: SemanticCommit },
    IfNew { agenda: CommitHash, stored: SemanticCommit, branch: String },
    Existing { branch: Ghost<Seq<char>> },
    Create { agenda: Ghost<CommitHash>, stored: SemanticCommit, branch: String },
    Checkout { stored: SemanticCommit, branch: Ghost<Seq<char>> },
    Commit { stored: Ghost<SemanticCommit> },
}

/// Recording that an agenda was approved.
pub struct Approve {
    approval: Approval,
    stage: ApproveStage,
}

impl Approve {
    pub fn start(approval: Approval) -> (next: Next<Approve, CommitHash>)
        ensures
            begins(next, approve_plan(approval)),
    {
        Next::Ask(
            Request::LocateBranch(FINALIZED_BRANCH_NAME.to_owned()),
            Approve { approval, stage: ApproveStage::Finalized },
        )
    }

    closed spec fn rest(self) -> Plan<CommitHash> {
        let approval = self.approval;
        match self.stage {
            ApproveStage::Finalized => approve_plan(approval),
            ApproveStage::Locate { last } => approve_locate(approval, last),
            ApproveStage::Rebased { last, agenda } => approve_rebased(approval, last, agenda),
            ApproveStage::Header { inner, agenda } => if inner.plan() is Ask {
                approve_header(inner.plan(), approval, agenda)
            } else {
                Plan::Stuck
            },
            ApproveStage::State { agenda, header } => approve_state(approval, agenda, header),
            ApproveStage::FinalizedAgain { agenda, header, state } => approve_finalized(
                approval,
                agenda,
                header,
                state,
            ),
            ApproveStage::Read { agenda, header, state, from } => approve_read(
                approval,
                agenda,
                header,
                state,
                from@,
            ),
            ApproveStage::Verifier { agenda, header, state, commits } => approve_verifier(
                approval,
                agenda,
                header@,
                state,
                commits@,
            ),
            ApproveStage::Verify { inner, agenda, state } => if inner.plan() is Ask {
                approve_verify(inner.plan(), approval, agenda, state)
            } else {
                Plan::Stuck
            },
            ApproveStage::Hash { agenda, state, commit, height } => approve_hash(
                approval,
                agenda,
                state,
                commit@,
                height,
            ),
            ApproveStage::Apply { agenda, state, proof } => approve_apply(
                approval.agenda_hash,
                agenda,
                state,
                proof,
            ),
            ApproveStage::Delete { agenda, state, proof } => approve_delete(
                approval.agenda_hash,
                agenda,
                state,
                proof,
            ),
            ApproveStage::Encode { agenda, state, proof } => approve_encode(agenda, state@, proof),
            ApproveStage::Name { agenda, proof, stored } => approve_name(agenda, proof@, stored),
            ApproveStage::IfNew { agenda, stored, branch } => approve_if_new(
                agenda,
                stored,
                branch@,
            ),
            ApproveStage::Existing { branch } => approve_existing(branch@),
            ApproveStage::Create { agenda, stored, branch } => approve_create(
                agenda@,
                stored,
                branch@,
            ),
            ApproveStage::Checkout { stored, branch } => approve_checkout(stored, branch@),
            ApproveStage::Commit { stored } => approve_commit(stored@),
        }
    }

    /// Goes on once every commit is verified.
    fn verified(
        approval: Approval,
        agenda: CommitHash,
        state: ReservedState,
        commits: Vec<(Commit, CommitHash)>,
    ) -> (next: Next<Approve, CommitHash>)
        requires
            commits@.len() > 0,
        ensures
            crate::plan::follows(
                next,
                approve_verify(done(commits@), approval, agenda, state),
                |operation: Approve| operation.rest(),
                |output: CommitHash| output,
            ),
    {
        let commit = commits[commits.len() - 1].0.clone();
        if let Commit::Agenda(last) = &commit {
            let height: BlockHeight = last.height;
            let ghost of = commit;
            Next::Ask(
                Request::HashCommit(commit),
                Approve {
                    approval,
                    stage: ApproveStage::Hash { agenda, state, commit: Ghost(of), height },
                },
            )
        } else {
            Next::Done(Err(Error::Message("not an agenda commit".to_owned())))
        }
    }
}

impl Operation for Approve {
    type Output = CommitHash;

    type Value = CommitHash;

    open spec fn value(output: CommitHash) -> CommitHash {
        output
    }

    closed spec fn plan(self) -> Plan<CommitHash> {
        self.rest()
    }

    fn accepts(&self, reply: &Reply) -> (res: bool) {
        broadcast use lemma_bind_after;

        match (&self.stage, reply) {
            (ApproveStage::Finalized, Reply::Commit(_)) => true,
            (ApproveStage::Locate { .. }, Reply::Commit(_)) => true,
            (ApproveStage::Rebased { .. }, Reply::Commit(_)) => true,
            (ApproveStage::Header { inner, .. }, _) => inner.accepts(reply),
            (ApproveStage::State { .. }, Reply::ReservedState(_)) => true,
            (ApproveStage::FinalizedAgain { .. }, Reply::Commit(_)) => true,
            (ApproveStage::Read { .. }, Reply::Commits(_)) => true,
            (ApproveStage::Verifier { commits, .. }, Reply::Nothing(Ok(_))) => commits.len() > 0,
            (ApproveStage::Verifier { .. }, Reply::Nothing(Err(_))) => true,
            (ApproveStage::Verify { inner, .. }, _) => {
                proof {
                    inner.lemma_hands_back(*reply);
                }
                inner.accepts(reply)
            },
            (ApproveStage::Hash { .. }, Reply::Hash(_)) => true,
            (ApproveStage::Apply { .. }, Reply::Nothing(_)) => true,
            (ApproveStage::Delete { .. }, Reply::Nothing(_)) => true,
            (ApproveStage::Encode { .. }, Reply::SemanticCommit(_)) => true,
            (ApproveStage::Name { .. }, Reply::Hash(_)) => true,
            (ApproveStage::IfNew { .. }, Reply::Names(_)) => true,
            (ApproveStage::Existing { .. }, Reply::Commit(_)) => true,
            (ApproveStage::Create { .. }, Reply::Nothing(_)) => true,
            (ApproveStage::Checkout { .. }, Reply::Nothing(_)) => true,
            (ApproveStage::Commit { .. }, Reply::Commit(_)) => true,
            _ => false,
        }
    }

    fn resume(self, reply: Reply) -> (next: Next<Self, CommitHash>) {
        broadcast use lemma_bind_after;

        let approval = self.approval;
        match (self.stage, reply) {
            (ApproveStage::Finalized, Reply::Commit(Ok(last))) => {
                let branch = approval.agenda_hash.agenda_branch();
                Next::Ask(
                    Request::LocateBranch(branch),
                    Approve { approval, stage: ApproveStage::Locate { last } },
                )
            },
            (ApproveStage::Locate { last }, Reply::Commit(Ok(agenda))) => Next::Ask(
                Request::FindMergeBase(last, agenda),
                Approve { approval, stage: ApproveStage::Rebased { last, agenda } },
            ),
            (ApproveStage::Rebased { last, agenda }, Reply::Commit(Ok(base))) => {
                if !base.same(&last) {
                    let branch = approval.agenda_hash.agenda_branch();
                    Next::Done(Err(Error::Message(not_rebased_text(branch.as_str()))))
                } else {
                    let (request, inner) = LastHeader::first();
                    Next::Ask(
                        request,
                        Approve { approval, stage: ApproveStage::Header { inner, agenda } },
                    )
                }
            },
            (ApproveStage::Rebased { .. }, Reply::Commit(Err(error))) => {
                let branch = approval.agenda_hash.agenda_branch();
                Next::Done(Err(error.not_found(no_merge_base_text(branch.as_str()))))
            },
            (ApproveStage::Header { inner, agenda }, reply) => match inner.resume(reply) {
                Next::Ask(request, inner) => Next::Ask(
                    request,
                    Approve { approval, stage: ApproveStage::Header { inner, agenda } },
                ),
                Next::Done(Ok(header)) => Next::Ask(
                    Request::ReadReservedState,
                    Approve { approval, stage: ApproveStage::State { agenda, header } },
                ),
                Next::Done(Err(error)) => Next::Done(Err(error)),
            },
            (ApproveStage::State { agenda, header }, Reply::ReservedState(Ok(state))) => Next::Ask(
                Request::LocateBranch(FINALIZED_BRANCH_NAME.to_owned()),
                Approve {
                    approval,
                    stage: ApproveStage::FinalizedAgain { agenda, header, state },
                },
            ),
            (
                ApproveStage::FinalizedAgain { agenda, header, state },
                Reply::Commit(Ok(from)),
            ) => Next::Ask(
                Request::ReadCommits(from, agenda),
                Approve {
                    approval,
                    stage: ApproveStage::Read { agenda, header, state, from: Ghost(from) },
                },
            ),
            (ApproveStage::Read { agenda, header, state, from: _ }, Reply::Commits(Ok(commits))) => {
                let ghost of = header;
                let request = Request::CreateVerifier(header, state.clone());
                Next::Ask(
                    request,
                    Approve {
                        approval,
                        stage: ApproveStage::Verifier { agenda, header: Ghost(of), state, commits },
                    },
                )
            },
            (
                ApproveStage::Verifier { agenda, header: _, state, commits },
                Reply::Nothing(Ok(())),
            ) => match ApplyAll::start(commits) {
                Next::Ask(request, inner) => Next::Ask(
                    request,
                    Approve { approval, stage: ApproveStage::Verify { inner, agenda, state } },
                ),
                Next::Done(Ok(commits)) => {
                    Approve::verified(approval, agenda, state, commits)
                },
                Next::Done(Err(error)) => Next::Done(Err(error)),
            },
            (ApproveStage::Verifier { .. }, Reply::Nothing(Err(error))) => Next::Done(
                Err(error.told("failed to create a commit sequence verifier: ")),
            ),
            (ApproveStage::Verify { inner, agenda, state }, reply) => {
                proof {
                    inner.lemma_hands_back(reply);
                }
                match inner.resume(reply) {
                    Next::Ask(request, inner) => Next::Ask(
                        request,
                        Approve { approval, stage: ApproveStage::Verify { inner, agenda, state } },
                    ),
                    Next::Done(Ok(commits)) => Approve::verified(approval, agenda, state, commits),
                    Next::Done(Err(error)) => Next::Done(Err(error)),
                }
            },
            (
                ApproveStage::Hash { agenda, state, commit: _, height },
                Reply::Hash(agenda_hash),
            ) => {
                let proof = Commit::AgendaProof(
                    AgendaProof {
                        height,
                        agenda_hash,
                        proof: approval.proof.clone(),
                        timestamp: approval.timestamp,
                    },
                );
                let request = Request::ApplyCommit(proof.clone());
                Next::Ask(
                    request,
                    Approve { approval, stage: ApproveStage::Apply { agenda, state, proof } },
                )
            },
            (ApproveStage::Apply { agenda, state, proof }, Reply::Nothing(Ok(()))) => {
                let branch = approval.agenda_hash.agenda_branch();
                Next::Ask(
                    Request::DeleteBranch(branch),
                    Approve { approval, stage: ApproveStage::Delete { agenda, state, proof } },
                )
            },
            (ApproveStage::Apply { .. }, Reply::Nothing(Err(_))) => Next::Done(
                Err(
                    Error::Message(
                        "agenda proof commit cannot be created on top of the current commit sequence".to_owned(),
                    ),
                ),
            ),
            (ApproveStage::Delete { agenda, state, proof }, Reply::Nothing(Ok(()))) => {
                let ghost of = state;
                let request = Request::EncodeCommit(proof.clone(), state);
                Next::Ask(
                    request,
                    Approve {
                        approval,
                        stage: ApproveStage::Encode { agenda, state: Ghost(of), proof },
                    },
                )
            },
            (
                ApproveStage::Encode { agenda, state: _, proof },
                Reply::SemanticCommit(Ok(stored)),
            ) => {
                let ghost of = proof;
                Next::Ask(
                    Request::HashCommit(proof),
                    Approve {
                        approval,
                        stage: ApproveStage::Name { agenda, proof: Ghost(of), stored },
                    },
                )
            },
            (ApproveStage::Name { agenda, proof: _, stored }, Reply::Hash(hash)) => Next::Ask(
                Request::ListBranches,
                Approve {
                    approval,
                    stage: ApproveStage::IfNew { agenda, stored, branch: hash.agenda_branch() },
                },
            ),
            (ApproveStage::IfNew { agenda, stored, branch }, Reply::Names(Ok(names))) => {
                let ghost of = branch@;
                if is_listed(&names, &branch) {
                    Next::Ask(
                        Request::LocateBranch(branch),
                        Approve { approval, stage: ApproveStage::Existing { branch: Ghost(of) } },
                    )
                } else {
                    Next::Ask(
                        Request::CreateBranch(branch.clone(), agenda),
                        Approve {
                            approval,
                            stage: ApproveStage::Create { agenda: Ghost(agenda), stored, branch },
                        },
                    )
                }
            },
            (ApproveStage::Existing { .. }, Reply::Commit(Ok(commit))) => Next::Done(Ok(commit)),
            (ApproveStage::Create { agenda: _, stored, branch }, Reply::Nothing(Ok(()))) => {
                let ghost of = branch@;
                Next::Ask(
                    Request::Checkout(branch),
                    Approve { approval, stage: ApproveStage::Checkout { stored, branch: Ghost(of) } },
                )
            },
            (ApproveStage::Checkout { stored, branch: _ }, Reply::Nothing(Ok(()))) => {
                let ghost of = stored;
                Next::Ask(
                    Request::CreateSemanticCommit(stored),
                    Approve { approval, stage: ApproveStage::Commit { stored: Ghost(of) } },
                )
            },
            (ApproveStage::Commit { .. }, Reply::Commit(Ok(commit))) => Next::Done(Ok(commit)),
            (_, Reply::Commit(Err(error))) => Next::Done(Err(Error::Host(error))),
            (_, Reply::Nothing(Err(error))) => Next::Done(Err(Error::Host(error))),
            (_, Reply::ReservedState(Err(error))) => Next::Done(Err(Error::Host(error))),
            (_, Reply::Commits(Err(error))) => Next::Done(Err(Error::Host(error))),
            (_, Reply::SemanticCommit(Err(error))) => Next::Done(Err(Error::Host(error))),
            (_, Reply::Names(Err(error))) => Next::Done(Err(Error::Host(error))),
            _ => unreached(),
        }
    }
}

} // verus!
