//! Creating an extra-agenda transaction on top of the `work` branch.
use vstd::pervasive::unreached;
use vstd::prelude::*;

use crate::data::{BlockHeader, Commit, ExtraAgendaTransaction, ReservedState};
use crate::error::{Blame, Error};
use crate::hash::CommitHash;
use crate::host::{Reply, Request, RequestView};
use crate::plan::{
    ask_commit, ask_commits, ask_nothing, ask_reserved_state, begins, bind, fail, lemma_bind_after,
    Next, Operation, Plan,
};
use crate::query::{last_header_plan, LastHeader};
use crate::steps::{
    apply_from, no_verifier, not_rebased, not_rebased_text, publish_plan, ApplyAll, Publish,
};
use crate::{FINALIZED_BRANCH_NAME, WORK_BRANCH_NAME};

verus! {

/// The plan to put an extra-agenda transaction on the `work` branch, which must be on top of the
/// `finalized` branch. It gives the commit of the transaction.
pub open spec fn create_extra_plan(transaction: ExtraAgendaTransaction) -> Plan<CommitHash> {
    ask_commit(
        RequestView::LocateBranch(WORK_BRANCH_NAME@),
        Blame::Pass,
        |work: CommitHash| extra_last(transaction, work),
    )
}

pub open spec fn extra_last(transaction: ExtraAgendaTransaction, work: CommitHash) -> Plan<
    CommitHash,
> {
    ask_commit(
        RequestView::LocateBranch(FINALIZED_BRANCH_NAME@),
        Blame::Pass,
        |last: CommitHash| extra_state(transaction, work, last),
    )
}

pub open spec fn extra_state(
    transaction: ExtraAgendaTransaction,
    work: CommitHash,
    last: CommitHash,
) -> Plan<CommitHash> {
    ask_reserved_state(|state: ReservedState| extra_rebased(transaction, work, last, state))
}

pub open spec fn extra_rebased(
    transaction: ExtraAgendaTransaction,
    work: CommitHash,
    last: CommitHash,
    state: ReservedState,
) -> Plan<CommitHash> {
    ask_commit(
        RequestView::FindMergeBase(last, work),
        Blame::Pass,
        |base: CommitHash|
            if base != last {
                fail(not_rebased(WORK_BRANCH_NAME@))
            } else {
                extra_read(transaction, work, last, state)
            },
    )
}

pub open spec fn extra_read(
    transaction: ExtraAgendaTransaction,
    work: CommitHash,
    last: CommitHash,
    state: ReservedState,
) -> Plan<CommitHash> {
    ask_commits(
        RequestView::ReadCommits(last, work),
        |commits: Seq<(Commit, CommitHash)>|
            extra_header(last_header_plan(), transaction, state, commits),
    )
}

pub open spec fn extra_header(
    header: Plan<BlockHeader>,
    transaction: ExtraAgendaTransaction,
    state: ReservedState,
    commits: Seq<(Commit, CommitHash)>,
) -> Plan<CommitHash> {
    bind(header, |header: BlockHeader| extra_verifier(transaction, state, commits, header))
}

pub open spec fn extra_verifier(
    transaction: ExtraAgendaTransaction,
    state: ReservedState,
    commits: Seq<(Commit, CommitHash)>,
    header: BlockHeader,
) -> Plan<CommitHash> {
    ask_nothing(
        RequestView::CreateVerifier(header, state),
        no_verifier(),
        extra_verify(apply_from(commits, 0), transaction, state),
    )
}

pub open spec fn extra_verify(
    checks: Plan<Seq<(Commit, CommitHash)>>,
    transaction: ExtraAgendaTransaction,
    state: ReservedState,
) -> Plan<CommitHash> {
    bind(checks, |_commits: Seq<(Commit, CommitHash)>| extra_apply(transaction, state))
}

/// The transaction itself must be valid on top of the commits.
pub open spec fn extra_apply(transaction: ExtraAgendaTransaction, state: ReservedState) -> Plan<
    CommitHash,
> {
    ask_nothing(
        RequestView::ApplyCommit(Commit::ExtraAgendaTransaction(transaction)),
        Blame::Plain(
            "extra-agenda transaction commit cannot be created on top of the current commit sequence"@,
        ),
        publish_plan(Commit::ExtraAgendaTransaction(transaction), state, Blame::Pass),
    )
}

#[allow(inconsistent_fields)]
enum CreateExtraStage {
    Work { transaction: ExtraAgendaTransaction },
    Last { transaction: ExtraAgendaTransaction, work: CommitHash },
    State { transaction: ExtraAgendaTransaction, work: CommitHash, last: CommitHash },
    Rebased {
        transaction: ExtraAgendaTransaction,
        work: CommitHash,
        last: CommitHash,
        state: ReservedState,
    },
    Read {
        transaction: ExtraAgendaTransaction,
        work: Ghost<CommitHash>,
        last: Ghost<CommitHash>,
        state: ReservedState,
    },
    Header {
        inner: LastHeader,
        transaction: ExtraAgendaTransaction,
        state: ReservedState,
        commits: Vec<(Commit, CommitHash)>,
    },
    Verifier {
        transaction: ExtraAgendaTransaction,
        state: ReservedState,
        commits: Vec<(Commit, CommitHash)>,
        header: Ghost<BlockHeader>,
    },
    Verify { inner: ApplyAll, transaction: ExtraAgendaTransaction, state: ReservedState },
    Apply { transaction: ExtraAgendaTransaction, state: ReservedState },
    Publish { inner: Publish },
}

/// Creating an extra-agenda transaction on top of the `work` branch.
pub struct CreateExtra {
    stage: CreateExtraStage,
}

impl CreateExtra {
    pub fn start(transaction: ExtraAgendaTransaction) -> (next: Next<CreateExtra, CommitHash>)
        ensures
            begins(next, create_extra_plan(transaction)),
    {
        Next::Ask(
            Request::LocateBranch(WORK_BRANCH_NAME.to_owned()),
            CreateExtra { stage: CreateExtraStage::Work { transaction } },
        )
    }

    /// Goes on once every commit is verified.
    fn verified(transaction: ExtraAgendaTransaction, state: ReservedState) -> (res: (
        Request,
        CreateExtra,
    ))
        ensures
            res.0@ == extra_apply(transaction, state).request(),
            res.1.stage == (CreateExtraStage::Apply { transaction, state }),
    {
        let request = Request::ApplyCommit(Commit::ExtraAgendaTransaction(transaction.clone()));
        (request, CreateExtra { stage: CreateExtraStage::Apply { transaction, state } })
    }
}

impl Operation for CreateExtra {
    type Output = CommitHash;

    type Value = CommitHash;

    open spec fn value(output: CommitHash) -> CommitHash {
        output
    }

    closed spec fn plan(self) -> Plan<CommitHash> {
        match self.stage {
            CreateExtraStage::Work { transaction } => create_extra_plan(transaction),
            CreateExtraStage::Last { transaction, work } => extra_last(transaction, work),
            CreateExtraStage::State { transaction, work, last } => extra_state(
                transaction,
                work,
                last,
            ),
            CreateExtraStage::Rebased { transaction, work, last, state } => extra_rebased(
                transaction,
                work,
                last,
                state,
            ),
            CreateExtraStage::Read { transaction, work, last, state } => extra_read(
                transaction,
                work@,
                last@,
                state,
            ),
            CreateExtraStage::Header { inner, transaction, state, commits } => {
                if inner.plan() is Ask {
                    extra_header(inner.plan(), transaction, state, commits@)
                } else {
                    Plan::Stuck
                }
            },
            CreateExtraStage::Verifier { transaction, state, commits, header } => extra_verifier(
                transaction,
                state,
                commits@,
                header@,
            ),
            CreateExtraStage::Verify { inner, transaction, state } => if inner.plan() is Ask {
                extra_verify(inner.plan(), transaction, state)
            } else {
                Plan::Stuck
            },
            CreateExtraStage::Apply { transaction, state } => extra_apply(transaction, state),
            CreateExtraStage::Publish { inner } => inner.plan(),
        }
    }

    fn accepts(&self, reply: &Reply) -> (res: bool) {
        broadcast use lemma_bind_after;

        match (&self.stage, reply) {
            (CreateExtraStage::Work { .. }, Reply::Commit(_)) => true,
            (CreateExtraStage::Last { .. }, Reply::Commit(_)) => true,
            (CreateExtraStage::State { .. }, Reply::ReservedState(_)) => true,
            (CreateExtraStage::Rebased { .. }, Reply::Commit(_)) => true,
            (CreateExtraStage::Read { .. }, Reply::Commits(_)) => true,
            (CreateExtraStage::Header { inner, .. }, _) => inner.accepts(reply),
            (CreateExtraStage::Verifier { .. }, Reply::Nothing(_)) => true,
            (CreateExtraStage::Verify { inner, .. }, _) => inner.accepts(reply),
            (CreateExtraStage::Apply { .. }, Reply::Nothing(_)) => true,
            (CreateExtraStage::Publish { inner }, _) => inner.accepts(reply),
            _ => false,
        }
    }

    fn resume(self, reply: Reply) -> (next: Next<Self, CommitHash>) {
        broadcast use lemma_bind_after;

        match (self.stage, reply) {
            (CreateExtraStage::Work { transaction }, Reply::Commit(Ok(work))) => Next::Ask(
                Request::LocateBranch(FINALIZED_BRANCH_NAME.to_owned()),
                CreateExtra { stage: CreateExtraStage::Last { transaction, work } },
            ),
            (CreateExtraStage::Last { transaction, work }, Reply::Commit(Ok(last))) => Next::Ask(
                Request::ReadReservedState,
                CreateExtra { stage: CreateExtraStage::State { transaction, work, last } },
            ),
            (
                CreateExtraStage::State { transaction, work, last },
                Reply::ReservedState(Ok(state)),
            ) => Next::Ask(
                Request::FindMergeBase(last, work),
                CreateExtra { stage: CreateExtraStage::Rebased { transaction, work, last, state } },
            ),
            (
                CreateExtraStage::Rebased { transaction, work, last, state },
                Reply::Commit(Ok(base)),
            ) => {
                if !base.same(&last) {
                    Next::Done(Err(Error::Message(not_rebased_text(WORK_BRANCH_NAME))))
                } else {
                    Next::Ask(
                        Request::ReadCommits(last, work),
                        CreateExtra {
                            stage: CreateExtraStage::Read {
                                transaction,
                                work: Ghost(work),
                                last: Ghost(last),
                                state,
                            },
                        },
                    )
                }
            },
            (
                CreateExtraStage::Read { transaction, work: _, last: _, state },
                Reply::Commits(Ok(commits)),
            ) => {
                let (request, inner) = LastHeader::first();
                Next::Ask(
                    request,
                    CreateExtra {
                        stage: CreateExtraStage::Header { inner, transaction, state, commits },
                    },
                )
            },
            (CreateExtraStage::Header { inner, transaction, state, commits }, reply) => {
                match inner.resume(reply) {
                    Next::Ask(request, inner) => Next::Ask(
                        request,
                        CreateExtra {
                            stage: CreateExtraStage::Header { inner, transaction, state, commits },
                        },
                    ),
                    Next::Done(Ok(header)) => {
                        let ghost of = header;
                        let request = Request::CreateVerifier(header, state.clone());
                        Next::Ask(
                            request,
                            CreateExtra {
                                stage: CreateExtraStage::Verifier {
                                    transaction,
                                    state,
                                    commits,
                                    header: Ghost(of),
                                },
                            },
                        )
                    },
                    Next::Done(Err(error)) => Next::Done(Err(error)),
                }
            },
            (
                CreateExtraStage::Verifier { transaction, state, commits, header: _ },
                Reply::Nothing(Ok(())),
            ) => match ApplyAll::start(commits) {
                Next::Ask(request, inner) => Next::Ask(
                    request,
                    CreateExtra { stage: CreateExtraStage::Verify { inner, transaction, state } },
                ),
                Next::Done(Ok(_)) => {
                    let (request, operation) = CreateExtra::verified(transaction, state);
                    Next::Ask(request, operation)
                },
                Next::Done(Err(error)) => Next::Done(Err(error)),
            },
            (CreateExtraStage::Verifier { .. }, Reply::Nothing(Err(error))) => Next::Done(
                Err(error.told("failed to create a commit sequence verifier: ")),
            ),
            (CreateExtraStage::Verify { inner, transaction, state }, reply) => {
                match inner.resume(reply) {
                    Next::Ask(request, inner) => Next::Ask(
                        request,
                        CreateExtra {
                            stage: CreateExtraStage::Verify { inner, transaction, state },
                        },
                    ),
                    Next::Done(Ok(_)) => {
                        let (request, operation) = CreateExtra::verified(transaction, state);
                        Next::Ask(request, operation)
                    },
                    Next::Done(Err(error)) => Next::Done(Err(error)),
                }
            },
            (CreateExtraStage::Apply { transaction, state }, Reply::Nothing(Ok(()))) => {
                let (request, inner) = Publish::first(
                    Commit::ExtraAgendaTransaction(transaction),
                    state,
                    false,
                );
                Next::Ask(request, CreateExtra { stage: CreateExtraStage::Publish { inner } })
            },
            (CreateExtraStage::Apply { .. }, Reply::Nothing(Err(_))) => Next::Done(
                Err(
                    Error::Message(
                        "extra-agenda transaction commit cannot be created on top of the current commit sequence".to_owned(),
                    ),
                ),
            ),
            (CreateExtraStage::Publish { inner }, reply) => match inner.resume(reply) {
                Next::Ask(request, inner) => Next::Ask(
                    request,
                    CreateExtra { stage: CreateExtraStage::Publish { inner } },
                ),
                Next::Done(res) => Next::Done(res),
            },
            (_, Reply::Commit(Err(error))) => Next::Done(Err(Error::Host(error))),
            (_, Reply::ReservedState(Err(error))) => Next::Done(Err(Error::Host(error))),
            (_, Reply::Commits(Err(error))) => Next::Done(Err(Error::Host(error))),
            _ => unreached(),
        }
    }
}

} // verus!
