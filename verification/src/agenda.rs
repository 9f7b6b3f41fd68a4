//! Creating an agenda on top of the `work` branch.
use vstd::pervasive::unreached;
use vstd::prelude::*;

use crate::data::{
    Agenda, BlockHeader, BlockHeight, Commit, MemberName, ReservedState, Timestamp, Transaction,
};
use crate::error::{Blame, Error};
use crate::hash::{agenda_branch, CommitHash, Hash256};
use crate::host::{Reply, Request, RequestView};
use crate::plan::{
    ask_commit, ask_commits, ask_hash, ask_nothing, ask_reserved_state, ask_timestamp, begins, bind,
    done, fail, lemma_bind_after, Next, Operation, Plan,
};
use crate::query::{last_header_plan, LastHeader};
use crate::steps::{
    apply_from, no_verifier, no_work_branch, not_rebased, not_rebased_text, publish_plan, ApplyAll,
    Publish,
};
use crate::{FINALIZED_BRANCH_NAME, WORK_BRANCH_NAME};

verus! {

/// The transactions among some commits, in their order.
pub open spec fn transactions_of(commits: Seq<(Commit, CommitHash)>) -> Seq<Transaction>
    decreases commits.len(),
{
    if commits.len() == 0 {
        Seq::empty()
    } else {
        let before = transactions_of(commits.drop_last());
        match commits.last().0 {
            Commit::Transaction(transaction) => before.push(transaction),
            _ => before,
        }
    }
}

/// The transactions among some commits, in their order.
pub fn collect_transactions(commits: &Vec<(Commit, CommitHash)>) -> (res: Vec<Transaction>)
    ensures
        res@ == transactions_of(commits@),
{
    let mut res: Vec<Transaction> = Vec::new();
    let mut i: usize = 0;
    assert(commits@.take(0) =~= Seq::empty());
    while i < commits.len()
        invariant
            i <= commits@.len(),
            res@ == transactions_of(commits@.take(i as int)),
        decreases commits@.len() - i,
    {
        assert(commits@.take(i + 1).drop_last() =~= commits@.take(i as int));
        if let Commit::Transaction(transaction) = &commits[i].0 {
            res.push(transaction.clone());
        }
        i = i + 1;
    }
    assert(commits@.take(i as int) =~= commits@);
    res
}

/// The plan to create an agenda of some author on the `work` branch, which must be on top of the
/// `finalized` branch. It gives the agenda and its commit.
pub open spec fn create_agenda_plan(author: MemberName) -> Plan<(Agenda, CommitHash)> {
    agenda_header(last_header_plan(), author)
}

pub open spec fn agenda_header(header: Plan<BlockHeader>, author: MemberName) -> Plan<
    (Agenda, CommitHash),
> {
    bind(header, |header: BlockHeader| agenda_work(author, header))
}

pub open spec fn agenda_work(author: MemberName, header: BlockHeader) -> Plan<
    (Agenda, CommitHash),
> {
    ask_commit(
        RequestView::LocateBranch(WORK_BRANCH_NAME@),
        Blame::Pass,
        |work: CommitHash| agenda_last(author, header, work),
    )
}

pub open spec fn agenda_last(author: MemberName, header: BlockHeader, work: CommitHash) -> Plan<
    (Agenda, CommitHash),
> {
    ask_commit(
        RequestView::LocateBranch(FINALIZED_BRANCH_NAME@),
        Blame::Pass,
        |last: CommitHash| agenda_rebased(author, header, work, last),
    )
}

pub open spec fn agenda_rebased(
    author: MemberName,
    header: BlockHeader,
    work: CommitHash,
    last: CommitHash,
) -> Plan<(Agenda, CommitHash)> {
    ask_commit(
        RequestView::FindMergeBase(last, work),
        Blame::Pass,
        |base: CommitHash|
            if base != last {
                fail(not_rebased(WORK_BRANCH_NAME@))
            } else {
                agenda_state(author, header, work, last)
            },
    )
}

pub open spec fn agenda_state(
    author: MemberName,
    header: BlockHeader,
    work: CommitHash,
    last: CommitHash,
) -> Plan<(Agenda, CommitHash)> {
    ask_reserved_state(|state: ReservedState| agenda_verifier(author, header, work, last, state))
}

pub open spec fn agenda_verifier(
    author: MemberName,
    header: BlockHeader,
    work: CommitHash,
    last: CommitHash,
    state: ReservedState,
) -> Plan<(Agenda, CommitHash)> {
    ask_nothing(
        RequestView::CreateVerifier(header, state),
        no_verifier(),
        agenda_read(author, header.height, work, last, state),
    )
}

pub open spec fn agenda_read(
    author: MemberName,
    height: BlockHeight,
    work: CommitHash,
    last: CommitHash,
    state: ReservedState,
) -> Plan<(Agenda, CommitHash)> {
    ask_commits(
        RequestView::ReadCommits(last, work),
        |commits: Seq<(Commit, CommitHash)>|
            agenda_verify(apply_from(commits, 0), author, height, state),
    )
}

pub open spec fn agenda_verify(
    checks: Plan<Seq<(Commit, CommitHash)>>,
    author: MemberName,
    height: BlockHeight,
    state: ReservedState,
) -> Plan<(Agenda, CommitHash)> {
    bind(
        checks,
        |commits: Seq<(Commit, CommitHash)>|
            agenda_time(author, height, state, transactions_of(commits)),
    )
}

pub open spec fn agenda_time(
    author: MemberName,
    height: BlockHeight,
    state: ReservedState,
    transactions: Seq<Transaction>,
) -> Plan<(Agenda, CommitHash)> {
    ask_timestamp(
        |timestamp: Timestamp| agenda_put(author, height, state, transactions, timestamp),
    )
}

/// The agenda is of the height after the last one, and names the transactions by their hash.
pub open spec fn agenda_put(
    author: MemberName,
    height: BlockHeight,
    state: ReservedState,
    transactions: Seq<Transaction>,
    timestamp: Timestamp,
) -> Plan<(Agenda, CommitHash)> {
    ask_hash(
        RequestView::CalculateTransactionsHash(transactions),
        |transactions_hash: Hash256|
            if height == u64::MAX {
                Plan::Stuck
            } else {
                agenda_apply(
                    state,
                    Agenda { height: (height + 1) as u64, author, timestamp, transactions_hash },
                )
            },
    )
}

/// The agenda itself must be valid on top of the commits.
pub open spec fn agenda_apply(state: ReservedState, agenda: Agenda) -> Plan<(Agenda, CommitHash)> {
    ask_nothing(
        RequestView::ApplyCommit(Commit::Agenda(agenda)),
        Blame::Plain("agenda commit cannot be created on top of the current commit sequence"@),
        agenda_publish(publish_plan(Commit::Agenda(agenda), state, no_work_branch()), agenda),
    )
}

pub open spec fn agenda_publish(publish: Plan<CommitHash>, agenda: Agenda) -> Plan<
    (Agenda, CommitHash),
> {
    bind(publish, |commit: CommitHash| agenda_name(agenda, commit))
}

pub open spec fn agenda_name(agenda: Agenda, commit: CommitHash) -> Plan<(Agenda, CommitHash)> {
    ask_hash(
        RequestView::HashCommit(Commit::Agenda(agenda)),
        |hash: Hash256| agenda_mark(agenda, commit, agenda_branch(hash)),
    )
}

pub open spec fn agenda_mark(agenda: Agenda, commit: CommitHash, branch: Seq<char>) -> Plan<
    (Agenda, CommitHash),
> {
    ask_nothing(
        RequestView::CreateBranch(branch, commit),
        Blame::Pass,
        done((agenda, commit)),
    )
}

#[allow(inconsistent_fields)]
enum CreateAgendaStage {
    Header { inner: LastHeader, author: MemberName },
    Work { author: MemberName, header: BlockHeader },
    Last { author: MemberName, header: BlockHeader, work: CommitHash },
    Rebased { author: MemberName, header: BlockHeader, work: CommitHash, last: CommitHash },
    State { author: MemberName, header: BlockHeader, work: CommitHash, last: CommitHash },
    Verifier {
        author: MemberName,
        header: BlockHeader,
        work: CommitHash,
        last: CommitHash,
        state: ReservedState,
    },
    Read {
        author: MemberName,
        height: BlockHeight,
        work: Ghost<CommitHash>,
        last: Ghost<CommitHash>,
        state: ReservedState,
    },
    Verify { inner: ApplyAll, author: MemberName, height: BlockHeight, state: ReservedState },
    Time {
        author: MemberName,
        height: BlockHeight,
        state: ReservedState,
        transactions: Vec<Transaction>,
    },
    Put {
        author: MemberName,
        height: BlockHeight,
        state: ReservedState,
        transactions: Ghost<Seq<Transaction>>,
        timestamp: Timestamp,
    },
    Apply { state: ReservedState, agenda: Agenda },
    Publish { inner: Publish, agenda: Agenda },
    Name { agenda: Agenda, commit: CommitHash },
    Mark { agenda: Agenda, commit: CommitHash, branch: Ghost<Seq<char>> },
}

/// Creating an agenda on top of the `work` branch.
pub struct CreateAgenda {
    stage: CreateAgendaStage,
}

impl CreateAgenda {
    pub fn start(author: MemberName) -> (next: Next<CreateAgenda, (Agenda, CommitHash)>)
        ensures
            begins(next, create_agenda_plan(author)),
    {
        let (request, inner) = LastHeader::first();
        Next::Ask(
            request,
            CreateAgenda { stage: CreateAgendaStage::Header { inner, author } },
        )
    }

    /// Goes on once every commit is verified.
    fn verified(
        author: MemberName,
        height: BlockHeight,
        state: ReservedState,
        commits: &Vec<(Commit, CommitHash)>,
    ) -> (res: CreateAgenda)
        ensures
            res.stage matches CreateAgendaStage::Time {
                author: a,
                height: h,
                state: s,
                transactions,
            } && a == author && h == height && s == state && transactions@ == transactions_of(
                commits@,
            ),
    {
        let transactions = collect_transactions(commits);
        CreateAgenda { stage: CreateAgendaStage::Time { author, height, state, transactions } }
    }
}

impl Operation for CreateAgenda {
    type Output = (Agenda, CommitHash);

    type Value = (Agenda, CommitHash);

    open spec fn value(output: (Agenda, CommitHash)) -> (Agenda, CommitHash) {
        output
    }

    closed spec fn plan(self) -> Plan<(Agenda, CommitHash)> {
        match self.stage {
            CreateAgendaStage::Header { inner, author } => if inner.plan() is Ask {
                agenda_header(inner.plan(), author)
            } else {
                Plan::Stuck
            },
            CreateAgendaStage::Work { author, header } => agenda_work(author, header),
            CreateAgendaStage::Last { author, header, work } => agenda_last(author, header, work),
            CreateAgendaStage::Rebased { author, header, work, last } => agenda_rebased(
                author,
                header,
                work,
                last,
            ),
            CreateAgendaStage::State { author, header, work, last } => agenda_state(
                author,
                header,
                work,
                last,
            ),
            CreateAgendaStage::Verifier { author, header, work, last, state } => agenda_verifier(
                author,
                header,
                work,
                last,
                state,
            ),
            CreateAgendaStage::Read { author, height, work, last, state } => agenda_read(
                author,
                height,
                work@,
                last@,
                state,
            ),
            CreateAgendaStage::Verify { inner, author, height, state } => {
                if inner.plan() is Ask {
                    agenda_verify(inner.plan(), author, height, state)
                } else {
                    Plan::Stuck
                }
            },
            CreateAgendaStage::Time { author, height, state, transactions } => agenda_time(
                author,
                height,
                state,
                transactions@,
            ),
            CreateAgendaStage::Put { author, height, state, transactions, timestamp } => agenda_put(
                author,
                height,
                state,
                transactions@,
                timestamp,
            ),
            CreateAgendaStage::Apply { state, agenda } => agenda_apply(state, agenda),
            CreateAgendaStage::Publish { inner, agenda } => if inner.plan() is Ask {
                agenda_publish(inner.plan(), agenda)
            } else {
                Plan::Stuck
            },
            CreateAgendaStage::Name { agenda, commit } => agenda_name(agenda, commit),
            CreateAgendaStage::Mark { agenda, commit, branch } => agenda_mark(
                agenda,
                commit,
                branch@,
            ),
        }
    }

    fn accepts(&self, reply: &Reply) -> (res: bool) {
        broadcast use lemma_bind_after;

        match (&self.stage, reply) {
            (CreateAgendaStage::Header { inner, .. }, _) => inner.accepts(reply),
            (CreateAgendaStage::Work { .. }, Reply::Commit(_)) => true,
            (CreateAgendaStage::Last { .. }, Reply::Commit(_)) => true,
            (CreateAgendaStage::Rebased { .. }, Reply::Commit(_)) => true,
            (CreateAgendaStage::State { .. }, Reply::ReservedState(_)) => true,
            (CreateAgendaStage::Verifier { .. }, Reply::Nothing(_)) => true,
            (CreateAgendaStage::Read { .. }, Reply::Commits(_)) => true,
            (CreateAgendaStage::Verify { inner, .. }, _) => inner.accepts(reply),
            (CreateAgendaStage::Time { .. }, Reply::Timestamp(_)) => true,
            (CreateAgendaStage::Put { height, .. }, Reply::Hash(_)) => *height < u64::MAX,
            (CreateAgendaStage::Apply { .. }, Reply::Nothing(_)) => true,
            (CreateAgendaStage::Publish { inner, .. }, _) => inner.accepts(reply),
            (CreateAgendaStage::Name { .. }, Reply::Hash(_)) => true,
            (CreateAgendaStage::Mark { .. }, Reply::Nothing(_)) => true,
            _ => false,
        }
    }

    fn resume(self, reply: Reply) -> (next: Next<Self, (Agenda, CommitHash)>) {
        broadcast use lemma_bind_after;

        match (self.stage, reply) {
            (CreateAgendaStage::Header { inner, author }, reply) => match inner.resume(reply) {
                Next::Ask(request, inner) => Next::Ask(
                    request,
                    CreateAgenda { stage: CreateAgendaStage::Header { inner, author } },
                ),
                Next::Done(Ok(header)) => Next::Ask(
                    Request::LocateBranch(WORK_BRANCH_NAME.to_owned()),
                    CreateAgenda { stage: CreateAgendaStage::Work { author, header } },
                ),
                Next::Done(Err(error)) => Next::Done(Err(error)),
            },
            (CreateAgendaStage::Work { author, header }, Reply::Commit(Ok(work))) => Next::Ask(
                Request::LocateBranch(FINALIZED_BRANCH_NAME.to_owned()),
                CreateAgenda { stage: CreateAgendaStage::Last { author, header, work } },
            ),
            (CreateAgendaStage::Last { author, header, work }, Reply::Commit(Ok(last))) => {
                Next::Ask(
                    Request::FindMergeBase(last, work),
                    CreateAgenda {
                        stage: CreateAgendaStage::Rebased { author, header, work, last },
                    },
                )
            },
            (CreateAgendaStage::Rebased { author, header, work, last }, Reply::Commit(Ok(base))) => {
                if !base.same(&last) {
                    Next::Done(Err(Error::Message(not_rebased_text(WORK_BRANCH_NAME))))
                } else {
                    Next::Ask(
                        Request::ReadReservedState,
                        CreateAgenda {
                            stage: CreateAgendaStage::State { author, header, work, last },
                        },
                    )
                }
            },
            (
                CreateAgendaStage::State { author, header, work, last },
                Reply::ReservedState(Ok(state)),
            ) => {
                let request = Request::CreateVerifier(header.clone(), state.clone());
                Next::Ask(
                    request,
                    CreateAgenda {
                        stage: CreateAgendaStage::Verifier { author, header, work, last, state },
                    },
                )
            },
            (
                CreateAgendaStage::Verifier { author, header, work, last, state },
                Reply::Nothing(Ok(())),
            ) => Next::Ask(
                Request::ReadCommits(last, work),
                CreateAgenda {
                    stage: CreateAgendaStage::Read {
                        author,
                        height: header.height,
                        work: Ghost(work),
                        last: Ghost(last),
                        state,
                    },
                },
            ),
            (CreateAgendaStage::Verifier { .. }, Reply::Nothing(Err(error))) => Next::Done(
                Err(error.told("failed to create a commit sequence verifier: ")),
            ),
            (
                CreateAgendaStage::Read { author, height, work: _, last: _, state },
                Reply::Commits(Ok(commits)),
            ) => match ApplyAll::start(commits) {
                Next::Ask(request, inner) => Next::Ask(
                    request,
                    CreateAgenda {
                        stage: CreateAgendaStage::Verify { inner, author, height, state },
                    },
                ),
                Next::Done(Ok(commits)) => Next::Ask(
                    Request::GetTimestamp,
                    CreateAgenda::verified(author, height, state, &commits),
                ),
                Next::Done(Err(error)) => Next::Done(Err(error)),
            },
            (CreateAgendaStage::Verify { inner, author, height, state }, reply) => {
                match inner.resume(reply) {
                    Next::Ask(request, inner) => Next::Ask(
                        request,
                        CreateAgenda {
                            stage: CreateAgendaStage::Verify { inner, author, height, state },
                        },
                    ),
                    Next::Done(Ok(commits)) => Next::Ask(
                        Request::GetTimestamp,
                        CreateAgenda::verified(author, height, state, &commits),
                    ),
                    Next::Done(Err(error)) => Next::Done(Err(error)),
                }
            },
            (
                CreateAgendaStage::Time { author, height, state, transactions },
                Reply::Timestamp(timestamp),
            ) => {
                let ghost of = transactions@;
                Next::Ask(
                    Request::CalculateTransactionsHash(transactions),
                    CreateAgenda {
                        stage: CreateAgendaStage::Put {
                            author,
                            height,
                            state,
                            transactions: Ghost(of),
                            timestamp,
                        },
                    },
                )
            },
            (
                CreateAgendaStage::Put { author, height, state, transactions: _, timestamp },
                Reply::Hash(transactions_hash),
            ) => {
                let agenda = Agenda { height: height + 1, author, timestamp, transactions_hash };
                let request = Request::ApplyCommit(Commit::Agenda(agenda.clone()));
                Next::Ask(
                    request,
                    CreateAgenda { stage: CreateAgendaStage::Apply { state, agenda } },
                )
            },
            (CreateAgendaStage::Apply { state, agenda }, Reply::Nothing(Ok(()))) => {
                let (request, inner) = Publish::first(Commit::Agenda(agenda.clone()), state, true);
                Next::Ask(
                    request,
                    CreateAgenda { stage: CreateAgendaStage::Publish { inner, agenda } },
                )
            },
            (CreateAgendaStage::Apply { .. }, Reply::Nothing(Err(_))) => Next::Done(
                Err(
                    Error::Message(
                        "agenda commit cannot be created on top of the current commit sequence".to_owned(),
                    ),
                ),
            ),
            (CreateAgendaStage::Publish { inner, agenda }, reply) => match inner.resume(reply) {
                Next::Ask(request, inner) => Next::Ask(
                    request,
                    CreateAgenda { stage: CreateAgendaStage::Publish { inner, agenda } },
                ),
                Next::Done(Ok(commit)) => {
                    let request = Request::HashCommit(Commit::Agenda(agenda.clone()));
                    Next::Ask(
                        request,
                        CreateAgenda { stage: CreateAgendaStage::Name { agenda, commit } },
                    )
                },
                Next::Done(Err(error)) => Next::Done(Err(error)),
            },
            (CreateAgendaStage::Name { agenda, commit }, Reply::Hash(hash)) => {
                let branch = hash.agenda_branch();
                let ghost of = branch@;
                Next::Ask(
                    Request::CreateBranch(branch, commit),
                    CreateAgenda {
                        stage: CreateAgendaStage::Mark { agenda, commit, branch: Ghost(of) },
                    },
                )
            },
            (CreateAgendaStage::Mark { agenda, commit, branch: _ }, Reply::Nothing(Ok(()))) => {
                Next::Done(Ok((agenda, commit)))
            },
            (_, Reply::Commit(Err(error))) => Next::Done(Err(Error::Host(error))),
            (_, Reply::Nothing(Err(error))) => Next::Done(Err(Error::Host(error))),
            (_, Reply::ReservedState(Err(error))) => Next::Done(Err(Error::Host(error))),
            (_, Reply::Commits(Err(error))) => Next::Done(Err(Error::Host(error))),
            _ => unreached(),
        }
    }
}

} // verus!
