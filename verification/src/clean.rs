//! Cleaning the repository of outdated branches and of remotes.
use vstd::pervasive::unreached;
use vstd::prelude::*;

use crate::data::{BlockHeader, Commit, ReservedState};
use crate::error::{Blame, Error};
use crate::hash::CommitHash;
use crate::host::{Reply, Request, RequestView};
use crate::plan::{
    ask_branches, ask_commit, ask_commits, ask_nothing, ask_remotes, ask_reserved_state, begins,
    bind, done, follows, lemma_bind_after, Next, Operation, Plan,
};
use crate::query::{last_header_plan, LastHeader};
use crate::steps::{no_merge_base, no_merge_base_text, no_verifier};
use crate::text::{has_prefix, same_text};
use crate::{FINALIZED_BRANCH_NAME, FP_BRANCH_NAME, WORK_BRANCH_NAME};

verus! {

/// The branches that every repository has and keeps.
pub open spec fn is_permanent(name: Seq<char>) -> bool {
    name == WORK_BRANCH_NAME@ || name == FINALIZED_BRANCH_NAME@ || name == FP_BRANCH_NAME@
}

/// The branches that may outlast a cleaning that is not hard: the `p` branch, and those of agendas
/// and of blocks.
pub open spec fn may_stay(name: Seq<char>) -> bool {
    name == "p"@ || "a-"@.is_prefix_of(name) || "b-"@.is_prefix_of(name)
}

fn check_permanent(name: &str) -> (res: bool)
    ensures
        res == is_permanent(name@),
{
    same_text(name, WORK_BRANCH_NAME) || same_text(name, FINALIZED_BRANCH_NAME) || same_text(
        name,
        FP_BRANCH_NAME,
    )
}

fn check_may_stay(name: &str) -> (res: bool)
    ensures
        res == may_stay(name@),
{
    same_text(name, "p") || has_prefix(name, "a-") || has_prefix(name, "b-")
}

/// The plan to decide whether a branch is kept: it must start from the last finalized commit, and
/// each of its commits must be valid on top of those before.
pub open spec fn keep_plan(
    finalized: CommitHash,
    header: BlockHeader,
    name: Seq<char>,
    commit: CommitHash,
) -> Plan<bool> {
    ask_commit(
        RequestView::FindMergeBase(commit, finalized),
        no_merge_base(name),
        |base: CommitHash|
            if base != finalized {
                done(false)
            } else {
                keep_checkout(finalized, header, name, commit)
            },
    )
}

pub open spec fn keep_checkout(
    finalized: CommitHash,
    header: BlockHeader,
    name: Seq<char>,
    commit: CommitHash,
) -> Plan<bool> {
    ask_nothing(
        RequestView::Checkout(name),
        Blame::Pass,
        keep_state(finalized, header, commit),
    )
}

pub open spec fn keep_state(
    finalized: CommitHash,
    header: BlockHeader,
    commit: CommitHash,
) -> Plan<bool> {
    ask_reserved_state(|state: ReservedState| keep_read(finalized, header, commit, state))
}

pub open spec fn keep_read(
    finalized: CommitHash,
    header: BlockHeader,
    commit: CommitHash,
    state: ReservedState,
) -> Plan<bool> {
    ask_commits(
        RequestView::ReadCommits(finalized, commit),
        |commits: Seq<(Commit, CommitHash)>| keep_verifier(header, state, commits),
    )
}

pub open spec fn keep_verifier(
    header: BlockHeader,
    state: ReservedState,
    commits: Seq<(Commit, CommitHash)>,
) -> Plan<bool> {
    ask_nothing(RequestView::CreateVerifier(header, state), no_verifier(), keep_from(commits, 0))
}

/// The first commit that is not valid decides against the branch.
pub open spec fn keep_from(commits: Seq<(Commit, CommitHash)>, i: int) -> Plan<bool>
    decreases commits.len() - i,
{
    if i < 0 || i >= commits.len() {
        done(true)
    } else {
        Plan::Ask(
            RequestView::ApplyCommit(commits[i].0),
            |reply: Reply|
                match reply {
                    Reply::Nothing(Ok(_)) => keep_from(commits, i + 1),
                    Reply::Nothing(Err(_)) => done(false),
                    _ => Plan::Stuck,
                },
        )
    }
}

#[allow(inconsistent_fields)]
enum KeepStage {
    Base { name: String },
    Checkout { name: Ghost<Seq<char>> },
    State,
    Read { state: ReservedState },
    Verifier { state: Ghost<ReservedState>, commits: Vec<(Commit, CommitHash)> },
    Apply { commits: Vec<(Commit, CommitHash)>, at: usize },
}

/// Deciding whether a branch is kept.
pub struct Keep {
    finalized: CommitHash,
    header: BlockHeader,
    commit: CommitHash,
    stage: KeepStage,
}

impl Keep {
    /// The first request, and the operation as it waits for the reply.
    fn first(finalized: CommitHash, header: BlockHeader, name: String, commit: CommitHash) -> (res: (
        Request,
        Keep,
    ))
        ensures
            keep_plan(finalized, header, name@, commit) is Ask,
            keep_plan(finalized, header, name@, commit).request() == res.0@,
            res.1.plan() == keep_plan(finalized, header, name@, commit),
    {
        (
            Request::FindMergeBase(commit, finalized),
            Keep { finalized, header, commit, stage: KeepStage::Base { name } },
        )
    }

    closed spec fn rest(self) -> Plan<bool> {
        match self.stage {
            KeepStage::Base { name } => keep_plan(self.finalized, self.header, name@, self.commit),
            KeepStage::Checkout { name } => keep_checkout(
                self.finalized,
                self.header,
                name@,
                self.commit,
            ),
            KeepStage::State => keep_state(self.finalized, self.header, self.commit),
            KeepStage::Read { state } => keep_read(
                self.finalized,
                self.header,
                self.commit,
                state,
            ),
            KeepStage::Verifier { state, commits } => keep_verifier(
                self.header,
                state@,
                commits@,
            ),
            KeepStage::Apply { commits, at } => keep_from(commits@, at as int),
        }
    }

    /// Goes on with the commit at a position.
    fn proceed(
        finalized: CommitHash,
        header: BlockHeader,
        commit: CommitHash,
        commits: Vec<(Commit, CommitHash)>,
        at: usize,
    ) -> (next: Next<Keep, bool>)
        ensures
            follows(
                next,
                keep_from(commits@, at as int),
                |operation: Keep| operation.rest(),
                |output: bool| output,
            ),
    {
        if at < commits.len() {
            let request = Request::ApplyCommit(commits[at].0.clone());
            Next::Ask(
                request,
                Keep { finalized, header, commit, stage: KeepStage::Apply { commits, at } },
            )
        } else {
            Next::Done(Ok(true))
        }
    }
}

impl Operation for Keep {
    type Output = bool;

    type Value = bool;

    open spec fn value(output: bool) -> bool {
        output
    }

    closed spec fn plan(self) -> Plan<bool> {
        self.rest()
    }

    fn accepts(&self, reply: &Reply) -> (res: bool) {
        match (&self.stage, reply) {
            (KeepStage::Base { .. }, Reply::Commit(_)) => true,
            (KeepStage::Checkout { .. }, Reply::Nothing(_)) => true,
            (KeepStage::State, Reply::ReservedState(_)) => true,
            (KeepStage::Read { .. }, Reply::Commits(_)) => true,
            (KeepStage::Verifier { .. }, Reply::Nothing(_)) => true,
            (KeepStage::Apply { commits, at }, Reply::Nothing(_)) => {
                proof {
                    assert(!(keep_from(commits@, *at as int + 1) is Stuck));
                }
                *at < commits.len()
            },
            _ => false,
        }
    }

    fn resume(self, reply: Reply) -> (next: Next<Self, bool>) {
        let finalized = self.finalized;
        let header = self.header;
        let commit = self.commit;
        match (self.stage, reply) {
            (KeepStage::Base { name }, Reply::Commit(Ok(base))) => {
                if !base.same(&finalized) {
                    Next::Done(Ok(false))
                } else {
                    let ghost of = name@;
                    Next::Ask(
                        Request::Checkout(name),
                        Keep {
                            finalized,
                            header,
                            commit,
                            stage: KeepStage::Checkout { name: Ghost(of) },
                        },
                    )
                }
            },
            (KeepStage::Base { name }, Reply::Commit(Err(error))) => Next::Done(
                Err(error.not_found(no_merge_base_text(name.as_str()))),
            ),
            (KeepStage::Checkout { .. }, Reply::Nothing(Ok(()))) => Next::Ask(
                Request::ReadReservedState,
                Keep { finalized, header, commit, stage: KeepStage::State },
            ),
            (KeepStage::Checkout { .. }, Reply::Nothing(Err(error))) => Next::Done(
                Err(Error::Host(error)),
            ),
            (KeepStage::State, Reply::ReservedState(Ok(state))) => Next::Ask(
                Request::ReadCommits(finalized, commit),
                Keep { finalized, header, commit, stage: KeepStage::Read { state } },
            ),
            (KeepStage::State, Reply::ReservedState(Err(error))) => Next::Done(
                Err(Error::Host(error)),
            ),
            (KeepStage::Read { state }, Reply::Commits(Ok(commits))) => {
                let ghost of = state;
                let request = Request::CreateVerifier(header.clone(), state);
                Next::Ask(
                    request,
                    Keep {
                        finalized,
                        header,
                        commit,
                        stage: KeepStage::Verifier { state: Ghost(of), commits },
                    },
                )
            },
            (KeepStage::Read { .. }, Reply::Commits(Err(error))) => Next::Done(
                Err(Error::Host(error)),
            ),
            (KeepStage::Verifier { state: _, commits }, Reply::Nothing(Ok(()))) => {
                Keep::proceed(finalized, header, commit, commits, 0)
            },
            (KeepStage::Verifier { .. }, Reply::Nothing(Err(error))) => Next::Done(
                Err(error.told("failed to create a commit sequence verifier: ")),
            ),
            (KeepStage::Apply { commits, at }, Reply::Nothing(Ok(()))) => {
                if at < commits.len() {
                    Keep::proceed(finalized, header, commit, commits, at + 1)
                } else {
                    unreached()
                }
            },
            (KeepStage::Apply { .. }, Reply::Nothing(Err(_))) => Next::Done(Ok(false)),
            _ => unreached(),
        }
    }
}

/// What a cleaning goes by.
pub struct CleanJob {
    pub hard: bool,
    /// The commit of the `finalized` branch.
    pub finalized: CommitHash,
    /// The header of the last finalized block.
    pub header: BlockHeader,
}

/// The plan to clean the repository. The permanent branches stay. A hard cleaning deletes every
/// other branch; one that is not hard deletes those that may not stay and those that are not to be
/// kept. Then all remotes are removed.
pub open spec fn clean_plan(hard: bool) -> Plan<()> {
    ask_commit(
        RequestView::LocateBranch(FINALIZED_BRANCH_NAME@),
        Blame::NotFound("cannot locate `finalized` branch"@),
        |finalized: CommitHash| clean_list(hard, finalized),
    )
}

pub open spec fn clean_list(hard: bool, finalized: CommitHash) -> Plan<()> {
    ask_branches(
        RequestView::RetrieveLocalBranches,
        |branches: Seq<(String, CommitHash)>|
            clean_header(last_header_plan(), hard, finalized, branches),
    )
}

pub open spec fn clean_header(
    header: Plan<BlockHeader>,
    hard: bool,
    finalized: CommitHash,
    branches: Seq<(String, CommitHash)>,
) -> Plan<()> {
    bind(
        header,
        |header: BlockHeader| clean_from(CleanJob { hard, finalized, header }, branches, 0),
    )
}

/// The branches from position `i` on, one after another.
pub open spec fn clean_from(job: CleanJob, branches: Seq<(String, CommitHash)>, i: int) -> Plan<()>
    decreases branches.len() - i, 2int,
{
    if i < 0 || i >= branches.len() {
        clean_remotes()
    } else {
        let name = branches[i].0@;
        let keep = keep_plan(job.finalized, job.header, name, branches[i].1);
        if is_permanent(name) {
            clean_from(job, branches, i + 1)
        } else if job.hard || !may_stay(name) {
            clean_delete(job, branches, i)
        } else {
            clean_judge(keep, job, branches, i)
        }
    }
}

pub open spec fn clean_judge(
    keep: Plan<bool>,
    job: CleanJob,
    branches: Seq<(String, CommitHash)>,
    i: int,
) -> Plan<()>
    decreases branches.len() - i, 1int,
{
    if i < 0 || i >= branches.len() {
        Plan::Stuck
    } else {
        bind(
            keep,
            |kept: bool|
                if kept {
                    clean_from(job, branches, i + 1)
                } else {
                    clean_delete(job, branches, i)
                },
        )
    }
}

pub open spec fn clean_delete(
    job: CleanJob,
    branches: Seq<(String, CommitHash)>,
    i: int,
) -> Plan<()>
    decreases branches.len() - i, 0int,
{
    if i < 0 || i >= branches.len() {
        Plan::Stuck
    } else {
        ask_nothing(
            RequestView::DeleteBranch(branches[i].0@),
            Blame::Pass,
            clean_from(job, branches, i + 1),
        )
    }
}

/// The plan to clean the branches from some position on is never without a continuation.
proof fn lemma_clean_goes_on(job: CleanJob, branches: Seq<(String, CommitHash)>, i: int)
    requires
        0 <= i,
    ensures
        clean_from(job, branches, i) is Ask,
        i < branches.len() ==> clean_delete(job, branches, i) is Ask,
    decreases branches.len() - i,
{
    if i < branches.len() {
        lemma_clean_goes_on(job, branches, i + 1);
        let name = branches[i].0@;
        if !is_permanent(name) && !job.hard && may_stay(name) {
            let keep = keep_plan(job.finalized, job.header, name, branches[i].1);
            assert(clean_judge(keep, job, branches, i) is Ask);
        }
    }
}

pub open spec fn clean_remotes() -> Plan<()> {
    ask_remotes(|remotes: Seq<(String, String)>| remove_from(remotes, 0))
}

pub open spec fn remove_from(remotes: Seq<(String, String)>, i: int) -> Plan<()>
    decreases remotes.len() - i,
{
    if i < 0 || i >= remotes.len() {
        done(())
    } else {
        ask_nothing(
            RequestView::RemoveRemote(remotes[i].0@),
            Blame::Pass,
            remove_from(remotes, i + 1),
        )
    }
}

#[allow(inconsistent_fields)]
enum CleanStage {
    Locate { hard: bool },
    List { hard: bool, finalized: CommitHash },
    Header {
        inner: LastHeader,
        hard: bool,
        finalized: CommitHash,
        branches: Vec<(String, CommitHash)>,
    },
    Judge { inner: Keep, job: CleanJob, branches: Vec<(String, CommitHash)>, at: usize },
    Delete { job: CleanJob, branches: Vec<(String, CommitHash)>, at: usize },
    Remotes,
    Remove { remotes: Vec<(String, String)>, at: usize },
}

/// Cleaning the repository of outdated branches and of remotes.
pub struct Clean {
    stage: CleanStage,
}

impl Clean {
    pub fn start(hard: bool) -> (next: Next<Clean, ()>)
        ensures
            begins(next, clean_plan(hard)),
    {
        Next::Ask(
            Request::LocateBranch(FINALIZED_BRANCH_NAME.to_owned()),
            Clean { stage: CleanStage::Locate { hard } },
        )
    }

    closed spec fn rest(self) -> Plan<()> {
        match self.stage {
            CleanStage::Locate { hard } => clean_plan(hard),
            CleanStage::List { hard, finalized } => clean_list(hard, finalized),
            CleanStage::Header { inner, hard, finalized, branches } => {
                if inner.plan() is Ask {
                    clean_header(inner.plan(), hard, finalized, branches@)
                } else {
                    Plan::Stuck
                }
            },
            CleanStage::Judge { inner, job, branches, at } => {
                if inner.plan() is Ask {
                    clean_judge(inner.plan(), job, branches@, at as int)
                } else {
                    Plan::Stuck
                }
            },
            CleanStage::Delete { job, branches, at } => clean_delete(job, branches@, at as int),
            CleanStage::Remotes => clean_remotes(),
            CleanStage::Remove { remotes, at } => remove_from(remotes@, at as int),
        }
    }

    /// Deletes the branch at a position.
    fn delete(job: CleanJob, branches: Vec<(String, CommitHash)>, at: usize) -> (next: Next<
        Clean,
        (),
    >)
        requires
            at < branches@.len(),
        ensures
            follows(
                next,
                clean_delete(job, branches@, at as int),
                |operation: Clean| operation.rest(),
                |output: ()| output,
            ),
    {
        let request = Request::DeleteBranch(branches[at].0.clone());
        Next::Ask(request, Clean { stage: CleanStage::Delete { job, branches, at } })
    }

    /// Goes on with the branch at a position.
    fn proceed(job: CleanJob, branches: Vec<(String, CommitHash)>, from: usize) -> (next: Next<
        Clean,
        (),
    >)
        ensures
            follows(
                next,
                clean_from(job, branches@, from as int),
                |operation: Clean| operation.rest(),
                |output: ()| output,
            ),
    {
        let mut at: usize = from;
        while at < branches.len() && check_permanent(branches[at].0.as_str())
            invariant
                clean_from(job, branches@, at as int) == clean_from(job, branches@, from as int),
            decreases branches@.len() - at,
        {
            at = at + 1;
        }
        if at >= branches.len() {
            Next::Ask(Request::ListRemotes, Clean { stage: CleanStage::Remotes })
        } else if job.hard || !check_may_stay(branches[at].0.as_str()) {
            Clean::delete(job, branches, at)
        } else {
            proof {
                let keep = keep_plan(
                    job.finalized,
                    job.header,
                    branches@[at as int].0@,
                    branches@[at as int].1,
                );
                assert(clean_from(job, branches@, at as int) == clean_judge(
                    keep,
                    job,
                    branches@,
                    at as int,
                ));
            }
            let (request, inner) = Keep::first(
                job.finalized,
                job.header.clone(),
                branches[at].0.clone(),
                branches[at].1,
            );
            Next::Ask(request, Clean { stage: CleanStage::Judge { inner, job, branches, at } })
        }
    }

    /// Goes on with the remote at a position.
    fn remove(remotes: Vec<(String, String)>, at: usize) -> (next: Next<Clean, ()>)
        ensures
            follows(
                next,
                remove_from(remotes@, at as int),
                |operation: Clean| operation.rest(),
                |output: ()| output,
            ),
    {
        if at < remotes.len() {
            let request = Request::RemoveRemote(remotes[at].0.clone());
            Next::Ask(request, Clean { stage: CleanStage::Remove { remotes, at } })
        } else {
            Next::Done(Ok(()))
        }
    }
}

impl Operation for Clean {
    type Output = ();

    type Value = ();

    open spec fn value(output: ()) -> () {
        output
    }

    closed spec fn plan(self) -> Plan<()> {
        self.rest()
    }

    fn accepts(&self, reply: &Reply) -> (res: bool) {
        broadcast use lemma_bind_after;

        match (&self.stage, reply) {
            (CleanStage::Locate { .. }, Reply::Commit(_)) => true,
            (CleanStage::List { .. }, Reply::Branches(_)) => true,
            (CleanStage::Header { inner, hard, finalized, branches }, _) => {
                proof {
                    assert forall|header: BlockHeader|
                        !(#[trigger] clean_from(
                            CleanJob { hard: *hard, finalized: *finalized, header },
                            branches@,
                            0,
                        ) is Stuck) by {
                        lemma_clean_goes_on(
                            CleanJob { hard: *hard, finalized: *finalized, header },
                            branches@,
                            0,
                        );
                    }
                }
                inner.accepts(reply)
            },
            (CleanStage::Judge { inner, job, branches, at }, _) => {
                proof {
                    lemma_clean_goes_on(*job, branches@, *at as int);
                    lemma_clean_goes_on(*job, branches@, *at as int + 1);
                }
                inner.accepts(reply) && *at < branches.len()
            },
            (CleanStage::Delete { job, branches, at }, Reply::Nothing(_)) => {
                proof {
                    lemma_clean_goes_on(*job, branches@, *at as int + 1);
                }
                *at < branches.len()
            },
            (CleanStage::Remotes, Reply::Remotes(_)) => true,
            (CleanStage::Remove { remotes, at }, Reply::Nothing(_)) => {
                proof {
                    assert(!(remove_from(remotes@, *at as int + 1) is Stuck));
                }
                *at < remotes.len()
            },
            _ => false,
        }
    }

    fn resume(self, reply: Reply) -> (next: Next<Self, ()>) {
        broadcast use lemma_bind_after;

        match (self.stage, reply) {
            (CleanStage::Locate { hard }, Reply::Commit(Ok(finalized))) => Next::Ask(
                Request::RetrieveLocalBranches,
                Clean { stage: CleanStage::List { hard, finalized } },
            ),
            (CleanStage::Locate { .. }, Reply::Commit(Err(error))) => Next::Done(
                Err(error.not_found("cannot locate `finalized` branch".to_owned())),
            ),
            (CleanStage::List { hard, finalized }, Reply::Branches(Ok(branches))) => {
                let (request, inner) = LastHeader::first();
                Next::Ask(
                    request,
                    Clean { stage: CleanStage::Header { inner, hard, finalized, branches } },
                )
            },
            (CleanStage::List { .. }, Reply::Branches(Err(error))) => Next::Done(
                Err(Error::Host(error)),
            ),
            (CleanStage::Header { inner, hard, finalized, branches }, reply) => {
                match inner.resume(reply) {
                    Next::Ask(request, inner) => Next::Ask(
                        request,
                        Clean { stage: CleanStage::Header { inner, hard, finalized, branches } },
                    ),
                    Next::Done(Ok(header)) => Clean::proceed(
                        CleanJob { hard, finalized, header },
                        branches,
                        0,
                    ),
                    Next::Done(Err(error)) => Next::Done(Err(error)),
                }
            },
            (CleanStage::Judge { inner, job, branches, at }, reply) => {
                match inner.resume(reply) {
                    Next::Ask(request, inner) => Next::Ask(
                        request,
                        Clean { stage: CleanStage::Judge { inner, job, branches, at } },
                    ),
                    Next::Done(Ok(kept)) => if at >= branches.len() {
                        unreached()
                    } else if kept {
                        Clean::proceed(job, branches, at + 1)
                    } else {
                        Clean::delete(job, branches, at)
                    },
                    Next::Done(Err(error)) => Next::Done(Err(error)),
                }
            },
            (CleanStage::Delete { job, branches, at }, Reply::Nothing(Ok(()))) => {
                if at < branches.len() {
                    Clean::proceed(job, branches, at + 1)
                } else {
                    unreached()
                }
            },
            (CleanStage::Delete { .. }, Reply::Nothing(Err(error))) => Next::Done(
                Err(Error::Host(error)),
            ),
            (CleanStage::Remotes, Reply::Remotes(Ok(remotes))) => Clean::remove(remotes, 0),
            (CleanStage::Remotes, Reply::Remotes(Err(error))) => Next::Done(
                Err(Error::Host(error)),
            ),
            (CleanStage::Remove { remotes, at }, Reply::Nothing(Ok(()))) => {
                if at < remotes.len() {
                    Clean::remove(remotes, at + 1)
                } else {
                    unreached()
                }
            },
            (CleanStage::Remove { .. }, Reply::Nothing(Err(error))) => Next::Done(
                Err(Error::Host(error)),
            ),
            _ => unreached(),
        }
    }
}

} // verus!
