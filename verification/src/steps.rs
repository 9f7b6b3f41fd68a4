//! Steps that several operations take: verifying a sequence of commits, putting a commit on the
//! `work` branch, recording a finalization proof.
use vstd::pervasive::unreached;
use vstd::prelude::*;

use crate::data::{Commit, LastFinalizationProof, ReservedState, SemanticCommit};
use crate::error::{Blame, Error};
use crate::hash::CommitHash;
use crate::host::{Reply, Request, RequestView};
use crate::plan::{
    ask_commit, ask_nothing, ask_stored, ask_stored_proof, begins, done, follows, Next, Operation,
    Plan,
};
use crate::text::{concat2, concat3};
use crate::{FINALIZED_BRANCH_NAME, FP_BRANCH_NAME, WORK_BRANCH_NAME};

verus! {

/// How the rejection of a commit of a sequence is reported.
pub open spec fn rejected(commit: CommitHash) -> Blame {
    Blame::Told("verification error on commit "@ + commit.text() + ": "@)
}

/// How a verifier that cannot be made is reported.
pub open spec fn no_verifier() -> Blame {
    Blame::Told("failed to create a commit sequence verifier: "@)
}

/// How it is reported that a branch and the `finalized` branch have no common ancestor.
pub open spec fn no_merge_base(branch: Seq<char>) -> Blame {
    Blame::NotFound("cannot find merge base for branch "@ + branch + " and finalized branch"@)
}

/// The message of [`no_merge_base`].
pub fn no_merge_base_text(branch: &str) -> (res: String)
    ensures
        Blame::NotFound(res@) == no_merge_base(branch@),
{
    concat3("cannot find merge base for branch ", branch, " and finalized branch")
}

/// How it is reported that the `fp` branch, which ought to be there, cannot be checked out.
pub open spec fn no_fp_branch() -> Blame {
    Blame::NotFoundWith("failed to checkout to the fp branch: "@)
}

/// The message that a branch is not on top of the `finalized` branch.
pub open spec fn not_rebased(branch: Seq<char>) -> Seq<char> {
    "branch "@ + branch + " should be rebased on "@ + FINALIZED_BRANCH_NAME@
}

/// The message that a branch is not on top of the `finalized` branch.
pub fn not_rebased_text(branch: &str) -> (res: String)
    ensures
        res@ == not_rebased(branch@),
{
    let start = concat3("branch ", branch, " should be rebased on ");
    concat2(start.as_str(), FINALIZED_BRANCH_NAME)
}

/// The plan to verify the commits of a sequence from position `i` on, each in turn. The first
/// rejection ends it, and the commits are handed back where there is none.
pub open spec fn apply_from(commits: Seq<(Commit, CommitHash)>, i: int) -> Plan<
    Seq<(Commit, CommitHash)>,
>
    decreases commits.len() - i,
{
    if i < 0 || i >= commits.len() {
        done(commits)
    } else {
        ask_nothing(
            RequestView::ApplyCommit(commits[i].0),
            rejected(commits[i].1),
            apply_from(commits, i + 1),
        )
    }
}

/// Verifying the commits of a sequence.
pub struct ApplyAll {
    commits: Vec<(Commit, CommitHash)>,
    at: usize,
}

impl ApplyAll {
    closed spec fn rest(self) -> Plan<Seq<(Commit, CommitHash)>> {
        apply_from(self.commits@, self.at as int)
    }

    pub fn start(commits: Vec<(Commit, CommitHash)>) -> (next: Next<
        ApplyAll,
        Vec<(Commit, CommitHash)>,
    >)
        ensures
            begins(next, apply_from(commits@, 0)),
    {
        ApplyAll::proceed(commits, 0)
    }

    fn proceed(commits: Vec<(Commit, CommitHash)>, at: usize) -> (next: Next<
        ApplyAll,
        Vec<(Commit, CommitHash)>,
    >)
        ensures
            follows(
                next,
                apply_from(commits@, at as int),
                |operation: ApplyAll| operation.rest(),
                |output: Vec<(Commit, CommitHash)>| output@,
            ),
    {
        if at < commits.len() {
            let request = Request::ApplyCommit(commits[at].0.clone());
            Next::Ask(request, ApplyAll { commits, at })
        } else {
            Next::Done(Ok(commits))
        }
    }
}

impl ApplyAll {
    /// Where the last commit is accepted, the commits that are handed back are not none.
    pub proof fn lemma_hands_back(self, reply: Reply)
        ensures
            self.plan().after(reply) matches Plan::Done(Ok(commits)) ==> commits.len() > 0,
    {
        let rest = apply_from(self.commits@, self.at as int + 1);
        assert(rest is Done ==> rest == done(self.commits@));
    }
}

impl Operation for ApplyAll {
    type Output = Vec<(Commit, CommitHash)>;

    type Value = Seq<(Commit, CommitHash)>;

    open spec fn value(output: Vec<(Commit, CommitHash)>) -> Seq<(Commit, CommitHash)> {
        output@
    }

    closed spec fn plan(self) -> Plan<Seq<(Commit, CommitHash)>> {
        self.rest()
    }

    fn accepts(&self, reply: &Reply) -> (res: bool) {
        proof {
            let rest = apply_from(self.commits@, self.at as int + 1);
            assert(!(rest is Stuck));
        }
        match reply {
            Reply::Nothing(_) => self.at < self.commits.len(),
            _ => false,
        }
    }

    fn resume(self, reply: Reply) -> (next: Next<Self, Vec<(Commit, CommitHash)>>) {
        if self.at >= self.commits.len() {
            return unreached();
        }
        match reply {
            Reply::Nothing(Ok(())) => ApplyAll::proceed(self.commits, self.at + 1),
            Reply::Nothing(Err(error)) => {
                let commit = self.commits[self.at].1.to_string();
                let msg = concat3("verification error on commit ", commit.as_str(), ": ");
                Next::Done(Err(error.told(msg.as_str())))
            },
            _ => unreached(),
        }
    }
}

/// The plan to put a commit on the `work` branch: encode it, drop what is not committed, check
/// `work` out and commit there. It gives the new commit of the repository.
///
/// `blame` says how it is reported that `work` cannot be checked out.
pub open spec fn publish_plan(commit: Commit, state: ReservedState, blame: Blame) -> Plan<
    CommitHash,
> {
    ask_stored(
        RequestView::EncodeCommit(commit, state),
        |stored: SemanticCommit| publish_clean(stored, blame),
    )
}

pub open spec fn publish_clean(stored: SemanticCommit, blame: Blame) -> Plan<CommitHash> {
    ask_nothing(RequestView::CheckoutClean, Blame::Pass, publish_checkout(stored, blame))
}

pub open spec fn publish_checkout(stored: SemanticCommit, blame: Blame) -> Plan<CommitHash> {
    ask_nothing(RequestView::Checkout(WORK_BRANCH_NAME@), blame, publish_commit(stored))
}

pub open spec fn publish_commit(stored: SemanticCommit) -> Plan<CommitHash> {
    ask_commit(
        RequestView::CreateSemanticCommit(stored),
        Blame::Pass,
        |commit: CommitHash| done(commit),
    )
}

/// How it is reported that the `work` branch, which ought to be there, cannot be checked out.
pub open spec fn no_work_branch() -> Blame {
    Blame::NotFoundWith("failed to checkout to the work branch: "@)
}

/// How a failure to check `work` out is reported, by whether `work` ought to be there.
pub open spec fn work_blame(expected: bool) -> Blame {
    if expected {
        no_work_branch()
    } else {
        Blame::Pass
    }
}

#[allow(inconsistent_fields)]
enum PublishStage {
    Encode(Ghost<Commit>, Ghost<ReservedState>),
    Clean(SemanticCommit),
    Checkout(SemanticCommit),
    Commit(Ghost<SemanticCommit>),
}

/// Putting a commit on the `work` branch.
pub struct Publish {
    /// Whether a missing `work` branch is an integrity error.
    expected: bool,
    stage: PublishStage,
}

impl Publish {
    /// The first request, and the operation as it waits for the reply.
    pub fn first(commit: Commit, state: ReservedState, expected: bool) -> (res: (Request, Publish))
        ensures
            publish_plan(commit, state, work_blame(expected)) is Ask,
            publish_plan(commit, state, work_blame(expected)).request() == res.0@,
            res.1.plan() == publish_plan(commit, state, work_blame(expected)),
    {
        let ghost of = (commit, state);
        (
            Request::EncodeCommit(commit, state),
            Publish { expected, stage: PublishStage::Encode(Ghost(of.0), Ghost(of.1)) },
        )
    }
}

impl Operation for Publish {
    type Output = CommitHash;

    type Value = CommitHash;

    open spec fn value(output: CommitHash) -> CommitHash {
        output
    }

    closed spec fn plan(self) -> Plan<CommitHash> {
        let blame = work_blame(self.expected);
        match self.stage {
            PublishStage::Encode(commit, state) => publish_plan(commit@, state@, blame),
            PublishStage::Clean(stored) => publish_clean(stored, blame),
            PublishStage::Checkout(stored) => publish_checkout(stored, blame),
            PublishStage::Commit(stored) => publish_commit(stored@),
        }
    }

    fn accepts(&self, reply: &Reply) -> (res: bool) {
        match (&self.stage, reply) {
            (PublishStage::Encode(_, _), Reply::SemanticCommit(_)) => true,
            (PublishStage::Clean(_), Reply::Nothing(_)) => true,
            (PublishStage::Checkout(_), Reply::Nothing(_)) => true,
            (PublishStage::Commit(_), Reply::Commit(_)) => true,
            _ => false,
        }
    }

    fn resume(self, reply: Reply) -> (next: Next<Self, CommitHash>) {
        let expected = self.expected;
        match (self.stage, reply) {
            (PublishStage::Encode(_, _), Reply::SemanticCommit(Ok(stored))) => Next::Ask(
                Request::CheckoutClean,
                Publish { expected, stage: PublishStage::Clean(stored) },
            ),
            (PublishStage::Encode(_, _), Reply::SemanticCommit(Err(error))) => Next::Done(
                Err(Error::Host(error)),
            ),
            (PublishStage::Clean(stored), Reply::Nothing(Ok(()))) => Next::Ask(
                Request::Checkout(WORK_BRANCH_NAME.to_owned()),
                Publish { expected, stage: PublishStage::Checkout(stored) },
            ),
            (PublishStage::Clean(_), Reply::Nothing(Err(error))) => Next::Done(
                Err(Error::Host(error)),
            ),
            (PublishStage::Checkout(stored), Reply::Nothing(Ok(()))) => {
                let ghost of = stored;
                Next::Ask(
                    Request::CreateSemanticCommit(stored),
                    Publish { expected, stage: PublishStage::Commit(Ghost(of)) },
                )
            },
            (PublishStage::Checkout(_), Reply::Nothing(Err(error))) => if expected {
                Next::Done(Err(error.not_found_with("failed to checkout to the work branch: ")))
            } else {
                Next::Done(Err(Error::Host(error)))
            },
            (PublishStage::Commit(_), Reply::Commit(Ok(commit))) => Next::Done(Ok(commit)),
            (PublishStage::Commit(_), Reply::Commit(Err(error))) => Next::Done(
                Err(Error::Host(error)),
            ),
            _ => unreached(),
        }
    }
}

/// Committing a finalization proof on the `fp` branch.
pub open spec fn checkout_fp(proof: LastFinalizationProof) -> Plan<()> {
    ask_nothing(RequestView::Checkout(FP_BRANCH_NAME@), no_fp_branch(), encode_fp(proof))
}

pub open spec fn encode_fp(proof: LastFinalizationProof) -> Plan<()> {
    ask_stored_proof(
        RequestView::EncodeProof(proof),
        |stored: SemanticCommit| commit_fp(stored),
    )
}

pub open spec fn commit_fp(stored: SemanticCommit) -> Plan<()> {
    ask_commit(
        RequestView::CreateSemanticCommit(stored),
        Blame::Pass,
        |_commit: CommitHash| done(()),
    )
}

#[allow(inconsistent_fields)]
enum RecordProofStage {
    Checkout(LastFinalizationProof),
    Encode(Ghost<LastFinalizationProof>),
    Commit(Ghost<SemanticCommit>),
}

/// Committing a finalization proof on the `fp` branch.
pub struct RecordProof {
    stage: RecordProofStage,
}

impl RecordProof {
    /// The first request, and the operation as it waits for the reply.
    pub fn first(proof: LastFinalizationProof) -> (res: (Request, RecordProof))
        ensures
            checkout_fp(proof) is Ask,
            checkout_fp(proof).request() == res.0@,
            res.1.plan() == checkout_fp(proof),
    {
        (
            Request::Checkout(FP_BRANCH_NAME.to_owned()),
            RecordProof { stage: RecordProofStage::Checkout(proof) },
        )
    }
}

impl Operation for RecordProof {
    type Output = ();

    type Value = ();

    open spec fn value(output: ()) -> () {
        output
    }

    closed spec fn plan(self) -> Plan<()> {
        match self.stage {
            RecordProofStage::Checkout(proof) => checkout_fp(proof),
            RecordProofStage::Encode(proof) => encode_fp(proof@),
            RecordProofStage::Commit(stored) => commit_fp(stored@),
        }
    }

    fn accepts(&self, reply: &Reply) -> (res: bool) {
        match (&self.stage, reply) {
            (RecordProofStage::Checkout(_), Reply::Nothing(_)) => true,
            (RecordProofStage::Encode(_), Reply::SemanticCommit(Ok(_))) => true,
            (RecordProofStage::Commit(_), Reply::Commit(_)) => true,
            _ => false,
        }
    }

    fn resume(self, reply: Reply) -> (next: Next<Self, ()>) {
        match (self.stage, reply) {
            (RecordProofStage::Checkout(proof), Reply::Nothing(Ok(()))) => {
                let ghost of = proof;
                Next::Ask(
                    Request::EncodeProof(proof),
                    RecordProof { stage: RecordProofStage::Encode(Ghost(of)) },
                )
            },
            (RecordProofStage::Checkout(_), Reply::Nothing(Err(error))) => Next::Done(
                Err(error.not_found_with("failed to checkout to the fp branch: ")),
            ),
            (RecordProofStage::Encode(_), Reply::SemanticCommit(Ok(stored))) => {
                let ghost of = stored;
                Next::Ask(
                    Request::CreateSemanticCommit(stored),
                    RecordProof { stage: RecordProofStage::Commit(Ghost(of)) },
                )
            },
            (RecordProofStage::Commit(_), Reply::Commit(Ok(_))) => Next::Done(Ok(())),
            (RecordProofStage::Commit(_), Reply::Commit(Err(error))) => Next::Done(
                Err(Error::Host(error)),
            ),
            _ => unreached(),
        }
    }
}

} // verus!
