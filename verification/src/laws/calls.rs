//! The steps that the operations share, on a host that answers truthfully.
use vstd::prelude::*;

use crate::data::{BlockHeader, Commit, LastFinalizationProof, SemanticCommit};
use crate::error::ErrorView;
use crate::hash::CommitHash;
use crate::host::{Reply, RequestView};
use crate::laws::world::{always, group_runs, Chain, Head, Repo, Trial, World};
use crate::query::{last_header_plan, read_commit_plan};
use crate::steps::{apply_from, checkout_fp};
use crate::{FINALIZED_BRANCH_NAME, FP_BRANCH_NAME, WORK_BRANCH_NAME};

verus! {

/// Getting the last header.
pub proof fn lemma_last_header(
    world: World,
    faultless: bool,
    post: spec_fn(Result<BlockHeader, ErrorView>, World) -> bool,
)
    requires
        world.repo.well_formed(),
        forall|header: BlockHeader|
            world.last_header() == Some(header) ==> #[trigger] post(Ok(header), world),
        !faultless || world.last_header() is None ==> forall|error: ErrorView|
            #[trigger] post(Err(error), world),
    ensures
        always(last_header_plan(), world, faultless, post),
{
    broadcast use group_runs;

}

/// Reading a commit.
pub proof fn lemma_read_commit(
    world: World,
    commit: CommitHash,
    faultless: bool,
    post: spec_fn(Result<Commit, ErrorView>, World) -> bool,
)
    requires
        forall|content: Commit|
            world.content(commit) == Some(content) ==> #[trigger] post(Ok(content), world),
        !faultless || world.content(commit) is None ==> forall|error: ErrorView|
            #[trigger] post(Err(error), world),
    ensures
        always(read_commit_plan(commit), world, faultless, post),
{
    broadcast use group_runs;

}

/// What some commits hold, in their order.
pub open spec fn contents(commits: Seq<(Commit, CommitHash)>) -> Seq<Commit> {
    commits.map_values(|entry: (Commit, CommitHash)| entry.0)
}

impl Trial {
    /// The verifier once it accepted some more commits.
    pub open spec fn more(self, commits: Seq<Commit>) -> Trial {
        Trial { applied: self.applied + commits, ..self }
    }
}

impl Chain {
    /// Whether a verifier accepts some commits, one after another.
    pub open spec fn all_valid(self, trial: Trial, commits: Seq<Commit>) -> bool {
        forall|i: int|
            0 <= i < commits.len() ==> (self.valid)(
                trial.more(commits.take(i)),
                #[trigger] commits[i],
            )
    }
}

impl World {
    /// The host with another verifier.
    pub open spec fn on_trial(self, trial: Trial) -> World {
        World { trial: Some(trial), ..self }
    }
}

/// Verifying the commits of a sequence from position `i` on.
pub proof fn lemma_apply(
    world: World,
    trial: Trial,
    commits: Seq<(Commit, CommitHash)>,
    i: int,
    faultless: bool,
    post: spec_fn(Result<Seq<(Commit, CommitHash)>, ErrorView>, World) -> bool,
)
    requires
        0 <= i <= commits.len(),
        forall|j: int|
            0 <= j < i ==> (world.chain.valid)(
                trial.more(contents(commits).take(j)),
                #[trigger] contents(commits)[j],
            ),
        world.chain.all_valid(trial, contents(commits)) ==> post(
            Ok(commits),
            world.on_trial(trial.more(contents(commits))),
        ),
        !faultless || !world.chain.all_valid(trial, contents(commits)) ==> forall|
            error: ErrorView,
            then: World,
        |
            then == world.on_trial(then.trial->0) ==> #[trigger] post(Err(error), then),
    ensures
        always(
            apply_from(commits, i),
            world.on_trial(trial.more(contents(commits).take(i))),
            faultless,
            post,
        ),
    decreases commits.len() - i,
{
    broadcast use group_runs;

    let all = contents(commits);
    let now = world.on_trial(trial.more(all.take(i)));
    if i >= commits.len() {
        assert(all.take(i) =~= all);
    } else {
        assert(all[i] == commits[i].0);
        if (world.chain.valid)(trial.more(all.take(i)), all[i]) {
            assert(trial.more(all.take(i)).applied.push(all[i]) =~= trial.more(
                all.take(i + 1),
            ).applied);
            lemma_apply(world, trial, commits, i + 1, faultless, post);
        }
        assert(now == world.on_trial(now.trial->0));
    }
}

/// The three permanent branches have names of their own.
pub proof fn lemma_permanent_names()
    ensures
        FINALIZED_BRANCH_NAME@ != WORK_BRANCH_NAME@,
        FINALIZED_BRANCH_NAME@ != FP_BRANCH_NAME@,
        WORK_BRANCH_NAME@ != FP_BRANCH_NAME@,
{
    reveal_strlit("work");
    reveal_strlit("finalized");
    reveal_strlit("fp");
    assert(FINALIZED_BRANCH_NAME@.len() == 9 && WORK_BRANCH_NAME@.len() == 4
        && FP_BRANCH_NAME@.len() == 2);
}

impl World {
    /// The host with a new commit on a branch, which is checked out.
    pub open spec fn committed(self, name: Seq<char>, stored: SemanticCommit, commit: CommitHash)
        -> World {
        self.with(
            Repo {
                branches: self.repo.branches.insert(name, commit),
                paths: self.repo.paths.insert(
                    commit,
                    self.repo.paths[self.repo.branches[name]].push((stored, commit)),
                ),
                head: Head::Branch(name),
                ..self.repo
            },
        )
    }
}

/// A new commit leaves the repository well-formed.
pub proof fn lemma_committed(
    world: World,
    name: Seq<char>,
    stored: SemanticCommit,
    commit: CommitHash,
)
    requires
        world.repo.well_formed(),
        world.repo.branches.contains_key(name),
        !world.repo.paths.contains_key(commit),
    ensures
        world.committed(name, stored, commit).repo.well_formed(),
{
}

/// A commit on a branch that is checked out.
pub proof fn lemma_commit_on(world: World, name: Seq<char>, stored: SemanticCommit)
    requires
        world.repo.branches.contains_key(name),
    ensures
        forall|commit: CommitHash|
            #![trigger world.after(RequestView::Checkout(name), Reply::Nothing(Ok(()))).after(
                RequestView::CreateSemanticCommit(stored),
                Reply::Commit(Ok(commit)),
            )]
            world.after(RequestView::Checkout(name), Reply::Nothing(Ok(()))).after(
                RequestView::CreateSemanticCommit(stored),
                Reply::Commit(Ok(commit)),
            ) == world.committed(name, stored, commit),
{
}

/// Recording a finalization proof on `fp`.
pub proof fn lemma_record(
    world: World,
    proof: LastFinalizationProof,
    faultless: bool,
    post: spec_fn(Result<(), ErrorView>, World) -> bool,
)
    requires
        world.repo.well_formed(),
        forall|commit: CommitHash|
            world.repo.branches.contains_key(FP_BRANCH_NAME@) && !world.repo.paths.contains_key(
                commit,
            ) ==> #[trigger] post(
                Ok(()),
                world.committed(FP_BRANCH_NAME@, (world.chain.encode_proof)(proof), commit),
            ),
        !faultless || !world.repo.branches.contains_key(FP_BRANCH_NAME@) ==> forall|
            error: ErrorView,
            then: World,
        | #[trigger] post(Err(error), then),
    ensures
        always(checkout_fp(proof), world, faultless, post),
{
    broadcast use group_runs;

    if world.repo.branches.contains_key(FP_BRANCH_NAME@) {
        lemma_commit_on(world, FP_BRANCH_NAME@, (world.chain.encode_proof)(proof));
    }
}

} // verus!
