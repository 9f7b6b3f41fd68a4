//! A host that answers truthfully: a repository, the rules of the chain, and every run on them.
//!
//! What holds across two operations is stated of such a host: the second operation is answered
//! from what the first one wrote.
use vstd::prelude::*;

use crate::data::{
    Agenda, BlockHeader, Commit, FinalizationProof, LastFinalizationProof, ReservedState,
    SemanticCommit, Timestamp, ValidatorSet,
};
use crate::error::{Blame, ErrorView, HostError};
use crate::hash::{CommitHash, Hash256};
use crate::host::{Reply, RequestView};
use crate::laws::progress::answers;
use crate::plan::{
    ask_anyway, ask_branches, ask_commit, ask_commits, ask_decoded, ask_decoded_proof, ask_hash,
    ask_names, ask_nothing, ask_remotes, ask_reserved_state, ask_stored, ask_stored_proof, ask_timestamp,
    ask_validator_set, bind, Plan,
};
use crate::FINALIZED_BRANCH_NAME;

verus! {

/// The commits from the first one of a repository up to some commit, each with its stored form.
pub type Path = Seq<(SemanticCommit, CommitHash)>;

/// Where the working tree is.
pub enum Head {
    Branch(Seq<char>),
    Commit(CommitHash),
}

/// A repository: its branches, the way to each of its commits, where the working tree is, its tags,
/// and its remotes with their addresses.
pub struct Repo {
    pub branches: Map<Seq<char>, CommitHash>,
    pub paths: Map<CommitHash, Path>,
    pub head: Head,
    pub tags: Map<Seq<char>, CommitHash>,
    pub remotes: Map<Seq<char>, Seq<char>>,
}

/// A verifier: what it was started on, and the commits that it accepted.
pub struct Trial {
    pub header: BlockHeader,
    pub state: ReservedState,
    pub applied: Seq<Commit>,
}

/// The rules of a chain.
pub struct Chain {
    pub encode: spec_fn(Commit, ReservedState) -> SemanticCommit,
    pub decode: spec_fn(SemanticCommit) -> Option<Commit>,
    pub encode_proof: spec_fn(LastFinalizationProof) -> SemanticCommit,
    pub decode_proof: spec_fn(SemanticCommit) -> Option<LastFinalizationProof>,
    pub hash_commit: spec_fn(Commit) -> Hash256,
    pub hash_agenda: spec_fn(Agenda) -> Hash256,
    pub hash_header: spec_fn(BlockHeader) -> Hash256,
    /// The reserved state, by the commit that `finalized` is at.
    pub reserved: spec_fn(Option<CommitHash>) -> ReservedState,
    /// Whether a verifier can be started on a header and a state.
    pub starts: spec_fn(BlockHeader, ReservedState) -> bool,
    /// Whether a commit is valid after those that a verifier accepted.
    pub valid: spec_fn(Trial, Commit) -> bool,
    /// Whether a proof finalizes the last block that a verifier accepted.
    pub finalizes: spec_fn(Trial, FinalizationProof) -> bool,
}

impl Chain {
    /// Decoding undoes encoding, and the hash of a commit is that of what it holds.
    pub open spec fn consistent(self) -> bool {
        &&& forall|commit: Commit, state: ReservedState|
            (self.decode)(#[trigger] (self.encode)(commit, state)) == Some(commit)
        &&& forall|proof: LastFinalizationProof|
            (self.decode_proof)(#[trigger] (self.encode_proof)(proof)) == Some(proof)
        &&& forall|agenda: Agenda| #[trigger]
            (self.hash_agenda)(agenda) == (self.hash_commit)(Commit::Agenda(agenda))
        &&& forall|header: BlockHeader| #[trigger]
            (self.hash_header)(header) == (self.hash_commit)(Commit::Block(header))
    }

    /// Whether commits are what some stored forms hold.
    pub open spec fn decodes(self, path: Path, commits: Seq<(Commit, CommitHash)>) -> bool {
        &&& commits.len() == path.len()
        &&& forall|i: int|
            0 <= i < commits.len() ==> {
                &&& (self.decode)(path[i].0) == Some((#[trigger] commits[i]).0)
                &&& path[i].1 == commits[i].1
            }
    }

    /// The commits that some stored forms hold.
    pub open spec fn held(self, path: Path) -> Seq<(Commit, CommitHash)> {
        Seq::new(path.len(), |i: int| ((self.decode)(path[i].0)->0, path[i].1))
    }

    /// Whether each of some stored forms holds a commit.
    pub open spec fn readable(self, path: Path) -> bool {
        forall|i: int| 0 <= i < path.len() ==> (self.decode)((#[trigger] path[i]).0) is Some
    }
}

impl Repo {
    /// Every branch points to a commit, and the way to a commit ends in it.
    pub open spec fn well_formed(self) -> bool {
        &&& forall|name: Seq<char>| #[trigger]
            self.branches.contains_key(name) ==> self.paths.contains_key(self.branches[name])
        &&& forall|commit: CommitHash| #[trigger]
            self.paths.contains_key(commit) ==> {
                &&& self.paths[commit].len() > 0
                &&& self.paths[commit].last().1 == commit
            }
    }

    /// Whether the second commit is the first one or a descendant of it.
    pub open spec fn descends(self, from: CommitHash, to: CommitHash) -> bool {
        &&& self.paths.contains_key(from)
        &&& self.paths.contains_key(to)
        &&& self.paths[from].is_prefix_of(self.paths[to])
    }

    /// Whether a commit is the last one that two others descend from.
    pub open spec fn merge_base(self, base: CommitHash, a: CommitHash, b: CommitHash) -> bool {
        &&& self.descends(base, a)
        &&& self.descends(base, b)
        &&& forall|other: CommitHash| #[trigger]
            self.descends(other, a) && self.descends(other, b) ==> self.paths[other].len()
                <= self.paths[base].len()
    }

    /// Whether two commits have no ancestor in common.
    pub open spec fn unrelated(self, a: CommitHash, b: CommitHash) -> bool {
        forall|base: CommitHash| !#[trigger] self.merge_base(base, a, b)
    }

    /// Whether some names are those of the branches.
    pub open spec fn lists_names(self, names: Seq<String>) -> bool {
        forall|name: Seq<char>| #[trigger]
            self.branches.contains_key(name) <==> exists|i: int|
                0 <= i < names.len() && (#[trigger] names[i])@ == name
    }

    /// The commits after the first one, up to and with the second.
    pub open spec fn between(self, base: CommitHash, to: CommitHash) -> Path {
        self.paths[to].skip(self.paths[base].len() as int)
    }

    /// The commit that the working tree is at.
    pub open spec fn head_commit(self) -> Option<CommitHash> {
        match self.head {
            Head::Branch(name) => if self.branches.contains_key(name) {
                Some(self.branches[name])
            } else {
                None
            },
            Head::Commit(commit) => Some(commit),
        }
    }

    /// The commit that a branch points to.
    pub open spec fn tip(self, name: Seq<char>) -> Option<CommitHash> {
        if self.branches.contains_key(name) {
            Some(self.branches[name])
        } else {
            None
        }
    }

    /// The repository with a new commit on the working tree.
    pub open spec fn commit(self, stored: SemanticCommit, commit: CommitHash) -> Repo {
        let parent = self.head_commit()->0;
        let paths = self.paths.insert(commit, self.paths[parent].push((stored, commit)));
        match self.head {
            Head::Branch(name) => Repo {
                branches: self.branches.insert(name, commit),
                paths,
                ..self
            },
            Head::Commit(_) => Repo { paths, head: Head::Commit(commit), ..self },
        }
    }
}

/// A host: a repository, the rules of its chain, the verifier that was started last, and what the
/// host told last of the time, of lists that have no order of their own, and of what it calculated.
pub struct World {
    pub chain: Chain,
    pub repo: Repo,
    pub trial: Option<Trial>,
    pub told: Map<RequestView, Reply>,
}

/// Whether a reply says that a request failed.
pub open spec fn failed(reply: Reply) -> bool {
    match reply {
        Reply::Nothing(answer) => answer is Err,
        Reply::Commit(answer) => answer is Err,
        Reply::Names(answer) => answer is Err,
        Reply::Branches(answer) => answer is Err,
        Reply::Commits(answer) => answer is Err,
        Reply::SemanticCommit(answer) => answer is Err,
        Reply::Decoded(answer) => answer is Err,
        Reply::DecodedProof(answer) => answer is Err,
        Reply::ReservedState(answer) => answer is Err,
        Reply::ValidatorSet(answer) => answer is Err,
        Reply::Hash(_) => false,
        Reply::Timestamp(_) => false,
        Reply::Remotes(answer) => answer is Err,
        Reply::RemoteBranches(answer) => answer is Err,
        Reply::Received(answer) => answer is Err,
    }
}

/// Whether some branches are those of a repository.
pub open spec fn lists_branches(
    listed: Seq<(String, CommitHash)>,
    branches: Map<Seq<char>, CommitHash>,
) -> bool {
    &&& forall|i: int|
        0 <= i < listed.len() ==> {
            &&& branches.contains_key((#[trigger] listed[i]).0@)
            &&& branches[listed[i].0@] == listed[i].1
        }
    &&& forall|name: Seq<char>| #[trigger]
        branches.contains_key(name) ==> exists|i: int|
            0 <= i < listed.len() && (#[trigger] listed[i]).0@ == name
}

/// Whether some remotes are those of a repository.
pub open spec fn lists_remotes(
    listed: Seq<(String, String)>,
    remotes: Map<Seq<char>, Seq<char>>,
) -> bool {
    &&& forall|i: int|
        0 <= i < listed.len() ==> {
            &&& remotes.contains_key((#[trigger] listed[i]).0@)
            &&& remotes[listed[i].0@] == listed[i].1@
        }
    &&& forall|name: Seq<char>| #[trigger]
        remotes.contains_key(name) ==> exists|i: int|
            0 <= i < listed.len() && (#[trigger] listed[i]).0@ == name
}

impl World {
    /// The reserved state.
    pub open spec fn state(self) -> ReservedState {
        (self.chain.reserved)(self.repo.tip(FINALIZED_BRANCH_NAME@))
    }

    /// What a commit of the repository holds.
    pub open spec fn content(self, commit: CommitHash) -> Option<Commit> {
        if self.repo.paths.contains_key(commit) {
            (self.chain.decode)(self.repo.paths[commit].last().0)
        } else {
            None
        }
    }

    /// The header of the block that `finalized` is at.
    pub open spec fn last_header(self) -> Option<BlockHeader> {
        match self.repo.tip(FINALIZED_BRANCH_NAME@) {
            Some(commit) => match self.content(commit) {
                Some(Commit::Block(header)) => Some(header),
                _ => None,
            },
            None => None,
        }
    }

    /// Whether some commits are those after the last common ancestor of two others, up to and with
    /// the second.
    pub open spec fn reads(
        self,
        from: CommitHash,
        to: CommitHash,
        commits: Seq<(Commit, CommitHash)>,
    ) -> bool {
        exists|base: CommitHash|
            {
                &&& #[trigger] self.repo.merge_base(base, from, to)
                &&& self.chain.decodes(self.repo.between(base, to), commits)
            }
    }

    /// Whether there are no such commits to be read.
    pub open spec fn unreadable(self, from: CommitHash, to: CommitHash) -> bool {
        forall|base: CommitHash| #[trigger]
            self.repo.merge_base(base, from, to) ==> !self.chain.readable(
                self.repo.between(base, to),
            )
    }

    /// Whether a reply that is no failure is the truth.
    pub open spec fn tells(self, request: RequestView, reply: Reply) -> bool {
        let repo = self.repo;
        let chain = self.chain;
        match request {
            RequestView::GetHead => reply matches Reply::Commit(Ok(commit)) && repo.head_commit()
                == Some(commit) && repo.paths.contains_key(commit),
            RequestView::LocateBranch(name) => reply matches Reply::Commit(Ok(commit)) && repo.tip(
                name,
            ) == Some(commit),
            RequestView::ListBranches => reply matches Reply::Names(Ok(names)) && repo.lists_names(
                names@,
            ),
            RequestView::RetrieveLocalBranches => reply matches Reply::Branches(Ok(branches))
                && lists_branches(branches@, repo.branches),
            RequestView::CreateBranch(name, commit) => !repo.branches.contains_key(name)
                && repo.paths.contains_key(commit),
            RequestView::MoveBranch(name, commit) => repo.branches.contains_key(name)
                && repo.paths.contains_key(commit),
            RequestView::DeleteBranch(name) => repo.branches.contains_key(name),
            RequestView::Checkout(name) => repo.branches.contains_key(name),
            RequestView::CreateTag(name, commit) => !repo.tags.contains_key(name)
                && repo.paths.contains_key(commit),
            RequestView::ListRemotes => reply matches Reply::Remotes(Ok(remotes)) && lists_remotes(
                remotes@,
                repo.remotes,
            ),
            RequestView::RemoveRemote(name) => repo.remotes.contains_key(name),
            RequestView::FindMergeBase(a, b) => reply matches Reply::Commit(Ok(base))
                && repo.merge_base(base, a, b),
            RequestView::ReadCommits(from, to) => reply matches Reply::Commits(Ok(commits))
                && self.reads(from, to, commits@),
            RequestView::ReadSemanticCommit(commit) => reply matches Reply::SemanticCommit(
                Ok(stored),
            ) && repo.paths.contains_key(commit) && repo.paths[commit].last().0 == stored,
            RequestView::CreateSemanticCommit(_) => {
                &&& reply matches Reply::Commit(Ok(commit))
                &&& !repo.paths.contains_key(commit)
                &&& repo.head_commit() matches Some(parent)
                &&& repo.paths.contains_key(parent)
            },
            RequestView::ReadReservedState => reply matches Reply::ReservedState(Ok(state))
                && state == self.state(),
            RequestView::EncodeCommit(commit, state) => reply matches Reply::SemanticCommit(
                Ok(stored),
            ) && stored == (chain.encode)(commit, state),
            RequestView::DecodeCommit(stored) => reply matches Reply::Decoded(Ok(commit))
                && (chain.decode)(stored) == Some(commit),
            RequestView::EncodeProof(proof) => reply matches Reply::SemanticCommit(Ok(stored))
                && stored == (chain.encode_proof)(proof),
            RequestView::DecodeProof(stored) => reply matches Reply::DecodedProof(Ok(proof))
                && (chain.decode_proof)(stored) == Some(proof),
            RequestView::CreateVerifier(header, state) => (chain.starts)(header, state),
            RequestView::ApplyCommit(commit) => self.trial matches Some(trial) && (chain.valid)(
                trial,
                commit,
            ),
            RequestView::VerifyLastHeaderFinalization(proof) => self.trial matches Some(trial)
                && (chain.finalizes)(trial, proof),
            RequestView::HashAgenda(agenda) => reply == Reply::Hash((chain.hash_agenda)(agenda)),
            RequestView::HashHeader(header) => reply == Reply::Hash((chain.hash_header)(header)),
            RequestView::HashCommit(commit) => reply == Reply::Hash((chain.hash_commit)(commit)),
            _ => true,
        }
    }

    /// Whether a host without a fault fails at a request.
    pub open spec fn refuses(self, request: RequestView) -> bool {
        let repo = self.repo;
        let chain = self.chain;
        match request {
            RequestView::GetHead => repo.head_commit() is None,
            RequestView::LocateBranch(name) => !repo.branches.contains_key(name),
            RequestView::CreateBranch(name, commit) => repo.branches.contains_key(name)
                || !repo.paths.contains_key(commit),
            RequestView::MoveBranch(name, commit) => !repo.branches.contains_key(name)
                || !repo.paths.contains_key(commit),
            RequestView::DeleteBranch(name) => !repo.branches.contains_key(name),
            RequestView::Checkout(name) => !repo.branches.contains_key(name),
            RequestView::CreateTag(name, commit) => repo.tags.contains_key(name)
                || !repo.paths.contains_key(commit),
            RequestView::RemoveRemote(name) => !repo.remotes.contains_key(name),
            RequestView::FindMergeBase(a, b) => repo.unrelated(a, b),
            RequestView::ReadCommits(from, to) => self.unreadable(from, to),
            RequestView::ReadSemanticCommit(commit) => !repo.paths.contains_key(commit),
            RequestView::CreateSemanticCommit(_) => repo.head_commit() is None,
            RequestView::DecodeCommit(stored) => (chain.decode)(stored) is None,
            RequestView::CreateVerifier(header, state) => !(chain.starts)(header, state),
            RequestView::ApplyCommit(commit) => !(self.trial matches Some(trial) && (chain.valid)(
                trial,
                commit,
            )),
            RequestView::VerifyLastHeaderFinalization(proof) => !(self.trial matches Some(trial)
                && (chain.finalizes)(trial, proof)),
            _ => false,
        }
    }

    /// Whether a reply is one that a truthful host gives. It may fail at any request, but for a
    /// host without a fault, which fails only where it must.
    pub open spec fn truthful(self, request: RequestView, reply: Reply, faultless: bool) -> bool {
        &&& answers(request, reply)
        &&& if failed(reply) {
            !faultless || self.refuses(request)
        } else {
            self.tells(request, reply)
        }
    }

    /// The host after it gave a reply.
    pub open spec fn after(self, request: RequestView, reply: Reply) -> World {
        if failed(reply) {
            self
        } else {
            let repo = self.repo;
            match request {
                RequestView::CreateBranch(name, commit) => self.with(
                    Repo { branches: repo.branches.insert(name, commit), ..repo },
                ),
                RequestView::MoveBranch(name, commit) => self.with(
                    Repo { branches: repo.branches.insert(name, commit), ..repo },
                ),
                RequestView::DeleteBranch(name) => self.with(
                    Repo { branches: repo.branches.remove(name), ..repo },
                ),
                RequestView::Checkout(name) => self.with(Repo { head: Head::Branch(name), ..repo }),
                RequestView::CreateTag(name, commit) => self.with(
                    Repo { tags: repo.tags.insert(name, commit), ..repo },
                ),
                RequestView::RemoveRemote(name) => self.with(
                    Repo { remotes: repo.remotes.remove(name), ..repo },
                ),
                RequestView::CreateSemanticCommit(stored) => self.with(
                    repo.commit(stored, reply->Commit_0->Ok_0),
                ),
                RequestView::RetrieveLocalBranches => self.having_told(request, reply),
                RequestView::ListRemotes => self.having_told(request, reply),
                RequestView::CalculateTransactionsHash(_) => self.having_told(request, reply),
                RequestView::CalculateCommitMerkleRoot(_) => self.having_told(request, reply),
                RequestView::GetValidatorSet(_) => self.having_told(request, reply),
                RequestView::GetTimestamp => self.having_told(request, reply),
                RequestView::CreateVerifier(header, state) => World {
                    trial: Some(Trial { header, state, applied: Seq::empty() }),
                    ..self
                },
                RequestView::ApplyCommit(commit) => {
                    let trial = self.trial->0;
                    World {
                        trial: Some(Trial { applied: trial.applied.push(commit), ..trial }),
                        ..self
                    }
                },
                _ => self,
            }
        }
    }

    /// The host once it told something.
    pub open spec fn having_told(self, request: RequestView, reply: Reply) -> World {
        World { told: self.told.insert(request, reply), ..self }
    }

    /// The host with another repository.
    pub open spec fn with(self, repo: Repo) -> World {
        World { repo, ..self }
    }
}

/// Whether every run of a plan on a truthful host ends as `post` says of its result and of the host
/// at the end. On a host without a fault the run also comes to its end.
///
/// What a host does with a branch that it receives is left open, and so is every run that hands it
/// one.
pub open spec fn always<O>(
    plan: Plan<O>,
    world: World,
    faultless: bool,
    post: spec_fn(Result<O, ErrorView>, World) -> bool,
) -> bool
    decreases plan,
{
    match plan {
        Plan::Done(result) => post(result, world),
        Plan::Ask(request, follow) => {
            &&& !(request is Receive)
            &&& forall|reply: Reply|
                world.truthful(request, reply, faultless) ==> always(
                    #[trigger] follow(reply),
                    world.after(request, reply),
                    faultless,
                    post,
                )
        },
        Plan::Stuck => !faultless,
    }
}

/// Whether every run of a plan on a truthful host that ends well ends as `post` says of its output
/// and of the host at the end.
pub open spec fn after_ok<O>(plan: Plan<O>, world: World, post: spec_fn(O, World) -> bool) -> bool {
    always(
        plan,
        world,
        false,
        |result: Result<O, ErrorView>, then: World|
            result matches Ok(output) ==> post(output, then),
    )
}

/// Whether every run of a plan on a truthful host without a fault ends well, and as `post` says.
pub open spec fn surely<O>(plan: Plan<O>, world: World, post: spec_fn(O, World) -> bool) -> bool {
    always(
        plan,
        world,
        true,
        |result: Result<O, ErrorView>, then: World| result matches Ok(output) && post(output, then),
    )
}

/// That an output is the given one, and that nothing has changed.
pub open spec fn gives<O>(output: O, world: World) -> spec_fn(O, World) -> bool {
    |found: O, end: World| found == output && end == world
}

/// What always holds at a good end implies what follows from it.
pub proof fn lemma_after_ok<O>(
    plan: Plan<O>,
    world: World,
    known: spec_fn(Result<O, ErrorView>, World) -> bool,
    post: spec_fn(O, World) -> bool,
)
    requires
        always(plan, world, false, known),
        forall|output: O, then: World| #[trigger]
            known(Ok(output), then) ==> post(output, then),
    ensures
        after_ok(plan, world, post),
{
    let other = |result: Result<O, ErrorView>, then: World|
        result matches Ok(output) ==> post(output, then);
    assert forall|result: Result<O, ErrorView>, then: World| #[trigger]
        known(result, then) implies other(result, then) by {
        if let Ok(output) = result {
            assert(known(Ok(output), then));
        }
    }
    lemma_always(plan, world, false, known, other);
}

/// What always holds at the end of a host without a fault, and there is no failure.
pub proof fn lemma_surely<O>(
    plan: Plan<O>,
    world: World,
    known: spec_fn(Result<O, ErrorView>, World) -> bool,
    post: spec_fn(O, World) -> bool,
)
    requires
        always(plan, world, true, known),
        forall|error: ErrorView, then: World| !#[trigger] known(Err(error), then),
        forall|output: O, then: World| #[trigger]
            known(Ok(output), then) ==> post(output, then),
    ensures
        surely(plan, world, post),
{
    let other = |result: Result<O, ErrorView>, then: World|
        result matches Ok(output) && post(output, then);
    assert forall|result: Result<O, ErrorView>, then: World| #[trigger]
        known(result, then) implies other(result, then) by {
        match result {
            Ok(output) => {
                assert(known(Ok(output), then));
            },
            Err(error) => {
                assert(known(Err(error), then));
            },
        }
    }
    lemma_always(plan, world, true, known, other);
}

/// What always holds at the end implies what follows from it.
pub proof fn lemma_always<O>(
    plan: Plan<O>,
    world: World,
    faultless: bool,
    post: spec_fn(Result<O, ErrorView>, World) -> bool,
    other: spec_fn(Result<O, ErrorView>, World) -> bool,
)
    requires
        always(plan, world, faultless, post),
        forall|result: Result<O, ErrorView>, then: World| #[trigger]
            post(result, then) ==> other(result, then),
    ensures
        always(plan, world, faultless, other),
    decreases plan,
{
    if let Plan::Ask(request, follow) = plan {
        assert forall|reply: Reply| world.truthful(request, reply, faultless) implies always(
            #[trigger] follow(reply),
            world.after(request, reply),
            faultless,
            other,
        ) by {
            lemma_always(follow(reply), world.after(request, reply), faultless, post, other);
        }
    }
}

/// Two plans in a row: the second runs on the host as the first leaves it.
pub proof fn lemma_bind_always<A, B>(
    first: Plan<A>,
    second: spec_fn(A) -> Plan<B>,
    world: World,
    faultless: bool,
    middle: spec_fn(Result<A, ErrorView>, World) -> bool,
    post: spec_fn(Result<B, ErrorView>, World) -> bool,
)
    requires
        always(first, world, faultless, middle),
        forall|output: A, then: World|
            #![trigger middle(Ok(output), then)]
            middle(Ok(output), then) ==> always(second(output), then, faultless, post),
        forall|error: ErrorView, then: World| #[trigger]
            middle(Err(error), then) ==> post(Err(error), then),
    ensures
        always(bind(first, second), world, faultless, post),
    decreases first,
{
    match first {
        Plan::Done(Ok(output)) => {
            assert(middle(Ok(output), world));
        },
        Plan::Done(Err(error)) => {
            assert(middle(Err(error), world));
        },
        Plan::Ask(request, follow) => {
            let both = bind(first, second);
            let next = both->Ask_1;
            assert forall|reply: Reply| world.truthful(request, reply, faultless) implies always(
                #[trigger] next(reply),
                world.after(request, reply),
                faultless,
                post,
            ) by {
                assert(next(reply) == bind(follow(reply), second));
                lemma_bind_always(
                    follow(reply),
                    second,
                    world.after(request, reply),
                    faultless,
                    middle,
                    post,
                );
            }
        },
        Plan::Stuck => {},
    }
}

pub broadcast proof fn lemma_ask_nothing<O>(
    request: RequestView,
    blame: Blame,
    then: Plan<O>,
    world: World,
    faultless: bool,
    post: spec_fn(Result<O, ErrorView>, World) -> bool,
)
    requires
        !(request is Receive),
        forall|reply: Reply| #[trigger]
            answers(request, reply) ==> (reply is Nothing),
        world.tells(request, Reply::Nothing(Ok(()))) ==> always(
            then,
            world.after(request, Reply::Nothing(Ok(()))),
            faultless,
            post,
        ),
        !faultless || world.refuses(request) ==> forall|error: HostError|
            #[trigger] post(Err(blame.on(error)), world),
    ensures
        #[trigger] always(ask_nothing(request, blame, then), world, faultless, post),
{
    reveal_with_fuel(always, 2);
    let plan = ask_nothing(request, blame, then);
    let follow = plan->Ask_1;
    assert forall|reply: Reply| world.truthful(request, reply, faultless) implies always(
        #[trigger] follow(reply),
        world.after(request, reply),
        faultless,
        post,
    ) by {
        if let Reply::Nothing(Ok(unit)) = reply {
            assert(unit == ());
        }
    }
}

pub broadcast proof fn lemma_ask_anyway<O>(
    request: RequestView,
    then: Plan<O>,
    world: World,
    faultless: bool,
    post: spec_fn(Result<O, ErrorView>, World) -> bool,
)
    requires
        !(request is Receive),
        forall|reply: Reply| #[trigger]
            answers(request, reply) ==> (reply is Nothing),
        world.tells(request, Reply::Nothing(Ok(()))) ==> always(
            then,
            world.after(request, Reply::Nothing(Ok(()))),
            faultless,
            post,
        ),
        !faultless || world.refuses(request) ==> always(then, world, faultless, post),
    ensures
        #[trigger] always(ask_anyway(request, then), world, faultless, post),
{
    reveal_with_fuel(always, 2);
    let plan = ask_anyway(request, then);
    let follow = plan->Ask_1;
    assert forall|reply: Reply| world.truthful(request, reply, faultless) implies always(
        #[trigger] follow(reply),
        world.after(request, reply),
        faultless,
        post,
    ) by {
        if let Reply::Nothing(Ok(unit)) = reply {
            assert(unit == ());
        }
    }
}

pub broadcast proof fn lemma_ask_commit<O>(
    request: RequestView,
    blame: Blame,
    follow: spec_fn(CommitHash) -> Plan<O>,
    world: World,
    faultless: bool,
    post: spec_fn(Result<O, ErrorView>, World) -> bool,
)
    requires
        !(request is Receive),
        forall|reply: Reply| #[trigger]
            answers(request, reply) ==> (reply is Commit),
        forall|value: CommitHash|
            world.tells(request, Reply::Commit(Ok(value))) ==> always(
                #[trigger] follow(value),
                world.after(request, Reply::Commit(Ok(value))),
                faultless,
                post,
            ),
        !faultless || world.refuses(request) ==> forall|error: HostError|
            #[trigger] post(Err(blame.on(error)), world),
    ensures
        #[trigger] always(ask_commit(request, blame, follow), world, faultless, post),
{
    reveal_with_fuel(always, 2);
}

pub broadcast proof fn lemma_ask_names<O>(
    request: RequestView,
    follow: spec_fn(Seq<String>) -> Plan<O>,
    world: World,
    faultless: bool,
    post: spec_fn(Result<O, ErrorView>, World) -> bool,
)
    requires
        !(request is Receive),
        forall|reply: Reply| #[trigger]
            answers(request, reply) ==> (reply is Names),
        forall|value: Vec<String>|
            world.tells(request, Reply::Names(Ok(value))) ==> always(
                #[trigger] follow(value@),
                world.after(request, Reply::Names(Ok(value))),
                faultless,
                post,
            ),
        !faultless || world.refuses(request) ==> forall|error: HostError|
            #[trigger] post(Err(Blame::Pass.on(error)), world),
    ensures
        #[trigger] always(ask_names(request, follow), world, faultless, post),
{
    reveal_with_fuel(always, 2);
}

pub broadcast proof fn lemma_ask_branches<O>(
    request: RequestView,
    follow: spec_fn(Seq<(String, CommitHash)>) -> Plan<O>,
    world: World,
    faultless: bool,
    post: spec_fn(Result<O, ErrorView>, World) -> bool,
)
    requires
        !(request is Receive),
        forall|reply: Reply| #[trigger]
            answers(request, reply) ==> (reply is Branches),
        forall|value: Vec<(String, CommitHash)>|
            world.tells(request, Reply::Branches(Ok(value))) ==> always(
                #[trigger] follow(value@),
                world.after(request, Reply::Branches(Ok(value))),
                faultless,
                post,
            ),
        !faultless || world.refuses(request) ==> forall|error: HostError|
            #[trigger] post(Err(Blame::Pass.on(error)), world),
    ensures
        #[trigger] always(ask_branches(request, follow), world, faultless, post),
{
    reveal_with_fuel(always, 2);
}

pub broadcast proof fn lemma_ask_commits<O>(
    request: RequestView,
    follow: spec_fn(Seq<(Commit, CommitHash)>) -> Plan<O>,
    world: World,
    faultless: bool,
    post: spec_fn(Result<O, ErrorView>, World) -> bool,
)
    requires
        !(request is Receive),
        forall|reply: Reply| #[trigger]
            answers(request, reply) ==> (reply is Commits),
        forall|value: Vec<(Commit, CommitHash)>|
            world.tells(request, Reply::Commits(Ok(value))) ==> always(
                #[trigger] follow(value@),
                world.after(request, Reply::Commits(Ok(value))),
                faultless,
                post,
            ),
        !faultless || world.refuses(request) ==> forall|error: HostError|
            #[trigger] post(Err(Blame::Pass.on(error)), world),
    ensures
        #[trigger] always(ask_commits(request, follow), world, faultless, post),
{
    reveal_with_fuel(always, 2);
}

pub broadcast proof fn lemma_ask_stored<O>(
    request: RequestView,
    follow: spec_fn(SemanticCommit) -> Plan<O>,
    world: World,
    faultless: bool,
    post: spec_fn(Result<O, ErrorView>, World) -> bool,
)
    requires
        !(request is Receive),
        forall|reply: Reply| #[trigger]
            answers(request, reply) ==> (reply is SemanticCommit),
        forall|value: SemanticCommit|
            world.tells(request, Reply::SemanticCommit(Ok(value))) ==> always(
                #[trigger] follow(value),
                world.after(request, Reply::SemanticCommit(Ok(value))),
                faultless,
                post,
            ),
        !faultless || world.refuses(request) ==> forall|error: HostError|
            #[trigger] post(Err(Blame::Pass.on(error)), world),
    ensures
        #[trigger] always(ask_stored(request, follow), world, faultless, post),
{
    reveal_with_fuel(always, 2);
}

pub broadcast proof fn lemma_ask_stored_proof<O>(
    request: RequestView,
    follow: spec_fn(SemanticCommit) -> Plan<O>,
    world: World,
    faultless: bool,
    post: spec_fn(Result<O, ErrorView>, World) -> bool,
)
    requires
        !(request is Receive),
        forall|reply: Reply| #[trigger]
            answers(request, reply) ==> (reply matches Reply::SemanticCommit(Ok(_))),
        forall|value: SemanticCommit|
            world.tells(request, Reply::SemanticCommit(Ok(value))) ==> always(
                #[trigger] follow(value),
                world.after(request, Reply::SemanticCommit(Ok(value))),
                faultless,
                post,
            ),
    ensures
        #[trigger] always(ask_stored_proof(request, follow), world, faultless, post),
{
    reveal_with_fuel(always, 2);
}

pub broadcast proof fn lemma_ask_decoded<O>(
    request: RequestView,
    follow: spec_fn(Commit) -> Plan<O>,
    world: World,
    faultless: bool,
    post: spec_fn(Result<O, ErrorView>, World) -> bool,
)
    requires
        !(request is Receive),
        forall|reply: Reply| #[trigger]
            answers(request, reply) ==> (reply is Decoded),
        forall|value: Commit|
            world.tells(request, Reply::Decoded(Ok(value))) ==> always(
                #[trigger] follow(value),
                world.after(request, Reply::Decoded(Ok(value))),
                faultless,
                post,
            ),
        !faultless || world.refuses(request) ==> forall|error: HostError|
            #[trigger] post(Err(Blame::Pass.on(error)), world),
    ensures
        #[trigger] always(ask_decoded(request, follow), world, faultless, post),
{
    reveal_with_fuel(always, 2);
}

pub broadcast proof fn lemma_ask_decoded_proof<O>(
    request: RequestView,
    follow: spec_fn(LastFinalizationProof) -> Plan<O>,
    world: World,
    faultless: bool,
    post: spec_fn(Result<O, ErrorView>, World) -> bool,
)
    requires
        !(request is Receive),
        forall|reply: Reply| #[trigger]
            answers(request, reply) ==> (reply matches Reply::DecodedProof(Ok(_))),
        forall|value: LastFinalizationProof|
            world.tells(request, Reply::DecodedProof(Ok(value))) ==> always(
                #[trigger] follow(value),
                world.after(request, Reply::DecodedProof(Ok(value))),
                faultless,
                post,
            ),
    ensures
        #[trigger] always(ask_decoded_proof(request, follow), world, faultless, post),
{
    reveal_with_fuel(always, 2);
}

pub broadcast proof fn lemma_ask_reserved_state<O>(
    follow: spec_fn(ReservedState) -> Plan<O>,
    world: World,
    faultless: bool,
    post: spec_fn(Result<O, ErrorView>, World) -> bool,
)
    requires
        forall|value: ReservedState|
            world.tells(RequestView::ReadReservedState, Reply::ReservedState(Ok(value))) ==> always(
                #[trigger] follow(value),
                world.after(RequestView::ReadReservedState, Reply::ReservedState(Ok(value))),
                faultless,
                post,
            ),
        !faultless || world.refuses(RequestView::ReadReservedState) ==> forall|error: HostError|
            #[trigger] post(Err(Blame::Pass.on(error)), world),
    ensures
        #[trigger] always(ask_reserved_state(follow), world, faultless, post),
{
    reveal_with_fuel(always, 2);
}

pub broadcast proof fn lemma_ask_validator_set<O>(
    state: ReservedState,
    follow: spec_fn(ValidatorSet) -> Plan<O>,
    world: World,
    faultless: bool,
    post: spec_fn(Result<O, ErrorView>, World) -> bool,
)
    requires
        forall|value: ValidatorSet|
            world.tells(RequestView::GetValidatorSet(state), Reply::ValidatorSet(Ok(value))) ==> always(
                #[trigger] follow(value),
                world.after(RequestView::GetValidatorSet(state), Reply::ValidatorSet(Ok(value))),
                faultless,
                post,
            ),
    ensures
        #[trigger] always(ask_validator_set(state, follow), world, faultless, post),
{
    reveal_with_fuel(always, 2);
}

pub broadcast proof fn lemma_ask_hash<O>(
    request: RequestView,
    follow: spec_fn(Hash256) -> Plan<O>,
    world: World,
    faultless: bool,
    post: spec_fn(Result<O, ErrorView>, World) -> bool,
)
    requires
        !(request is Receive),
        forall|reply: Reply| #[trigger]
            answers(request, reply) ==> (reply is Hash),
        forall|value: Hash256|
            world.tells(request, Reply::Hash(value)) ==> always(
                #[trigger] follow(value),
                world.after(request, Reply::Hash(value)),
                faultless,
                post,
            ),
    ensures
        #[trigger] always(ask_hash(request, follow), world, faultless, post),
{
    reveal_with_fuel(always, 2);
}

pub broadcast proof fn lemma_ask_timestamp<O>(
    follow: spec_fn(Timestamp) -> Plan<O>,
    world: World,
    faultless: bool,
    post: spec_fn(Result<O, ErrorView>, World) -> bool,
)
    requires
        forall|value: Timestamp|
            world.tells(RequestView::GetTimestamp, Reply::Timestamp(value)) ==> always(
                #[trigger] follow(value),
                world.after(RequestView::GetTimestamp, Reply::Timestamp(value)),
                faultless,
                post,
            ),
    ensures
        #[trigger] always(ask_timestamp(follow), world, faultless, post),
{
    reveal_with_fuel(always, 2);
}

pub broadcast group group_runs {
    lemma_ask_nothing,
    lemma_ask_anyway,
    lemma_ask_commit,
    lemma_ask_names,
    lemma_ask_branches,
    lemma_ask_commits,
    lemma_ask_stored,
    lemma_ask_stored_proof,
    lemma_ask_decoded,
    lemma_ask_decoded_proof,
    lemma_ask_reserved_state,
    lemma_ask_validator_set,
    lemma_ask_hash,
    lemma_ask_timestamp,
    lemma_ask_remotes,
}

pub broadcast proof fn lemma_ask_remotes<O>(
    follow: spec_fn(Seq<(String, String)>) -> Plan<O>,
    world: World,
    faultless: bool,
    post: spec_fn(Result<O, ErrorView>, World) -> bool,
)
    requires
        forall|value: Vec<(String, String)>|
            world.tells(RequestView::ListRemotes, Reply::Remotes(Ok(value))) ==> always(
                #[trigger] follow(value@),
                world.after(RequestView::ListRemotes, Reply::Remotes(Ok(value))),
                faultless,
                post,
            ),
        !faultless ==> forall|error: HostError| #[trigger]
            post(Err(Blame::Pass.on(error)), world),
    ensures
        #[trigger] always(ask_remotes(follow), world, faultless, post),
{
    reveal_with_fuel(always, 2);
}

/// The last common ancestor of a commit and a descendant of it is that commit, and no other.
pub proof fn lemma_merge_base(repo: Repo, a: CommitHash, b: CommitHash)
    requires
        repo.well_formed(),
    ensures
        repo.descends(a, b) <==> repo.merge_base(a, a, b),
        forall|base: CommitHash| #[trigger]
            repo.merge_base(base, a, b) && repo.descends(a, b) ==> base == a,
{
    assert(repo.paths[a].is_prefix_of(repo.paths[a]));
    assert forall|base: CommitHash| #[trigger]
        repo.merge_base(base, a, b) && repo.descends(a, b) implies base == a by {
        assert(repo.descends(a, a));
        assert(repo.paths[base] =~= repo.paths[a]);
    }
}

/// What a host says of the commits after one that another descends from: it reads them where each
/// holds something, and fails only where one does not.
pub proof fn lemma_reads(world: World, from: CommitHash, to: CommitHash)
    requires
        world.repo.well_formed(),
        world.repo.descends(from, to),
    ensures
        world.refuses(RequestView::ReadCommits(from, to)) <==> !world.chain.readable(
            world.repo.between(from, to),
        ),
        forall|commits: Vec<(Commit, CommitHash)>| #[trigger]
            world.tells(RequestView::ReadCommits(from, to), Reply::Commits(Ok(commits))) ==> {
                &&& world.chain.readable(world.repo.between(from, to))
                &&& commits@ == world.chain.held(world.repo.between(from, to))
            },
{
    lemma_merge_base(world.repo, from, to);
    assert(world.repo.merge_base(from, from, to));
    assert forall|commits: Vec<(Commit, CommitHash)>| #[trigger]
        world.tells(RequestView::ReadCommits(from, to), Reply::Commits(Ok(commits))) implies {
        &&& world.chain.readable(world.repo.between(from, to))
        &&& commits@ == world.chain.held(world.repo.between(from, to))
    } by {
        lemma_decodes(world.chain, world.repo.between(from, to), commits@);
    }
}

/// Commits that some stored forms hold are the ones that they hold.
pub proof fn lemma_decodes(chain: Chain, path: Path, commits: Seq<(Commit, CommitHash)>)
    ensures
        chain.decodes(path, commits) <==> chain.readable(path) && commits == chain.held(path),
{
    if chain.decodes(path, commits) {
        assert forall|i: int| 0 <= i < path.len() implies (chain.decode)(
            (#[trigger] path[i]).0,
        ) is Some by {
            assert(commits[i].1 == path[i].1);
        }
        assert(commits =~= chain.held(path));
    }
}

} // verus!
