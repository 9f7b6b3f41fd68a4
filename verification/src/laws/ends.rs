//! How reading, marking and starting a repository end on a host that answers truthfully.
use vstd::prelude::*;

use crate::data::{BlockHeader, Commit, LastFinalizationProof, ReservedState, SemanticCommit};
use crate::error::ErrorView;
use crate::genesis::{genesis_checkout, genesis_finalized, genesis_fp, genesis_plan, genesis_work};
use crate::hash::{veto_tag, vote_tag, CommitHash};
use crate::host::{Reply, RequestView};
use crate::laws::calls::{
    lemma_commit_on, lemma_committed, lemma_permanent_names, lemma_read_commit, lemma_record,
};
use crate::laws::world::{always, group_runs, lemma_bind_always, Path, Repo, World};
use crate::mark::{mark_hash, mark_plan, MarkKind};
use crate::plan::fail;
use crate::query::{last_header_plan, read_commit_plan, reserved_state_plan};
use crate::steps::checkout_fp;
use crate::{FINALIZED_BRANCH_NAME, FP_BRANCH_NAME, WORK_BRANCH_NAME};

verus! {

/// How reading a commit ends: well only with what the commit holds, and on a host without a fault
/// wherever it holds something. Nothing changes.
pub open spec fn read_ends(world: World, commit: CommitHash, faultless: bool) -> spec_fn(
    Result<Commit, ErrorView>,
    World,
) -> bool {
    |result: Result<Commit, ErrorView>, end: World|
        {
            &&& end == world
            &&& match result {
                Ok(content) => world.content(commit) == Some(content),
                Err(_) => faultless ==> world.content(commit) is None,
            }
        }
}

/// Reading a commit ends as told.
pub proof fn law_read_commit_ends(world: World, commit: CommitHash, faultless: bool)
    ensures
        always(read_commit_plan(commit), world, faultless, read_ends(world, commit, faultless)),
{
    lemma_read_commit(world, commit, faultless, read_ends(world, commit, faultless));
}

/// How getting the last header ends: well only with the header of the block that `finalized` is at,
/// and on a host without a fault wherever it is at one. Where it is at another commit, it is told
/// so. Nothing changes.
pub open spec fn header_ends(world: World, faultless: bool) -> spec_fn(
    Result<BlockHeader, ErrorView>,
    World,
) -> bool {
    |result: Result<BlockHeader, ErrorView>, end: World|
        {
            &&& end == world
            &&& match result {
                Ok(header) => {
                    &&& world.repo.tip(FINALIZED_BRANCH_NAME@) matches Some(commit)
                    &&& world.content(commit) == Some(Commit::Block(header))
                },
                Err(error) => {
                    &&& faultless ==> world.last_header() is None
                    &&& faultless && on_other(world) ==> error == ErrorView::Integrity(
                        "`finalized` branch is not on a block"@,
                    )
                },
            }
        }
}

/// Whether `finalized` is at a commit that is no block.
pub open spec fn on_other(world: World) -> bool {
    &&& world.repo.tip(FINALIZED_BRANCH_NAME@) matches Some(commit)
    &&& world.content(commit) matches Some(content)
    &&& !(content is Block)
}

/// Getting the last header ends as told.
pub proof fn law_last_header_ends(world: World, faultless: bool)
    requires
        world.repo.well_formed(),
    ensures
        always(last_header_plan(), world, faultless, header_ends(world, faultless)),
{
    broadcast use group_runs;

}

/// How getting the reserved state ends: well only with the state of the host, and on a host without
/// a fault always. Nothing changes.
pub open spec fn state_ends(world: World, faultless: bool) -> spec_fn(
    Result<ReservedState, ErrorView>,
    World,
) -> bool {
    |result: Result<ReservedState, ErrorView>, end: World|
        {
            &&& end == world
            &&& match result {
                Ok(state) => state == world.state(),
                Err(_) => !faultless,
            }
        }
}

/// Getting the reserved state ends as told.
pub proof fn law_reserved_state_ends(world: World, faultless: bool)
    ensures
        always(reserved_state_plan(), world, faultless, state_ends(world, faultless)),
{
    broadcast use group_runs;

}

/// Whether a commit can be marked: agendas with a vote, blocks with a veto.
pub open spec fn markable(kind: MarkKind, content: Commit) -> bool {
    match kind {
        MarkKind::Vote => content matches Commit::Agenda(_),
        MarkKind::Veto => content matches Commit::Block(_),
    }
}

/// The tag of a mark.
pub open spec fn mark_name(world: World, kind: MarkKind, content: Commit) -> Seq<char> {
    match kind {
        MarkKind::Vote => vote_tag((world.chain.hash_commit)(content)),
        MarkKind::Veto => veto_tag((world.chain.hash_commit)(content)),
    }
}

/// What is said of a commit that cannot be marked.
pub open spec fn unmarkable(kind: MarkKind, commit: CommitHash) -> ErrorView {
    match kind {
        MarkKind::Vote => ErrorView::Message(
            "commit "@ + commit.text() + " is not an agenda commit"@,
        ),
        MarkKind::Veto => ErrorView::Message("commit "@ + commit.text() + " is not a block commit"@),
    }
}

/// How marking a commit ends: well only with the tag on the commit and nothing else changed, and on
/// a host without a fault wherever the commit can be marked and the tag is new. A failure changes
/// nothing.
pub open spec fn mark_ends(
    world: World,
    kind: MarkKind,
    commit: CommitHash,
    faultless: bool,
) -> spec_fn(Result<(), ErrorView>, World) -> bool {
    |result: Result<(), ErrorView>, end: World|
        match result {
            Ok(_) => {
                &&& world.content(commit) matches Some(content)
                &&& markable(kind, content)
                &&& !world.repo.tags.contains_key(mark_name(world, kind, content))
                &&& end == world.with(
                    Repo {
                        tags: world.repo.tags.insert(mark_name(world, kind, content), commit),
                        ..world.repo
                    },
                )
            },
            Err(error) => {
                &&& end == world
                &&& faultless && world.content(commit) is Some ==> {
                    let content = world.content(commit)->0;
                    if markable(kind, content) {
                        world.repo.tags.contains_key(mark_name(world, kind, content))
                    } else {
                        error == unmarkable(kind, commit)
                    }
                }
            },
        }
}

/// Marking a commit ends as told.
pub proof fn law_mark_ends(world: World, kind: MarkKind, commit: CommitHash, faultless: bool)
    requires
        world.repo.well_formed(),
    ensures
        always(
            mark_plan(kind, commit),
            world,
            faultless,
            mark_ends(world, kind, commit, faultless),
        ),
{
    broadcast use group_runs;

    let post = mark_ends(world, kind, commit, faultless);
    let middle = read_ends(world, commit, faultless);
    let second = |content: Commit|
        if kind.fits(content) {
            mark_hash(kind, commit, content)
        } else {
            fail(kind.misfit(commit))
        };
    law_read_commit_ends(world, commit, faultless);
    assert forall|content: Commit, then: World|
        #![trigger middle(Ok(content), then)]
        middle(Ok(content), then) implies always(second(content), then, faultless, post) by {
        if kind.fits(content) {
            assert(always(mark_hash(kind, commit, content), world, faultless, post));
        }
    }
    lemma_bind_always(read_commit_plan(commit), second, world, faultless, middle, post);
}

/// The stored form of the genesis block.
pub open spec fn genesis_stored(world: World) -> SemanticCommit {
    (world.chain.encode)(Commit::Block(world.state().genesis_info.header), world.state())
}

/// The stored form of the genesis proof, which is of the height zero.
pub open spec fn genesis_proof_stored(world: World) -> SemanticCommit {
    (world.chain.encode_proof)(
        LastFinalizationProof { height: 0, proof: world.state().genesis_info.genesis_proof },
    )
}

/// The commit that a genesis goes on top of: that of `finalized` where it is there, else the head.
pub open spec fn genesis_base(world: World) -> CommitHash {
    if world.repo.branches.contains_key(FINALIZED_BRANCH_NAME@) {
        world.repo.branches[FINALIZED_BRANCH_NAME@]
    } else {
        world.repo.head_commit()->0
    }
}

/// The commits once the genesis block is one of them.
pub open spec fn genesis_paths(world: World, commit: CommitHash) -> Map<CommitHash, Path> {
    world.repo.paths.insert(
        commit,
        world.repo.paths[genesis_base(world)].push((genesis_stored(world), commit)),
    )
}

/// How a host looks after a genesis: `finalized` is at the genesis block, and `work`, where it was
/// not there, too. The genesis proof is on `fp`, which starts from the block where it was not
/// there. All other branches, the tags and the remotes are as they were. A host that fails may have
/// made no `work` branch.
pub open spec fn genesis_at(
    before: World,
    then: World,
    commit: CommitHash,
    fp: CommitHash,
    faultless: bool,
) -> bool {
    let paths = genesis_paths(before, commit);
    let from = if before.repo.branches.contains_key(FP_BRANCH_NAME@) {
        before.repo.branches[FP_BRANCH_NAME@]
    } else {
        commit
    };
    &&& !before.repo.paths.contains_key(commit)
    &&& !paths.contains_key(fp)
    &&& then.chain == before.chain
    &&& then.repo.tags == before.repo.tags
    &&& then.repo.remotes == before.repo.remotes
    &&& then.repo.paths == paths.insert(fp, paths[from].push((genesis_proof_stored(before), fp)))
    &&& then.repo.tip(FINALIZED_BRANCH_NAME@) == Some(commit)
    &&& then.repo.tip(FP_BRANCH_NAME@) == Some(fp)
    &&& if before.repo.branches.contains_key(WORK_BRANCH_NAME@) {
        then.repo.tip(WORK_BRANCH_NAME@) == before.repo.tip(WORK_BRANCH_NAME@)
    } else {
        ||| then.repo.tip(WORK_BRANCH_NAME@) == Some(commit)
        ||| !faultless && then.repo.tip(WORK_BRANCH_NAME@) is None
    }
    &&& forall|name: Seq<char>|
        name != FINALIZED_BRANCH_NAME@ && name != WORK_BRANCH_NAME@ && name != FP_BRANCH_NAME@
            ==> #[trigger] then.repo.tip(name) == before.repo.tip(name)
}

/// How a genesis ends: well only with the genesis block and its proof in place, and on a host
/// without a fault wherever there is a head.
pub open spec fn genesis_ends(before: World, faultless: bool) -> spec_fn(
    Result<(), ErrorView>,
    World,
) -> bool {
    |result: Result<(), ErrorView>, then: World|
        match result {
            Ok(_) => genesis_done(before, then, faultless),
            Err(_) => faultless ==> before.repo.head_commit() is None && then.repo == before.repo,
        }
}

/// Whether a host looks so for some commits.
pub open spec fn genesis_done(before: World, then: World, faultless: bool) -> bool {
    exists|commit: CommitHash, fp: CommitHash| #[trigger]
        genesis_at(before, then, commit, fp, faultless)
}

/// How far a genesis has come once its block is on `finalized`.
spec fn genesis_half(
    before: World,
    now: World,
    commit: CommitHash,
    work: bool,
    fp: bool,
    faultless: bool,
) -> bool {
    &&& !before.repo.paths.contains_key(commit)
    &&& now.chain == before.chain
    &&& now.repo.well_formed()
    &&& now.repo.tags == before.repo.tags
    &&& now.repo.remotes == before.repo.remotes
    &&& now.repo.paths == genesis_paths(before, commit)
    &&& now.repo.tip(FINALIZED_BRANCH_NAME@) == Some(commit)
    &&& now.repo.tip(FP_BRANCH_NAME@) == before.repo.tip(FP_BRANCH_NAME@) || (fp
        && before.repo.tip(FP_BRANCH_NAME@) is None && now.repo.tip(FP_BRANCH_NAME@) == Some(
        commit,
    ))
    &&& fp && faultless ==> now.repo.tip(FP_BRANCH_NAME@) is Some
    &&& now.repo.tip(WORK_BRANCH_NAME@) == before.repo.tip(WORK_BRANCH_NAME@) || (work
        && before.repo.tip(WORK_BRANCH_NAME@) is None && now.repo.tip(WORK_BRANCH_NAME@) == Some(
        commit,
    ))
    &&& work && faultless ==> now.repo.tip(WORK_BRANCH_NAME@) is Some
    &&& forall|name: Seq<char>|
        name != FINALIZED_BRANCH_NAME@ && name != WORK_BRANCH_NAME@ && name != FP_BRANCH_NAME@
            ==> #[trigger] now.repo.tip(name) == before.repo.tip(name)
}

proof fn lemma_genesis_record(before: World, now: World, commit: CommitHash, faultless: bool)
    requires
        genesis_half(before, now, commit, true, true, faultless),
    ensures
        always(
            checkout_fp(
                (LastFinalizationProof {
                    height: 0,
                    proof: before.state().genesis_info.genesis_proof,
                }),
            ),
            now,
            faultless,
            genesis_ends(before, faultless),
        ),
{
    let proof = LastFinalizationProof {
        height: 0,
        proof: before.state().genesis_info.genesis_proof,
    };
    let stored = genesis_proof_stored(before);
    let post = genesis_ends(before, faultless);
    lemma_permanent_names();
    assert forall|fp: CommitHash|
        now.repo.branches.contains_key(FP_BRANCH_NAME@) && !now.repo.paths.contains_key(
            fp,
        ) implies #[trigger] post(
        Ok(()),
        now.committed(FP_BRANCH_NAME@, (now.chain.encode_proof)(proof), fp),
    ) by {
        let then = now.committed(FP_BRANCH_NAME@, stored, fp);
        assert forall|name: Seq<char>|
            name != FINALIZED_BRANCH_NAME@ && name != WORK_BRANCH_NAME@ && name
                != FP_BRANCH_NAME@ implies #[trigger] then.repo.tip(name) == before.repo.tip(
            name,
        ) by {
            assert(now.repo.tip(name) == before.repo.tip(name));
        }
        assert(genesis_at(before, then, commit, fp, faultless));
    }
    lemma_record(now, proof, faultless, post);
}

proof fn lemma_genesis_fp(before: World, now: World, commit: CommitHash, faultless: bool)
    requires
        genesis_half(before, now, commit, true, false, faultless),
    ensures
        always(
            genesis_fp(before.state().genesis_info.genesis_proof, commit),
            now,
            faultless,
            genesis_ends(before, faultless),
        ),
{
    broadcast use group_runs;

    lemma_permanent_names();
    let made = now.after(
        RequestView::CreateBranch(FP_BRANCH_NAME@, commit),
        Reply::Nothing(Ok(())),
    );
    if now.repo.branches.contains_key(FP_BRANCH_NAME@) {
        assert(genesis_half(before, now, commit, true, true, faultless));
        lemma_genesis_record(before, now, commit, faultless);
    } else {
        assert forall|name: Seq<char>|
            name != FINALIZED_BRANCH_NAME@ && name != WORK_BRANCH_NAME@ && name
                != FP_BRANCH_NAME@ implies #[trigger] made.repo.tip(name) == before.repo.tip(
            name,
        ) by {
            assert(now.repo.tip(name) == before.repo.tip(name));
        }
        assert(genesis_half(before, made, commit, true, true, faultless));
        lemma_genesis_record(before, made, commit, faultless);
        if !faultless {
            assert(genesis_half(before, now, commit, true, true, faultless));
            lemma_genesis_record(before, now, commit, faultless);
        }
    }
}

proof fn lemma_genesis_work(before: World, now: World, commit: CommitHash, faultless: bool)
    requires
        genesis_half(before, now, commit, false, false, faultless),
    ensures
        always(
            genesis_work(before.state().genesis_info.genesis_proof, commit),
            now,
            faultless,
            genesis_ends(before, faultless),
        ),
{
    broadcast use group_runs;

    lemma_permanent_names();
    let made = now.after(
        RequestView::CreateBranch(WORK_BRANCH_NAME@, commit),
        Reply::Nothing(Ok(())),
    );
    if now.repo.branches.contains_key(WORK_BRANCH_NAME@) {
        assert(genesis_half(before, now, commit, true, false, faultless));
        lemma_genesis_fp(before, now, commit, faultless);
    } else {
        assert forall|name: Seq<char>|
            name != FINALIZED_BRANCH_NAME@ && name != WORK_BRANCH_NAME@ && name
                != FP_BRANCH_NAME@ implies #[trigger] made.repo.tip(name) == before.repo.tip(
            name,
        ) by {
            assert(now.repo.tip(name) == before.repo.tip(name));
        }
        assert(genesis_half(before, made, commit, true, false, faultless));
        lemma_genesis_fp(before, made, commit, faultless);
        if !faultless {
            assert(genesis_half(before, now, commit, true, false, faultless));
            lemma_genesis_fp(before, now, commit, faultless);
        }
    }
}

/// The genesis block, on `finalized`.
proof fn lemma_genesis_checkout(before: World, now: World, faultless: bool)
    requires
        before.repo.well_formed(),
        now.chain == before.chain,
        now.repo.well_formed(),
        now.repo.tags == before.repo.tags,
        now.repo.remotes == before.repo.remotes,
        now.repo.paths == before.repo.paths,
        now.repo.branches.contains_key(FINALIZED_BRANCH_NAME@),
        now.repo.branches == before.repo.branches.insert(
            FINALIZED_BRANCH_NAME@,
            genesis_base(before),
        ),
    ensures
        always(
            genesis_checkout(genesis_stored(before), before.state().genesis_info.genesis_proof),
            now,
            faultless,
            genesis_ends(before, faultless),
        ),
{
    broadcast use group_runs;

    let stored = genesis_stored(before);
    lemma_permanent_names();
    lemma_commit_on(now, FINALIZED_BRANCH_NAME@, stored);
    assert forall|commit: CommitHash| !now.repo.paths.contains_key(commit) implies always(
        genesis_work(before.state().genesis_info.genesis_proof, commit),
        #[trigger] now.committed(FINALIZED_BRANCH_NAME@, stored, commit),
        faultless,
        genesis_ends(before, faultless),
    ) by {
        let then = now.committed(FINALIZED_BRANCH_NAME@, stored, commit);
        lemma_committed(now, FINALIZED_BRANCH_NAME@, stored, commit);
        assert(genesis_half(before, then, commit, false, false, faultless));
        lemma_genesis_work(before, then, commit, faultless);
    }
}

/// A genesis ends as told.
pub proof fn law_genesis_ends(world: World, faultless: bool)
    requires
        world.repo.well_formed(),
    ensures
        always(genesis_plan(), world, faultless, genesis_ends(world, faultless)),
{
    broadcast use group_runs;

    let post = genesis_ends(world, faultless);
    let stored = genesis_stored(world);
    let proof = world.state().genesis_info.genesis_proof;
    assert forall|head: CommitHash|
        world.repo.head_commit() == Some(head) && world.repo.paths.contains_key(
            head,
        ) implies #[trigger] always(
        genesis_finalized(stored, proof, head),
        world,
        faultless,
        post,
    ) by {
        let made = world.after(
            RequestView::CreateBranch(FINALIZED_BRANCH_NAME@, head),
            Reply::Nothing(Ok(())),
        );
        if world.repo.branches.contains_key(FINALIZED_BRANCH_NAME@) {
            assert(world.repo.branches =~= world.repo.branches.insert(
                FINALIZED_BRANCH_NAME@,
                genesis_base(world),
            ));
            lemma_genesis_checkout(world, world, faultless);
        } else {
            lemma_genesis_checkout(world, made, faultless);
            if !faultless {
                assert(always(genesis_checkout(stored, proof), world, faultless, post));
            }
        }
    }
}

} // verus!
