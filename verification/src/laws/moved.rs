//! Moving `finalized` on a truthful host.
use vstd::prelude::*;

use crate::block::{create_block_plan, NewBlock};
use crate::data::{BlockHeader, Commit, FinalizationProof, LastFinalizationProof};
use crate::error::ErrorView;
use crate::hash::{block_branch, CommitHash, Hash256};
use crate::host::{Reply, RequestView};
use crate::laws::calls::{
    contents, lemma_apply, lemma_last_header, lemma_permanent_names, lemma_record,
};
use crate::laws::created::{
    block_post, block_there, fresh_trial, lemma_block, lemma_marked, work_commits,
};
use crate::laws::names::law_branch_names;
use crate::laws::world::{
    after_ok, always, group_runs, lemma_after_ok, lemma_bind_always, lemma_decodes,
    lemma_merge_base, lemma_reads, lemma_surely, surely, Path, Repo, World,
};
use crate::query::last_header_plan;
use crate::steps::apply_from;
use crate::sync::{
    sync_clean, sync_descends, sync_finalization, sync_header, sync_plan, sync_read, sync_state,
    sync_verify,
};
use crate::{FINALIZED_BRANCH_NAME, FP_BRANCH_NAME, WORK_BRANCH_NAME};

verus! {

/// The host with `finalized` and `fp` moved to a block, and the proof of the block on `fp`.
pub open spec fn moved(
    now: World,
    block: CommitHash,
    proof: LastFinalizationProof,
    fp: CommitHash,
) -> World {
    now.with(
        Repo {
            branches: now.repo.branches.insert(FINALIZED_BRANCH_NAME@, block).insert(
                FP_BRANCH_NAME@,
                block,
            ),
            ..now.repo
        },
    ).committed(FP_BRANCH_NAME@, (now.chain.encode_proof)(proof), fp)
}

/// Whether the branches that a sync moves are there.
pub open spec fn movable(world: World) -> bool {
    &&& world.repo.branches.contains_key(FINALIZED_BRANCH_NAME@)
    &&& world.repo.branches.contains_key(FP_BRANCH_NAME@)
}

/// The moves themselves.
proof fn lemma_moves(
    now: World,
    record: LastFinalizationProof,
    block: CommitHash,
    faultless: bool,
    post: spec_fn(Result<(), ErrorView>, World) -> bool,
)
    requires
        now.repo.well_formed(),
        now.repo.paths.contains_key(block),
        forall|fp: CommitHash|
            movable(now) && !now.repo.paths.contains_key(fp) ==> #[trigger] post(
                Ok(()),
                moved(now, block, record, fp),
            ),
        !faultless || !movable(now) ==> forall|error: ErrorView, then: World|
            #[trigger] post(Err(error), then),
    ensures
        always(sync_clean(record.proof, block, record.height), now, faultless, post),
{
    broadcast use group_runs;

    lemma_permanent_names();
    let there = now.with(
        Repo {
            branches: now.repo.branches.insert(FINALIZED_BRANCH_NAME@, block).insert(
                FP_BRANCH_NAME@,
                block,
            ),
            ..now.repo
        },
    );
    if movable(now) {
        assert forall|fp: CommitHash| !there.repo.paths.contains_key(fp) implies #[trigger] post(
            Ok(()),
            there.committed(FP_BRANCH_NAME@, (there.chain.encode_proof)(record), fp),
        ) by {
            assert(there.committed(FP_BRANCH_NAME@, (there.chain.encode_proof)(record), fp)
                == moved(now, block, record, fp));
        }
        lemma_record(there, record, faultless, post);
    }
}

/// The commits on the way from `finalized` to a block.
pub open spec fn way(world: World, block: CommitHash) -> Path {
    world.repo.between(world.repo.branches[FINALIZED_BRANCH_NAME@], block)
}

/// Whether the block of a hash is finalized already.
pub open spec fn needless(world: World, hash: Hash256) -> bool {
    &&& world.repo.tip(block_branch(hash)) is Some
    &&& world.repo.tip(block_branch(hash)) == world.repo.tip(FINALIZED_BRANCH_NAME@)
}

/// Whether a commit is that of a block of a hash, and descends from another one that `finalized`
/// is at.
pub open spec fn ahead(world: World, hash: Hash256, block: CommitHash, header: BlockHeader) -> bool {
    &&& world.repo.tip(block_branch(hash)) == Some(block)
    &&& world.repo.tip(FINALIZED_BRANCH_NAME@) matches Some(current)
    &&& current != block
    &&& world.repo.descends(current, block)
    &&& world.content(block) == Some(Commit::Block(header))
}

/// Whether a proof finalizes a block, as a verifier sees it that accepted the commits on the way to
/// the block.
pub open spec fn finalized_by(world: World, block: CommitHash, proof: FinalizationProof) -> bool {
    (world.chain.finalizes)(
        fresh_trial(world).more(contents(world.chain.held(way(world, block)))),
        proof,
    )
}

/// Whether a sync can be justified: the block is ahead, every commit on the way is valid, and the
/// proof finalizes the block.
pub open spec fn provable(world: World, hash: Hash256, proof: FinalizationProof) -> bool {
    let block = world.repo.branches[block_branch(hash)];
    let commits = contents(world.chain.held(way(world, block)));
    &&& exists|header: BlockHeader| #[trigger] ahead(world, hash, block, header)
    &&& world.chain.readable(way(world, block))
    &&& world.last_header() is Some
    &&& (world.chain.starts)(world.last_header()->0, world.state())
    &&& world.chain.all_valid(fresh_trial(world), commits)
    &&& finalized_by(world, block, proof)
}

/// Whether a sync has all it needs: it can be justified, and the branches that it moves are there.
pub open spec fn ready(world: World, hash: Hash256, proof: FinalizationProof) -> bool {
    movable(world) && provable(world, hash, proof)
}

/// Whether the block of a hash has left `finalized`: it is not on top of it, and the commits after
/// their last common ancestor can be read and, if there are any, end in a block.
pub open spec fn astray(world: World, hash: Hash256) -> bool {
    &&& world.repo.tip(block_branch(hash)) matches Some(block)
    &&& world.repo.tip(FINALIZED_BRANCH_NAME@) matches Some(current)
    &&& !world.repo.descends(current, block)
    &&& exists|base: CommitHash|
        {
            &&& #[trigger] world.repo.merge_base(base, current, block)
            &&& world.chain.readable(world.repo.between(base, block))
            &&& base == block || world.content(block) matches Some(Commit::Block(_))
        }
}

/// How a sync may fail: on a host without a fault only where there is something to do that cannot
/// be done. Where it cannot be justified, nothing has changed. Of a block that has left `finalized`
/// it is told so.
pub open spec fn sync_fails(
    world: World,
    hash: Hash256,
    proof: FinalizationProof,
    faultless: bool,
    error: ErrorView,
    then: World,
) -> bool {
    &&& faultless ==> !needless(world, hash) && !ready(world, hash, proof)
    &&& !provable(world, hash, proof) ==> then.repo == world.repo
    &&& faultless && astray(world, hash) ==> error == ErrorView::Message(
        "block commit is not a descendant of the current finalized branch"@,
    )
}

/// What is recorded of a block.
pub open spec fn record_of(header: BlockHeader, proof: FinalizationProof) -> LastFinalizationProof {
    LastFinalizationProof { height: header.height, proof }
}

/// What a sync is held to: how it ends where nothing is to be done, where the branches move, and
/// where it fails.
pub open spec fn sync_ends(
    world: World,
    hash: Hash256,
    proof: FinalizationProof,
    faultless: bool,
    post: spec_fn(Result<(), ErrorView>, World) -> bool,
) -> bool {
    &&& needless(world, hash) ==> post(Ok(()), world)
    &&& forall|block: CommitHash, header: BlockHeader, now: World, fp: CommitHash|
        #![trigger ahead(world, hash, block, header), moved(
            now,
            block,
            record_of(header, proof),
            fp,
        )]
        {
            &&& ready(world, hash, proof)
            &&& ahead(world, hash, block, header)
            &&& now == world.on_trial(now.trial->0)
            &&& !world.repo.paths.contains_key(fp)
        } ==> post(Ok(()), moved(now, block, record_of(header, proof), fp))
    &&& forall|error: ErrorView, then: World|
        sync_fails(world, hash, proof, faultless, error, then) ==> #[trigger] post(
            Err(error),
            then,
        )
}

/// A sync once the commits on the way are read.
proof fn lemma_sync_header(
    world: World,
    hash: Hash256,
    proof: FinalizationProof,
    block: CommitHash,
    header: BlockHeader,
    faultless: bool,
    post: spec_fn(Result<(), ErrorView>, World) -> bool,
)
    requires
        world.repo.well_formed(),
        sync_ends(world, hash, proof, faultless, post),
        ahead(world, hash, block, header),
        world.chain.readable(way(world, block)),
    ensures
        always(
            sync_header(
                last_header_plan(),
                proof,
                block,
                world.chain.held(way(world, block)),
                header.height,
            ),
            world,
            faultless,
            post,
        ),
{
    broadcast use group_runs;

    let commits = world.chain.held(way(world, block));
    let height = header.height;
    let record = record_of(header, proof);
    let trial = fresh_trial(world);
    let done = trial.more(contents(commits));
    let second = |header: BlockHeader| sync_state(proof, block, commits, height, header);
    let third = |_commits: Seq<(Commit, CommitHash)>| sync_finalization(proof, block, height);
    let verified = |result: Result<Seq<(Commit, CommitHash)>, ErrorView>, then: World|
        match result {
            Ok(_) => {
                &&& world.last_header() is Some
                &&& (world.chain.starts)(world.last_header()->0, world.state())
                &&& world.chain.all_valid(trial, contents(commits))
                &&& then == world.on_trial(done)
            },
            Err(_) => {
                &&& then.repo == world.repo
                &&& !faultless || !provable(world, hash, proof)
            },
        };
    let middle = |result: Result<BlockHeader, ErrorView>, then: World|
        match result {
            Ok(found) => world.last_header() == Some(found) && then == world,
            Err(_) => {
                &&& then.repo == world.repo
                &&& !faultless || !provable(world, hash, proof)
            },
        };
    assert(!needless(world, hash) && !astray(world, hash));
    // The end, once every commit is verified.
    assert forall|verdict: Seq<(Commit, CommitHash)>, then: World|
        #![trigger verified(Ok(verdict), then)]
        verified(Ok(verdict), then) implies always(third(verdict), then, faultless, post) by {
        if (world.chain.finalizes)(done, proof) {
            assert forall|fp: CommitHash|
                movable(then) && !then.repo.paths.contains_key(fp) implies #[trigger] post(
                Ok(()),
                moved(then, block, record, fp),
            ) by {
                assert(ahead(world, hash, block, header));
            }
            lemma_moves(then, record, block, faultless, post);
        }
    }
    // The verifier.
    assert forall|found: BlockHeader, then: World|
        #![trigger middle(Ok(found), then)]
        middle(Ok(found), then) implies always(second(found), then, faultless, post) by {
        if (world.chain.starts)(found, world.state()) {
            let started = world.on_trial(trial);
            assert(trial.more(contents(commits).take(0)).applied =~= trial.applied);
            lemma_apply(world, trial, commits, 0, faultless, verified);
            lemma_bind_always(
                apply_from(commits, 0),
                third,
                started,
                faultless,
                verified,
                post,
            );
            assert(always(
                sync_verify(apply_from(commits, 0), proof, block, height),
                started,
                faultless,
                post,
            ));
        }
    }
    lemma_last_header(world, faultless, middle);
    lemma_bind_always(last_header_plan(), second, world, faultless, middle, post);
}

/// A sync from the commits on the way on.
proof fn lemma_sync_read(
    world: World,
    hash: Hash256,
    proof: FinalizationProof,
    faultless: bool,
    post: spec_fn(Result<(), ErrorView>, World) -> bool,
)
    requires
        world.repo.well_formed(),
        sync_ends(world, hash, proof, faultless, post),
        world.repo.tip(block_branch(hash)) is Some,
        world.repo.tip(FINALIZED_BRANCH_NAME@) is Some,
        !needless(world, hash),
    ensures
        always(
            sync_read(
                hash,
                proof,
                world.repo.branches[block_branch(hash)],
                world.repo.branches[FINALIZED_BRANCH_NAME@],
            ),
            world,
            faultless,
            post,
        ),
{
    broadcast use group_runs;

    let block = world.repo.branches[block_branch(hash)];
    let current = world.repo.branches[FINALIZED_BRANCH_NAME@];
    let request = RequestView::ReadCommits(current, block);
    lemma_merge_base(world.repo, current, block);
    if provable(world, hash, proof) {
        lemma_reads(world, current, block);
    }
    if astray(world, hash) {
        lemma_astray(world, hash);
    }
    assert forall|commits: Vec<(Commit, CommitHash)>|
        world.tells(request, Reply::Commits(Ok(commits))) && commits@.len() > 0
            && #[trigger] commits@.last().0 is Block implies always(
        sync_descends(
            hash,
            proof,
            block,
            current,
            commits@,
            commits@.last().0->Block_0.height,
        ),
        world,
        faultless,
        post,
    ) by {
        let header = commits@.last().0->Block_0;
        let base = choose|base: CommitHash|
            {
                &&& #[trigger] world.repo.merge_base(base, current, block)
                &&& world.chain.decodes(world.repo.between(base, block), commits@)
            };
        let path = world.repo.between(base, block);
        assert(path.last() == world.repo.paths[block].last());
        if world.repo.descends(current, block) {
            assert(base == current);
            lemma_decodes(world.chain, path, commits@);
            assert(ahead(world, hash, block, header));
            lemma_sync_header(world, hash, proof, block, header, faultless, post);
        }
    }
}

/// Two last common ancestors are the same.
proof fn lemma_one_base(
    repo: Repo,
    first: CommitHash,
    second: CommitHash,
    a: CommitHash,
    b: CommitHash,
)
    requires
        repo.well_formed(),
        repo.merge_base(first, a, b),
        repo.merge_base(second, a, b),
    ensures
        first == second,
{
    assert(repo.descends(first, a) && repo.descends(first, b));
    assert(repo.descends(second, a) && repo.descends(second, b));
    assert(repo.paths[first] =~= repo.paths[second]);
}

/// What a host says of a block that has left `finalized`.
proof fn lemma_astray(world: World, hash: Hash256)
    requires
        world.repo.well_formed(),
        astray(world, hash),
    ensures
        ({
            let block = world.repo.branches[block_branch(hash)];
            let current = world.repo.branches[FINALIZED_BRANCH_NAME@];
            let request = RequestView::ReadCommits(current, block);
            &&& !world.refuses(request)
            &&& !world.refuses(RequestView::FindMergeBase(current, block))
            &&& !world.repo.merge_base(current, current, block)
            &&& forall|commits: Vec<(Commit, CommitHash)>| #[trigger]
                world.tells(request, Reply::Commits(Ok(commits))) ==> commits@.len() == 0
                    || commits@.last().0 is Block
        }),
{
    let block = world.repo.branches[block_branch(hash)];
    let current = world.repo.branches[FINALIZED_BRANCH_NAME@];
    let request = RequestView::ReadCommits(current, block);
    let base = choose|base: CommitHash|
        {
            &&& #[trigger] world.repo.merge_base(base, current, block)
            &&& world.chain.readable(world.repo.between(base, block))
            &&& base == block || world.content(block) matches Some(Commit::Block(_))
        };
    lemma_merge_base(world.repo, current, block);
    assert(!world.unreadable(current, block));
    assert(!world.repo.unrelated(current, block));
    assert forall|commits: Vec<(Commit, CommitHash)>| #[trigger]
        world.tells(request, Reply::Commits(Ok(commits))) implies commits@.len() == 0
        || commits@.last().0 is Block by {
        let other = choose|other: CommitHash|
            {
                &&& #[trigger] world.repo.merge_base(other, current, block)
                &&& world.chain.decodes(world.repo.between(other, block), commits@)
            };
        lemma_one_base(world.repo, base, other, current, block);
        let path = world.repo.between(base, block);
        if commits@.len() > 0 {
            assert(path.last() == world.repo.paths[block].last());
            assert((world.chain.decode)(path[commits@.len() - 1].0) == Some(
                commits@[commits@.len() - 1].0,
            ));
        }
    }
}

/// How a sync ends. It ends well where there is nothing to do, with nothing changed, and else only
/// where it can be justified, with `finalized` at the block and the proof on `fp`. On a host
/// without a fault it ends well exactly there.
pub open spec fn sync_outcome(
    world: World,
    hash: Hash256,
    proof: FinalizationProof,
    faultless: bool,
) -> spec_fn(Result<(), ErrorView>, World) -> bool {
    |result: Result<(), ErrorView>, then: World|
        match result {
            Ok(_) => {
                ||| needless(world, hash) && then == world
                ||| ready(world, hash, proof) && synchronized(world, then, hash, proof)
            },
            Err(error) => sync_fails(world, hash, proof, faultless, error, then),
        }
}

/// How a host looks once it was synchronized: `finalized` is at the block, `fp` is at a new commit
/// of the proof, with the height of the block, right after it, and all else is as it was.
pub open spec fn synchronized(
    world: World,
    then: World,
    hash: Hash256,
    proof: FinalizationProof,
) -> bool {
    &&& world.repo.tip(block_branch(hash)) matches Some(block)
    &&& world.content(block) matches Some(Commit::Block(header))
    &&& then.repo.tip(FP_BRANCH_NAME@) matches Some(fp)
    &&& !world.repo.paths.contains_key(fp)
    &&& then.chain == world.chain
    &&& then.repo.tags == world.repo.tags
    &&& then.repo.remotes == world.repo.remotes
    &&& then.repo.branches == world.repo.branches.insert(FINALIZED_BRANCH_NAME@, block).insert(
        FP_BRANCH_NAME@,
        fp,
    )
    &&& then.repo.paths == world.repo.paths.insert(
        fp,
        world.repo.paths[block].push(
            (
                (world.chain.encode_proof)(
                    LastFinalizationProof { height: header.height, proof },
                ),
                fp,
            ),
        ),
    )
}

/// Every run of a sync ends as told.
pub proof fn law_sync_ends(
    world: World,
    hash: Hash256,
    proof: FinalizationProof,
    faultless: bool,
)
    requires
        world.repo.well_formed(),
    ensures
        always(
            sync_plan(hash, proof),
            world,
            faultless,
            sync_outcome(world, hash, proof, faultless),
        ),
{
    let post = sync_outcome(world, hash, proof, faultless);
    lemma_permanent_names();
    assert forall|block: CommitHash, header: BlockHeader, now: World, fp: CommitHash|
        #![trigger ahead(world, hash, block, header), moved(
            now,
            block,
            record_of(header, proof),
            fp,
        )]
        {
            &&& ready(world, hash, proof)
            &&& ahead(world, hash, block, header)
            &&& now == world.on_trial(now.trial->0)
            &&& !world.repo.paths.contains_key(fp)
        } implies post(Ok(()), moved(now, block, record_of(header, proof), fp)) by {
        let then = moved(now, block, record_of(header, proof), fp);
        assert(then.repo.branches =~= world.repo.branches.insert(
            FINALIZED_BRANCH_NAME@,
            block,
        ).insert(FP_BRANCH_NAME@, fp));
        assert(synchronized(world, then, hash, proof));
    }
    lemma_sync(world, hash, proof, faultless, post);
}

/// Every run of a sync.
pub proof fn lemma_sync(
    world: World,
    hash: Hash256,
    proof: FinalizationProof,
    faultless: bool,
    post: spec_fn(Result<(), ErrorView>, World) -> bool,
)
    requires
        world.repo.well_formed(),
        sync_ends(world, hash, proof, faultless, post),
    ensures
        always(sync_plan(hash, proof), world, faultless, post),
{
    broadcast use group_runs;

    if world.repo.tip(block_branch(hash)) is Some && world.repo.tip(FINALIZED_BRANCH_NAME@) is Some
        && !needless(world, hash) {
        lemma_sync_read(world, hash, proof, faultless, post);
    }
}

/// How a host looks once it was synchronized to a block that was created on `work`: `finalized` and
/// `work` are at the block, which descends from the commit that `finalized` was at, and `fp` is one
/// commit after it.
pub open spec fn at_block(before: World, end: World, block: CommitHash) -> bool {
    &&& end.repo.tip(FINALIZED_BRANCH_NAME@) == Some(block)
    &&& end.repo.tip(WORK_BRANCH_NAME@) == Some(block)
    &&& end.repo.tip(FP_BRANCH_NAME@) matches Some(fp)
    &&& end.repo.paths[fp].len() > 1
    &&& end.repo.paths[fp].drop_last() == end.repo.paths[block]
    &&& before.repo.tip(FINALIZED_BRANCH_NAME@) matches Some(old)
    &&& end.repo.descends(old, block)
}

/// That a host is at a block.
pub open spec fn reaches(before: World, block: CommitHash) -> spec_fn((), World) -> bool {
    |_done: (), end: World| at_block(before, end, block)
}

/// Whether a sync to a block ends well with every proof that finalizes it.
pub open spec fn can_be_synchronized(world: World, header: BlockHeader, block: CommitHash)
    -> bool {
    forall|proof: FinalizationProof|
        #![trigger sync_plan((world.chain.hash_header)(header), proof)]
        finalized_by(world, block, proof) ==> surely(
            sync_plan((world.chain.hash_header)(header), proof),
            world,
            reaches(world, block),
        )
}

/// A block that was created on `work` is ready to be synchronized to.
proof fn lemma_ready(
    before: World,
    then: World,
    header: BlockHeader,
    commit: CommitHash,
    proof: FinalizationProof,
)
    requires
        before.repo.well_formed(),
        before.chain.consistent(),
        block_there(before, then, header, commit),
        finalized_by(then, commit, proof),
    ensures
        ready(then, (then.chain.hash_header)(header), proof),
        ahead(then, (then.chain.hash_header)(header), commit, header),
{
    let hash = (then.chain.hash_header)(header);
    let new = Commit::Block(header);
    lemma_permanent_names();
    law_branch_names(hash, hash);
    assert(hash == (before.chain.hash_commit)(new));
    lemma_marked(before, then, new, commit, block_branch(hash));
    assert(before.repo.paths.contains_key(before.repo.branches[FINALIZED_BRANCH_NAME@]));
    assert(ahead(then, hash, commit, header));
    let commits = contents(then.chain.held(way(then, commit)));
    let old = contents(work_commits(before));
    assert(commits =~= old.push(new));
    assert(fresh_trial(then) == fresh_trial(before));
    assert(then.chain.all_valid(fresh_trial(then), commits)) by {
        assert forall|i: int| 0 <= i < commits.len() implies (then.chain.valid)(
            fresh_trial(then).more(commits.take(i)),
            #[trigger] commits[i],
        ) by {
            assert(commits.take(i) =~= old.take(i));
            if i < old.len() {
                assert(old[i] == commits[i]);
            } else {
                assert(old.take(i) =~= old);
            }
        }
    }
}

/// A block that is created can be synchronized to, with every proof that finalizes it: on a host
/// without a fault the sync ends well, with `finalized` and `work` at the block, which descends
/// from the commit that `finalized` was at, and with `fp` one commit after the block.
pub proof fn law_created_block_can_be_synchronized_to(world: World, new: NewBlock)
    requires
        world.repo.well_formed(),
        world.chain.consistent(),
    ensures
        after_ok(
            create_block_plan(new),
            world,
            |created: (BlockHeader, CommitHash), then: World|
                can_be_synchronized(then, created.0, created.1),
        ),
{
    let good = |created: (BlockHeader, CommitHash), then: World|
        can_be_synchronized(then, created.0, created.1);
    lemma_block(world, new);
    assert forall|created: (BlockHeader, CommitHash), then: World| #[trigger]
        block_post(world)(Ok(created), then) implies good(created, then) by {
        let hash = (then.chain.hash_header)(created.0);
        assert forall|proof: FinalizationProof|
            #![trigger sync_plan(hash, proof)]
            finalized_by(then, created.1, proof) implies surely(
            sync_plan(hash, proof),
            then,
            reaches(then, created.1),
        ) by {
            lemma_ready(world, then, created.0, created.1, proof);
            lemma_reaches(world, then, hash, created.0, created.1, proof);
        }
    }
    lemma_after_ok(create_block_plan(new), world, block_post(world), good);
}

proof fn lemma_reaches(
    before: World,
    then: World,
    hash: Hash256,
    header: BlockHeader,
    block: CommitHash,
    proof: FinalizationProof,
)
    requires
        then.repo.well_formed(),
        then.repo.tip(WORK_BRANCH_NAME@) == Some(block),
        ready(then, hash, proof),
        ahead(then, hash, block, header),
    ensures
        surely(sync_plan(hash, proof), then, reaches(then, block)),
{
    let known = |result: Result<(), ErrorView>, end: World|
        result is Ok && at_block(then, end, block);
    lemma_permanent_names();
    assert forall|found: CommitHash, header: BlockHeader, now: World, fp: CommitHash|
        #![trigger ahead(then, hash, found, header), moved(
            now,
            found,
            record_of(header, proof),
            fp,
        )]
        {
            &&& ready(then, hash, proof)
            &&& ahead(then, hash, found, header)
            &&& now == then.on_trial(now.trial->0)
            &&& !then.repo.paths.contains_key(fp)
        } implies known(Ok(()), moved(now, found, record_of(header, proof), fp)) by {
        let end = moved(now, found, record_of(header, proof), fp);
        let old = then.repo.branches[FINALIZED_BRANCH_NAME@];
        assert(then.repo.paths.contains_key(block) && then.repo.paths.contains_key(old));
        assert(end.repo.paths[fp].drop_last() =~= then.repo.paths[block]);
    }
    lemma_sync(then, hash, proof, true, known);
    lemma_surely(sync_plan(hash, proof), then, known, reaches(then, block));
}

} // verus!
