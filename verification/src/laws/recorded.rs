//! The `fp` branch sits on the `finalized` branch, with the proof of the block there.
use vstd::prelude::*;

use crate::agenda::create_agenda_plan;
use crate::block::{create_block_plan, NewBlock};
use crate::data::{
    Agenda, BlockHeader, Commit, ExtraAgendaTransaction, FinalizationProof, LastFinalizationProof,
    MemberName, ReservedState,
};
use crate::error::ErrorView;
use crate::extra::create_extra_plan;
use crate::genesis::{genesis_checkout, genesis_plan, genesis_work};
use crate::hash::{CommitHash, Hash256};
use crate::host::{Reply, RequestView};
use crate::laws::calls::{
    lemma_commit_on, lemma_committed, lemma_last_header, lemma_permanent_names, lemma_record,
};
use crate::laws::created::{
    agenda_post, block_post, built, extra_post, lemma_agenda, lemma_block, lemma_extra, proof_held,
};
use crate::laws::genesis::genesis_record;
use crate::laws::moved::{ahead, lemma_sync, moved, needless, ready, record_of};
use crate::laws::names::law_branch_names;
use crate::laws::world::{
    after_ok, always, gives, group_runs, lemma_after_ok, lemma_surely, surely, World,
};
use crate::query::{last_header_plan, reserved_state_plan};
use crate::steps::checkout_fp;
use crate::sync::sync_plan;
use crate::{FINALIZED_BRANCH_NAME, FP_BRANCH_NAME, WORK_BRANCH_NAME};

verus! {

/// Whether `fp` is one commit after `finalized`, and that commit holds a finalization proof.
pub open spec fn recorded(world: World, proof: LastFinalizationProof) -> bool {
    &&& world.repo.tip(FINALIZED_BRANCH_NAME@) matches Some(finalized)
    &&& world.repo.tip(FP_BRANCH_NAME@) matches Some(fp)
    &&& world.repo.paths[fp].len() > 1
    &&& world.repo.paths[fp].drop_last() == world.repo.paths[finalized]
    &&& (world.chain.decode_proof)(world.repo.paths[fp].last().0) == Some(proof)
}

/// How a host looks after a genesis.
pub open spec fn begun(before: World, then: World) -> bool {
    let genesis = before.state().genesis_info;
    &&& then.chain == before.chain
    &&& then.repo.well_formed()
    &&& then.last_header() == Some(genesis.header)
    &&& !before.repo.branches.contains_key(FP_BRANCH_NAME@) ==> recorded(
        then,
        genesis_record(before.state()),
    )
}

/// A genesis that ends well has begun the repository.
pub open spec fn begins_well(before: World) -> spec_fn(Result<(), ErrorView>, World) -> bool {
    |result: Result<(), ErrorView>, then: World| result is Ok ==> begun(before, then)
}

/// How a host looks once the genesis block is on `finalized`.
spec fn founded(before: World, now: World, commit: CommitHash) -> bool {
    &&& now.chain == before.chain
    &&& now.chain.consistent()
    &&& now.repo.well_formed()
    &&& now.repo.tip(FINALIZED_BRANCH_NAME@) == Some(commit)
    &&& now.last_header() == Some(before.state().genesis_info.header)
    &&& !before.repo.branches.contains_key(FP_BRANCH_NAME@) ==> now.repo.tip(FP_BRANCH_NAME@)
        is None || now.repo.tip(FP_BRANCH_NAME@) == Some(commit)
}

proof fn lemma_begun(before: World, now: World, commit: CommitHash)
    requires
        founded(before, now, commit),
    ensures
        always(checkout_fp(genesis_record(before.state())), now, false, begins_well(before)),
{
    let proof = genesis_record(before.state());
    let stored = (now.chain.encode_proof)(proof);
    lemma_permanent_names();
    assert forall|fp: CommitHash|
        now.repo.branches.contains_key(FP_BRANCH_NAME@) && !now.repo.paths.contains_key(
            fp,
        ) implies #[trigger] begins_well(before)(
        Ok(()),
        now.committed(FP_BRANCH_NAME@, stored, fp),
    ) by {
        let then = now.committed(FP_BRANCH_NAME@, stored, fp);
        lemma_committed(now, FP_BRANCH_NAME@, stored, fp);
        assert(now.repo.paths.contains_key(commit));
        if !before.repo.branches.contains_key(FP_BRANCH_NAME@) {
            assert(then.repo.paths[fp].drop_last() =~= now.repo.paths[commit]);
        }
        assert(begun(before, then));
    }
    lemma_record(now, proof, false, begins_well(before));
}

proof fn lemma_branches(before: World, now: World, commit: CommitHash)
    requires
        founded(before, now, commit),
    ensures
        always(
            genesis_work(before.state().genesis_info.genesis_proof, commit),
            now,
            false,
            begins_well(before),
        ),
{
    broadcast use group_runs;

    lemma_permanent_names();
    assert forall|then: World| #[trigger] founded(before, then, commit) implies always(
        checkout_fp(genesis_record(before.state())),
        then,
        false,
        begins_well(before),
    ) by {
        lemma_begun(before, then, commit);
    }
    let made = |world: World, name: Seq<char>|
        world.after(RequestView::CreateBranch(name, commit), Reply::Nothing(Ok(())));
    let worked = made(now, WORK_BRANCH_NAME@);
    if !now.repo.branches.contains_key(WORK_BRANCH_NAME@) {
        assert(founded(before, worked, commit));
        if !now.repo.branches.contains_key(FP_BRANCH_NAME@) {
            assert(founded(before, made(worked, FP_BRANCH_NAME@), commit));
        }
    }
    if !now.repo.branches.contains_key(FP_BRANCH_NAME@) {
        assert(founded(before, made(now, FP_BRANCH_NAME@), commit));
    }
}

proof fn lemma_genesis(world: World)
    requires
        world.repo.well_formed(),
        world.chain.consistent(),
    ensures
        always(genesis_plan(), world, false, begins_well(world)),
{
    broadcast use group_runs;

    lemma_permanent_names();
    let genesis = world.state().genesis_info;
    let stored = (world.chain.encode)(Commit::Block(genesis.header), world.state());
    assert forall|now: World|
        {
            &&& now.chain == world.chain
            &&& now.repo.well_formed()
            &&& now.repo.branches.contains_key(FP_BRANCH_NAME@)
                == world.repo.branches.contains_key(FP_BRANCH_NAME@)
        } implies #[trigger] always(
        genesis_checkout(stored, genesis.genesis_proof),
        now,
        false,
        begins_well(world),
    ) by {
        if now.repo.branches.contains_key(FINALIZED_BRANCH_NAME@) {
            lemma_commit_on(now, FINALIZED_BRANCH_NAME@, stored);
            assert forall|commit: CommitHash| !now.repo.paths.contains_key(commit) implies always(
                genesis_work(genesis.genesis_proof, commit),
                #[trigger] now.committed(FINALIZED_BRANCH_NAME@, stored, commit),
                false,
                begins_well(world),
            ) by {
                let then = now.committed(FINALIZED_BRANCH_NAME@, stored, commit);
                lemma_committed(now, FINALIZED_BRANCH_NAME@, stored, commit);
                if !world.repo.branches.contains_key(FP_BRANCH_NAME@) {
                    assert(then.repo.tip(FP_BRANCH_NAME@) is None);
                }
                lemma_branches(world, then, commit);
            }
        }
    }
}

/// After a genesis the last header is that of the genesis: with the reserved state read before, a
/// genesis that ends well, and nothing in between, the header of the block that `finalized` is at
/// is the one in the state.
pub proof fn law_genesis_header_is_found(world: World)
    requires
        world.repo.well_formed(),
        world.chain.consistent(),
    ensures
        after_ok(
            reserved_state_plan(),
            world,
            |state: ReservedState, before: World|
                after_ok(
                    genesis_plan(),
                    before,
                    |_done: (), then: World|
                        surely(
                            last_header_plan(),
                            then,
                            gives(state.genesis_info.header, then),
                        ),
                ),
        ),
{
    broadcast use group_runs;

    let state = world.state();
    let good = |_done: (), then: World|
        surely(last_header_plan(), then, gives(state.genesis_info.header, then));
    lemma_genesis(world);
    assert forall|done: (), then: World| #[trigger]
        begins_well(world)(Ok(done), then) implies good(done, then) by {
        let known = |result: Result<BlockHeader, ErrorView>, end: World|
            result == Ok::<BlockHeader, ErrorView>(state.genesis_info.header) && end == then;
        lemma_last_header(then, true, known);
        lemma_surely(
            last_header_plan(),
            then,
            known,
            gives(state.genesis_info.header, then),
        );
    }
    lemma_after_ok(genesis_plan(), world, begins_well(world), good);
}

/// Whether `fp` is in step with `finalized`: it is one commit after it, and that commit holds a
/// proof of the height of the last header.
pub open spec fn in_step(world: World) -> bool {
    &&& world.last_header() matches Some(header)
    &&& exists|proof: LastFinalizationProof| #[trigger]
        recorded(world, proof) && proof.height == header.height
}

/// A genesis puts `fp` in step with `finalized`, where there was no `fp` branch and the genesis
/// header is of the height zero.
pub proof fn law_genesis_puts_fp_in_step(world: World)
    requires
        world.repo.well_formed(),
        world.chain.consistent(),
        !world.repo.branches.contains_key(FP_BRANCH_NAME@),
        world.state().genesis_info.header.height == 0,
    ensures
        after_ok(genesis_plan(), world, |_done: (), then: World| in_step(then)),
{
    lemma_genesis(world);
    let good = |_done: (), then: World| in_step(then);
    assert forall|done: (), then: World| #[trigger]
        begins_well(world)(Ok(done), then) implies good(done, then) by {
        assert(recorded(then, genesis_record(world.state())));
    }
    lemma_after_ok(genesis_plan(), world, begins_well(world), good);
}

/// Whether `finalized` is where it was or at a descendant of that.
pub open spec fn forward(before: World, then: World) -> bool {
    &&& before.repo.tip(FINALIZED_BRANCH_NAME@) matches Some(old)
    &&& then.repo.tip(FINALIZED_BRANCH_NAME@) matches Some(new)
    &&& before.repo.descends(old, new)
    &&& then.repo.descends(old, new)
}

/// How a host looks after a sync: as before, or with the proof recorded one commit after the block
/// that `finalized` is at.
pub open spec fn synced(before: World, then: World, proof: FinalizationProof) -> bool {
    &&& then.repo.well_formed()
    &&& then.chain == before.chain
    &&& forward(before, then)
    &&& then.repo == before.repo || {
        &&& then.last_header() matches Some(header)
        &&& recorded(then, record_of(header, proof))
    }
}

spec fn sync_post(before: World, proof: FinalizationProof) -> spec_fn(
    Result<(), ErrorView>,
    World,
) -> bool {
    |result: Result<(), ErrorView>, then: World| result is Ok ==> synced(before, then, proof)
}

proof fn lemma_synced(world: World, hash: Hash256, proof: FinalizationProof)
    requires
        world.repo.well_formed(),
        world.chain.consistent(),
    ensures
        always(sync_plan(hash, proof), world, false, sync_post(world, proof)),
{
    let post = sync_post(world, proof);
    lemma_permanent_names();
    assert forall|block: CommitHash, header: BlockHeader, now: World, fp: CommitHash|
        #![trigger ahead(world, hash, block, header), moved(
            now,
            block,
            record_of(header, proof),
            fp,
        )]
        {
            &&& ready(world, hash, proof)
            &&& ahead(world, hash, block, header)
            &&& now == world.on_trial(now.trial->0)
            &&& !world.repo.paths.contains_key(fp)
        } implies post(Ok(()), moved(now, block, record_of(header, proof), fp)) by {
        let record = record_of(header, proof);
        let then = moved(now, block, record, fp);
        let old = world.repo.branches[FINALIZED_BRANCH_NAME@];
        assert(world.repo.paths.contains_key(block) && world.repo.paths.contains_key(old));
        assert(then.repo.paths[fp].drop_last() =~= world.repo.paths[block]);
        assert(then.content(block) == Some(Commit::Block(header)));
        assert(then.repo.well_formed());
        assert(recorded(then, record));
    }
    if needless(world, hash) {
        let old = world.repo.branches[FINALIZED_BRANCH_NAME@];
        assert(world.repo.paths[old].is_prefix_of(world.repo.paths[old]));
    }
    lemma_sync(world, hash, proof, false, post);
}

/// A sync keeps `fp` in step with `finalized`, and moves `finalized` only forward.
pub proof fn law_sync_keeps_fp_in_step(world: World, hash: Hash256, proof: FinalizationProof)
    requires
        world.repo.well_formed(),
        world.chain.consistent(),
        in_step(world),
    ensures
        after_ok(
            sync_plan(hash, proof),
            world,
            |_done: (), then: World| in_step(then) && forward(world, then),
        ),
{
    lemma_synced(world, hash, proof);
    let good = |_done: (), then: World| in_step(then) && forward(world, then);
    assert forall|done: (), then: World| #[trigger]
        sync_post(world, proof)(Ok(done), then) implies good(done, then) by {
        if then.repo == world.repo {
            let held = choose|held: LastFinalizationProof| #[trigger]
                recorded(world, held) && held.height == world.last_header()->0.height;
            assert(recorded(then, held));
        } else {
            assert(recorded(then, record_of(then.last_header()->0, proof)));
        }
    }
    lemma_after_ok(sync_plan(hash, proof), world, sync_post(world, proof), good);
}

/// A new commit on `work` leaves the record on `fp` as it is.
proof fn lemma_kept(
    before: World,
    then: World,
    new: Commit,
    commit: CommitHash,
    proof: LastFinalizationProof,
)
    requires
        before.repo.well_formed(),
        recorded(before, proof),
        built(before, then, new, commit),
        then.repo.tip(FINALIZED_BRANCH_NAME@) == before.repo.tip(FINALIZED_BRANCH_NAME@),
        then.repo.tip(FP_BRANCH_NAME@) == before.repo.tip(FP_BRANCH_NAME@),
    ensures
        recorded(then, proof),
        then.last_header() == before.last_header(),
{
    assert(before.repo.paths.contains_key(before.repo.branches[FINALIZED_BRANCH_NAME@]));
    assert(before.repo.paths.contains_key(before.repo.branches[FP_BRANCH_NAME@]));
}

/// Creating an agenda, a block or an extra-agenda transaction leaves the record on `fp` and the
/// last header as they are, and so keeps `fp` in step with `finalized`.
pub proof fn law_creating_keeps_the_record(
    world: World,
    proof: LastFinalizationProof,
    author: MemberName,
    new: NewBlock,
    transaction: ExtraAgendaTransaction,
)
    requires
        world.repo.well_formed(),
        recorded(world, proof),
    ensures
        after_ok(
            create_agenda_plan(author),
            world,
            |_created: (Agenda, CommitHash), then: World|
                recorded(then, proof) && then.last_header() == world.last_header(),
        ),
        after_ok(
            create_block_plan(new),
            world,
            |_created: (BlockHeader, CommitHash), then: World|
                recorded(then, proof) && then.last_header() == world.last_header(),
        ),
        after_ok(
            create_extra_plan(transaction),
            world,
            |_commit: CommitHash, then: World|
                recorded(then, proof) && then.last_header() == world.last_header(),
        ),
{
    let agenda_kept = |_created: (Agenda, CommitHash), then: World|
        recorded(then, proof) && then.last_header() == world.last_header();
    let block_kept = |_created: (BlockHeader, CommitHash), then: World|
        recorded(then, proof) && then.last_header() == world.last_header();
    let extra_kept = |_commit: CommitHash, then: World|
        recorded(then, proof) && then.last_header() == world.last_header();
    let extra = Commit::ExtraAgendaTransaction(transaction);
    lemma_permanent_names();
    lemma_agenda(world, author);
    assert forall|created: (Agenda, CommitHash), then: World| #[trigger]
        agenda_post(world)(Ok(created), then) implies agenda_kept(created, then) by {
        let made = Commit::Agenda(created.0);
        let hash = (world.chain.hash_commit)(made);
        law_branch_names(hash, hash);
        lemma_kept(world, then, made, created.1, proof);
    }
    lemma_after_ok(create_agenda_plan(author), world, agenda_post(world), agenda_kept);
    lemma_block(world, new);
    assert forall|created: (BlockHeader, CommitHash), then: World| #[trigger]
        block_post(world)(Ok(created), then) implies block_kept(created, then) by {
        let made = Commit::Block(created.0);
        let hash = (world.chain.hash_commit)(made);
        law_branch_names(hash, hash);
        lemma_kept(world, then, made, created.1, proof);
    }
    lemma_after_ok(create_block_plan(new), world, block_post(world), block_kept);
    lemma_extra(world, transaction);
    assert forall|commit: CommitHash, then: World| #[trigger]
        extra_post(world, extra)(Ok(commit), then) implies extra_kept(commit, then) by {
        lemma_kept(world, then, extra, commit, proof);
    }
    lemma_after_ok(create_extra_plan(transaction), world, extra_post(world, extra), extra_kept);
}

/// Whether a block that is created next carries a proof, and names the block that `finalized` is
/// at by its hash.
pub open spec fn carries(world: World, new: NewBlock, proof: FinalizationProof) -> bool {
    after_ok(create_block_plan(new), world, carrying(world, proof))
}

/// That a block carries a proof, and names the block that `finalized` was at by its hash.
pub open spec fn carrying(world: World, proof: FinalizationProof) -> spec_fn(
    (BlockHeader, CommitHash),
    World,
) -> bool {
    |created: (BlockHeader, CommitHash), _then: World|
        {
            &&& created.0.prev_block_finalization_proof == proof
            &&& world.last_header() matches Some(header)
            &&& created.0.previous_hash == (world.chain.hash_header)(header)
        }
}

/// A new block carries the proof that the `fp` branch holds, however it came there.
pub proof fn law_block_carries_the_proof_on_fp(
    world: World,
    new: NewBlock,
    proof: LastFinalizationProof,
)
    requires
        world.repo.well_formed(),
        proof_held(world) == Some(proof),
    ensures
        carries(world, new, proof.proof),
{
    lemma_block(world, new);
    lemma_after_ok(
        create_block_plan(new),
        world,
        block_post(world),
        carrying(world, proof.proof),
    );
}

/// A block that is created after a sync that moved `finalized` carries the proof of that sync.
pub proof fn law_block_carries_the_proof_of_a_sync(
    world: World,
    hash: Hash256,
    proof: FinalizationProof,
    new: NewBlock,
)
    requires
        world.repo.well_formed(),
        world.chain.consistent(),
    ensures
        after_ok(
            sync_plan(hash, proof),
            world,
            |_done: (), then: World| then.repo != world.repo ==> carries(then, new, proof),
        ),
{
    lemma_synced(world, hash, proof);
    let good = |_done: (), then: World| then.repo != world.repo ==> carries(then, new, proof);
    assert forall|done: (), then: World| #[trigger]
        sync_post(world, proof)(Ok(done), then) implies good(done, then) by {
        if then.repo != world.repo {
            let record = record_of(then.last_header()->0, proof);
            assert(recorded(then, record));
            law_block_carries_the_proof_on_fp(then, new, record);
        }
    }
    lemma_after_ok(sync_plan(hash, proof), world, sync_post(world, proof), good);
}

/// A block that is created after a genesis carries the genesis proof, where there was no `fp`
/// branch.
pub proof fn law_block_carries_the_genesis_proof(world: World, new: NewBlock)
    requires
        world.repo.well_formed(),
        world.chain.consistent(),
        !world.repo.branches.contains_key(FP_BRANCH_NAME@),
    ensures
        after_ok(
            genesis_plan(),
            world,
            |_done: (), then: World|
                carries(then, new, world.state().genesis_info.genesis_proof),
        ),
{
    lemma_genesis(world);
    let proof = world.state().genesis_info.genesis_proof;
    let good = |_done: (), then: World|
        carries(then, new, world.state().genesis_info.genesis_proof);
    assert forall|done: (), then: World| #[trigger]
        begins_well(world)(Ok(done), then) implies good(done, then) by {
        assert(recorded(then, genesis_record(world.state())));
        law_block_carries_the_proof_on_fp(then, new, genesis_record(world.state()));
    }
    lemma_after_ok(genesis_plan(), world, begins_well(world), good);
}

} // verus!
