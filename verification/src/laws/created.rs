//! What is created on `work` is found there again.
use vstd::prelude::*;

use crate::agenda::{
    agenda_apply, agenda_name, agenda_time, agenda_verify, agenda_work, create_agenda_plan,
    transactions_of,
};
use crate::block::{
    bare, block_apply, block_checkout, block_fp, block_header, block_name, block_read,
    block_rebased, block_time, block_verify, create_block_plan, header_from, BlockStart, NewBlock,
};
use crate::data::{
    Agenda, BlockHeader, Commit, ExtraAgendaTransaction, LastFinalizationProof, MemberName,
    Timestamp, Transaction, ValidatorSet,
};
use crate::error::{Blame, ErrorView};
use crate::extra::{
    create_extra_plan, extra_apply, extra_read, extra_rebased, extra_verifier, extra_verify,
};
use crate::hash::{agenda_branch, block_branch, CommitHash, Hash256};
use crate::host::{Reply, RequestView};
use crate::laws::calls::{
    contents, lemma_apply, lemma_commit_on, lemma_committed, lemma_last_header,
    lemma_permanent_names, lemma_read_commit,
};
use crate::laws::world::{
    after_ok, always, gives, group_runs, lemma_after_ok, lemma_always, lemma_bind_always,
    lemma_decodes, lemma_merge_base, lemma_surely, surely, Path, Trial, World,
};
use crate::plan::{bind, Plan};
use crate::query::{last_header_plan, read_commit_plan};
use crate::steps::{apply_from, no_work_branch, not_rebased, publish_plan};
use crate::{FINALIZED_BRANCH_NAME, FP_BRANCH_NAME, WORK_BRANCH_NAME};

verus! {

/// Whether two hosts have the same rules, branches, commits, tags and remotes.
pub open spec fn same(before: World, now: World) -> bool {
    &&& now.chain == before.chain
    &&& now.repo.branches == before.repo.branches
    &&& now.repo.paths == before.repo.paths
    &&& now.repo.tags == before.repo.tags
    &&& now.repo.remotes == before.repo.remotes
}

/// The commits on `work` after those on `finalized`.
pub open spec fn work_path(world: World) -> Path {
    world.repo.between(
        world.repo.branches[FINALIZED_BRANCH_NAME@],
        world.repo.branches[WORK_BRANCH_NAME@],
    )
}

/// What the commits on `work` hold.
pub open spec fn work_commits(world: World) -> Seq<(Commit, CommitHash)> {
    world.chain.held(work_path(world))
}

/// A verifier that is started on the last header and the reserved state.
pub open spec fn fresh_trial(world: World) -> Trial {
    Trial { header: world.last_header()->0, state: world.state(), applied: Seq::empty() }
}

/// Whether `work` is on top of `finalized`, and its commits are valid there.
pub open spec fn work_valid(world: World) -> bool {
    let commits = work_commits(world);
    &&& world.repo.branches.contains_key(FINALIZED_BRANCH_NAME@)
    &&& world.repo.branches.contains_key(WORK_BRANCH_NAME@)
    &&& world.repo.descends(
        world.repo.branches[FINALIZED_BRANCH_NAME@],
        world.repo.branches[WORK_BRANCH_NAME@],
    )
    &&& world.chain.readable(work_path(world))
    &&& world.last_header() is Some
    &&& (world.chain.starts)(world.last_header()->0, world.state())
    &&& world.chain.all_valid(fresh_trial(world), contents(commits))
}

/// A verifier that accepted the commits on `work`.
pub open spec fn work_trial(world: World) -> Trial {
    fresh_trial(world).more(contents(work_commits(world)))
}

/// Whether a new commit is valid on top of `work`.
pub open spec fn new_valid(world: World, new: Commit) -> bool {
    &&& work_valid(world)
    &&& (world.chain.valid)(work_trial(world), new)
}

/// How a host looks once a new commit is on `work`.
pub open spec fn built(before: World, then: World, new: Commit, commit: CommitHash) -> bool {
    &&& new_valid(before, new)
    &&& !before.repo.paths.contains_key(commit)
    &&& then.chain == before.chain
    &&& then.repo.well_formed()
    &&& then.repo.tags == before.repo.tags
    &&& then.repo.remotes == before.repo.remotes
    &&& then.repo.paths == before.repo.paths.insert(
        commit,
        before.repo.paths[before.repo.branches[WORK_BRANCH_NAME@]].push(
            ((before.chain.encode)(new, before.state()), commit),
        ),
    )
}

/// How a host looks once a new commit is on `work` and nothing else has changed.
pub open spec fn put(before: World, then: World, new: Commit, commit: CommitHash) -> bool {
    &&& built(before, then, new, commit)
    &&& then.repo.branches == before.repo.branches.insert(WORK_BRANCH_NAME@, commit)
}

/// How a host looks once a new commit is on `work` and on a branch of its own.
pub open spec fn marked(
    before: World,
    then: World,
    new: Commit,
    commit: CommitHash,
    name: Seq<char>,
) -> bool {
    &&& built(before, then, new, commit)
    &&& !before.repo.branches.contains_key(name)
    &&& then.repo.branches == before.repo.branches.insert(WORK_BRANCH_NAME@, commit).insert(
        name,
        commit,
    )
}

/// Whether `work` has left `finalized`: they have an ancestor in common, and `work` is not on top.
pub open spec fn strayed(world: World) -> bool {
    &&& world.last_header() is Some
    &&& world.repo.tip(FINALIZED_BRANCH_NAME@) matches Some(last)
    &&& world.repo.tip(WORK_BRANCH_NAME@) matches Some(work)
    &&& !world.repo.descends(last, work)
    &&& exists|base: CommitHash| #[trigger] world.repo.merge_base(base, last, work)
}

/// The error that tells so.
pub open spec fn rebase_error() -> ErrorView {
    ErrorView::Message("branch work should be rebased on finalized"@)
}

/// What is said of a branch that is not on top of `finalized`, by its name.
pub proof fn law_rebase_message(branch: Seq<char>)
    ensures
        not_rebased(branch) == "branch "@ + branch + " should be rebased on finalized"@,
        not_rebased(WORK_BRANCH_NAME@) == "branch work should be rebased on finalized"@,
{
    reveal_strlit("branch ");
    reveal_strlit("work");
    reveal_strlit("finalized");
    reveal_strlit(" should be rebased on ");
    reveal_strlit(" should be rebased on finalized");
    reveal_strlit("branch work should be rebased on finalized");
    assert(" should be rebased on "@ + "finalized"@ =~= " should be rebased on finalized"@);
    assert(not_rebased(branch) =~= "branch "@ + branch + " should be rebased on finalized"@);
    assert(not_rebased(WORK_BRANCH_NAME@) =~= "branch work should be rebased on finalized"@);
}

/// Whether a run may fail so: with nothing changed, and on a host without a fault only where `work`
/// is not valid.
spec fn may_fail<O>(
    before: World,
    faultless: bool,
    post: spec_fn(Result<O, ErrorView>, World) -> bool,
) -> bool {
    !faultless || !work_valid(before) ==> forall|error: ErrorView, then: World|
        same(before, then) && !strayed(before) ==> #[trigger] post(Err(error), then)
}

/// Where the commits on `work` are verified, and nothing has changed since.
spec fn verified(before: World, now: World) -> bool {
    &&& before.repo.well_formed()
    &&& work_valid(before)
    &&& same(before, now)
    &&& now.trial == Some(work_trial(before))
}

/// Putting a commit on `work`.
proof fn lemma_publish(
    before: World,
    now: World,
    new: Commit,
    blame: Blame,
    faultless: bool,
    post: spec_fn(Result<CommitHash, ErrorView>, World) -> bool,
)
    requires
        before.repo.well_formed(),
        new_valid(before, new),
        same(before, now),
        forall|commit: CommitHash, then: World|
            put(before, then, new, commit) && then.told == now.told ==> #[trigger] post(
                Ok(commit),
                then,
            ),
        !faultless ==> forall|error: ErrorView, then: World|
            then.told == now.told ==> #[trigger] post(Err(error), then),
    ensures
        always(publish_plan(new, before.state(), blame), now, faultless, post),
{
    broadcast use group_runs;

    let stored = (before.chain.encode)(new, before.state());
    lemma_commit_on(now, WORK_BRANCH_NAME@, stored);
    assert forall|commit: CommitHash| !now.repo.paths.contains_key(commit) implies put(
        before,
        #[trigger] now.committed(WORK_BRANCH_NAME@, stored, commit),
        new,
        commit,
    ) by {
        lemma_committed(now, WORK_BRANCH_NAME@, stored, commit);
    }
}

/// Where the commits on `work` were read: a verifier is there, and has seen none of them.
spec fn work_read(before: World, now: World) -> bool {
    &&& before.repo.well_formed()
    &&& same(before, now)
    &&& before.last_header() is Some
    &&& (before.chain.starts)(before.last_header()->0, before.state())
    &&& before.repo.branches.contains_key(FINALIZED_BRANCH_NAME@)
    &&& before.repo.branches.contains_key(WORK_BRANCH_NAME@)
    &&& before.repo.descends(
        before.repo.branches[FINALIZED_BRANCH_NAME@],
        before.repo.branches[WORK_BRANCH_NAME@],
    )
    &&& before.chain.readable(work_path(before))
    &&& now.trial == Some(fresh_trial(before))
}

/// Verifying the commits on `work`, up to what follows.
proof fn lemma_verify<O>(
    before: World,
    now: World,
    second: spec_fn(Seq<(Commit, CommitHash)>) -> Plan<O>,
    faultless: bool,
    post: spec_fn(Result<O, ErrorView>, World) -> bool,
)
    requires
        work_read(before, now),
        forall|then: World|
            verified(before, then) ==> #[trigger] always(
                second(work_commits(before)),
                then,
                faultless,
                post,
            ),
        may_fail(before, faultless, post),
    ensures
        always(bind(apply_from(work_commits(before), 0), second), now, faultless, post),
{
    let commits = work_commits(before);
    let trial = fresh_trial(before);
    let middle = |result: Result<Seq<(Commit, CommitHash)>, ErrorView>, then: World|
        match result {
            Ok(found) => found == commits && verified(before, then),
            Err(_) => same(before, then) && (!faultless || !work_valid(before)),
        };
    assert(trial.more(contents(commits).take(0)).applied =~= trial.applied);
    assert(now == now.on_trial(trial.more(contents(commits).take(0))));
    lemma_apply(now, trial, commits, 0, faultless, middle);
    lemma_bind_always(apply_from(commits, 0), second, now, faultless, middle, post);
}

/// The transactions among the commits on `work`, each as often as it is there, in their order.
pub open spec fn work_transactions(world: World) -> Seq<Transaction> {
    contents(work_commits(world)).filter(|commit: Commit| commit is Transaction).map_values(
        |commit: Commit| commit->Transaction_0,
    )
}

/// The agenda of some author that the host's time and hash make: it is of the height after the last
/// one, and names the transactions on `work`.
pub open spec fn new_agenda(before: World, then: World, author: MemberName) -> Agenda {
    Agenda {
        height: (before.last_header()->0.height + 1) as u64,
        author,
        timestamp: then.told[RequestView::GetTimestamp]->Timestamp_0,
        transactions_hash: then.told[RequestView::CalculateTransactionsHash(
            work_transactions(before),
        )]->Hash_0,
    }
}

/// How a host looks once an agenda is created.
pub open spec fn agenda_there(before: World, then: World, agenda: Agenda, commit: CommitHash)
    -> bool {
    let new = Commit::Agenda(agenda);
    &&& marked(before, then, new, commit, agenda_branch((before.chain.hash_commit)(new)))
    &&& before.last_header() matches Some(header)
    &&& agenda.height == header.height + 1
}

pub open spec fn agenda_post(before: World) -> spec_fn(
    Result<(Agenda, CommitHash), ErrorView>,
    World,
) -> bool {
    |result: Result<(Agenda, CommitHash), ErrorView>, then: World|
        result matches Ok(output) ==> agenda_there(before, then, output.0, output.1)
}

/// Whether there is a branch of a name.
pub open spec fn taken(world: World, name: Seq<char>) -> bool {
    world.repo.branches.contains_key(name)
}

/// How a run that creates an agenda ends. It ends well with the new agenda on `work` and on its
/// branch. On a host without a fault it ends well exactly where the agenda is valid on top of
/// `work` and the name of its branch is free. Where the agenda is not valid, nothing has changed.
pub open spec fn agenda_ends(before: World, author: MemberName, faultless: bool) -> spec_fn(
    Result<(Agenda, CommitHash), ErrorView>,
    World,
) -> bool {
    |result: Result<(Agenda, CommitHash), ErrorView>, then: World|
        {
            let new = Commit::Agenda(new_agenda(before, then, author));
            match result {
                Ok(created) => {
                    &&& created.0 == new_agenda(before, then, author)
                    &&& agenda_there(before, then, created.0, created.1)
                },
                Err(error) => {
                    &&& !new_valid(before, new) ==> same(before, then)
                    &&& faultless && strayed(before) ==> error == rebase_error()
                    &&& faultless ==> !new_valid(before, new) || taken(
                        before,
                        agenda_branch((before.chain.hash_commit)(new)),
                    )
                },
            }
        }
}

proof fn lemma_agenda_put(
    before: World,
    now: World,
    author: MemberName,
    agenda: Agenda,
    faultless: bool,
)
    requires
        verified(before, now),
        agenda == new_agenda(before, now, author),
        agenda.height == before.last_header()->0.height + 1,
    ensures
        always(
            agenda_apply(before.state(), agenda),
            now,
            faultless,
            agenda_ends(before, author, faultless),
        ),
{
    broadcast use group_runs;

    let new = Commit::Agenda(agenda);
    let post = agenda_ends(before, author, faultless);
    let publish = publish_plan(new, before.state(), no_work_branch());
    let second = |commit: CommitHash| agenda_name(agenda, commit);
    let middle = |result: Result<CommitHash, ErrorView>, then: World|
        match result {
            Ok(commit) => put(before, then, new, commit) && then.told == now.told,
            Err(_) => !faultless && then.told == now.told,
        };
    if new_valid(before, new) {
        let applied = now.after(RequestView::ApplyCommit(new), Reply::Nothing(Ok(())));
        lemma_publish(before, applied, new, no_work_branch(), faultless, middle);
        assert forall|commit: CommitHash, then: World|
            #![trigger middle(Ok(commit), then)]
            middle(Ok(commit), then) implies always(second(commit), then, faultless, post) by {
            let name = agenda_branch((before.chain.hash_commit)(new));
            let last = then.after(
                RequestView::CreateBranch(name, commit),
                Reply::Nothing(Ok(())),
            );
            lemma_other_name(before, then, name, commit);
            if !then.repo.branches.contains_key(name) {
                assert(agenda_there(before, last, agenda, commit));
            }
        }
        lemma_bind_always(publish, second, applied, faultless, middle, post);
    }
}

/// A name that is not there after `work` moved was not there before.
proof fn lemma_other_name(before: World, then: World, name: Seq<char>, commit: CommitHash)
    requires
        before.repo.branches.contains_key(WORK_BRANCH_NAME@),
        then.repo.branches == before.repo.branches.insert(WORK_BRANCH_NAME@, commit),
    ensures
        taken(then, name) == taken(before, name),
{
}

/// Every run that creates an agenda.
proof fn lemma_agenda_ends(before: World, author: MemberName, faultless: bool)
    requires
        before.repo.well_formed(),
        faultless ==> (before.last_header() matches Some(header) ==> header.height < u64::MAX),
    ensures
        always(create_agenda_plan(author), before, faultless, agenda_ends(before, author, faultless)),
{
    broadcast use group_runs;

    law_rebase_message(WORK_BRANCH_NAME@);
    let post = agenda_ends(before, author, faultless);
    let height = before.last_header()->0.height;
    let state = before.state();
    let commits = work_commits(before);
    let third = |commits: Seq<(Commit, CommitHash)>|
        agenda_time(author, height, state, transactions_of(commits));
    law_transactions_of(commits);
    assert(transactions_of(commits) == work_transactions(before));
    assert forall|now: World| verified(before, now) implies #[trigger] always(
        third(commits),
        now,
        faultless,
        post,
    ) by {
        lemma_agenda_time(before, now, author, faultless);
    }
    assert forall|now: World| work_read(before, now) implies #[trigger] always(
        agenda_verify(apply_from(commits, 0), author, height, state),
        now,
        faultless,
        post,
    ) by {
        lemma_verify(before, now, third, faultless, post);
    }
    let second = |header: BlockHeader| agenda_work(author, header);
    let middle = |result: Result<BlockHeader, ErrorView>, then: World|
        match result {
            Ok(found) => before.last_header() == Some(found) && then == before,
            Err(_) => then == before && (!faultless || before.last_header() is None),
        };
    lemma_last_header(before, faultless, middle);
    assert forall|found: BlockHeader, then: World|
        #![trigger middle(Ok(found), then)]
        middle(Ok(found), then) implies always(second(found), then, faultless, post) by {
        lemma_work_read(before);
    }
    lemma_bind_always(last_header_plan(), second, before, faultless, middle, post);
}

proof fn lemma_agenda_time(before: World, now: World, author: MemberName, faultless: bool)
    requires
        verified(before, now),
        faultless ==> before.last_header()->0.height < u64::MAX,
    ensures
        always(
            agenda_time(
                author,
                before.last_header()->0.height,
                before.state(),
                work_transactions(before),
            ),
            now,
            faultless,
            agenda_ends(before, author, faultless),
        ),
{
    broadcast use group_runs;

    let post = agenda_ends(before, author, faultless);
    let state = before.state();
    let height = before.last_header()->0.height;
    let ask = RequestView::CalculateTransactionsHash(work_transactions(before));
    assert forall|time: Timestamp, hash: Hash256, agenda: Agenda, then: World|
        {
            &&& then == #[trigger] now.after(
                RequestView::GetTimestamp,
                Reply::Timestamp(time),
            ).after(ask, Reply::Hash(hash))
            &&& height < u64::MAX
            &&& agenda == (Agenda {
                height: (height + 1) as u64,
                author,
                timestamp: time,
                transactions_hash: hash,
            })
        } implies #[trigger] always(agenda_apply(state, agenda), then, faultless, post) by {
        lemma_agenda_put(before, then, author, agenda, faultless);
    }
}

pub proof fn lemma_agenda(before: World, author: MemberName)
    requires
        before.repo.well_formed(),
    ensures
        always(create_agenda_plan(author), before, false, agenda_post(before)),
{
    lemma_agenda_ends(before, author, false);
    lemma_always(
        create_agenda_plan(author),
        before,
        false,
        agenda_ends(before, author, false),
        agenda_post(before),
    );
}

/// Every run that creates an agenda ends as told: on a truthful host it ends well only with the
/// agenda that names all transactions on `work`, and on one without a fault it does so wherever the
/// agenda is valid there and its name is free.
pub proof fn law_create_agenda_ends(world: World, author: MemberName, faultless: bool)
    requires
        world.repo.well_formed(),
        faultless ==> (world.last_header() matches Some(header) ==> header.height < u64::MAX),
    ensures
        always(create_agenda_plan(author), world, faultless, agenda_ends(world, author, faultless)),
{
    lemma_agenda_ends(world, author, faultless);
}

/// The transactions among some commits are those that hold one, in their order: there are as many,
/// and each stands at the position that is the number of those before it.
pub proof fn law_transactions_of(commits: Seq<(Commit, CommitHash)>)
    ensures
        transactions_of(commits) == contents(commits).filter(
            |commit: Commit| commit is Transaction,
        ).map_values(|commit: Commit| commit->Transaction_0),
    decreases commits.len(),
{
    reveal(Seq::filter);
    let pick = |commit: Commit| commit is Transaction;
    let all = contents(commits);
    if commits.len() > 0 {
        let rest = commits.drop_last();
        law_transactions_of(rest);
        assert(contents(rest) =~= all.drop_last());
        assert(all.last() == commits.last().0);
        let before = all.drop_last().filter(pick);
        let value = |commit: Commit| commit->Transaction_0;
        if pick(all.last()) {
            assert(all.filter(pick) =~= before.push(all.last()));
            assert(before.push(all.last()).map_values(value) =~= before.map_values(value).push(
                value(all.last()),
            ));
        }
    }
    assert(transactions_of(commits) =~= all.filter(pick).map_values(
        |commit: Commit| commit->Transaction_0,
    ));
}

/// Reading the commits between `finalized` and `work`.
proof fn lemma_work_read(before: World)
    requires
        before.repo.well_formed(),
    ensures
        before.repo.branches.contains_key(FINALIZED_BRANCH_NAME@)
            && before.repo.branches.contains_key(WORK_BRANCH_NAME@) ==> {
            let last = before.repo.branches[FINALIZED_BRANCH_NAME@];
            let work = before.repo.branches[WORK_BRANCH_NAME@];
            &&& before.repo.descends(last, work) <==> before.repo.merge_base(last, last, work)
            &&& forall|base: CommitHash, commits: Vec<(Commit, CommitHash)>|
                #![trigger before.repo.merge_base(base, last, work), commits@]
                {
                    &&& before.repo.descends(last, work)
                    &&& before.repo.merge_base(base, last, work)
                    &&& before.chain.decodes(before.repo.between(base, work), commits@)
                } ==> before.chain.readable(work_path(before)) && commits@ == work_commits(before)
        },
{
    if before.repo.branches.contains_key(FINALIZED_BRANCH_NAME@)
        && before.repo.branches.contains_key(WORK_BRANCH_NAME@) {
        let last = before.repo.branches[FINALIZED_BRANCH_NAME@];
        let work = before.repo.branches[WORK_BRANCH_NAME@];
        lemma_merge_base(before.repo, last, work);
        assert forall|base: CommitHash, commits: Vec<(Commit, CommitHash)>|
            #![trigger before.repo.merge_base(base, last, work), commits@]
            {
                &&& before.repo.descends(last, work)
                &&& before.repo.merge_base(base, last, work)
                &&& before.chain.decodes(before.repo.between(base, work), commits@)
            } implies before.chain.readable(work_path(before)) && commits@ == work_commits(
            before,
        ) by {
            lemma_decodes(before.chain, work_path(before), commits@);
        }
    }
}

/// The finalization proof that the `fp` branch holds.
pub open spec fn proof_held(world: World) -> Option<LastFinalizationProof> {
    match world.repo.tip(FP_BRANCH_NAME@) {
        Some(fp) => (world.chain.decode_proof)(world.repo.paths[fp].last().0),
        None => None,
    }
}

/// How a host looks once a block is created.
pub open spec fn block_there(before: World, then: World, block: BlockHeader, commit: CommitHash)
    -> bool {
    let new = Commit::Block(block);
    &&& marked(before, then, new, commit, block_branch((before.chain.hash_commit)(new)))
    &&& before.last_header() matches Some(header)
    &&& block.height == header.height + 1
    &&& block.previous_hash == (before.chain.hash_header)(header)
    &&& proof_held(before) matches Some(proof)
    &&& block.prev_block_finalization_proof == proof.proof
}

pub open spec fn block_post(before: World) -> spec_fn(
    Result<(BlockHeader, CommitHash), ErrorView>,
    World,
) -> bool {
    |result: Result<(BlockHeader, CommitHash), ErrorView>, then: World|
        result matches Ok(output) ==> block_there(before, then, output.0, output.1)
}

/// The header that the host's time, roots and validators make: it is of the height after the last
/// one, names the last block by its hash, and carries the proof on `fp`.
pub open spec fn new_header(before: World, then: World, new: NewBlock) -> BlockHeader {
    let commits = contents(work_commits(before));
    BlockHeader {
        author: new.author,
        prev_block_finalization_proof: proof_held(before)->0.proof,
        previous_hash: (before.chain.hash_header)(before.last_header()->0),
        height: (before.last_header()->0.height + 1) as u64,
        timestamp: then.told[RequestView::GetTimestamp]->Timestamp_0,
        commit_merkle_root: then.told[RequestView::CalculateCommitMerkleRoot(commits)]->Hash_0,
        repository_merkle_root: no_root(),
        validator_set: then.told[RequestView::GetValidatorSet(
            before.state(),
        )]->ValidatorSet_0->Ok_0,
        version: new.version,
    }
}

/// The root of a repository that has none: zero in every byte.
pub open spec fn no_root() -> Hash256 {
    Hash256::zeroed()
}

/// The root is zero in every byte.
pub proof fn law_no_root()
    ensures
        forall|i: int| 0 <= i < 32 ==> #[trigger] no_root().hash@[i] == 0,
{
}

/// How a run that creates a block ends. It ends well with the new block on `work` and on its
/// branch. On a host without a fault it ends well exactly where the block is valid on top of
/// `work`, `fp` holds a proof, and the name of the branch is free. Where the block is not valid,
/// nothing has changed but what is checked out.
pub open spec fn block_ends(before: World, new: NewBlock, faultless: bool) -> spec_fn(
    Result<(BlockHeader, CommitHash), ErrorView>,
    World,
) -> bool {
    |result: Result<(BlockHeader, CommitHash), ErrorView>, then: World|
        {
            let block = Commit::Block(new_header(before, then, new));
            match result {
                Ok(created) => {
                    &&& created.0 == new_header(before, then, new)
                    &&& block_there(before, then, created.0, created.1)
                },
                Err(error) => {
                    &&& !new_valid(before, block) ==> same(before, then)
                    &&& faultless && strayed(before) ==> error == rebase_error()
                    &&& faultless ==> {
                        ||| !new_valid(before, block)
                        ||| proof_held(before) is None
                        ||| taken(before, block_branch((before.chain.hash_commit)(block)))
                    }
                },
            }
        }
}

proof fn lemma_block_put(
    before: World,
    now: World,
    new: NewBlock,
    header: BlockHeader,
    faultless: bool,
)
    requires
        verified(before, now),
        header == new_header(before, now, new),
        header.height == before.last_header()->0.height + 1,
        proof_held(before) is Some,
    ensures
        always(
            block_apply(before.state(), header),
            now,
            faultless,
            block_ends(before, new, faultless),
        ),
{
    broadcast use group_runs;

    let block = Commit::Block(header);
    let post = block_ends(before, new, faultless);
    let publish = publish_plan(block, before.state(), no_work_branch());
    let second = |commit: CommitHash| block_name(header, commit);
    let middle = |result: Result<CommitHash, ErrorView>, then: World|
        match result {
            Ok(commit) => put(before, then, block, commit) && then.told == now.told,
            Err(_) => !faultless && then.told == now.told,
        };
    if new_valid(before, block) {
        let applied = now.after(RequestView::ApplyCommit(block), Reply::Nothing(Ok(())));
        lemma_publish(before, applied, block, no_work_branch(), faultless, middle);
        assert forall|commit: CommitHash, then: World|
            #![trigger middle(Ok(commit), then)]
            middle(Ok(commit), then) implies always(second(commit), then, faultless, post) by {
            let name = block_branch((before.chain.hash_commit)(block));
            let last = then.after(
                RequestView::CreateBranch(name, commit),
                Reply::Nothing(Ok(())),
            );
            lemma_other_name(before, then, name, commit);
            if !then.repo.branches.contains_key(name) {
                assert(block_there(before, last, header, commit));
            }
        }
        lemma_bind_always(publish, second, applied, faultless, middle, post);
    }
}

/// What a new block is made of, up to its own validity.
proof fn lemma_block_time(
    before: World,
    now: World,
    new: NewBlock,
    start: BlockStart,
    faultless: bool,
)
    requires
        verified(before, now),
        proof_held(before) is Some,
        before.last_header()->0.height < u64::MAX,
        start.author == new.author,
        start.proof == proof_held(before)->0.proof,
        start.previous_hash == (before.chain.hash_header)(before.last_header()->0),
        start.height == before.last_header()->0.height + 1,
        start.version == new.version,
    ensures
        always(
            block_time(before.state(), contents(work_commits(before)), start),
            now,
            faultless,
            block_ends(before, new, faultless),
        ),
{
    broadcast use group_runs;

    let post = block_ends(before, new, faultless);
    let state = before.state();
    let commits = contents(work_commits(before));
    let root = RequestView::CalculateCommitMerkleRoot(commits);
    assert forall|time: Timestamp, hash: Hash256, validators: ValidatorSet, then: World|
        then == #[trigger] now.after(RequestView::GetTimestamp, Reply::Timestamp(time)).after(
            root,
            Reply::Hash(hash),
        ).after(
            RequestView::GetValidatorSet(state),
            Reply::ValidatorSet(Ok(validators)),
        ) implies #[trigger] always(
        block_apply(state, header_from(start, time, hash, validators)),
        then,
        faultless,
        post,
    ) by {
        lemma_block_put(
            before,
            then,
            new,
            header_from(start, time, hash, validators),
            faultless,
        );
    }
}

proof fn lemma_block_made(before: World, now: World, new: NewBlock, faultless: bool)
    requires
        verified(before, now),
        faultless ==> before.last_header()->0.height < u64::MAX,
    ensures
        always(
            block_fp(
                new,
                before.last_header()->0,
                before.state(),
                contents(work_commits(before)),
            ),
            now,
            faultless,
            block_ends(before, new, faultless),
        ),
{
    broadcast use group_runs;

    let post = block_ends(before, new, faultless);
    let state = before.state();
    let header = before.last_header()->0;
    assert(now.repo.tip(FP_BRANCH_NAME@) == before.repo.tip(FP_BRANCH_NAME@));
    assert forall|start: BlockStart|
        {
            &&& proof_held(before) is Some
            &&& header.height < u64::MAX
            &&& start.author == new.author
            &&& start.proof == proof_held(before)->0.proof
            &&& start.previous_hash == (before.chain.hash_header)(header)
            &&& start.height == header.height + 1
            &&& start.version == new.version
        } implies #[trigger] always(
        block_time(state, contents(work_commits(before)), start),
        now,
        faultless,
        post,
    ) by {
        lemma_block_time(before, now, new, start, faultless);
    }
}

/// Every run that creates a block.
proof fn lemma_block_ends(before: World, new: NewBlock, faultless: bool)
    requires
        before.repo.well_formed(),
        faultless ==> (before.last_header() matches Some(header) ==> header.height < u64::MAX),
    ensures
        always(create_block_plan(new), before, faultless, block_ends(before, new, faultless)),
{
    broadcast use group_runs;

    law_rebase_message(WORK_BRANCH_NAME@);
    let post = block_ends(before, new, faultless);
    let commits = work_commits(before);
    let second = |header: BlockHeader| block_checkout(new, commits, header);
    let middle = |result: Result<BlockHeader, ErrorView>, then: World|
        match result {
            Ok(found) => before.last_header() == Some(found) && then == before,
            Err(_) => then == before && (!faultless || before.last_header() is None),
        };
    if before.repo.branches.contains_key(FINALIZED_BRANCH_NAME@)
        && before.repo.branches.contains_key(WORK_BRANCH_NAME@) && before.repo.descends(
        before.repo.branches[FINALIZED_BRANCH_NAME@],
        before.repo.branches[WORK_BRANCH_NAME@],
    ) && before.chain.readable(work_path(before)) {
        assert forall|found: BlockHeader, then: World|
            #![trigger middle(Ok(found), then)]
            middle(Ok(found), then) implies always(second(found), then, faultless, post) by {
            let state = before.state();
            let third = |commits: Seq<(Commit, CommitHash)>|
                block_fp(new, found, state, bare(commits));
            law_bare(commits);
            assert forall|now: World| work_read(before, now) implies #[trigger] always(
                block_verify(apply_from(commits, 0), new, found, state),
                now,
                faultless,
                post,
            ) by {
                assert forall|then: World| verified(before, then) implies #[trigger] always(
                    third(commits),
                    then,
                    faultless,
                    post,
                ) by {
                    lemma_block_made(before, then, new, faultless);
                }
                lemma_verify(before, now, third, faultless, post);
            }
        }
        lemma_last_header(before, faultless, middle);
        lemma_bind_always(last_header_plan(), second, before, faultless, middle, post);
        assert(always(block_header(last_header_plan(), new, commits), before, faultless, post));
    }
    lemma_work_read(before);
    if before.repo.branches.contains_key(FINALIZED_BRANCH_NAME@)
        && before.repo.branches.contains_key(WORK_BRANCH_NAME@) {
        let last = before.repo.branches[FINALIZED_BRANCH_NAME@];
        let work = before.repo.branches[WORK_BRANCH_NAME@];
        if before.repo.descends(last, work) {
            assert(always(block_read(new, work, last), before, faultless, post));
        }
        assert(always(block_rebased(new, work, last), before, faultless, post));
    }
}

pub proof fn lemma_block(before: World, new: NewBlock)
    requires
        before.repo.well_formed(),
    ensures
        always(create_block_plan(new), before, false, block_post(before)),
{
    lemma_block_ends(before, new, false);
    lemma_always(
        create_block_plan(new),
        before,
        false,
        block_ends(before, new, false),
        block_post(before),
    );
}

/// Every run that creates a block ends as told: on a truthful host it ends well only with the block
/// that the commits on `work` and the proof on `fp` make, and on one without a fault it does so
/// wherever that block is valid on top of `work` and its name is free.
pub proof fn law_create_block_ends(world: World, new: NewBlock, faultless: bool)
    requires
        world.repo.well_formed(),
        faultless ==> (world.last_header() matches Some(header) ==> header.height < u64::MAX),
    ensures
        always(create_block_plan(new), world, faultless, block_ends(world, new, faultless)),
{
    lemma_block_ends(world, new, faultless);
}

/// Commits without their hashes are all of them, in their order.
pub proof fn law_bare(commits: Seq<(Commit, CommitHash)>)
    ensures
        bare(commits) == contents(commits),
        bare(commits).len() == commits.len(),
        forall|i: int| 0 <= i < commits.len() ==> #[trigger] bare(commits)[i] == commits[i].0,
{
    assert(bare(commits) =~= contents(commits));
}

pub open spec fn extra_post(before: World, new: Commit) -> spec_fn(
    Result<CommitHash, ErrorView>,
    World,
) -> bool {
    |result: Result<CommitHash, ErrorView>, then: World|
        result matches Ok(commit) ==> put(before, then, new, commit)
}

/// How a run that puts a commit on `work` ends: well with the commit there, and on a host without a
/// fault exactly where the commit is valid there. Where it is not, nothing has changed.
pub open spec fn extra_ends(before: World, new: Commit, faultless: bool) -> spec_fn(
    Result<CommitHash, ErrorView>,
    World,
) -> bool {
    |result: Result<CommitHash, ErrorView>, then: World|
        match result {
            Ok(commit) => put(before, then, new, commit),
            Err(error) => {
                &&& !new_valid(before, new) ==> same(before, then)
                &&& faultless && strayed(before) ==> error == rebase_error()
                &&& faultless ==> !new_valid(before, new)
            },
        }
}

/// Every run that creates an extra-agenda transaction ends as told: on a truthful host it ends well
/// only with the transaction on `work`, and on one without a fault it does so wherever the
/// transaction is valid there.
pub proof fn law_create_extra_agenda_transaction_ends(
    before: World,
    transaction: ExtraAgendaTransaction,
    faultless: bool,
)
    requires
        before.repo.well_formed(),
    ensures
        always(
            create_extra_plan(transaction),
            before,
            faultless,
            extra_ends(before, Commit::ExtraAgendaTransaction(transaction), faultless),
        ),
{
    broadcast use group_runs;

    law_rebase_message(WORK_BRANCH_NAME@);
    let new = Commit::ExtraAgendaTransaction(transaction);
    let post = extra_ends(before, new, faultless);
    let commits = work_commits(before);
    let state = before.state();
    let second = |header: BlockHeader| extra_verifier(transaction, state, commits, header);
    let middle = |result: Result<BlockHeader, ErrorView>, then: World|
        match result {
            Ok(found) => before.last_header() == Some(found) && then == before,
            Err(_) => then == before && (!faultless || before.last_header() is None),
        };
    if before.repo.branches.contains_key(FINALIZED_BRANCH_NAME@)
        && before.repo.branches.contains_key(WORK_BRANCH_NAME@) && before.repo.descends(
        before.repo.branches[FINALIZED_BRANCH_NAME@],
        before.repo.branches[WORK_BRANCH_NAME@],
    ) && before.chain.readable(work_path(before)) {
        assert forall|found: BlockHeader, then: World|
            #![trigger middle(Ok(found), then)]
            middle(Ok(found), then) implies always(second(found), then, faultless, post) by {
            let third = |_commits: Seq<(Commit, CommitHash)>| extra_apply(transaction, state);
            assert forall|now: World| work_read(before, now) implies #[trigger] always(
                extra_verify(apply_from(commits, 0), transaction, state),
                now,
                faultless,
                post,
            ) by {
                assert forall|then: World| verified(before, then) implies #[trigger] always(
                    third(commits),
                    then,
                    faultless,
                    post,
                ) by {
                    if new_valid(before, new) {
                        let applied = then.after(
                            RequestView::ApplyCommit(new),
                            Reply::Nothing(Ok(())),
                        );
                        lemma_publish(before, applied, new, Blame::Pass, faultless, post);
                    }
                }
                lemma_verify(before, now, third, faultless, post);
            }
        }
        lemma_last_header(before, faultless, middle);
        lemma_bind_always(last_header_plan(), second, before, faultless, middle, post);
    }
    lemma_work_read(before);
    if before.repo.branches.contains_key(FINALIZED_BRANCH_NAME@)
        && before.repo.branches.contains_key(WORK_BRANCH_NAME@) {
        let last = before.repo.branches[FINALIZED_BRANCH_NAME@];
        let work = before.repo.branches[WORK_BRANCH_NAME@];
        if before.repo.descends(last, work) {
            assert(always(extra_read(transaction, work, last, state), before, faultless, post));
        }
        assert(always(extra_rebased(transaction, work, last, state), before, faultless, post));
    }
}

pub proof fn lemma_extra(before: World, transaction: ExtraAgendaTransaction)
    requires
        before.repo.well_formed(),
    ensures
        always(
            create_extra_plan(transaction),
            before,
            false,
            extra_post(before, Commit::ExtraAgendaTransaction(transaction)),
        ),
{
    let new = Commit::ExtraAgendaTransaction(transaction);
    law_create_extra_agenda_transaction_ends(before, transaction, false);
    lemma_always(
        create_extra_plan(transaction),
        before,
        false,
        extra_ends(before, new, false),
        extra_post(before, new),
    );
}

/// A new commit on `work` and on a branch of its own leaves `finalized` as it was. The way from
/// there to the new commit is the way to `work`, with the new commit behind it.
pub proof fn lemma_marked(
    before: World,
    then: World,
    new: Commit,
    commit: CommitHash,
    name: Seq<char>,
)
    requires
        before.repo.well_formed(),
        before.chain.consistent(),
        marked(before, then, new, commit, name),
        name != FINALIZED_BRANCH_NAME@,
    ensures
        then.repo.tip(FINALIZED_BRANCH_NAME@) == before.repo.tip(FINALIZED_BRANCH_NAME@),
        then.last_header() == before.last_header(),
        then.state() == before.state(),
        then.content(commit) == Some(new),
        then.repo.descends(before.repo.branches[FINALIZED_BRANCH_NAME@], commit),
        then.repo.between(before.repo.branches[FINALIZED_BRANCH_NAME@], commit) == work_path(
            before,
        ).push(((before.chain.encode)(new, before.state()), commit)),
        then.chain.readable(then.repo.between(before.repo.branches[FINALIZED_BRANCH_NAME@], commit)),
{
    let last = before.repo.branches[FINALIZED_BRANCH_NAME@];
    let work = before.repo.branches[WORK_BRANCH_NAME@];
    lemma_permanent_names();
    assert(before.repo.paths.contains_key(last) && before.repo.paths.contains_key(work));
    assert(then.repo.paths[last].is_prefix_of(then.repo.paths[commit])) by {
        assert(then.repo.paths[commit].subrange(0, before.repo.paths[last].len() as int)
            =~= before.repo.paths[work].subrange(0, before.repo.paths[last].len() as int));
    }
    let path = then.repo.between(last, commit);
    assert(path =~= work_path(before).push(((before.chain.encode)(new, before.state()), commit)));
    assert forall|i: int| 0 <= i < path.len() implies (then.chain.decode)(
        (#[trigger] path[i]).0,
    ) is Some by {
        if i < work_path(before).len() {
            assert(path[i] == work_path(before)[i]);
        }
    }
}

/// Whether a commit is read as what it is to hold, and nothing changes.
pub open spec fn reads_back(world: World, commit: CommitHash, content: Commit) -> bool {
    surely(read_commit_plan(commit), world, gives(content, world))
}

proof fn lemma_reads_back(before: World, then: World, new: Commit, commit: CommitHash)
    requires
        before.chain.consistent(),
        built(before, then, new, commit),
    ensures
        reads_back(then, commit, new),
{
    let known = |result: Result<Commit, ErrorView>, end: World|
        result == Ok::<Commit, ErrorView>(new) && end == then;
    assert(then.content(commit) == Some(new));
    lemma_read_commit(then, commit, true, known);
    lemma_surely(read_commit_plan(commit), then, known, gives(new, then));
}

/// An agenda that is created is read back by its commit.
pub proof fn law_created_agenda_is_read_back(world: World, author: MemberName)
    requires
        world.repo.well_formed(),
        world.chain.consistent(),
    ensures
        after_ok(
            create_agenda_plan(author),
            world,
            |created: (Agenda, CommitHash), then: World|
                reads_back(then, created.1, Commit::Agenda(created.0)),
        ),
{
    let good = |created: (Agenda, CommitHash), then: World|
        reads_back(then, created.1, Commit::Agenda(created.0));
    lemma_agenda(world, author);
    assert forall|created: (Agenda, CommitHash), then: World| #[trigger]
        agenda_post(world)(Ok(created), then) implies good(created, then) by {
        lemma_reads_back(world, then, Commit::Agenda(created.0), created.1);
    }
    lemma_after_ok(create_agenda_plan(author), world, agenda_post(world), good);
}

/// A block that is created is read back by its commit.
pub proof fn law_created_block_is_read_back(world: World, new: NewBlock)
    requires
        world.repo.well_formed(),
        world.chain.consistent(),
    ensures
        after_ok(
            create_block_plan(new),
            world,
            |created: (BlockHeader, CommitHash), then: World|
                reads_back(then, created.1, Commit::Block(created.0)),
        ),
{
    let good = |created: (BlockHeader, CommitHash), then: World|
        reads_back(then, created.1, Commit::Block(created.0));
    lemma_block(world, new);
    assert forall|created: (BlockHeader, CommitHash), then: World| #[trigger]
        block_post(world)(Ok(created), then) implies good(created, then) by {
        lemma_reads_back(world, then, Commit::Block(created.0), created.1);
    }
    lemma_after_ok(create_block_plan(new), world, block_post(world), good);
}

/// An extra-agenda transaction that is created is read back by its commit.
pub proof fn law_created_extra_agenda_transaction_is_read_back(
    world: World,
    transaction: ExtraAgendaTransaction,
)
    requires
        world.repo.well_formed(),
        world.chain.consistent(),
    ensures
        after_ok(
            create_extra_plan(transaction),
            world,
            |commit: CommitHash, then: World|
                reads_back(then, commit, Commit::ExtraAgendaTransaction(transaction)),
        ),
{
    let new = Commit::ExtraAgendaTransaction(transaction);
    let good = |commit: CommitHash, then: World|
        reads_back(then, commit, Commit::ExtraAgendaTransaction(transaction));
    lemma_extra(world, transaction);
    assert forall|commit: CommitHash, then: World| #[trigger]
        extra_post(world, new)(Ok(commit), then) implies good(commit, then) by {
        lemma_reads_back(world, then, new, commit);
    }
    lemma_after_ok(create_extra_plan(transaction), world, extra_post(world, new), good);
}

} // verus!
