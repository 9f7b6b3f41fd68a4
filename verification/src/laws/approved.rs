//! How an approval ends on a host that answers truthfully.
use vstd::prelude::*;

use crate::approve::{
    approve_create, approve_delete, approve_hash, approve_header, approve_if_new, approve_plan,
    approve_read, approve_rebased, approve_state, approve_verifier, approve_verify, lists,
    Approval,
};
use crate::data::{AgendaProof, BlockHeader, Commit};
use crate::error::ErrorView;
use crate::hash::{agenda_branch, CommitHash};
use crate::host::{Reply, RequestView};
use crate::laws::calls::{
    contents, lemma_apply, lemma_commit_on, lemma_committed, lemma_last_header,
};
use crate::laws::created::{fresh_trial, law_rebase_message, same};
use crate::laws::listed::ahead_of;
use crate::laws::world::{
    always, group_runs, lemma_bind_always, lemma_merge_base, lemma_reads, Repo, World,
};
use crate::plan::{fail, Plan};
use crate::query::last_header_plan;
use crate::steps::apply_from;
use crate::FINALIZED_BRANCH_NAME;

verus! {

/// The commit that the branch of an agenda is at.
pub open spec fn agenda_tip(world: World, approval: Approval) -> Option<CommitHash> {
    world.repo.tip(agenda_branch(approval.agenda_hash))
}

/// What the branch of an agenda holds after `finalized`.
pub open spec fn agenda_contents(world: World, approval: Approval) -> Seq<Commit> {
    contents(world.chain.held(ahead_of(world, agenda_tip(world, approval)->0)))
}

/// The proof that an approval makes of the last commit of the branch: it is of the height of the
/// agenda there, names the agenda by its hash, and holds the signatures and the time of the
/// approval.
pub open spec fn new_proof(world: World, approval: Approval) -> Commit {
    let last = agenda_contents(world, approval).last();
    Commit::AgendaProof(
        AgendaProof {
            height: last->Agenda_0.height,
            agenda_hash: (world.chain.hash_commit)(last),
            proof: approval.proof,
            timestamp: approval.timestamp,
        },
    )
}

/// Whether the branch of an agenda is on top of `finalized`, and its commits are valid there.
pub open spec fn agenda_valid(world: World, approval: Approval) -> bool {
    &&& world.repo.tip(FINALIZED_BRANCH_NAME@) matches Some(last)
    &&& agenda_tip(world, approval) matches Some(at)
    &&& world.repo.descends(last, at)
    &&& world.chain.readable(ahead_of(world, at))
    &&& world.last_header() is Some
    &&& (world.chain.starts)(world.last_header()->0, world.state())
    &&& agenda_contents(world, approval).len() > 0
    &&& world.chain.all_valid(fresh_trial(world), agenda_contents(world, approval))
}

/// Whether an approval can be recorded: the branch of the agenda is valid and ends in an agenda,
/// and the proof is valid on top of it.
pub open spec fn approvable(world: World, approval: Approval) -> bool {
    &&& agenda_valid(world, approval)
    &&& agenda_contents(world, approval).last() is Agenda
    &&& (world.chain.valid)(
        fresh_trial(world).more(agenda_contents(world, approval)),
        new_proof(world, approval),
    )
}

/// How a host looks once an approval is recorded: the branch of the agenda is gone, and the one
/// named after the proof is at a commit of the proof on top of the agenda. Where there was such a
/// branch already, it is left as it is, and its commit is the one.
pub open spec fn approved(
    before: World,
    then: World,
    approval: Approval,
    commit: CommitHash,
) -> bool {
    let new = new_proof(before, approval);
    let name = agenda_branch((before.chain.hash_commit)(new));
    let rest = before.repo.branches.remove(agenda_branch(approval.agenda_hash));
    &&& then.chain == before.chain
    &&& then.repo.well_formed()
    &&& then.repo.tags == before.repo.tags
    &&& then.repo.remotes == before.repo.remotes
    &&& if rest.contains_key(name) {
        &&& commit == rest[name]
        &&& then.repo.branches == rest
        &&& then.repo.paths == before.repo.paths
    } else {
        &&& !before.repo.paths.contains_key(commit)
        &&& then.repo.branches == rest.insert(name, commit)
        &&& then.repo.paths == before.repo.paths.insert(
            commit,
            before.repo.paths[agenda_tip(before, approval)->0].push(
                ((before.chain.encode)(new, before.state()), commit),
            ),
        )
    }
}

/// Whether the branch of an agenda has left `finalized`: they have an ancestor in common, and the
/// branch is not on top.
pub open spec fn agenda_strayed(world: World, approval: Approval) -> bool {
    &&& world.repo.tip(FINALIZED_BRANCH_NAME@) matches Some(last)
    &&& agenda_tip(world, approval) matches Some(at)
    &&& !world.repo.descends(last, at)
    &&& !world.repo.unrelated(last, at)
}

/// How a run that records an approval ends. It ends well with the commit of the proof on the branch
/// named after it. On a host without a fault it ends well exactly where the approval can be
/// recorded. Where it cannot, nothing has changed.
pub open spec fn approve_ends(before: World, approval: Approval, faultless: bool) -> spec_fn(
    Result<CommitHash, ErrorView>,
    World,
) -> bool {
    |result: Result<CommitHash, ErrorView>, then: World|
        match result {
            Ok(commit) => approvable(before, approval) && approved(before, then, approval, commit),
            Err(error) => {
                &&& !approvable(before, approval) ==> same(before, then)
                &&& faultless ==> !approvable(before, approval)
                &&& faultless && agenda_strayed(before, approval) ==> error == ErrorView::Message(
                    "branch "@ + agenda_branch(approval.agenda_hash)
                        + " should be rebased on finalized"@,
                )
                &&& faultless && agenda_valid(before, approval) && !(agenda_contents(
                    before,
                    approval,
                ).last() is Agenda) ==> error == ErrorView::Message("not an agenda commit"@)
            },
        }
}

/// Making the branch of the proof.
proof fn lemma_create(before: World, now: World, approval: Approval, faultless: bool)
    requires
        before.repo.well_formed(),
        approvable(before, approval),
        same(before, now),
    ensures
        always(
            approve_delete(
                approval.agenda_hash,
                agenda_tip(before, approval)->0,
                before.state(),
                new_proof(before, approval),
            ),
            now,
            faultless,
            approve_ends(before, approval, faultless),
        ),
{
    broadcast use group_runs;

    let post = approve_ends(before, approval, faultless);
    let at = agenda_tip(before, approval)->0;
    let new = new_proof(before, approval);
    let name = agenda_branch((before.chain.hash_commit)(new));
    let stored = (before.chain.encode)(new, before.state());
    let gone = now.with(
        Repo {
            branches: now.repo.branches.remove(agenda_branch(approval.agenda_hash)),
            ..now.repo
        },
    );
    assert(before.repo.paths.contains_key(at));
    assert(gone.repo.well_formed());
    assert forall|names: Seq<String>| #[trigger]
        gone.repo.lists_names(names) implies gone.repo.branches.contains_key(name) == lists(
        names,
        name,
    ) by {}
    if gone.repo.branches.contains_key(name) {
        assert(approved(before, gone, approval, gone.repo.branches[name]));
    } else {
        let made = gone.with(
            Repo { branches: gone.repo.branches.insert(name, at), ..gone.repo },
        );
        lemma_commit_on(made, name, stored);
        assert(made.repo.well_formed());
        assert forall|commit: CommitHash| !made.repo.paths.contains_key(commit) implies approved(
            before,
            #[trigger] made.committed(name, stored, commit),
            approval,
            commit,
        ) by {
            lemma_committed(made, name, stored, commit);
            assert(made.committed(name, stored, commit).repo.branches =~= gone.repo.branches.insert(
                name,
                commit,
            ));
        }
        assert(always(approve_create(at, stored, name), gone, faultless, post));
    }
    assert(always(approve_if_new(at, stored, name), gone, faultless, post));
}

/// An approval once the commits of the branch are verified.
proof fn lemma_verified(before: World, now: World, approval: Approval, faultless: bool)
    requires
        before.repo.well_formed(),
        agenda_valid(before, approval),
        agenda_contents(before, approval).last() is Agenda,
        same(before, now),
        now.trial == Some(fresh_trial(before).more(agenda_contents(before, approval))),
    ensures
        always(
            approve_hash(
                approval,
                agenda_tip(before, approval)->0,
                before.state(),
                agenda_contents(before, approval).last(),
                agenda_contents(before, approval).last()->Agenda_0.height,
            ),
            now,
            faultless,
            approve_ends(before, approval, faultless),
        ),
{
    broadcast use group_runs;

    if approvable(before, approval) {
        let applied = now.after(
            RequestView::ApplyCommit(new_proof(before, approval)),
            Reply::Nothing(Ok(())),
        );
        lemma_create(before, applied, approval, faultless);
    }
}

/// An approval once the commits of the branch are read.
proof fn lemma_read(before: World, approval: Approval, faultless: bool)
    requires
        before.repo.well_formed(),
        before.repo.tip(FINALIZED_BRANCH_NAME@) is Some,
        agenda_tip(before, approval) is Some,
        agenda_tip(before, approval) != before.repo.tip(FINALIZED_BRANCH_NAME@),
        before.repo.descends(
            before.repo.branches[FINALIZED_BRANCH_NAME@],
            agenda_tip(before, approval)->0,
        ),
        before.chain.readable(ahead_of(before, agenda_tip(before, approval)->0)),
        before.last_header() is Some,
    ensures
        always(
            approve_verifier(
                approval,
                agenda_tip(before, approval)->0,
                before.last_header()->0,
                before.state(),
                before.chain.held(ahead_of(before, agenda_tip(before, approval)->0)),
            ),
            before,
            faultless,
            approve_ends(before, approval, faultless),
        ),
{
    broadcast use group_runs;

    let post = approve_ends(before, approval, faultless);
    let last = before.repo.branches[FINALIZED_BRANCH_NAME@];
    let agenda = agenda_tip(before, approval)->0;
    let state = before.state();
    let trial = fresh_trial(before);
    let path = ahead_of(before, agenda);
    let commits = before.chain.held(path);
    let held = agenda_contents(before, approval);
    assert(commits.len() > 0) by {
        if before.repo.paths[last].len() == before.repo.paths[agenda].len() {
            assert(before.repo.paths[last] =~= before.repo.paths[agenda]);
        }
    }
    assert(held.last() == commits.last().0);
    let second = |commits: Seq<(Commit, CommitHash)>|
        if commits.len() == 0 {
            Plan::Stuck
        } else {
            match commits.last().0 {
                Commit::Agenda(last) => approve_hash(
                    approval,
                    agenda,
                    state,
                    commits.last().0,
                    last.height,
                ),
                _ => fail("not an agenda commit"@),
            }
        };
    let middle = |result: Result<Seq<(Commit, CommitHash)>, ErrorView>, then: World|
        match result {
            Ok(found) => {
                &&& found == commits
                &&& agenda_valid(before, approval)
                &&& same(before, then)
                &&& then.trial == Some(trial.more(held))
            },
            Err(_) => {
                &&& same(before, then)
                &&& !faultless || !agenda_valid(before, approval)
            },
        };
    let started = before.on_trial(trial);
    if (before.chain.starts)(before.last_header()->0, state) {
        assert forall|found: Seq<(Commit, CommitHash)>, then: World|
            #![trigger middle(Ok(found), then)]
            middle(Ok(found), then) implies always(second(found), then, faultless, post) by {
            if held.last() is Agenda {
                lemma_verified(before, then, approval, faultless);
            }
        }
        assert(trial.more(held.take(0)).applied =~= trial.applied);
        lemma_apply(started, trial, commits, 0, faultless, middle);
        lemma_bind_always(apply_from(commits, 0), second, started, faultless, middle, post);
        assert(always(
            approve_verify(apply_from(commits, 0), approval, agenda, state),
            started,
            faultless,
            post,
        ));
    }
}

/// Every run that records an approval ends as told: on a truthful host it ends well only with the
/// proof recorded, and on one without a fault it does so wherever the branch of the agenda is valid
/// on top of `finalized` and ends in an agenda, and the proof is valid on top of it.
pub proof fn law_approve_ends(world: World, approval: Approval, faultless: bool)
    requires
        world.repo.well_formed(),
        faultless && agenda_tip(world, approval) is Some ==> agenda_tip(world, approval)
            != world.repo.tip(FINALIZED_BRANCH_NAME@),
    ensures
        always(approve_plan(approval), world, faultless, approve_ends(world, approval, faultless)),
{
    broadcast use group_runs;

    let post = approve_ends(world, approval, faultless);
    law_rebase_message(agenda_branch(approval.agenda_hash));
    if world.repo.tip(FINALIZED_BRANCH_NAME@) is Some && agenda_tip(world, approval) is Some {
        let last = world.repo.branches[FINALIZED_BRANCH_NAME@];
        let agenda = agenda_tip(world, approval)->0;
        let path = ahead_of(world, agenda);
        lemma_merge_base(world.repo, last, agenda);
        if world.repo.descends(last, agenda) {
            let second = |header: BlockHeader| approve_state(approval, agenda, header);
            let middle = |result: Result<BlockHeader, ErrorView>, then: World|
                match result {
                    Ok(found) => world.last_header() == Some(found) && then == world,
                    Err(_) => then == world && (!faultless || world.last_header() is None),
                };
            lemma_reads(world, last, agenda);
            assert forall|found: BlockHeader, then: World|
                #![trigger middle(Ok(found), then)]
                middle(Ok(found), then) implies always(second(found), then, faultless, post) by {
                if world.chain.readable(path) && last != agenda {
                    lemma_read(world, approval, faultless);
                }
                if last == agenda {
                    lemma_no_commits(world, approval, found);
                }
                assert(always(
                    approve_read(approval, agenda, found, world.state(), last),
                    world,
                    faultless,
                    post,
                ));
            }
            lemma_last_header(world, faultless, middle);
            lemma_bind_always(last_header_plan(), second, world, faultless, middle, post);
            assert(always(
                approve_header(last_header_plan(), approval, agenda),
                world,
                faultless,
                post,
            ));
        }
        assert(always(approve_rebased(approval, last, agenda), world, faultless, post));
    }
}

/// Where the branch of the agenda is at the finalized commit, an approval does not end.
proof fn lemma_no_commits(world: World, approval: Approval, header: BlockHeader)
    requires
        agenda_tip(world, approval) is Some,
        agenda_tip(world, approval) == world.repo.tip(FINALIZED_BRANCH_NAME@),
    ensures
        !agenda_valid(world, approval),
        always(
            approve_verifier(
                approval,
                agenda_tip(world, approval)->0,
                header,
                world.state(),
                world.chain.held(ahead_of(world, agenda_tip(world, approval)->0)),
            ),
            world,
            false,
            approve_ends(world, approval, false),
        ),
{
    broadcast use group_runs;

    let commits = world.chain.held(ahead_of(world, agenda_tip(world, approval)->0));
    assert(commits.len() == 0);
    assert(agenda_contents(world, approval).len() == 0);
}

} // verus!
