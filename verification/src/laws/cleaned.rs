//! How a cleaning ends on a host that answers truthfully.
use vstd::prelude::*;

use crate::clean::{
    clean_delete, clean_from, clean_header, clean_judge, clean_list, clean_plan, clean_remotes,
    is_permanent, keep_checkout, keep_from, keep_plan, keep_read, keep_state, keep_verifier,
    may_stay, remove_from, CleanJob,
};
use crate::data::{BlockHeader, Commit};
use crate::error::ErrorView;
use crate::hash::CommitHash;
use crate::host::{Reply, RequestView};
use crate::laws::calls::{contents, lemma_last_header};
use crate::laws::created::fresh_trial;
use crate::laws::listed::{ahead_of, on_top};
use crate::laws::world::{
    always, group_runs, lemma_bind_always, lemma_merge_base, lemma_reads, lists_branches, Repo,
    Trial, World,
};
use crate::query::last_header_plan;
use crate::FINALIZED_BRANCH_NAME;

verus! {

/// Whether a branch is one of the three that every cleaning leaves.
pub open spec fn lasting(name: Seq<char>) -> bool {
    name == "finalized"@ || name == "work"@ || name == "fp"@
}

/// Whether a cleaning that is not hard may leave a branch, by its name.
pub open spec fn may_outlast(name: Seq<char>) -> bool {
    name == "p"@ || "a-"@.is_prefix_of(name) || "b-"@.is_prefix_of(name)
}

/// The permanent branches are `finalized`, `work` and `fp`, and no others. Besides those, the
/// branches that may stay are `p` and those whose names begin with `a-` or `b-`, and no others.
pub proof fn law_permanent_branches(name: Seq<char>)
    ensures
        is_permanent(name) <==> name == "finalized"@ || name == "work"@ || name == "fp"@,
        may_stay(name) <==> name == "p"@ || "a-"@.is_prefix_of(name) || "b-"@.is_prefix_of(name),
{
}

/// Whether a branch at some commit is on top of `finalized`, and its commits are valid there.
pub open spec fn sound(world: World, commit: CommitHash) -> bool {
    &&& on_top(world, commit)
    &&& world.chain.all_valid(
        fresh_trial(world),
        contents(world.chain.held(ahead_of(world, commit))),
    )
}

/// Whether it can be told of a branch at some commit whether it is sound: it has an ancestor in
/// common with `finalized`, and where it is on top of it, its commits can be read and verified.
pub open spec fn judgeable(world: World, commit: CommitHash) -> bool {
    &&& !world.repo.unrelated(commit, world.repo.branches[FINALIZED_BRANCH_NAME@])
    &&& on_top(world, commit) ==> {
        &&& world.chain.readable(ahead_of(world, commit))
        &&& (world.chain.starts)(world.last_header()->0, world.state())
    }
}

/// Whether a cleaning leaves a branch: one of the three that last, or, where the cleaning is not
/// hard, one that may outlast it and is sound.
pub open spec fn stays(world: World, hard: bool, name: Seq<char>) -> bool {
    lasting(name) || (!hard && may_outlast(name) && sound(world, world.repo.branches[name]))
}

/// Whether a repository can be cleaned: `finalized` is at a block, and it can be told of every
/// branch that may stay whether it is sound.
pub open spec fn cleanable(world: World, hard: bool) -> bool {
    &&& world.repo.branches.contains_key(FINALIZED_BRANCH_NAME@)
    &&& world.last_header() is Some
    &&& !hard ==> forall|name: Seq<char>| #[trigger]
        world.repo.branches.contains_key(name) && may_outlast(name) && !lasting(name)
            ==> judgeable(world, world.repo.branches[name])
}

/// How a host looks after a cleaning: of its branches those are left that stay, at their commits,
/// and of its remotes none. The commits and the tags are as they were.
pub open spec fn cleaned(before: World, then: World, hard: bool) -> bool {
    &&& then.chain == before.chain
    &&& then.repo.paths == before.repo.paths
    &&& then.repo.tags == before.repo.tags
    &&& then.repo.remotes.dom() == Set::<Seq<char>>::empty()
    &&& forall|name: Seq<char>| #[trigger]
        then.repo.branches.contains_key(name) <==> before.repo.branches.contains_key(name)
            && stays(before, hard, name)
    &&& forall|name: Seq<char>| #[trigger]
        then.repo.branches.contains_key(name) ==> then.repo.branches[name]
            == before.repo.branches[name]
}

/// The same of a host that may fail: a verifier that fails may cost a sound branch, but not one of
/// the three that last.
pub open spec fn cleaned_at_least(before: World, then: World, hard: bool) -> bool {
    &&& then.chain == before.chain
    &&& then.repo.paths == before.repo.paths
    &&& then.repo.tags == before.repo.tags
    &&& then.repo.remotes.dom() == Set::<Seq<char>>::empty()
    &&& forall|name: Seq<char>| #[trigger]
        then.repo.branches.contains_key(name) ==> {
            &&& before.repo.branches.contains_key(name)
            &&& then.repo.branches[name] == before.repo.branches[name]
            &&& stays(before, hard, name)
        }
    &&& forall|name: Seq<char>| #[trigger]
        before.repo.branches.contains_key(name) && lasting(name)
            ==> then.repo.branches.contains_key(name)
}

/// Whether a host told a list that names something twice.
pub open spec fn repeats(then: World) -> bool {
    ||| then.told[RequestView::RetrieveLocalBranches] matches Reply::Branches(Ok(branches))
        && exists|i: int, j: int|
        0 <= i < j < branches@.len() && #[trigger] branches@[i].0@ == #[trigger] branches@[j].0@
    ||| then.told[RequestView::ListRemotes] matches Reply::Remotes(Ok(remotes)) && exists|
        i: int,
        j: int,
    |
        0 <= i < j < remotes@.len() && #[trigger] remotes@[i].0@ == #[trigger] remotes@[j].0@
}

/// How a run that cleans a repository ends. It ends well with nothing left that ought to go, and on
/// a host without a fault with all that stays. There it ends well wherever the repository can be
/// cleaned, unless the host lists something twice. However it ends, the three branches that last
/// are where they were.
pub open spec fn clean_ends(before: World, hard: bool, faultless: bool) -> spec_fn(
    Result<(), ErrorView>,
    World,
) -> bool {
    |result: Result<(), ErrorView>, then: World|
        {
            &&& spared(before, then)
            &&& match result {
                Ok(_) => {
                    &&& cleanable(before, hard)
                    &&& cleaned_at_least(before, then, hard)
                    &&& faultless ==> cleaned(before, then, hard)
                },
                Err(_) => faultless ==> !cleanable(before, hard) || repeats(then),
            }
        }
}

/// Whether the three branches that last are where they were, and no commit or tag has changed.
pub open spec fn spared(before: World, then: World) -> bool {
    &&& then.chain == before.chain
    &&& then.repo.paths == before.repo.paths
    &&& then.repo.tags == before.repo.tags
    &&& forall|name: Seq<char>| #[trigger]
        before.repo.branches.contains_key(name) && lasting(name) ==> {
            &&& then.repo.branches.contains_key(name)
            &&& then.repo.branches[name] == before.repo.branches[name]
        }
}

/// Whether nothing has changed but what is checked out and the verifier.
spec fn steady(now: World, then: World) -> bool {
    &&& then.chain == now.chain
    &&& then.repo.branches == now.repo.branches
    &&& then.repo.paths == now.repo.paths
    &&& then.repo.tags == now.repo.tags
    &&& then.repo.remotes == now.repo.remotes
    &&& then.told == now.told
}

/// Whether two hosts agree on `finalized` and on all commits.
spec fn alike(world: World, now: World) -> bool {
    &&& now.chain == world.chain
    &&& now.repo.paths == world.repo.paths
    &&& now.repo.tags == world.repo.tags
    &&& now.repo.tip(FINALIZED_BRANCH_NAME@) == world.repo.tip(FINALIZED_BRANCH_NAME@)
}

spec fn keep_post(
    world: World,
    now: World,
    name: Seq<char>,
    commit: CommitHash,
    faultless: bool,
) -> spec_fn(Result<bool, ErrorView>, World) -> bool {
    |result: Result<bool, ErrorView>, then: World|
        {
            &&& steady(now, then)
            &&& match result {
                Ok(kept) => {
                    &&& judgeable(world, commit)
                    &&& kept ==> sound(world, commit) && now.repo.branches.contains_key(name)
                    &&& faultless && sound(world, commit) ==> kept
                },
                Err(_) => {
                    ||| !faultless
                    ||| !judgeable(world, commit)
                    ||| !now.repo.branches.contains_key(name)
                },
            }
        }
}

proof fn lemma_keep_from(
    now: World,
    trial: Trial,
    commits: Seq<(Commit, CommitHash)>,
    i: int,
    faultless: bool,
    post: spec_fn(Result<bool, ErrorView>, World) -> bool,
)
    requires
        0 <= i <= commits.len(),
        forall|j: int|
            0 <= j < i ==> (now.chain.valid)(
                trial.more(contents(commits).take(j)),
                #[trigger] contents(commits)[j],
            ),
        now.chain.all_valid(trial, contents(commits)) ==> forall|then: World|
            steady(now, then) ==> #[trigger] post(Ok(true), then),
        !faultless || !now.chain.all_valid(trial, contents(commits)) ==> forall|then: World|
            steady(now, then) ==> #[trigger] post(Ok(false), then),
    ensures
        always(
            keep_from(commits, i),
            now.on_trial(trial.more(contents(commits).take(i))),
            faultless,
            post,
        ),
    decreases commits.len() - i,
{
    let all = contents(commits);
    let here = now.on_trial(trial.more(all.take(i)));
    if i >= commits.len() {
        assert(all.take(i) =~= all);
        assert(post(Ok(true), here));
    } else {
        assert(all[i] == commits[i].0);
        let plan = keep_from(commits, i);
        let request = RequestView::ApplyCommit(commits[i].0);
        assert forall|reply: Reply| here.truthful(request, reply, faultless) implies always(
            #[trigger] plan.after(reply),
            here.after(request, reply),
            faultless,
            post,
        ) by {
            match reply {
                Reply::Nothing(Ok(_)) => {
                    assert(trial.more(all.take(i)).applied.push(all[i]) =~= trial.more(
                        all.take(i + 1),
                    ).applied);
                    lemma_keep_from(now, trial, commits, i + 1, faultless, post);
                },
                _ => {
                    assert(post(Ok(false), here));
                },
            }
        }
        let follow = plan->Ask_1;
        assert forall|reply: Reply| here.truthful(request, reply, faultless) implies always(
            #[trigger] follow(reply),
            here.after(request, reply),
            faultless,
            post,
        ) by {
            assert(plan.after(reply) == follow(reply));
        }
    }
}

/// Judging one branch.
proof fn lemma_keep(
    world: World,
    now: World,
    name: Seq<char>,
    commit: CommitHash,
    faultless: bool,
)
    requires
        world.repo.well_formed(),
        world.repo.branches.contains_key(FINALIZED_BRANCH_NAME@),
        world.repo.paths.contains_key(commit),
        world.last_header() is Some,
        alike(world, now),
    ensures
        always(
            keep_plan(
                world.repo.branches[FINALIZED_BRANCH_NAME@],
                world.last_header()->0,
                name,
                commit,
            ),
            now,
            faultless,
            keep_post(world, now, name, commit, faultless),
        ),
{
    broadcast use group_runs;

    let post = keep_post(world, now, name, commit, faultless);
    let last = world.repo.branches[FINALIZED_BRANCH_NAME@];
    let header = world.last_header()->0;
    let trial = fresh_trial(world);
    let path = ahead_of(world, commit);
    let commits = world.chain.held(path);
    lemma_merge_base(world.repo, last, commit);
    assert forall|base: CommitHash| #[trigger] now.repo.merge_base(base, commit, last)
        == world.repo.merge_base(base, last, commit) by {
        lemma_swapped(world.repo, now.repo, base, commit, last);
    }
    assert forall|base: CommitHash| #[trigger] world.repo.merge_base(base, commit, last)
        == world.repo.merge_base(base, last, commit) by {
        lemma_swapped(world.repo, world.repo, base, commit, last);
    }
    assert(now.repo.unrelated(commit, last) == world.repo.unrelated(commit, last)) by {
        if now.repo.unrelated(commit, last) {
            assert forall|base: CommitHash| !#[trigger] world.repo.merge_base(
                base,
                commit,
                last,
            ) by {
                assert(!now.repo.merge_base(base, commit, last));
            }
        }
        if world.repo.unrelated(commit, last) {
            assert forall|base: CommitHash| !#[trigger] now.repo.merge_base(base, commit, last) by {
                assert(!world.repo.merge_base(base, commit, last));
            }
        }
    }
    if on_top(world, commit) {
        assert(world.repo.merge_base(last, commit, last));
        let here = now.after(RequestView::Checkout(name), Reply::Nothing(Ok(())));
        if now.repo.branches.contains_key(name) {
            lemma_reads_alike(world, here, last, commit);
            assert(here.state() == world.state());
            if world.chain.readable(path) {
                let started = here.on_trial(trial);
                if (world.chain.starts)(header, world.state()) {
                    assert(trial.more(contents(commits).take(0)).applied =~= trial.applied);
                    lemma_keep_from(started, trial, commits, 0, faultless, post);
                }
                assert(always(
                    keep_verifier(header, world.state(), commits),
                    here,
                    faultless,
                    post,
                ));
            }
            assert(always(keep_read(last, header, commit, world.state()), here, faultless, post));
            assert(always(keep_state(last, header, commit), here, faultless, post));
        }
        assert(always(keep_checkout(last, header, name, commit), now, faultless, post));
    }
}

/// The last common ancestor does not depend on the order of two commits.
proof fn lemma_swapped(repo: Repo, other: Repo, base: CommitHash, a: CommitHash, b: CommitHash)
    requires
        repo.paths == other.paths,
    ensures
        other.merge_base(base, a, b) == repo.merge_base(base, b, a),
{
    if other.merge_base(base, a, b) {
        assert forall|third: CommitHash| #[trigger]
            repo.descends(third, b) && repo.descends(third, a) implies repo.paths[third].len()
            <= repo.paths[base].len() by {
            assert(other.descends(third, a) && other.descends(third, b));
        }
    }
    if repo.merge_base(base, b, a) {
        assert forall|third: CommitHash| #[trigger]
            other.descends(third, a) && other.descends(third, b) implies other.paths[third].len()
            <= other.paths[base].len() by {
            assert(repo.descends(third, b) && repo.descends(third, a));
        }
    }
}

/// What commits there are to read does not depend on the branches.
proof fn lemma_reads_alike(world: World, now: World, from: CommitHash, to: CommitHash)
    requires
        world.repo.well_formed(),
        now.chain == world.chain,
        now.repo.paths == world.repo.paths,
        world.repo.descends(from, to),
    ensures
        now.refuses(RequestView::ReadCommits(from, to)) <==> !world.chain.readable(
            world.repo.between(from, to),
        ),
        forall|commits: Vec<(Commit, CommitHash)>| #[trigger]
            now.tells(RequestView::ReadCommits(from, to), Reply::Commits(Ok(commits))) ==> {
                &&& world.chain.readable(world.repo.between(from, to))
                &&& commits@ == world.chain.held(world.repo.between(from, to))
            },
{
    lemma_reads(world, from, to);
    assert forall|base: CommitHash| #[trigger] now.repo.merge_base(base, from, to)
        == world.repo.merge_base(base, from, to) by {
        lemma_swapped(world.repo, now.repo, base, from, to);
        lemma_swapped(world.repo, world.repo, base, from, to);
    }
    assert(now.unreadable(from, to) == world.unreadable(from, to)) by {
        if world.unreadable(from, to) {
            assert forall|base: CommitHash| #[trigger]
                now.repo.merge_base(base, from, to) implies !now.chain.readable(
                now.repo.between(base, to),
            ) by {
                assert(world.repo.merge_base(base, from, to));
            }
        }
        if now.unreadable(from, to) {
            assert forall|base: CommitHash| #[trigger]
                world.repo.merge_base(base, from, to) implies !world.chain.readable(
                world.repo.between(base, to),
            ) by {
                assert(now.repo.merge_base(base, from, to));
            }
        }
    }
    assert forall|commits: Vec<(Commit, CommitHash)>| #[trigger]
        now.tells(RequestView::ReadCommits(from, to), Reply::Commits(Ok(commits))) implies {
        &&& world.chain.readable(world.repo.between(from, to))
        &&& commits@ == world.chain.held(world.repo.between(from, to))
    } by {
        let base = choose|base: CommitHash|
            {
                &&& #[trigger] now.repo.merge_base(base, from, to)
                &&& now.chain.decodes(now.repo.between(base, to), commits@)
            };
        assert(world.repo.merge_base(base, from, to));
        assert(world.tells(RequestView::ReadCommits(from, to), Reply::Commits(Ok(commits))));
    }
}

/// Whether a name is among the branches before a position.
spec fn seen(branches: Seq<(String, CommitHash)>, i: int, name: Seq<char>) -> bool {
    exists|j: int| 0 <= j < i && (#[trigger] branches[j]).0@ == name
}

/// How far a cleaning of the branches has come: of those before a position only such are left that
/// stay, and of the others all.
spec fn swept(
    world: World,
    now: World,
    hard: bool,
    branches: Seq<(String, CommitHash)>,
    i: int,
    faultless: bool,
) -> bool {
    &&& alike(world, now)
    &&& now.repo.remotes == world.repo.remotes
    &&& now.told[RequestView::RetrieveLocalBranches] matches Reply::Branches(Ok(told))
        && told@ == branches
    &&& forall|name: Seq<char>| #[trigger]
        now.repo.branches.contains_key(name) ==> {
            &&& world.repo.branches.contains_key(name)
            &&& now.repo.branches[name] == world.repo.branches[name]
            &&& seen(branches, i, name) ==> stays(world, hard, name)
        }
    &&& forall|name: Seq<char>| #[trigger]
        world.repo.branches.contains_key(name) && (!seen(branches, i, name) || lasting(name) || (
        faultless && stays(world, hard, name))) ==> now.repo.branches.contains_key(name)
    &&& !hard ==> forall|j: int|
        0 <= j < i && may_outlast((#[trigger] branches[j]).0@) && !lasting(branches[j].0@)
            ==> judgeable(world, branches[j].1)
}

/// A host with a branch gone is still spared.
proof fn lemma_spared(
    world: World,
    now: World,
    hard: bool,
    branches: Seq<(String, CommitHash)>,
    i: int,
    faultless: bool,
)
    requires
        swept(world, now, hard, branches, i, faultless),
    ensures
        spared(world, now),
{
    assert forall|name: Seq<char>| #[trigger]
        world.repo.branches.contains_key(name) && lasting(name) implies {
        &&& now.repo.branches.contains_key(name)
        &&& now.repo.branches[name] == world.repo.branches[name]
    } by {
        assert(now.repo.branches.contains_key(name));
    }
}

/// The next branch stays.
proof fn lemma_left(
    world: World,
    now: World,
    then: World,
    hard: bool,
    branches: Seq<(String, CommitHash)>,
    i: int,
    faultless: bool,
)
    requires
        0 <= i < branches.len(),
        swept(world, now, hard, branches, i, faultless),
        steady(now, then),
        stays(world, hard, branches[i].0@),
        !hard && may_outlast(branches[i].0@) && !lasting(branches[i].0@) ==> {
            &&& judgeable(world, branches[i].1)
            &&& now.repo.branches.contains_key(branches[i].0@)
        },
        lasting(branches[i].0@) ==> world.repo.branches.contains_key(branches[i].0@),
    ensures
        swept(world, then, hard, branches, i + 1, faultless),
{
    assert forall|name: Seq<char>| #[trigger] seen(branches, i + 1, name) == (seen(
        branches,
        i,
        name,
    ) || branches[i].0@ == name) by {
        lemma_seen(branches, i, name);
    }
}

proof fn lemma_seen(branches: Seq<(String, CommitHash)>, i: int, name: Seq<char>)
    requires
        0 <= i < branches.len(),
    ensures
        seen(branches, i + 1, name) == (seen(branches, i, name) || branches[i].0@ == name),
{
    if seen(branches, i, name) {
        let j = choose|j: int| 0 <= j < i && (#[trigger] branches[j]).0@ == name;
        assert(branches[j].0@ == name);
    }
    if branches[i].0@ == name {
        assert(seen(branches, i + 1, name));
    }
}

/// The next branch goes.
proof fn lemma_gone(
    world: World,
    now: World,
    then: World,
    hard: bool,
    branches: Seq<(String, CommitHash)>,
    i: int,
    faultless: bool,
)
    requires
        0 <= i < branches.len(),
        swept(world, now, hard, branches, i, faultless),
        !lasting(branches[i].0@),
        faultless ==> !stays(world, hard, branches[i].0@),
        !hard && may_outlast(branches[i].0@) ==> judgeable(world, branches[i].1),
        then == now.with(
            Repo { branches: now.repo.branches.remove(branches[i].0@), ..now.repo },
        ),
    ensures
        swept(world, then, hard, branches, i + 1, faultless),
{
    assert forall|name: Seq<char>| #[trigger] seen(branches, i + 1, name) == (seen(
        branches,
        i,
        name,
    ) || branches[i].0@ == name) by {
        lemma_seen(branches, i, name);
    }
    assert(branches[i].0@ != FINALIZED_BRANCH_NAME@);
}

/// Cleaning the branches from a position on.
proof fn lemma_clean_from(
    world: World,
    now: World,
    hard: bool,
    branches: Seq<(String, CommitHash)>,
    i: int,
    faultless: bool,
)
    requires
        world.repo.well_formed(),
        world.repo.branches.contains_key(FINALIZED_BRANCH_NAME@),
        world.last_header() is Some,
        lists_branches(branches, world.repo.branches),
        0 <= i <= branches.len(),
        swept(world, now, hard, branches, i, faultless),
    ensures
        always(
            clean_from(
                (CleanJob {
                    hard,
                    finalized: world.repo.branches[FINALIZED_BRANCH_NAME@],
                    header: world.last_header()->0,
                }),
                branches,
                i,
            ),
            now,
            faultless,
            clean_ends(world, hard, faultless),
        ),
    decreases branches.len() - i, 1int,
{
    broadcast use group_runs;

    let post = clean_ends(world, hard, faultless);
    let job = CleanJob {
        hard,
        finalized: world.repo.branches[FINALIZED_BRANCH_NAME@],
        header: world.last_header()->0,
    };
    lemma_spared(world, now, hard, branches, i, faultless);
    if i >= branches.len() {
        lemma_remotes(world, now, hard, branches, faultless);
    } else {
        let name = branches[i].0@;
        let commit = branches[i].1;
        assert(world.repo.branches.contains_key(name) && world.repo.branches[name] == commit);
        assert(world.repo.paths.contains_key(commit));
        law_permanent_branches(name);
        if is_permanent(name) {
            lemma_left(world, now, now, hard, branches, i, faultless);
            lemma_clean_from(world, now, hard, branches, i + 1, faultless);
        } else if hard || !may_stay(name) {
            lemma_delete(world, now, hard, branches, i, faultless);
        } else {
            let keep = keep_plan(job.finalized, job.header, name, commit);
            let middle = keep_post(world, now, name, commit, faultless);
            let second = |kept: bool|
                if kept {
                    clean_from(job, branches, i + 1)
                } else {
                    clean_delete(job, branches, i)
                };
            lemma_keep(world, now, name, commit, faultless);
            assert forall|kept: bool, then: World|
                #![trigger middle(Ok(kept), then)]
                middle(Ok(kept), then) implies always(second(kept), then, faultless, post) by {
                lemma_steady(world, now, then, hard, branches, i, faultless);
                if kept {
                    lemma_left(world, now, then, hard, branches, i, faultless);
                    lemma_clean_from(world, then, hard, branches, i + 1, faultless);
                } else {
                    lemma_delete(world, then, hard, branches, i, faultless);
                }
            }
            assert forall|error: ErrorView, then: World| #[trigger]
                middle(Err(error), then) implies post(Err(error), then) by {
                lemma_steady(world, now, then, hard, branches, i, faultless);
                lemma_spared(world, then, hard, branches, i, faultless);
                if faultless && judgeable(world, commit) {
                    lemma_repeated(world, then, hard, branches, i, faultless);
                }
            }
            lemma_bind_always(keep, second, now, faultless, middle, post);
            assert(always(clean_judge(keep, job, branches, i), now, faultless, post));
        }
    }
}

proof fn lemma_steady(
    world: World,
    now: World,
    then: World,
    hard: bool,
    branches: Seq<(String, CommitHash)>,
    i: int,
    faultless: bool,
)
    requires
        swept(world, now, hard, branches, i, faultless),
        steady(now, then),
    ensures
        swept(world, then, hard, branches, i, faultless),
{
}

/// A branch that is gone when its turn comes was listed before.
proof fn lemma_repeated(
    world: World,
    now: World,
    hard: bool,
    branches: Seq<(String, CommitHash)>,
    i: int,
    faultless: bool,
)
    requires
        0 <= i < branches.len(),
        lists_branches(branches, world.repo.branches),
        swept(world, now, hard, branches, i, faultless),
        !now.repo.branches.contains_key(branches[i].0@),
    ensures
        repeats(now),
{
    let name = branches[i].0@;
    assert(world.repo.branches.contains_key(name));
    assert(seen(branches, i, name));
    let j = choose|j: int| 0 <= j < i && (#[trigger] branches[j]).0@ == name;
    assert(branches[j].0@ == branches[i].0@);
}

/// Deleting the branch at a position.
proof fn lemma_delete(
    world: World,
    now: World,
    hard: bool,
    branches: Seq<(String, CommitHash)>,
    i: int,
    faultless: bool,
)
    requires
        world.repo.well_formed(),
        world.repo.branches.contains_key(FINALIZED_BRANCH_NAME@),
        world.last_header() is Some,
        lists_branches(branches, world.repo.branches),
        0 <= i < branches.len(),
        swept(world, now, hard, branches, i, faultless),
        !lasting(branches[i].0@),
        faultless ==> !stays(world, hard, branches[i].0@),
        !hard && may_outlast(branches[i].0@) ==> judgeable(world, branches[i].1),
    ensures
        always(
            clean_delete(
                (CleanJob {
                    hard,
                    finalized: world.repo.branches[FINALIZED_BRANCH_NAME@],
                    header: world.last_header()->0,
                }),
                branches,
                i,
            ),
            now,
            faultless,
            clean_ends(world, hard, faultless),
        ),
    decreases branches.len() - i, 0int,
{
    broadcast use group_runs;

    let name = branches[i].0@;
    lemma_spared(world, now, hard, branches, i, faultless);
    if now.repo.branches.contains_key(name) {
        let then = now.with(
            Repo { branches: now.repo.branches.remove(name), ..now.repo },
        );
        lemma_gone(world, now, then, hard, branches, i, faultless);
        lemma_clean_from(world, then, hard, branches, i + 1, faultless);
    } else {
        lemma_repeated(world, now, hard, branches, i, faultless);
    }
}

/// Removing the remotes, once all branches are cleaned.
proof fn lemma_remotes(
    world: World,
    now: World,
    hard: bool,
    branches: Seq<(String, CommitHash)>,
    faultless: bool,
)
    requires
        world.repo.branches.contains_key(FINALIZED_BRANCH_NAME@),
        world.last_header() is Some,
        lists_branches(branches, world.repo.branches),
        swept(world, now, hard, branches, branches.len() as int, faultless),
    ensures
        always(clean_remotes(), now, faultless, clean_ends(world, hard, faultless)),
{
    broadcast use group_runs;

    lemma_spared(world, now, hard, branches, branches.len() as int, faultless);
    assert forall|name: Seq<char>| #[trigger] world.repo.branches.contains_key(name) implies seen(
        branches,
        branches.len() as int,
        name,
    ) by {
        let j = choose|j: int| 0 <= j < branches.len() && (#[trigger] branches[j]).0@ == name;
        assert(branches[j].0@ == name);
    }
    assert(cleanable(world, hard)) by {
        if !hard {
            assert forall|name: Seq<char>| #[trigger]
                world.repo.branches.contains_key(name) && may_outlast(name) && !lasting(
                    name,
                ) implies judgeable(world, world.repo.branches[name]) by {
                let j = choose|j: int|
                    0 <= j < branches.len() && (#[trigger] branches[j]).0@ == name;
                assert(branches[j].1 == world.repo.branches[name]);
            }
        }
    }
    assert forall|remotes: Vec<(String, String)>|
        now.tells(RequestView::ListRemotes, Reply::Remotes(Ok(remotes))) implies always(
        #[trigger] remove_from(remotes@, 0),
        now.after(RequestView::ListRemotes, Reply::Remotes(Ok(remotes))),
        faultless,
        clean_ends(world, hard, faultless),
    ) by {
        let then = now.having_told(RequestView::ListRemotes, Reply::Remotes(Ok(remotes)));
        assert(now.told[RequestView::RetrieveLocalBranches]
            == then.told[RequestView::RetrieveLocalBranches]);
        lemma_remove(world, then, hard, remotes, 0, faultless);
    }
}

/// Whether the branches are clean, and of the remotes those before a position are gone.
spec fn removed(
    world: World,
    now: World,
    hard: bool,
    remotes: Seq<(String, String)>,
    i: int,
    faultless: bool,
) -> bool {
    &&& spared(world, now)
    &&& now.told[RequestView::ListRemotes] matches Reply::Remotes(Ok(told)) && told@ == remotes
    &&& forall|name: Seq<char>| #[trigger]
        now.repo.branches.contains_key(name) ==> {
            &&& world.repo.branches.contains_key(name)
            &&& now.repo.branches[name] == world.repo.branches[name]
            &&& stays(world, hard, name)
        }
    &&& faultless ==> forall|name: Seq<char>| #[trigger]
        world.repo.branches.contains_key(name) && stays(world, hard, name)
            ==> now.repo.branches.contains_key(name)
    &&& forall|name: Seq<char>| #[trigger]
        now.repo.remotes.contains_key(name) ==> exists|j: int|
            i <= j < remotes.len() && (#[trigger] remotes[j]).0@ == name
    &&& forall|j: int|
        i <= j < remotes.len() && !(#[trigger] now.repo.remotes.contains_key(remotes[j].0@))
            ==> exists|k: int| 0 <= k < i && (#[trigger] remotes[k]).0@ == remotes[j].0@
}

proof fn lemma_remove(
    world: World,
    now: World,
    hard: bool,
    remotes: Vec<(String, String)>,
    i: int,
    faultless: bool,
)
    requires
        cleanable(world, hard),
        0 <= i <= remotes@.len(),
        removed(world, now, hard, remotes@, i, faultless),
    ensures
        always(remove_from(remotes@, i), now, faultless, clean_ends(world, hard, faultless)),
    decreases remotes@.len() - i,
{
    broadcast use group_runs;

    let all = remotes@;
    if i >= all.len() {
        assert(now.repo.remotes.dom() =~= Set::<Seq<char>>::empty());
    } else {
        let name = all[i].0@;
        if now.repo.remotes.contains_key(name) {
            let then = now.with(Repo { remotes: now.repo.remotes.remove(name), ..now.repo });
            assert forall|other: Seq<char>| #[trigger]
                then.repo.remotes.contains_key(other) implies exists|j: int|
                i + 1 <= j < all.len() && (#[trigger] all[j]).0@ == other by {
                assert(now.repo.remotes.contains_key(other));
                let j = choose|j: int| i <= j < all.len() && (#[trigger] all[j]).0@ == other;
                assert(all[j].0@ == other);
            }
            assert forall|j: int|
                i + 1 <= j < all.len() && !(#[trigger] then.repo.remotes.contains_key(
                    all[j].0@,
                )) implies exists|k: int|
                0 <= k < i + 1 && (#[trigger] all[k]).0@ == all[j].0@ by {
                if all[j].0@ == name {
                    assert(all[i].0@ == all[j].0@);
                } else {
                    assert(!now.repo.remotes.contains_key(all[j].0@));
                    let k = choose|k: int| 0 <= k < i && (#[trigger] all[k]).0@ == all[j].0@;
                    assert(all[k].0@ == all[j].0@);
                }
            }
            lemma_remove(world, then, hard, remotes, i + 1, faultless);
        } else {
            let k = choose|k: int| 0 <= k < i && (#[trigger] all[k]).0@ == name;
            assert(all[k].0@ == all[i].0@);
            assert(repeats(now));
        }
    }
}

/// Every run that cleans a repository ends as told: a hard cleaning leaves `finalized`, `work` and
/// `fp`, and no other branch; one that is not hard leaves besides them the branches that may stay
/// and are sound. No remote is left.
pub proof fn law_clean_ends(world: World, hard: bool, faultless: bool)
    requires
        world.repo.well_formed(),
    ensures
        always(clean_plan(hard), world, faultless, clean_ends(world, hard, faultless)),
{
    broadcast use group_runs;

    let post = clean_ends(world, hard, faultless);
    let request = RequestView::RetrieveLocalBranches;
    if world.repo.branches.contains_key(FINALIZED_BRANCH_NAME@) {
        let finalized = world.repo.branches[FINALIZED_BRANCH_NAME@];
        assert forall|branches: Vec<(String, CommitHash)>|
            world.tells(request, Reply::Branches(Ok(branches))) implies always(
            #[trigger] clean_header(last_header_plan(), hard, finalized, branches@),
            world.after(request, Reply::Branches(Ok(branches))),
            faultless,
            post,
        ) by {
            let now = world.having_told(request, Reply::Branches(Ok(branches)));
            let second = |header: BlockHeader|
                clean_from(CleanJob { hard, finalized, header }, branches@, 0);
            let middle = |result: Result<BlockHeader, ErrorView>, then: World|
                match result {
                    Ok(found) => world.last_header() == Some(found) && then == now,
                    Err(_) => then == now && (!faultless || world.last_header() is None),
                };
            assert(now.last_header() == world.last_header());
            lemma_last_header(now, faultless, middle);
            assert forall|found: BlockHeader, then: World|
                #![trigger middle(Ok(found), then)]
                middle(Ok(found), then) implies always(second(found), then, faultless, post) by {
                assert(swept(world, now, hard, branches@, 0, faultless));
                lemma_clean_from(world, now, hard, branches@, 0, faultless);
            }
            lemma_bind_always(last_header_plan(), second, now, faultless, middle, post);
        }
        assert(always(clean_list(hard, finalized), world, faultless, post));
    }
}

} // verus!
