//! Cleaning: what is deleted, and what is left.
use vstd::prelude::*;

use crate::clean::{
    clean_delete, clean_from, clean_header, clean_judge, clean_list, clean_plan, clean_remotes,
    is_permanent, keep_checkout, keep_from, keep_plan, keep_read, keep_state, keep_verifier,
    may_stay, remove_from, CleanJob,
};
use crate::data::{BlockHeader, Commit, ReservedState};
use crate::error::ErrorView;
use crate::hash::CommitHash;
use crate::host::{Reply, RequestView};
use crate::laws::{
    asked, did, extends, group_past, header_read, holds, lemma_bind_holds, lemma_extends_self,
    lemma_header_kept, lemma_holds, lemma_last_header, up_to, Law, Step,
};
use crate::query::last_header_plan;
use crate::FINALIZED_BRANCH_NAME;

verus! {

/// The steps that show that the branch that ends at a commit does not start from the finalized
/// commit.
pub open spec fn outdated(past: Seq<Step>, commit: CommitHash, finalized: CommitHash) -> bool {
    exists|base: CommitHash|
        {
            &&& #[trigger] asked(
                past,
                RequestView::FindMergeBase(commit, finalized),
                Reply::Commit(Ok(base)),
            )
            &&& base != finalized
        }
}

/// The steps, from step `k` on and one after another, that put the first `n` commits of a branch
/// to a verifier: the branch is checked out, the reserved state and the commits of the branch are
/// read, a verifier is started on the last finalized header and that state, and accepts each of
/// them.
pub open spec fn tested(
    past: Seq<Step>,
    job: CleanJob,
    name: Seq<char>,
    commit: CommitHash,
    state: ReservedState,
    commits: Vec<(Commit, CommitHash)>,
    k: int,
    n: int,
) -> bool {
    &&& 0 <= k
    &&& 0 <= n <= commits@.len()
    &&& k + 4 + n <= past.len()
    &&& past[k] == (RequestView::Checkout(name), Reply::Nothing(Ok(())))
    &&& past[k + 1] == (RequestView::ReadReservedState, Reply::ReservedState(Ok(state)))
    &&& past[k + 2] == (
        RequestView::ReadCommits(job.finalized, commit),
        Reply::Commits(Ok(commits)),
    )
    &&& past[k + 3] == (RequestView::CreateVerifier(job.header, state), Reply::Nothing(Ok(())))
    &&& forall|i: int|
        k + 4 <= i < k + 4 + n ==> #[trigger] past[i] == (
            RequestView::ApplyCommit(commits@[i - k - 4].0),
            Reply::Nothing(Ok(())),
        )
}

/// Whether step `i` is the rejection of a commit.
pub open spec fn rejected_at(past: Seq<Step>, commit: Commit, i: int) -> bool {
    &&& 0 <= i < past.len()
    &&& past[i].0 == RequestView::ApplyCommit(commit)
    &&& past[i].1 matches Reply::Nothing(Err(_))
}

/// The steps that show that a branch has a commit that is not valid on top of those before: a
/// verifier of the branch accepts the first ones, and rejects the next.
pub open spec fn invalid(past: Seq<Step>, job: CleanJob, name: Seq<char>, commit: CommitHash)
    -> bool {
    exists|state: ReservedState, commits: Vec<(Commit, CommitHash)>, k: int, n: int|
        {
            &&& #[trigger] tested(past, job, name, commit, state, commits, k, n)
            &&& n < commits@.len()
            &&& rejected_at(past, commits@[n].0, k + 4 + n)
        }
}

/// The steps that show that a branch starts from the finalized commit, and that a verifier of the
/// branch accepts all its commits.
pub open spec fn sound(past: Seq<Step>, job: CleanJob, name: Seq<char>, commit: CommitHash) -> bool {
    &&& asked(
        past,
        RequestView::FindMergeBase(commit, job.finalized),
        Reply::Commit(Ok(job.finalized)),
    )
    &&& exists|state: ReservedState, commits: Vec<(Commit, CommitHash)>, k: int| #[trigger]
        tested(past, job, name, commit, state, commits, k, commits@.len() as int)
}

/// The steps that show which branches there are, which commit is finalized, and which header is
/// the last one.
pub open spec fn surveyed(
    past: Seq<Step>,
    job: CleanJob,
    branches: Vec<(String, CommitHash)>,
) -> bool {
    &&& listed(past, job.finalized, branches)
    &&& header_read(past, job.header)
}

/// The steps that show which branches there are, and which commit is finalized.
pub open spec fn listed(
    past: Seq<Step>,
    finalized: CommitHash,
    branches: Vec<(String, CommitHash)>,
) -> bool {
    &&& asked(past, RequestView::LocateBranch(FINALIZED_BRANCH_NAME@), Reply::Commit(Ok(finalized)))
    &&& asked(past, RequestView::RetrieveLocalBranches, Reply::Branches(Ok(branches)))
}

/// Whether a branch may be deleted: no permanent branch, and in a cleaning that is not hard none
/// that may stay, but for an outdated one or one with a commit that is not valid.
pub open spec fn deletable(past: Seq<Step>, job: CleanJob, name: Seq<char>, commit: CommitHash)
    -> bool {
    &&& !is_permanent(name)
    &&& job.hard || !may_stay(name) || outdated(past, commit, job.finalized) || invalid(
        past,
        job,
        name,
        commit,
    )
}

/// Whether a branch is dealt with: permanent, deleted, or rightly kept.
pub open spec fn settled(past: Seq<Step>, job: CleanJob, name: Seq<char>, commit: CommitHash)
    -> bool {
    ||| is_permanent(name)
    ||| did(past, RequestView::DeleteBranch(name))
    ||| !job.hard && may_stay(name) && sound(past, job, name, commit)
}

/// Whether each of some remotes is removed.
pub open spec fn removed(past: Seq<Step>, remotes: Seq<(String, String)>) -> bool {
    forall|i: int|
        0 <= i < remotes.len() ==> did(past, RequestView::RemoveRemote((#[trigger] remotes[i]).0@))
}

/// Whether each of some branches is dealt with.
pub open spec fn all_settled(
    past: Seq<Step>,
    job: CleanJob,
    branches: Seq<(String, CommitHash)>,
) -> bool {
    forall|i: int|
        0 <= i < branches.len() ==> settled(
            past,
            job,
            (#[trigger] branches[i]).0@,
            branches[i].1,
        )
}

/// The branch of a survey that a cleaning may delete.
pub open spec fn picked(
    past: Seq<Step>,
    job: CleanJob,
    branches: Vec<(String, CommitHash)>,
    i: int,
) -> bool {
    &&& surveyed(past, job, branches)
    &&& 0 <= i < branches@.len()
    &&& deletable(past, job, branches@[i].0@, branches@[i].1)
}

/// The steps at the end of a cleaning: every branch is dealt with, and every remote is removed.
pub open spec fn cleaned(
    past: Seq<Step>,
    job: CleanJob,
    branches: Vec<(String, CommitHash)>,
    remotes: Vec<(String, String)>,
) -> bool {
    &&& surveyed(past, job, branches)
    &&& all_settled(past, job, branches@)
    &&& asked(past, RequestView::ListRemotes, Reply::Remotes(Ok(remotes)))
    &&& removed(past, remotes@)
}

/// A branch is deleted only where it may be, and a remote is removed only where it is listed. A
/// cleaning that is not hard checks branches out to look at them. Nothing else is written. The end
/// is good only where every branch is dealt with and every remote is removed.
pub open spec fn clean_law(hard: bool) -> Law<()> {
    Law {
        rule: |past: Seq<Step>, request: RequestView|
            match request {
                RequestView::DeleteBranch(name) => exists|
                    job: CleanJob,
                    branches: Vec<(String, CommitHash)>,
                    i: int,
                | #[trigger]
                    picked(past, job, branches, i) && job.hard == hard && branches@[i].0@ == name,
                RequestView::Checkout(name) => !hard && may_stay(name),
                RequestView::RemoveRemote(name) => exists|remotes: Vec<(String, String)>, i: int|
                    #[trigger] remote_listed(past, remotes, i) && remotes@[i].0@ == name,
                _ => !request.writes(),
            },
        end: |past: Seq<Step>, result: Result<(), ErrorView>|
            result is Ok ==> exists|
                job: CleanJob,
                branches: Vec<(String, CommitHash)>,
                remotes: Vec<(String, String)>,
            | #[trigger]
                cleaned(past, job, branches, remotes) && job.hard == hard,
    }
}

/// A remote among those that are listed.
pub open spec fn remote_listed(past: Seq<Step>, remotes: Vec<(String, String)>, i: int) -> bool {
    &&& asked(past, RequestView::ListRemotes, Reply::Remotes(Ok(remotes)))
    &&& 0 <= i < remotes@.len()
}

/// No run of a cleaning deletes a permanent branch. A hard cleaning that ends well has deleted
/// every other branch. One that is not hard has deleted those that may not stay, and keeps of the
/// others just those that start from the finalized commit and whose commits are all valid. All
/// remotes are removed.
pub proof fn law_clean(hard: bool)
    ensures
        holds(clean_plan(hard), Seq::empty(), clean_law(hard)),
{
    broadcast use group_past;

    let law = clean_law(hard);
    let past = Seq::<Step>::empty();
    let plan = clean_plan(hard);
    assert forall|reply: Reply| holds(
        #[trigger] plan.after(reply),
        past.push((plan.request(), reply)),
        law,
    ) by {
        let past1 = past.push((plan.request(), reply));
        if let Reply::Commit(Ok(finalized)) = reply {
            let plan = clean_list(hard, finalized);
            assert forall|reply: Reply| holds(
                #[trigger] plan.after(reply),
                past1.push((plan.request(), reply)),
                law,
            ) by {
                let past2 = past1.push((plan.request(), reply));
                if let Reply::Branches(Ok(branches)) = reply {
                    lemma_header(hard, finalized, branches, past2);
                }
            }
            lemma_holds(plan, past1, law);
        }
    }
    lemma_holds(plan, past, law);
}

proof fn lemma_header(
    hard: bool,
    finalized: CommitHash,
    branches: Vec<(String, CommitHash)>,
    past: Seq<Step>,
)
    requires
        listed(past, finalized, branches),
    ensures
        holds(
            clean_header(last_header_plan(), hard, finalized, branches@),
            past,
            clean_law(hard),
        ),
{
    let law = clean_law(hard);
    let second = |header: BlockHeader|
        clean_from(CleanJob { hard, finalized, header }, branches@, 0);
    let between = |then: Seq<Step>, header: BlockHeader|
        surveyed(then, CleanJob { hard, finalized, header }, branches);
    lemma_last_header(past, law, between);
    assert forall|then: Seq<Step>, header: BlockHeader| #[trigger]
        between(then, header) implies holds(second(header), then, law) by {
        lemma_from(CleanJob { hard, finalized, header }, branches, 0, then);
    }
    lemma_bind_holds(last_header_plan(), second, past, law, between);
}

/// What was surveyed stays so.
proof fn lemma_surveyed(
    past: Seq<Step>,
    then: Seq<Step>,
    job: CleanJob,
    branches: Vec<(String, CommitHash)>,
)
    requires
        surveyed(past, job, branches),
        extends(then, past),
    ensures
        surveyed(then, job, branches),
{
    lemma_header_kept(past, then, job.header);
}

/// What was dealt with stays so.
proof fn lemma_settled(
    past: Seq<Step>,
    then: Seq<Step>,
    job: CleanJob,
    name: Seq<char>,
    commit: CommitHash,
)
    requires
        settled(past, job, name, commit),
        extends(then, past),
    ensures
        settled(then, job, name, commit),
{
    if sound(past, job, name, commit) {
        let (state, commits, k) = choose|
            state: ReservedState,
            commits: Vec<(Commit, CommitHash)>,
            k: int,
        | #[trigger] tested(past, job, name, commit, state, commits, k, commits@.len() as int);
        assert(tested(then, job, name, commit, state, commits, k, commits@.len() as int));
    }
}

/// One more branch is dealt with.
proof fn lemma_one_more(
    past: Seq<Step>,
    then: Seq<Step>,
    job: CleanJob,
    branches: Seq<(String, CommitHash)>,
    i: int,
)
    requires
        0 <= i < branches.len(),
        all_settled(past, job, branches.take(i)),
        extends(then, past),
        settled(then, job, branches[i].0@, branches[i].1),
    ensures
        all_settled(then, job, branches.take(i + 1)),
{
    let more = branches.take(i + 1);
    assert forall|j: int| 0 <= j < more.len() implies settled(
        then,
        job,
        (#[trigger] more[j]).0@,
        more[j].1,
    ) by {
        if j < i {
            assert(branches.take(i)[j] == more[j]);
            lemma_settled(past, then, job, more[j].0@, more[j].1);
        }
    }
}

proof fn lemma_from(
    job: CleanJob,
    branches: Vec<(String, CommitHash)>,
    i: int,
    past: Seq<Step>,
)
    requires
        surveyed(past, job, branches),
        0 <= i <= branches@.len(),
        all_settled(past, job, branches@.take(i)),
    ensures
        holds(clean_from(job, branches@, i), past, clean_law(job.hard)),
    decreases branches@.len() - i, 1int,
{
    broadcast use group_past;

    let law = clean_law(job.hard);
    if i >= branches@.len() {
        assert(branches@.take(i) =~= branches@);
        lemma_remotes(job, branches, past);
    } else {
        let name = branches@[i].0@;
        let commit = branches@[i].1;
        if is_permanent(name) {
            lemma_extends_self(past);
            lemma_one_more(past, past, job, branches@, i);
            lemma_from(job, branches, i + 1, past);
        } else if job.hard || !may_stay(name) {
            lemma_delete(job, branches, i, past);
        } else {
            let keep = keep_plan(job.finalized, job.header, name, commit);
            let second = |kept: bool|
                if kept {
                    clean_from(job, branches@, i + 1)
                } else {
                    clean_delete(job, branches@, i)
                };
            let between = |then: Seq<Step>, kept: bool|
                {
                    &&& extends(then, past)
                    &&& if kept {
                        sound(then, job, name, commit)
                    } else {
                        outdated(then, commit, job.finalized) || invalid(then, job, name, commit)
                    }
                };
            lemma_keep(job, name, commit, past, law, between);
            assert forall|then: Seq<Step>, kept: bool| #[trigger]
                between(then, kept) implies holds(second(kept), then, law) by {
                lemma_surveyed(past, then, job, branches);
                if kept {
                    lemma_one_more(past, then, job, branches@, i);
                    lemma_from(job, branches, i + 1, then);
                } else {
                    lemma_all(past, then, job, branches@.take(i));
                    lemma_delete(job, branches, i, then);
                }
            }
            lemma_bind_holds(keep, second, past, law, between);
            assert(clean_from(job, branches@, i) == clean_judge(keep, job, branches@, i));
        }
    }
}

proof fn lemma_all(
    past: Seq<Step>,
    then: Seq<Step>,
    job: CleanJob,
    branches: Seq<(String, CommitHash)>,
)
    requires
        all_settled(past, job, branches),
        extends(then, past),
    ensures
        all_settled(then, job, branches),
{
    assert forall|j: int| 0 <= j < branches.len() implies settled(
        then,
        job,
        (#[trigger] branches[j]).0@,
        branches[j].1,
    ) by {
        lemma_settled(past, then, job, branches[j].0@, branches[j].1);
    }
}

proof fn lemma_delete(
    job: CleanJob,
    branches: Vec<(String, CommitHash)>,
    i: int,
    past: Seq<Step>,
)
    requires
        all_settled(past, job, branches@.take(i)),
        picked(past, job, branches, i),
    ensures
        holds(clean_delete(job, branches@, i), past, clean_law(job.hard)),
    decreases branches@.len() - i, 0int,
{
    broadcast use group_past;

    let law = clean_law(job.hard);
    let plan = clean_delete(job, branches@, i);
    assert forall|reply: Reply| holds(
        #[trigger] plan.after(reply),
        past.push((plan.request(), reply)),
        law,
    ) by {
        let past1 = past.push((plan.request(), reply));
        if let Reply::Nothing(Ok(_)) = reply {
            lemma_one_more(past, past1, job, branches@, i);
            lemma_from(job, branches, i + 1, past1);
        }
    }
    lemma_holds(plan, past, law);
}

proof fn lemma_remotes(job: CleanJob, branches: Vec<(String, CommitHash)>, past: Seq<Step>)
    requires
        surveyed(past, job, branches),
        all_settled(past, job, branches@),
    ensures
        holds(clean_remotes(), past, clean_law(job.hard)),
{
    broadcast use group_past;

    let law = clean_law(job.hard);
    let plan = clean_remotes();
    assert forall|reply: Reply| holds(
        #[trigger] plan.after(reply),
        past.push((plan.request(), reply)),
        law,
    ) by {
        let past1 = past.push((plan.request(), reply));
        if let Reply::Remotes(Ok(remotes)) = reply {
            lemma_all(past, past1, job, branches@);
            lemma_remove(job, branches, remotes, 0, past1);
        }
    }
    lemma_holds(plan, past, law);
}

proof fn lemma_remove(
    job: CleanJob,
    branches: Vec<(String, CommitHash)>,
    remotes: Vec<(String, String)>,
    i: int,
    past: Seq<Step>,
)
    requires
        surveyed(past, job, branches),
        all_settled(past, job, branches@),
        asked(past, RequestView::ListRemotes, Reply::Remotes(Ok(remotes))),
        0 <= i <= remotes@.len(),
        removed(past, remotes@.take(i)),
    ensures
        holds(remove_from(remotes@, i), past, clean_law(job.hard)),
    decreases remotes@.len() - i,
{
    broadcast use group_past;

    let law = clean_law(job.hard);
    if i >= remotes@.len() {
        assert(remotes@.take(i) =~= remotes@);
        assert(cleaned(past, job, branches, remotes));
    } else {
        let plan = remove_from(remotes@, i);
        assert(remote_listed(past, remotes, i));
        assert forall|reply: Reply| holds(
            #[trigger] plan.after(reply),
            past.push((plan.request(), reply)),
            law,
        ) by {
            let past1 = past.push((plan.request(), reply));
            if let Reply::Nothing(Ok(_)) = reply {
                let more = remotes@.take(i + 1);
                assert forall|j: int| 0 <= j < more.len() implies did(
                    past1,
                    RequestView::RemoveRemote((#[trigger] more[j]).0@),
                ) by {
                    if j < i {
                        assert(remotes@.take(i)[j] == more[j]);
                    }
                }
                lemma_all(past, past1, job, branches@);
                lemma_remove(job, branches, remotes, i + 1, past1);
            }
        }
        lemma_holds(plan, past, law);
    }
}

/// Judging a branch checks it out and writes nothing else. The judgement is that the branch is
/// sound where it is kept, and outdated or invalid where it is not.
proof fn lemma_keep<O>(
    job: CleanJob,
    name: Seq<char>,
    commit: CommitHash,
    past: Seq<Step>,
    law: Law<O>,
    between: spec_fn(Seq<Step>, bool) -> bool,
)
    requires
        forall|then: Seq<Step>, request: RequestView|
            extends(then, past) && (!request.writes() || request == RequestView::Checkout(name))
                ==> #[trigger] (law.rule)(then, request),
        forall|then: Seq<Step>, error: ErrorView|
            extends(then, past) ==> #[trigger] (law.end)(then, Err(error)),
        forall|then: Seq<Step>|
            extends(then, past) && sound(then, job, name, commit) ==> #[trigger] between(
                then,
                true,
            ),
        forall|then: Seq<Step>|
            extends(then, past) && (outdated(then, commit, job.finalized) || invalid(
                then,
                job,
                name,
                commit,
            )) ==> #[trigger] between(then, false),
    ensures
        holds(keep_plan(job.finalized, job.header, name, commit), past, up_to(law, between)),
{
    broadcast use group_past;

    lemma_extends_self(past);
    let law1 = up_to(law, between);
    let plan = keep_plan(job.finalized, job.header, name, commit);
    assert forall|reply: Reply| holds(
        #[trigger] plan.after(reply),
        past.push((plan.request(), reply)),
        law1,
    ) by {
        let past1 = past.push((plan.request(), reply));
        if let Reply::Commit(Ok(base)) = reply {
            if base != job.finalized {
                assert(asked(
                    past1,
                    RequestView::FindMergeBase(commit, job.finalized),
                    Reply::Commit(Ok(base)),
                ));
                assert(outdated(past1, commit, job.finalized));
            } else {
                lemma_keep_checkout(job, name, commit, past1, law, between);
            }
        }
    }
    lemma_holds(plan, past, law1);
}

proof fn lemma_keep_checkout<O>(
    job: CleanJob,
    name: Seq<char>,
    commit: CommitHash,
    past: Seq<Step>,
    law: Law<O>,
    between: spec_fn(Seq<Step>, bool) -> bool,
)
    requires
        asked(
            past,
            RequestView::FindMergeBase(commit, job.finalized),
            Reply::Commit(Ok(job.finalized)),
        ),
        forall|then: Seq<Step>, request: RequestView|
            extends(then, past) && (!request.writes() || request == RequestView::Checkout(name))
                ==> #[trigger] (law.rule)(then, request),
        forall|then: Seq<Step>, error: ErrorView|
            extends(then, past) ==> #[trigger] (law.end)(then, Err(error)),
        forall|then: Seq<Step>|
            extends(then, past) && sound(then, job, name, commit) ==> #[trigger] between(
                then,
                true,
            ),
        forall|then: Seq<Step>|
            extends(then, past) && invalid(then, job, name, commit) ==> #[trigger] between(
                then,
                false,
            ),
    ensures
        holds(keep_checkout(job.finalized, job.header, name, commit), past, up_to(law, between)),
{
    broadcast use group_past;

    lemma_extends_self(past);
    let law1 = up_to(law, between);
    let finalized = job.finalized;
    let header = job.header;
    let plan = keep_checkout(finalized, header, name, commit);
    assert forall|reply: Reply| holds(
        #[trigger] plan.after(reply),
        past.push((plan.request(), reply)),
        law1,
    ) by {
        let past1 = past.push((plan.request(), reply));
        if let Reply::Nothing(Ok(first)) = reply {
            assert(first == ());
            let plan = keep_state(finalized, header, commit);
            assert forall|reply: Reply| holds(
                #[trigger] plan.after(reply),
                past1.push((plan.request(), reply)),
                law1,
            ) by {
                let past2 = past1.push((plan.request(), reply));
                if let Reply::ReservedState(Ok(state)) = reply {
                    let plan = keep_read(finalized, header, commit, state);
                    assert forall|reply: Reply| holds(
                        #[trigger] plan.after(reply),
                        past2.push((plan.request(), reply)),
                        law1,
                    ) by {
                        let past3 = past2.push((plan.request(), reply));
                        if let Reply::Commits(Ok(commits)) = reply {
                            let plan = keep_verifier(header, state, commits@);
                            assert forall|reply: Reply| holds(
                                #[trigger] plan.after(reply),
                                past3.push((plan.request(), reply)),
                                law1,
                            ) by {
                                let past4 = past3.push((plan.request(), reply));
                                if let Reply::Nothing(Ok(last)) = reply {
                                    assert(last == ());
                                    let k = past.len() as int;
                                    assert(tested(
                                        past4,
                                        job,
                                        name,
                                        commit,
                                        state,
                                        commits,
                                        k,
                                        0,
                                    ));
                                    lemma_keep_from(
                                        job,
                                        name,
                                        commit,
                                        state,
                                        commits,
                                        0,
                                        past4,
                                        law,
                                        between,
                                    );
                                }
                            }
                            lemma_holds(plan, past3, law1);
                        }
                    }
                    lemma_holds(plan, past2, law1);
                }
            }
            lemma_holds(plan, past1, law1);
        }
    }
    lemma_holds(plan, past, law1);
}

proof fn lemma_keep_from<O>(
    job: CleanJob,
    name: Seq<char>,
    commit: CommitHash,
    state: ReservedState,
    commits: Vec<(Commit, CommitHash)>,
    i: int,
    past: Seq<Step>,
    law: Law<O>,
    between: spec_fn(Seq<Step>, bool) -> bool,
)
    requires
        asked(
            past,
            RequestView::FindMergeBase(commit, job.finalized),
            Reply::Commit(Ok(job.finalized)),
        ),
        tested(past, job, name, commit, state, commits, past.len() - 4 - i, i),
        forall|then: Seq<Step>, request: RequestView|
            extends(then, past) && !request.writes() ==> #[trigger] (law.rule)(then, request),
        forall|then: Seq<Step>|
            extends(then, past) && sound(then, job, name, commit) ==> #[trigger] between(
                then,
                true,
            ),
        forall|then: Seq<Step>|
            extends(then, past) && invalid(then, job, name, commit) ==> #[trigger] between(
                then,
                false,
            ),
    ensures
        holds(keep_from(commits@, i), past, up_to(law, between)),
    decreases commits@.len() - i,
{
    broadcast use group_past;

    lemma_extends_self(past);
    let law1 = up_to(law, between);
    let k = past.len() - 4 - i;
    if i >= commits@.len() {
        assert(tested(past, job, name, commit, state, commits, k, commits@.len() as int));
        assert(sound(past, job, name, commit));
    } else {
        let plan = keep_from(commits@, i);
        assert forall|reply: Reply| holds(
            #[trigger] plan.after(reply),
            past.push((plan.request(), reply)),
            law1,
        ) by {
            let past1 = past.push((plan.request(), reply));
            match reply {
                Reply::Nothing(Ok(unit)) => {
                    assert(unit == ());
                    assert(tested(past1, job, name, commit, state, commits, k, i + 1));
                    lemma_keep_from(
                        job,
                        name,
                        commit,
                        state,
                        commits,
                        i + 1,
                        past1,
                        law,
                        between,
                    );
                },
                Reply::Nothing(Err(_)) => {
                    assert(tested(past1, job, name, commit, state, commits, k, i));
                    assert(rejected_at(past1, commits@[i].0, k + 4 + i));
                    assert(invalid(past1, job, name, commit));
                },
                _ => {},
            }
        }
        lemma_holds(plan, past, law1);
    }
}

} // verus!
