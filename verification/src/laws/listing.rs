//! Listing: what is found, and that nothing is changed.
use vstd::prelude::*;

use crate::data::{BlockHeader, Commit};
use crate::error::ErrorView;
use crate::hash::{CommitHash, Hash256};
use crate::host::{Reply, RequestView};
use crate::laws::{
    asked, extends, group_past, header_read, holds, lemma_bind_holds, lemma_header_kept,
    lemma_holds, lemma_last_header, up_to, Law, Step,
};
use crate::listing::{
    branch_header, branch_plan, branch_read, hash_from, list_branch, list_from, list_last,
    list_next, list_plan, ListKind,
};
use crate::query::last_header_plan;
use crate::FINALIZED_BRANCH_NAME;

verus! {

/// Entries of a list, each with the hash of what its commit holds.
pub type Found = Seq<(CommitHash, Hash256)>;

/// The steps that find the hashes of some commits, and the entries made of them, in their order.
pub open spec fn hashed(
    past: Seq<Step>,
    kind: ListKind,
    selected: Seq<(Commit, CommitHash)>,
    found: Found,
) -> bool {
    &&& found.len() == selected.len()
    &&& forall|i: int|
        0 <= i < found.len() ==> {
            &&& (#[trigger] found[i]).0 == selected[i].1
            &&& asked(past, kind.hash_request(selected[i].0), Reply::Hash(found[i].1))
        }
}

/// The steps that show that a branch is not on top of the finalized commit.
pub open spec fn off_base(past: Seq<Step>, last: CommitHash, commit: CommitHash) -> bool {
    exists|base: CommitHash|
        {
            &&& #[trigger] asked(
                past,
                RequestView::FindMergeBase(last, commit),
                Reply::Commit(Ok(base)),
            )
            &&& base != last
        }
}

/// The steps that show that a branch is on top of the finalized commit, and which commits it has.
pub open spec fn on_base(
    past: Seq<Step>,
    last: CommitHash,
    commit: CommitHash,
    commits: Vec<(Commit, CommitHash)>,
    header: BlockHeader,
) -> bool {
    &&& asked(past, RequestView::FindMergeBase(last, commit), Reply::Commit(Ok(last)))
    &&& asked(past, RequestView::ReadCommits(last, commit), Reply::Commits(Ok(commits)))
    &&& header_read(past, header)
}

/// What a branch adds to the list: nothing where it is not on top of the finalized commit, else
/// each of its commits that is of the kind and of the next height.
pub open spec fn branch_found(
    past: Seq<Step>,
    kind: ListKind,
    last: CommitHash,
    commit: CommitHash,
    found: Found,
) -> bool {
    ||| found.len() == 0 && off_base(past, last, commit)
    ||| exists|commits: Vec<(Commit, CommitHash)>, header: BlockHeader|
        {
            &&& #[trigger] on_base(past, last, commit, commits, header)
            &&& hashed(past, kind, kind.select(commits@, header.height), found)
        }
}

/// What a branch of any name adds to the list: those of another kind add nothing.
pub open spec fn part_found(
    past: Seq<Step>,
    kind: ListKind,
    last: CommitHash,
    branch: (String, CommitHash),
    found: Found,
) -> bool {
    if kind.prefix().is_prefix_of(branch.0@) {
        branch_found(past, kind, last, branch.1, found)
    } else {
        found.len() == 0
    }
}

/// What each of some branches adds to the list.
pub open spec fn parts_found(
    past: Seq<Step>,
    kind: ListKind,
    last: CommitHash,
    branches: Seq<(String, CommitHash)>,
    parts: Seq<Found>,
) -> bool {
    &&& parts.len() == branches.len()
    &&& forall|i: int|
        0 <= i < parts.len() ==> part_found(past, kind, last, branches[i], #[trigger] parts[i])
}

/// The steps that show which branches there are, and which commit is finalized.
pub open spec fn listed(
    past: Seq<Step>,
    branches: Vec<(String, CommitHash)>,
    last: CommitHash,
) -> bool {
    &&& asked(past, RequestView::RetrieveLocalBranches, Reply::Branches(Ok(branches)))
    &&& asked(past, RequestView::LocateBranch(FINALIZED_BRANCH_NAME@), Reply::Commit(Ok(last)))
}

/// The steps that show that a list is what the branches add to it, one after another.
pub open spec fn list_found(past: Seq<Step>, kind: ListKind, found: Found) -> bool {
    exists|branches: Vec<(String, CommitHash)>, last: CommitHash, parts: Seq<Found>|
        {
            &&& #[trigger] listed(past, branches, last)
            &&& #[trigger] parts_found(past, kind, last, branches@, parts)
            &&& found == parts.flatten()
        }
}

/// Nothing is written, and the list is what the branches add to it.
pub open spec fn list_law(kind: ListKind) -> Law<Found> {
    Law {
        rule: |past: Seq<Step>, request: RequestView| !request.writes(),
        end: |past: Seq<Step>, result: Result<Found, ErrorView>|
            result matches Ok(found) ==> list_found(past, kind, found),
    }
}

/// A listing changes nothing. The list holds the commits of the kind and of the next height on all
/// branches of the kind that are on top of the finalized commit, each with the hash of what it
/// holds, and no others.
pub proof fn law_list(kind: ListKind)
    ensures
        holds(list_plan(kind), Seq::empty(), list_law(kind)),
{
    broadcast use group_past;

    let law = list_law(kind);
    let past = Seq::<Step>::empty();
    let plan = list_plan(kind);
    assert forall|reply: Reply| holds(
        #[trigger] plan.after(reply),
        past.push((plan.request(), reply)),
        law,
    ) by {
        let past1 = past.push((plan.request(), reply));
        if let Reply::Branches(Ok(branches)) = reply {
            let plan = list_last(kind, branches@);
            assert forall|reply: Reply| holds(
                #[trigger] plan.after(reply),
                past1.push((plan.request(), reply)),
                law,
            ) by {
                let past2 = past1.push((plan.request(), reply));
                if let Reply::Commit(Ok(last)) = reply {
                    let parts = Seq::<Found>::empty();
                    lemma_from(kind, branches, last, parts, Seq::empty(), 0, past2);
                }
            }
            lemma_holds(plan, past1, law);
        }
    }
    lemma_holds(plan, past, law);
}

/// What a branch adds to the list stays as it is.
proof fn lemma_part(
    past: Seq<Step>,
    then: Seq<Step>,
    kind: ListKind,
    last: CommitHash,
    branch: (String, CommitHash),
    found: Found,
)
    requires
        part_found(past, kind, last, branch, found),
        extends(then, past),
    ensures
        part_found(then, kind, last, branch, found),
{
    let commit = branch.1;
    if kind.prefix().is_prefix_of(branch.0@) {
        if found.len() == 0 && off_base(past, last, commit) {
            let base = choose|base: CommitHash|
                {
                    &&& #[trigger] asked(
                        past,
                        RequestView::FindMergeBase(last, commit),
                        Reply::Commit(Ok(base)),
                    )
                    &&& base != last
                };
            assert(asked(
                then,
                RequestView::FindMergeBase(last, commit),
                Reply::Commit(Ok(base)),
            ));
            assert(off_base(then, last, commit));
        } else {
            let (commits, header) = choose|
                commits: Vec<(Commit, CommitHash)>,
                header: BlockHeader,
            |
                {
                    &&& #[trigger] on_base(past, last, commit, commits, header)
                    &&& hashed(past, kind, kind.select(commits@, header.height), found)
                };
            lemma_header_kept(past, then, header);
            assert(on_base(then, last, commit, commits, header));
        }
    }
}

proof fn lemma_parts(
    past: Seq<Step>,
    then: Seq<Step>,
    kind: ListKind,
    last: CommitHash,
    branches: Seq<(String, CommitHash)>,
    parts: Seq<Found>,
    i: int,
    found: Found,
)
    requires
        0 <= i < branches.len(),
        parts_found(past, kind, last, branches.take(i), parts),
        extends(then, past),
        part_found(then, kind, last, branches[i], found),
    ensures
        parts_found(then, kind, last, branches.take(i + 1), parts.push(found)),
{
    let more = parts.push(found);
    assert forall|j: int| 0 <= j < more.len() implies part_found(
        then,
        kind,
        last,
        branches.take(i + 1)[j],
        #[trigger] more[j],
    ) by {
        if j < i {
            assert(branches.take(i)[j] == branches.take(i + 1)[j]);
            assert(more[j] == parts[j]);
            lemma_part(past, then, kind, last, branches.take(i)[j], parts[j]);
        }
    }
}

proof fn lemma_from(
    kind: ListKind,
    branches: Vec<(String, CommitHash)>,
    last: CommitHash,
    parts: Seq<Found>,
    found: Found,
    i: int,
    past: Seq<Step>,
)
    requires
        listed(past, branches, last),
        0 <= i <= branches@.len(),
        parts_found(past, kind, last, branches@.take(i), parts),
        found == parts.flatten(),
    ensures
        holds(list_from(kind, branches@, last, found, i), past, list_law(kind)),
    decreases branches@.len() - i,
{
    broadcast use Seq::lemma_flatten_push;

    let law = list_law(kind);
    if i >= branches@.len() {
        assert(branches@.take(i) =~= branches@);
        assert(list_found(past, kind, found));
    } else if !kind.prefix().is_prefix_of(branches@[i].0@) {
        let none: Found = Seq::empty();
        lemma_parts(past, past, kind, last, branches@, parts, i, none);
        assert(parts.push(none).flatten() =~= found);
        lemma_from(kind, branches, last, parts.push(none), found, i + 1, past);
    } else {
        let commit = branches@[i].1;
        let branch = branch_plan(kind, last, branches@[i].0@, commit);
        let second = list_next(kind, branches@, last, found, i);
        let between = |then: Seq<Step>, more: Found|
            extends(then, past) && branch_found(then, kind, last, commit, more);
        lemma_branch(kind, last, branches@[i].0@, commit, past, law, between);
        assert forall|then: Seq<Step>, more: Found| #[trigger] between(then, more) implies holds(
            second(more),
            then,
            law,
        ) by {
            lemma_parts(past, then, kind, last, branches@, parts, i, more);
            lemma_from(kind, branches, last, parts.push(more), found + more, i + 1, then);
        }
        lemma_bind_holds(branch, second, past, law, between);
        assert(list_from(kind, branches@, last, found, i) == list_branch(
            branch,
            kind,
            branches@,
            last,
            found,
            i,
        ));
    }
}

proof fn lemma_branch(
    kind: ListKind,
    last: CommitHash,
    name: Seq<char>,
    commit: CommitHash,
    past: Seq<Step>,
    law: Law<Found>,
    between: spec_fn(Seq<Step>, Found) -> bool,
)
    requires
        law == list_law(kind),
        forall|then: Seq<Step>, found: Found|
            extends(then, past) && branch_found(then, kind, last, commit, found)
                ==> #[trigger] between(then, found),
    ensures
        holds(branch_plan(kind, last, name, commit), past, up_to(law, between)),
{
    broadcast use group_past;

    let law1 = up_to(law, between);
    let plan = branch_plan(kind, last, name, commit);
    assert forall|reply: Reply| holds(
        #[trigger] plan.after(reply),
        past.push((plan.request(), reply)),
        law1,
    ) by {
        let past1 = past.push((plan.request(), reply));
        if let Reply::Commit(Ok(base)) = reply {
            if base != last {
                let none: Found = Seq::empty();
                assert(asked(
                    past1,
                    RequestView::FindMergeBase(last, commit),
                    Reply::Commit(Ok(base)),
                ));
                assert(off_base(past1, last, commit));
                assert(branch_found(past1, kind, last, commit, none));
                assert(between(past1, none));
            } else {
                let plan = branch_read(kind, last, commit);
                assert forall|reply: Reply| holds(
                    #[trigger] plan.after(reply),
                    past1.push((plan.request(), reply)),
                    law1,
                ) by {
                    let past2 = past1.push((plan.request(), reply));
                    if let Reply::Commits(Ok(commits)) = reply {
                        lemma_selected(kind, last, commit, commits, past2, law, between);
                    }
                }
                lemma_holds(plan, past1, law1);
            }
        }
    }
    lemma_holds(plan, past, law1);
}

proof fn lemma_selected(
    kind: ListKind,
    last: CommitHash,
    commit: CommitHash,
    commits: Vec<(Commit, CommitHash)>,
    past: Seq<Step>,
    law: Law<Found>,
    between: spec_fn(Seq<Step>, Found) -> bool,
)
    requires
        law == list_law(kind),
        asked(past, RequestView::FindMergeBase(last, commit), Reply::Commit(Ok(last))),
        asked(past, RequestView::ReadCommits(last, commit), Reply::Commits(Ok(commits))),
        forall|then: Seq<Step>, found: Found|
            extends(then, past) && branch_found(then, kind, last, commit, found)
                ==> #[trigger] between(then, found),
    ensures
        holds(branch_header(last_header_plan(), kind, commits@), past, up_to(law, between)),
{
    broadcast use group_past;

    let law1 = up_to(law, between);
    let second = |header: BlockHeader|
        if header.height == u64::MAX && kind.occurs(commits@) {
            crate::plan::Plan::Stuck
        } else {
            hash_from(kind, kind.select(commits@, header.height), Seq::empty(), 0)
        };
    let middle = |then: Seq<Step>, header: BlockHeader|
        extends(then, past) && on_base(then, last, commit, commits, header);
    lemma_last_header(past, law1, middle);
    assert forall|then: Seq<Step>, header: BlockHeader| #[trigger]
        middle(then, header) implies holds(second(header), then, law1) by {
        let selected = kind.select(commits@, header.height);
        assert forall|after: Seq<Step>, found: Found|
            extends(after, then) && hashed(after, kind, selected, found) implies #[trigger] between(
            after,
            found,
        ) by {
            lemma_header_kept(then, after, header);
            assert(on_base(after, last, commit, commits, header));
            assert(branch_found(after, kind, last, commit, found));
        }
        lemma_hash(kind, selected, Seq::empty(), 0, then, law, between);
    }
    lemma_bind_holds(last_header_plan(), second, past, law1, middle);
}

proof fn lemma_hash(
    kind: ListKind,
    selected: Seq<(Commit, CommitHash)>,
    found: Found,
    i: int,
    past: Seq<Step>,
    law: Law<Found>,
    between: spec_fn(Seq<Step>, Found) -> bool,
)
    requires
        law == list_law(kind),
        0 <= i <= selected.len(),
        hashed(past, kind, selected.take(i), found),
        forall|then: Seq<Step>, found: Found|
            extends(then, past) && hashed(then, kind, selected, found) ==> #[trigger] between(
                then,
                found,
            ),
    ensures
        holds(hash_from(kind, selected, found, i), past, up_to(law, between)),
    decreases selected.len() - i,
{
    broadcast use group_past;

    let law1 = up_to(law, between);
    if i >= selected.len() {
        assert(selected.take(i) =~= selected);
        assert(extends(past, past));
        assert(between(past, found));
    } else {
        let plan = hash_from(kind, selected, found, i);
        assert forall|reply: Reply| holds(
            #[trigger] plan.after(reply),
            past.push((plan.request(), reply)),
            law1,
        ) by {
            let past1 = past.push((plan.request(), reply));
            if let Reply::Hash(hash) = reply {
                let more = found.push((selected[i].1, hash));
                let taken = selected.take(i + 1);
                assert forall|j: int| 0 <= j < more.len() implies {
                    &&& (#[trigger] more[j]).0 == taken[j].1
                    &&& asked(past1, kind.hash_request(taken[j].0), Reply::Hash(more[j].1))
                } by {
                    if j < i {
                        assert(found[j] == more[j]);
                        assert(selected.take(i)[j] == taken[j]);
                    }
                }
                lemma_hash(kind, selected, more, i + 1, past1, law, between);
            }
        }
        lemma_holds(plan, past, law1);
    }
}

} // verus!
