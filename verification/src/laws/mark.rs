//! Marking: votes only on agendas, vetoes only on blocks.
use vstd::prelude::*;

use crate::data::{Commit, SemanticCommit};
use crate::error::ErrorView;
use crate::hash::{CommitHash, Hash256};
use crate::host::{Reply, RequestView};
use crate::laws::{
    asked, did, group_past, holds, lemma_bind_holds, lemma_holds, read_as, up_to, Law, Step,
};
use crate::mark::{mark_hash, mark_plan, mark_tag, MarkKind};
use crate::plan::fail;
use crate::query::{read_commit_decode, read_commit_plan};

verus! {

/// The steps that justify a tag on a commit: the commit is of the right kind, and the name of the
/// tag is made of the hash of what it holds.
pub open spec fn mark_justified(
    past: Seq<Step>,
    kind: MarkKind,
    commit: CommitHash,
    stored: SemanticCommit,
    content: Commit,
    hash: Hash256,
) -> bool {
    &&& read_as(past, commit, stored, content)
    &&& kind.fits(content)
    &&& asked(past, RequestView::HashCommit(content), Reply::Hash(hash))
}

/// Nothing is written but the tag on a commit of the right kind. The end is good only where the
/// tag is there.
pub open spec fn mark_law(kind: MarkKind, commit: CommitHash) -> Law<()> {
    Law {
        rule: |past: Seq<Step>, request: RequestView|
            request.writes() ==> exists|stored: SemanticCommit, content: Commit, hash: Hash256|
                {
                    &&& #[trigger] mark_justified(past, kind, commit, stored, content, hash)
                    &&& request == RequestView::CreateTag(kind.tag(hash), commit)
                },
        end: |past: Seq<Step>, result: Result<(), ErrorView>|
            result is Ok ==> exists|stored: SemanticCommit, content: Commit, hash: Hash256|
                {
                    &&& #[trigger] mark_justified(past, kind, commit, stored, content, hash)
                    &&& did(past, RequestView::CreateTag(kind.tag(hash), commit))
                },
    }
}

/// A vote or a veto writes nothing but its tag, on the given commit, and that only where the
/// commit is an agenda for a vote or a block for a veto. It ends well only with the tag there.
pub proof fn law_mark(kind: MarkKind, commit: CommitHash)
    ensures
        holds(mark_plan(kind, commit), Seq::empty(), mark_law(kind, commit)),
{
    broadcast use group_past;

    let law = mark_law(kind, commit);
    let past = Seq::<Step>::empty();
    let second = |content: Commit|
        if kind.fits(content) {
            mark_hash(kind, commit, content)
        } else {
            fail(kind.misfit(commit))
        };
    let between = |then: Seq<Step>, content: Commit|
        exists|stored: SemanticCommit| #[trigger] read_as(then, commit, stored, content);
    let law1 = up_to(law, between);
    let plan = read_commit_plan(commit);
    assert forall|reply: Reply| holds(
        #[trigger] plan.after(reply),
        past.push((plan.request(), reply)),
        law1,
    ) by {
        let past1 = past.push((plan.request(), reply));
        if let Reply::SemanticCommit(Ok(stored)) = reply {
            let plan = read_commit_decode(stored);
            assert forall|reply: Reply| holds(
                #[trigger] plan.after(reply),
                past1.push((plan.request(), reply)),
                law1,
            ) by {
                let past2 = past1.push((plan.request(), reply));
                if let Reply::Decoded(Ok(content)) = reply {
                    assert(read_as(past2, commit, stored, content));
                }
            }
            lemma_holds(plan, past1, law1);
        }
    }
    lemma_holds(plan, past, law1);
    assert forall|then: Seq<Step>, content: Commit| #[trigger] between(then, content) implies holds(
        second(content),
        then,
        law,
    ) by {
        if kind.fits(content) {
            let stored = choose|stored: SemanticCommit| #[trigger]
                read_as(then, commit, stored, content);
            lemma_tag(kind, commit, stored, content, then);
        }
    }
    lemma_bind_holds(plan, second, past, law, between);
}

proof fn lemma_tag(
    kind: MarkKind,
    commit: CommitHash,
    stored: SemanticCommit,
    content: Commit,
    past: Seq<Step>,
)
    requires
        read_as(past, commit, stored, content),
        kind.fits(content),
    ensures
        holds(mark_hash(kind, commit, content), past, mark_law(kind, commit)),
{
    broadcast use group_past;

    let law = mark_law(kind, commit);
    let plan = mark_hash(kind, commit, content);
    assert forall|reply: Reply| holds(
        #[trigger] plan.after(reply),
        past.push((plan.request(), reply)),
        law,
    ) by {
        let past1 = past.push((plan.request(), reply));
        if let Reply::Hash(hash) = reply {
            let plan = mark_tag(commit, kind.tag(hash));
            assert(mark_justified(past1, kind, commit, stored, content, hash));
            assert forall|reply: Reply| holds(
                #[trigger] plan.after(reply),
                past1.push((plan.request(), reply)),
                law,
            ) by {
                let past2 = past1.push((plan.request(), reply));
                assert(mark_justified(past2, kind, commit, stored, content, hash));
            }
            lemma_holds(plan, past1, law);
        }
    }
    lemma_holds(plan, past, law);
}

} // verus!
