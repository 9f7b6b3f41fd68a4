//! Reading: where the answer comes from, and that nothing is changed.
use vstd::prelude::*;

use crate::data::{BlockHeader, Commit, ReservedState, SemanticCommit};
use crate::error::ErrorView;
use crate::hash::CommitHash;
use crate::host::{Reply, RequestView};
use crate::laws::{
    asked, finalized_at, group_past, header_read, holds, lemma_holds, read_as, Law, Step,
};
use crate::query::{
    last_header_decode, last_header_plan, last_header_read, read_commit_decode, read_commit_plan,
    reserved_state_plan,
};

verus! {

/// Nothing is written, and the commit is what its stored form holds.
pub open spec fn read_commit_law(commit: CommitHash) -> Law<Commit> {
    Law {
        rule: |past: Seq<Step>, request: RequestView| !request.writes(),
        end: |past: Seq<Step>, result: Result<Commit, ErrorView>|
            result matches Ok(content) ==> exists|stored: SemanticCommit| #[trigger]
                read_as(past, commit, stored, content),
    }
}

/// Reading a commit changes nothing, and gives what the stored form of that commit holds.
pub proof fn law_read_commit(commit: CommitHash)
    ensures
        holds(read_commit_plan(commit), Seq::empty(), read_commit_law(commit)),
{
    broadcast use group_past;

    let law = read_commit_law(commit);
    let past = Seq::<Step>::empty();
    let plan = read_commit_plan(commit);
    assert forall|reply: Reply| holds(
        #[trigger] plan.after(reply),
        past.push((plan.request(), reply)),
        law,
    ) by {
        let past1 = past.push((plan.request(), reply));
        if let Reply::SemanticCommit(Ok(stored)) = reply {
            let plan = read_commit_decode(stored);
            assert forall|reply: Reply| holds(
                #[trigger] plan.after(reply),
                past1.push((plan.request(), reply)),
                law,
            ) by {
                let past2 = past1.push((plan.request(), reply));
                if let Reply::Decoded(Ok(content)) = reply {
                    assert(read_as(past2, commit, stored, content));
                }
            }
            lemma_holds(plan, past1, law);
        }
    }
    lemma_holds(plan, past, law);
}

/// Nothing is written, and the header is that of the block that `finalized` is at.
pub open spec fn last_header_law() -> Law<BlockHeader> {
    Law {
        rule: |past: Seq<Step>, request: RequestView| !request.writes(),
        end: |past: Seq<Step>, result: Result<BlockHeader, ErrorView>|
            result matches Ok(header) ==> header_read(past, header),
    }
}

/// Getting the last header changes nothing, and gives the header of the block that the
/// `finalized` branch is at.
pub proof fn law_last_header()
    ensures
        holds(last_header_plan(), Seq::empty(), last_header_law()),
{
    broadcast use group_past;

    let law = last_header_law();
    let past = Seq::<Step>::empty();
    let plan = last_header_plan();
    assert forall|reply: Reply| holds(
        #[trigger] plan.after(reply),
        past.push((plan.request(), reply)),
        law,
    ) by {
        let past1 = past.push((plan.request(), reply));
        if let Reply::Commit(Ok(commit)) = reply {
            let plan = last_header_read(commit);
            assert forall|reply: Reply| holds(
                #[trigger] plan.after(reply),
                past1.push((plan.request(), reply)),
                law,
            ) by {
                let past2 = past1.push((plan.request(), reply));
                if let Reply::SemanticCommit(Ok(stored)) = reply {
                    let plan = last_header_decode(stored);
                    assert forall|reply: Reply| holds(
                        #[trigger] plan.after(reply),
                        past2.push((plan.request(), reply)),
                        law,
                    ) by {
                        let past3 = past2.push((plan.request(), reply));
                        if let Reply::Decoded(Ok(Commit::Block(header))) = reply {
                            assert(finalized_at(past3, commit, stored, header));
                            assert(header_read(past3, header));
                        }
                    }
                    lemma_holds(plan, past2, law);
                }
            }
            lemma_holds(plan, past1, law);
        }
    }
    lemma_holds(plan, past, law);
}

/// Nothing is written, and the reserved state is the one that was read.
pub open spec fn reserved_state_law() -> Law<ReservedState> {
    Law {
        rule: |past: Seq<Step>, request: RequestView| !request.writes(),
        end: |past: Seq<Step>, result: Result<ReservedState, ErrorView>|
            result matches Ok(state) ==> asked(
                past,
                RequestView::ReadReservedState,
                Reply::ReservedState(Ok(state)),
            ),
    }
}

/// Getting the reserved state changes nothing, and gives the state that is read.
pub proof fn law_reserved_state()
    ensures
        holds(reserved_state_plan(), Seq::empty(), reserved_state_law()),
{
    broadcast use group_past;

    let law = reserved_state_law();
    let past = Seq::<Step>::empty();
    let plan = reserved_state_plan();
    assert forall|reply: Reply| holds(
        #[trigger] plan.after(reply),
        past.push((plan.request(), reply)),
        law,
    ) by {}
    lemma_holds(plan, past, law);
}

} // verus!
