//! Creating an extra-agenda transaction: only one that is valid on top of `work`.
use vstd::prelude::*;

use crate::data::{BlockHeader, Commit, ExtraAgendaTransaction, ReservedState};
use crate::error::{Blame, ErrorView};
use crate::extra::{
    create_extra_plan, extra_apply, extra_header, extra_last, extra_read, extra_rebased,
    extra_state, extra_verifier, extra_verify,
};
use crate::hash::CommitHash;
use crate::host::{Reply, RequestView};
use crate::laws::work::{
    checked, ground_checked, lemma_checked, lemma_publish, on_top, published, writes_work, Ground,
};
use crate::laws::{
    accepted, asked, extends, group_past, header_read, holds, lemma_apply_all, lemma_bind_holds,
    lemma_holds, lemma_last_header, lemma_weaker, lemma_started_kept, up_to, verifier_started, Law,
    Step,
};
use crate::query::last_header_plan;
use crate::steps::{apply_from, publish_plan};
use crate::{FINALIZED_BRANCH_NAME, WORK_BRANCH_NAME};

verus! {

/// Nothing is written before the transaction is shown to be valid on top of `work`, and then
/// nothing but that transaction. The end is good only where it is committed.
pub open spec fn extra_law(transaction: ExtraAgendaTransaction) -> Law<CommitHash> {
    let new = Commit::ExtraAgendaTransaction(transaction);
    Law {
        rule: |past: Seq<Step>, request: RequestView|
            request.writes() ==> exists|ground: Ground|
                {
                    &&& #[trigger] checked(past, ground, new)
                    &&& writes_work(past, request, new, ground.state)
                },
        end: |past: Seq<Step>, result: Result<CommitHash, ErrorView>|
            result matches Ok(commit) ==> exists|ground: Ground|
                {
                    &&& #[trigger] checked(past, ground, new)
                    &&& published(past, new, ground.state, commit)
                },
    }
}

/// In every run that creates an extra-agenda transaction, nothing is written before `work` is
/// shown to be on top of the finalized block, every commit on it to be valid, and so the
/// transaction on top of them. A run ends well only with the transaction committed on `work`.
pub proof fn law_create_extra_agenda_transaction(transaction: ExtraAgendaTransaction)
    ensures
        holds(create_extra_plan(transaction), Seq::empty(), extra_law(transaction)),
{
    broadcast use group_past;

    let law = extra_law(transaction);
    let past = Seq::<Step>::empty();
    let plan = create_extra_plan(transaction);
    assert forall|reply: Reply| holds(
        #[trigger] plan.after(reply),
        past.push((plan.request(), reply)),
        law,
    ) by {
        let past1 = past.push((plan.request(), reply));
        if let Reply::Commit(Ok(work)) = reply {
            let plan = extra_last(transaction, work);
            assert forall|reply: Reply| holds(
                #[trigger] plan.after(reply),
                past1.push((plan.request(), reply)),
                law,
            ) by {
                let past2 = past1.push((plan.request(), reply));
                if let Reply::Commit(Ok(last)) = reply {
                    let plan = extra_state(transaction, work, last);
                    assert forall|reply: Reply| holds(
                        #[trigger] plan.after(reply),
                        past2.push((plan.request(), reply)),
                        law,
                    ) by {
                        let past3 = past2.push((plan.request(), reply));
                        if let Reply::ReservedState(Ok(state)) = reply {
                            lemma_placed(transaction, work, last, state, past3);
                        }
                    }
                    lemma_holds(plan, past2, law);
                }
            }
            lemma_holds(plan, past1, law);
        }
    }
    lemma_holds(plan, past, law);
}

proof fn lemma_placed(
    transaction: ExtraAgendaTransaction,
    work: CommitHash,
    last: CommitHash,
    state: ReservedState,
    past: Seq<Step>,
)
    requires
        asked(past, RequestView::LocateBranch(WORK_BRANCH_NAME@), Reply::Commit(Ok(work))),
        asked(past, RequestView::LocateBranch(FINALIZED_BRANCH_NAME@), Reply::Commit(Ok(last))),
        asked(past, RequestView::ReadReservedState, Reply::ReservedState(Ok(state))),
    ensures
        holds(extra_rebased(transaction, work, last, state), past, extra_law(transaction)),
{
    broadcast use group_past;

    let law = extra_law(transaction);
    let plan = extra_rebased(transaction, work, last, state);
    assert forall|reply: Reply| holds(
        #[trigger] plan.after(reply),
        past.push((plan.request(), reply)),
        law,
    ) by {
        let past1 = past.push((plan.request(), reply));
        if let Reply::Commit(Ok(base)) = reply {
            if base == last {
                let plan = extra_read(transaction, work, last, state);
                assert forall|reply: Reply| holds(
                    #[trigger] plan.after(reply),
                    past1.push((plan.request(), reply)),
                    law,
                ) by {
                    let past2 = past1.push((plan.request(), reply));
                    if let Reply::Commits(Ok(commits)) = reply {
                        lemma_header(transaction, work, last, state, commits, past2);
                    }
                }
                lemma_holds(plan, past1, law);
            }
        }
    }
    lemma_holds(plan, past, law);
}

proof fn lemma_header(
    transaction: ExtraAgendaTransaction,
    work: CommitHash,
    last: CommitHash,
    state: ReservedState,
    commits: Vec<(Commit, CommitHash)>,
    past: Seq<Step>,
)
    requires
        on_top(past, work, last, commits),
        asked(past, RequestView::ReadReservedState, Reply::ReservedState(Ok(state))),
    ensures
        holds(
            extra_header(last_header_plan(), transaction, state, commits@),
            past,
            extra_law(transaction),
        ),
{
    let law = extra_law(transaction);
    let second = |header: BlockHeader| extra_verifier(transaction, state, commits@, header);
    let between = |then: Seq<Step>, header: BlockHeader|
        {
            &&& header_read(then, header)
            &&& on_top(then, work, last, commits)
            &&& asked(then, RequestView::ReadReservedState, Reply::ReservedState(Ok(state)))
        };
    lemma_last_header(past, law, between);
    assert forall|then: Seq<Step>, header: BlockHeader| #[trigger]
        between(then, header) implies holds(second(header), then, law) by {
        lemma_start(transaction, Ground { header, state, work, last, commits }, then);
    }
    lemma_bind_holds(last_header_plan(), second, past, law, between);
}

proof fn lemma_start(transaction: ExtraAgendaTransaction, ground: Ground, past: Seq<Step>)
    requires
        header_read(past, ground.header),
        on_top(past, ground.work, ground.last, ground.commits),
        asked(past, RequestView::ReadReservedState, Reply::ReservedState(Ok(ground.state))),
    ensures
        holds(
            extra_verifier(transaction, ground.state, ground.commits@, ground.header),
            past,
            extra_law(transaction),
        ),
{
    broadcast use group_past;

    let law = extra_law(transaction);
    let plan = extra_verifier(transaction, ground.state, ground.commits@, ground.header);
    assert forall|reply: Reply| holds(
        #[trigger] plan.after(reply),
        past.push((plan.request(), reply)),
        law,
    ) by {
        let past1 = past.push((plan.request(), reply));
        if let Reply::Nothing(Ok(_)) = reply {
            assert(verifier_started(past1, ground.header, ground.state));
            lemma_verify(transaction, ground, past1);
        }
    }
    lemma_holds(plan, past, law);
}

proof fn lemma_verify(transaction: ExtraAgendaTransaction, ground: Ground, past: Seq<Step>)
    requires
        on_top(past, ground.work, ground.last, ground.commits),
        verifier_started(past, ground.header, ground.state),
    ensures
        holds(
            extra_verify(apply_from(ground.commits@, 0), transaction, ground.state),
            past,
            extra_law(transaction),
        ),
{
    let law = extra_law(transaction);
    let commits = ground.commits@;
    let state = ground.state;
    let second = |_commits: Seq<(Commit, CommitHash)>| extra_apply(transaction, state);
    let between = |then: Seq<Step>, _verified: Seq<(Commit, CommitHash)>|
        ground_checked(then, ground);
    assert forall|then: Seq<Step>|
        extends(then, past) && accepted(then, commits) implies #[trigger] between(then, commits) by {
        lemma_started_kept(past, then, ground.header, ground.state);
    }
    lemma_apply_all(commits, 0, past, law, between);
    assert forall|then: Seq<Step>, verified: Seq<(Commit, CommitHash)>| #[trigger]
        between(then, verified) implies holds(second(verified), then, law) by {
        lemma_valid(transaction, ground, then);
    }
    lemma_bind_holds(apply_from(commits, 0), second, past, law, between);
}

proof fn lemma_valid(transaction: ExtraAgendaTransaction, ground: Ground, past: Seq<Step>)
    requires
        ground_checked(past, ground),
    ensures
        holds(extra_apply(transaction, ground.state), past, extra_law(transaction)),
{
    broadcast use group_past;

    let law = extra_law(transaction);
    let new = Commit::ExtraAgendaTransaction(transaction);
    let state = ground.state;
    let plan = extra_apply(transaction, state);
    assert forall|reply: Reply| holds(
        #[trigger] plan.after(reply),
        past.push((plan.request(), reply)),
        law,
    ) by {
        let past1 = past.push((plan.request(), reply));
        if let Reply::Nothing(Ok(_)) = reply {
            assert forall|then: Seq<Step>| #[trigger] extends(then, past1) implies checked(
                then,
                ground,
                new,
            ) by {
                lemma_checked(past, past1, ground);
                assert(checked(past1, ground, new));
                lemma_checked(past1, then, ground);
            }
            let between = |then: Seq<Step>, commit: CommitHash| (law.end)(then, Ok(commit));
            lemma_publish(new, state, Blame::Pass, past1, law, between);
            lemma_weaker(publish_plan(new, state, Blame::Pass), past1, up_to(law, between), law);
        }
    }
    lemma_holds(plan, past, law);
}

} // verus!
