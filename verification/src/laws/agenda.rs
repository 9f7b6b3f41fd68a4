//! Creating an agenda: only one that is valid on top of `work`.
use vstd::prelude::*;

use crate::agenda::{
    agenda_apply, agenda_last, agenda_mark, agenda_name, agenda_publish, agenda_put, agenda_read,
    agenda_rebased, agenda_state, agenda_time, agenda_verifier, agenda_verify, agenda_work,
    create_agenda_plan, transactions_of,
};
use crate::data::{Agenda, BlockHeader, Commit, MemberName, ReservedState};
use crate::error::ErrorView;
use crate::hash::{agenda_branch, CommitHash, Hash256};
use crate::host::{Reply, RequestView};
use crate::laws::work::{
    checked, ground_checked, lemma_checked, lemma_publish, lemma_published, marked, on_top,
    published, writes_work, Ground,
};
use crate::laws::{
    accepted, asked, extends, group_past, header_read, holds, lemma_apply_all, lemma_bind_holds,
    lemma_holds, lemma_last_header, lemma_started_kept, verifier_started, Law, Step,
};
use crate::query::last_header_plan;
use crate::steps::{apply_from, no_work_branch, publish_plan};
use crate::{FINALIZED_BRANCH_NAME, WORK_BRANCH_NAME};

verus! {

/// The steps that an agenda is made of: it is of the given author and of the height after the
/// last one, it bears the time of day, and it names the transactions on `work` by their hash.
pub open spec fn agenda_made(
    past: Seq<Step>,
    author: MemberName,
    ground: Ground,
    agenda: Agenda,
) -> bool {
    &&& agenda.author == author
    &&& agenda.height == ground.header.height + 1
    &&& asked(past, RequestView::GetTimestamp, Reply::Timestamp(agenda.timestamp))
    &&& asked(
        past,
        RequestView::CalculateTransactionsHash(transactions_of(ground.commits@)),
        Reply::Hash(agenda.transactions_hash),
    )
}

/// The steps that justify that an agenda is put on `work`.
pub open spec fn agenda_justified(
    past: Seq<Step>,
    author: MemberName,
    ground: Ground,
    agenda: Agenda,
) -> bool {
    &&& checked(past, ground, Commit::Agenda(agenda))
    &&& agenda_made(past, author, ground, agenda)
}

/// Whether a write makes the branch of an agenda that is on `work`.
pub open spec fn writes_agenda_branch(
    past: Seq<Step>,
    request: RequestView,
    agenda: Agenda,
    state: ReservedState,
) -> bool {
    exists|commit: CommitHash, hash: Hash256|
        {
            &&& #[trigger] published(past, Commit::Agenda(agenda), state, commit)
            &&& #[trigger] asked(
                past,
                RequestView::HashCommit(Commit::Agenda(agenda)),
                Reply::Hash(hash),
            )
            &&& request == RequestView::CreateBranch(agenda_branch(hash), commit)
        }
}

/// The steps that put an agenda on `work` and make its branch.
pub open spec fn agenda_created(
    past: Seq<Step>,
    author: MemberName,
    agenda: Agenda,
    commit: CommitHash,
) -> bool {
    exists|ground: Ground, hash: Hash256|
        {
            &&& #[trigger] agenda_justified(past, author, ground, agenda)
            &&& published(past, Commit::Agenda(agenda), ground.state, commit)
            &&& #[trigger] marked(
                past,
                Commit::Agenda(agenda),
                commit,
                hash,
                agenda_branch(hash),
            )
        }
}

/// Nothing is written before an agenda is shown to be valid on top of `work`, and then nothing but
/// that agenda and its branch. The end is good only where the agenda is committed and its branch
/// is there.
pub open spec fn agenda_law(author: MemberName) -> Law<(Agenda, CommitHash)> {
    Law {
        rule: |past: Seq<Step>, request: RequestView|
            request.writes() ==> exists|ground: Ground, agenda: Agenda|
                {
                    &&& #[trigger] agenda_justified(past, author, ground, agenda)
                    &&& writes_work(past, request, Commit::Agenda(agenda), ground.state)
                        || writes_agenda_branch(past, request, agenda, ground.state)
                },
        end: |past: Seq<Step>, result: Result<(Agenda, CommitHash), ErrorView>|
            result matches Ok(output) ==> agenda_created(past, author, output.0, output.1),
    }
}

/// In every run that creates an agenda, nothing is written before `work` is shown to be on top of
/// the finalized block, every commit on it to be valid, and so the agenda on top of them. The
/// agenda is of the next height and names the transactions on `work`. A run ends well only with
/// the agenda committed on `work` and a branch of its name at the commit.
pub proof fn law_create_agenda(author: MemberName)
    ensures
        holds(create_agenda_plan(author), Seq::empty(), agenda_law(author)),
{
    let past = Seq::<Step>::empty();
    let law = agenda_law(author);
    let second = |header: BlockHeader| agenda_work(author, header);
    let between = |then: Seq<Step>, header: BlockHeader| header_read(then, header);
    lemma_last_header(past, law, between);
    assert forall|then: Seq<Step>, header: BlockHeader| #[trigger]
        between(then, header) implies holds(second(header), then, law) by {
        lemma_placed(author, header, then);
    }
    lemma_bind_holds(last_header_plan(), second, past, law, between);
}

proof fn lemma_placed(author: MemberName, header: BlockHeader, past: Seq<Step>)
    requires
        header_read(past, header),
    ensures
        holds(agenda_work(author, header), past, agenda_law(author)),
{
    broadcast use group_past;

    let law = agenda_law(author);
    let plan = agenda_work(author, header);
    assert forall|reply: Reply| holds(
        #[trigger] plan.after(reply),
        past.push((plan.request(), reply)),
        law,
    ) by {
        let past1 = past.push((plan.request(), reply));
        if let Reply::Commit(Ok(work)) = reply {
            let plan = agenda_last(author, header, work);
            assert forall|reply: Reply| holds(
                #[trigger] plan.after(reply),
                past1.push((plan.request(), reply)),
                law,
            ) by {
                let past2 = past1.push((plan.request(), reply));
                if let Reply::Commit(Ok(last)) = reply {
                    let plan = agenda_rebased(author, header, work, last);
                    assert forall|reply: Reply| holds(
                        #[trigger] plan.after(reply),
                        past2.push((plan.request(), reply)),
                        law,
                    ) by {
                        let past3 = past2.push((plan.request(), reply));
                        if let Reply::Commit(Ok(base)) = reply {
                            if base == last {
                                lemma_start(author, header, work, last, past3);
                            }
                        }
                    }
                    lemma_holds(plan, past2, law);
                }
            }
            lemma_holds(plan, past1, law);
        }
    }
    lemma_holds(plan, past, law);
}

proof fn lemma_start(
    author: MemberName,
    header: BlockHeader,
    work: CommitHash,
    last: CommitHash,
    past: Seq<Step>,
)
    requires
        header_read(past, header),
        asked(past, RequestView::LocateBranch(WORK_BRANCH_NAME@), Reply::Commit(Ok(work))),
        asked(past, RequestView::LocateBranch(FINALIZED_BRANCH_NAME@), Reply::Commit(Ok(last))),
        asked(past, RequestView::FindMergeBase(last, work), Reply::Commit(Ok(last))),
    ensures
        holds(agenda_state(author, header, work, last), past, agenda_law(author)),
{
    broadcast use group_past;

    let law = agenda_law(author);
    let plan = agenda_state(author, header, work, last);
    assert forall|reply: Reply| holds(
        #[trigger] plan.after(reply),
        past.push((plan.request(), reply)),
        law,
    ) by {
        let past1 = past.push((plan.request(), reply));
        if let Reply::ReservedState(Ok(state)) = reply {
            let plan = agenda_verifier(author, header, work, last, state);
            assert forall|reply: Reply| holds(
                #[trigger] plan.after(reply),
                past1.push((plan.request(), reply)),
                law,
            ) by {
                let past2 = past1.push((plan.request(), reply));
                if let Reply::Nothing(Ok(_)) = reply {
                    let plan = agenda_read(author, header.height, work, last, state);
                    assert(verifier_started(past2, header, state));
                    assert forall|reply: Reply| holds(
                        #[trigger] plan.after(reply),
                        past2.push((plan.request(), reply)),
                        law,
                    ) by {
                        let past3 = past2.push((plan.request(), reply));
                        if let Reply::Commits(Ok(commits)) = reply {
                            assert(verifier_started(past3, header, state));
                            lemma_verify(
                                author,
                                Ground { header, state, work, last, commits },
                                past3,
                            );
                        }
                    }
                    lemma_holds(plan, past2, law);
                }
            }
            lemma_holds(plan, past1, law);
        }
    }
    lemma_holds(plan, past, law);
}

proof fn lemma_verify(author: MemberName, ground: Ground, past: Seq<Step>)
    requires
        on_top(past, ground.work, ground.last, ground.commits),
        verifier_started(past, ground.header, ground.state),
    ensures
        holds(
            agenda_verify(
                apply_from(ground.commits@, 0),
                author,
                ground.header.height,
                ground.state,
            ),
            past,
            agenda_law(author),
        ),
{
    let law = agenda_law(author);
    let commits = ground.commits@;
    let height = ground.header.height;
    let state = ground.state;
    let second = |commits: Seq<(Commit, CommitHash)>|
        agenda_time(author, height, state, transactions_of(commits));
    let between = |then: Seq<Step>, verified: Seq<(Commit, CommitHash)>|
        verified == commits && ground_checked(then, ground);
    assert forall|then: Seq<Step>|
        extends(then, past) && accepted(then, commits) implies #[trigger] between(then, commits) by {
        lemma_started_kept(past, then, ground.header, ground.state);
    }
    lemma_apply_all(commits, 0, past, law, between);
    assert forall|then: Seq<Step>, verified: Seq<(Commit, CommitHash)>| #[trigger]
        between(then, verified) implies holds(second(verified), then, law) by {
        lemma_made(author, ground, then);
    }
    lemma_bind_holds(apply_from(commits, 0), second, past, law, between);
}

proof fn lemma_made(author: MemberName, ground: Ground, past: Seq<Step>)
    requires
        ground_checked(past, ground),
    ensures
        holds(
            agenda_time(
                author,
                ground.header.height,
                ground.state,
                transactions_of(ground.commits@),
            ),
            past,
            agenda_law(author),
        ),
{
    broadcast use group_past;

    let law = agenda_law(author);
    let height = ground.header.height;
    let state = ground.state;
    let transactions = transactions_of(ground.commits@);
    let plan = agenda_time(author, height, state, transactions);
    assert forall|reply: Reply| holds(
        #[trigger] plan.after(reply),
        past.push((plan.request(), reply)),
        law,
    ) by {
        let past1 = past.push((plan.request(), reply));
        if let Reply::Timestamp(timestamp) = reply {
            let plan = agenda_put(author, height, state, transactions, timestamp);
            assert forall|reply: Reply| holds(
                #[trigger] plan.after(reply),
                past1.push((plan.request(), reply)),
                law,
            ) by {
                let past2 = past1.push((plan.request(), reply));
                if let Reply::Hash(transactions_hash) = reply {
                    if height < u64::MAX {
                        let agenda = Agenda {
                            height: (height + 1) as u64,
                            author,
                            timestamp,
                            transactions_hash,
                        };
                        lemma_checked(past, past2, ground);
                        lemma_valid(author, ground, agenda, past2);
                    }
                }
            }
            lemma_holds(plan, past1, law);
        }
    }
    lemma_holds(plan, past, law);
}

proof fn lemma_valid(author: MemberName, ground: Ground, agenda: Agenda, past: Seq<Step>)
    requires
        ground_checked(past, ground),
        agenda_made(past, author, ground, agenda),
    ensures
        holds(agenda_apply(ground.state, agenda), past, agenda_law(author)),
{
    broadcast use group_past;

    let law = agenda_law(author);
    let plan = agenda_apply(ground.state, agenda);
    assert forall|reply: Reply| holds(
        #[trigger] plan.after(reply),
        past.push((plan.request(), reply)),
        law,
    ) by {
        let past1 = past.push((plan.request(), reply));
        if let Reply::Nothing(Ok(_)) = reply {
            lemma_checked(past, past1, ground);
            lemma_committed(author, ground, agenda, past1);
        }
    }
    lemma_holds(plan, past, law);
}

proof fn lemma_committed(author: MemberName, ground: Ground, agenda: Agenda, past: Seq<Step>)
    requires
        agenda_justified(past, author, ground, agenda),
    ensures
        holds(
            agenda_publish(
                publish_plan(Commit::Agenda(agenda), ground.state, no_work_branch()),
                agenda,
            ),
            past,
            agenda_law(author),
        ),
{
    let law = agenda_law(author);
    let new = Commit::Agenda(agenda);
    let state = ground.state;
    let second = |commit: CommitHash| agenda_name(agenda, commit);
    let between = |then: Seq<Step>, commit: CommitHash|
        agenda_justified(then, author, ground, agenda) && published(then, new, state, commit);
    assert forall|then: Seq<Step>| #[trigger] extends(then, past) implies agenda_justified(
        then,
        author,
        ground,
        agenda,
    ) by {
        lemma_checked(past, then, ground);
    }
    lemma_publish(new, state, no_work_branch(), past, law, between);
    assert forall|then: Seq<Step>, commit: CommitHash| #[trigger]
        between(then, commit) implies holds(second(commit), then, law) by {
        lemma_marked(author, ground, agenda, commit, then);
    }
    lemma_bind_holds(publish_plan(new, state, no_work_branch()), second, past, law, between);
}

proof fn lemma_marked(
    author: MemberName,
    ground: Ground,
    agenda: Agenda,
    commit: CommitHash,
    past: Seq<Step>,
)
    requires
        agenda_justified(past, author, ground, agenda),
        published(past, Commit::Agenda(agenda), ground.state, commit),
    ensures
        holds(agenda_name(agenda, commit), past, agenda_law(author)),
{
    broadcast use group_past;

    let law = agenda_law(author);
    let new = Commit::Agenda(agenda);
    let plan = agenda_name(agenda, commit);
    assert forall|reply: Reply| holds(
        #[trigger] plan.after(reply),
        past.push((plan.request(), reply)),
        law,
    ) by {
        let past1 = past.push((plan.request(), reply));
        if let Reply::Hash(hash) = reply {
            let plan = agenda_mark(agenda, commit, agenda_branch(hash));
            lemma_checked(past, past1, ground);
            lemma_published(past, past1, new, ground.state, commit);
            assert(asked(past1, RequestView::HashCommit(new), Reply::Hash(hash)));
            assert(writes_agenda_branch(past1, plan.request(), agenda, ground.state));
            assert(agenda_justified(past1, author, ground, agenda));
            assert forall|reply: Reply| holds(
                #[trigger] plan.after(reply),
                past1.push((plan.request(), reply)),
                law,
            ) by {
                let past2 = past1.push((plan.request(), reply));
                if let Reply::Nothing(Ok(_)) = reply {
                    lemma_checked(past1, past2, ground);
                    lemma_published(past1, past2, new, ground.state, commit);
                    assert(agenda_justified(past2, author, ground, agenda));
                    assert(marked(past2, new, commit, hash, agenda_branch(hash)));
                    assert(agenda_created(past2, author, agenda, commit));
                }
            }
            lemma_holds(plan, past1, law);
        }
    }
    lemma_holds(plan, past, law);
}

} // verus!
