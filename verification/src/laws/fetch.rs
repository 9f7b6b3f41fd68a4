//! Taking in branches: every one is verified by itself.
use vstd::prelude::*;

use crate::error::ErrorView;
use crate::fetch::{fetch_all, fetch_from, fetch_list, fetch_plan, get_pushed_plan};
use crate::hash::CommitHash;
use crate::host::{Reply, RequestView};
use crate::laws::{asked, group_past, holds, lemma_holds, Law, Step};

verus! {

/// Whether each of some remote branches was handed over to be verified, and was received or
/// rejected.
pub open spec fn received(past: Seq<Step>, branches: Seq<(String, String, CommitHash)>) -> bool {
    forall|i: int|
        0 <= i < branches.len() ==> verdict_known(past, (#[trigger] branches[i]).2)
}

/// Whether the branch that ends at a commit was verified, with whatever verdict.
pub open spec fn verdict_known(past: Seq<Step>, commit: CommitHash) -> bool {
    exists|verdict: Result<(), String>|
        #[trigger] asked(past, RequestView::Receive(commit), Reply::Received(Ok(verdict)))
}

/// The repository is changed in no other way than by adding remotes, fetching from them, and
/// handing branches over to be verified. The end is good only where every remote branch was.
pub open spec fn fetch_law() -> Law<()> {
    Law {
        rule: |past: Seq<Step>, request: RequestView|
            match request {
                RequestView::AddRemotes => true,
                RequestView::FetchAll => true,
                RequestView::Receive(commit) => exists|
                    branches: Vec<(String, String, CommitHash)>,
                    i: int,
                | #[trigger] offered(past, branches, i) && branches@[i].2 == commit,
                _ => !request.writes(),
            },
        end: |past: Seq<Step>, result: Result<(), ErrorView>|
            result is Ok ==> exists|branches: Vec<(String, String, CommitHash)>|
                {
                    &&& #[trigger] asked(
                        past,
                        RequestView::ListRemoteTrackingBranches,
                        Reply::RemoteBranches(Ok(branches)),
                    )
                    &&& received(past, branches@)
                },
    }
}

/// A branch among those of the remotes.
pub open spec fn offered(
    past: Seq<Step>,
    branches: Vec<(String, String, CommitHash)>,
    i: int,
) -> bool {
    &&& asked(
        past,
        RequestView::ListRemoteTrackingBranches,
        Reply::RemoteBranches(Ok(branches)),
    )
    &&& 0 <= i < branches@.len()
}

/// A fetch applies nothing itself: each branch of the remotes is handed over to be verified, and
/// no other. It ends well only where every one of them was, and one that is rejected does not keep
/// it from that.
pub proof fn law_fetch()
    ensures
        holds(fetch_plan(), Seq::empty(), fetch_law()),
{
    broadcast use group_past;

    let law = fetch_law();
    let past = Seq::<Step>::empty();
    let plan = fetch_plan();
    assert forall|reply: Reply| holds(
        #[trigger] plan.after(reply),
        past.push((plan.request(), reply)),
        law,
    ) by {
        let past1 = past.push((plan.request(), reply));
        if let Reply::Nothing(Ok(_)) = reply {
            let plan = fetch_all();
            assert forall|reply: Reply| holds(
                #[trigger] plan.after(reply),
                past1.push((plan.request(), reply)),
                law,
            ) by {
                let past2 = past1.push((plan.request(), reply));
                if let Reply::Nothing(_) = reply {
                    let plan = fetch_list();
                    assert forall|reply: Reply| holds(
                        #[trigger] plan.after(reply),
                        past2.push((plan.request(), reply)),
                        law,
                    ) by {
                        let past3 = past2.push((plan.request(), reply));
                        if let Reply::RemoteBranches(Ok(branches)) = reply {
                            lemma_from(branches, 0, past3);
                        }
                    }
                    lemma_holds(plan, past2, law);
                }
            }
            lemma_holds(plan, past1, law);
        }
    }
    lemma_holds(plan, past, law);
}

proof fn lemma_from(branches: Vec<(String, String, CommitHash)>, i: int, past: Seq<Step>)
    requires
        asked(
            past,
            RequestView::ListRemoteTrackingBranches,
            Reply::RemoteBranches(Ok(branches)),
        ),
        0 <= i <= branches@.len(),
        received(past, branches@.take(i)),
    ensures
        holds(fetch_from(branches@, i), past, fetch_law()),
    decreases branches@.len() - i,
{
    broadcast use group_past;

    let law = fetch_law();
    if i >= branches@.len() {
        assert(branches@.take(i) =~= branches@);
    } else {
        let plan = fetch_from(branches@, i);
        assert(offered(past, branches, i));
        assert forall|reply: Reply| holds(
            #[trigger] plan.after(reply),
            past.push((plan.request(), reply)),
            law,
        ) by {
            let past1 = past.push((plan.request(), reply));
            if let Reply::Received(Ok(verdict)) = reply {
                let more = branches@.take(i + 1);
                assert forall|j: int| 0 <= j < more.len() implies verdict_known(
                    past1,
                    (#[trigger] more[j]).2,
                ) by {
                    if j < i {
                        assert(branches@.take(i)[j] == more[j]);
                        let known = choose|known: Result<(), String>|
                            #[trigger] asked(
                                past,
                                RequestView::Receive(more[j].2),
                                Reply::Received(Ok(known)),
                            );
                        assert(asked(
                            past1,
                            RequestView::Receive(more[j].2),
                            Reply::Received(Ok(known)),
                        ));
                    } else {
                        assert(asked(
                            past1,
                            RequestView::Receive(more[j].2),
                            Reply::Received(Ok(verdict)),
                        ));
                    }
                }
                lemma_from(branches, i + 1, past1);
            }
        }
        lemma_holds(plan, past, law);
    }
}

/// The branch is handed over to be verified, and the verdict is what comes out.
pub open spec fn get_pushed_law(commit: CommitHash) -> Law<Result<(), String>> {
    Law {
        rule: |past: Seq<Step>, request: RequestView| request == RequestView::Receive(commit),
        end: |past: Seq<Step>, result: Result<Result<(), String>, ErrorView>|
            result matches Ok(verdict) ==> asked(
                past,
                RequestView::Receive(commit),
                Reply::Received(Ok(verdict)),
            ),
    }
}

/// A branch that was pushed is handed over to be verified, and nothing else is done. The verdict
/// is what comes out: that it was received, or why it was rejected.
pub proof fn law_get_pushed(commit: CommitHash)
    ensures
        holds(get_pushed_plan(commit), Seq::empty(), get_pushed_law(commit)),
{
    broadcast use group_past;

    let law = get_pushed_law(commit);
    let past = Seq::<Step>::empty();
    let plan = get_pushed_plan(commit);
    assert forall|reply: Reply| holds(
        #[trigger] plan.after(reply),
        past.push((plan.request(), reply)),
        law,
    ) by {}
    lemma_holds(plan, past, law);
}

} // verus!
