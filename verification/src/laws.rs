//! What holds of every run of an operation, and how it is shown.
use vstd::prelude::*;

use crate::data::{BlockHeader, Commit, LastFinalizationProof, ReservedState, SemanticCommit};
use crate::error::ErrorView;
use crate::hash::CommitHash;
use crate::host::{Reply, RequestView};
use crate::plan::{bind, Plan};
use crate::query::{last_header_decode, last_header_plan, last_header_read};
use crate::steps::{apply_from, checkout_fp, commit_fp, encode_fp};
use crate::{FINALIZED_BRANCH_NAME, FP_BRANCH_NAME};

pub mod agenda;
pub mod approve;
pub mod approved;
pub mod block;
pub mod calls;
pub mod clean;
pub mod cleaned;
pub mod created;
pub mod ends;
pub mod extra;
pub mod fetch;
pub mod genesis;
pub mod listed;
pub mod listing;
pub mod mark;
pub mod messages;
pub mod moved;
pub mod names;
pub mod progress;
pub mod query;
pub mod recorded;
pub mod sync;
pub mod work;
pub mod world;

verus! {

/// One request of a run, and the reply to it.
pub type Step = (RequestView, Reply);

/// What every run is held to.
#[verifier::reject_recursive_types(O)]
pub struct Law<O> {
    /// Whether a request may follow the steps before it.
    pub rule: spec_fn(Seq<Step>, RequestView) -> bool,
    /// Whether a run may end so after its steps.
    pub end: spec_fn(Seq<Step>, Result<O, ErrorView>) -> bool,
}

/// Whether a law holds of every run of a plan, whatever the replies, once the steps `past` are
/// taken.
pub open spec fn holds<O>(plan: Plan<O>, past: Seq<Step>, law: Law<O>) -> bool
    decreases plan,
{
    match plan {
        Plan::Done(result) => (law.end)(past, result),
        Plan::Ask(request, follow) => {
            &&& (law.rule)(past, request)
            &&& forall|reply: Reply|
                holds(#[trigger] follow(reply), past.push((request, reply)), law)
        },
        Plan::Stuck => true,
    }
}

/// What is left of a plan after some steps: nothing where they are not steps of it.
pub open spec fn after_all<O>(plan: Plan<O>, steps: Seq<Step>) -> Plan<O>
    decreases steps.len(),
{
    if steps.len() == 0 {
        plan
    } else {
        let before = after_all(plan, steps.drop_last());
        if before is Ask && before.request() == steps.last().0 {
            before.after(steps.last().1)
        } else {
            Plan::Stuck
        }
    }
}

/// What a law says of a plan holds of each run of it: the run ends as the law says, and until then
/// its next request is one that the law allows.
pub proof fn law_run<O>(plan: Plan<O>, steps: Seq<Step>, law: Law<O>)
    requires
        holds(plan, Seq::empty(), law),
    ensures
        match after_all(plan, steps) {
            Plan::Done(result) => (law.end)(steps, result),
            Plan::Ask(request, _) => (law.rule)(steps, request),
            Plan::Stuck => true,
        },
{
    lemma_run(plan, steps, law);
}

proof fn lemma_run<O>(plan: Plan<O>, steps: Seq<Step>, law: Law<O>)
    requires
        holds(plan, Seq::empty(), law),
    ensures
        holds(after_all(plan, steps), steps, law),
    decreases steps.len(),
{
    if steps.len() == 0 {
        assert(steps =~= Seq::empty());
    } else {
        lemma_run(plan, steps.drop_last(), law);
        assert(steps.drop_last().push(steps.last()) =~= steps);
    }
}

/// Whether a request was made and got a reply.
pub open spec fn asked(past: Seq<Step>, request: RequestView, reply: Reply) -> bool {
    past.contains((request, reply))
}

/// Whether a request that gives nothing back was made and done.
pub open spec fn did(past: Seq<Step>, request: RequestView) -> bool {
    asked(past, request, Reply::Nothing(Ok(())))
}

/// Whether each of some commits was accepted.
pub open spec fn accepted(past: Seq<Step>, commits: Seq<(Commit, CommitHash)>) -> bool {
    forall|i: int|
        0 <= i < commits.len() ==> did(past, RequestView::ApplyCommit((#[trigger] commits[i]).0))
}

/// Whether nothing in the past changed the repository.
pub open spec fn unwritten(past: Seq<Step>) -> bool {
    forall|i: int| 0 <= i < past.len() ==> !(#[trigger] past[i]).0.writes()
}

/// The last step is a step of the run, and so are those before it.
pub broadcast proof fn lemma_asked(past: Seq<Step>, step: Step, request: RequestView, reply: Reply)
    ensures
        #[trigger] asked(past.push(step), request, reply) == (asked(past, request, reply) || step
            == (request, reply)),
{
    let more = past.push(step);
    if asked(past, request, reply) {
        let i = choose|i: int| 0 <= i < past.len() && past[i] == (request, reply);
        assert(more[i] == (request, reply));
    }
    if step == (request, reply) {
        assert(more[past.len() as int] == (request, reply));
    }
}

/// A run that did not change the repository still has not where its next step does not.
pub broadcast proof fn lemma_unwritten(past: Seq<Step>, step: Step)
    ensures
        #[trigger] unwritten(past.push(step)) == (unwritten(past) && !step.0.writes()),
{
    let more = past.push(step);
    assert(more[past.len() as int] == step);
    assert(forall|i: int| 0 <= i < past.len() ==> more[i] == past[i]);
}

/// A header that was read stays read.
pub proof fn lemma_header_kept(past: Seq<Step>, then: Seq<Step>, header: BlockHeader)
    requires
        header_read(past, header),
        extends(then, past),
    ensures
        header_read(then, header),
{
    let (commit, stored) = choose|commit: CommitHash, stored: SemanticCommit|
        #[trigger] finalized_at(past, commit, stored, header);
    assert(finalized_at(then, commit, stored, header));
}

/// A header that was read stays read with the next step.
pub broadcast proof fn lemma_header_read(past: Seq<Step>, step: Step, header: BlockHeader)
    requires
        header_read(past, header),
    ensures
        #[trigger] header_read(past.push(step), header),
{
    lemma_extends(past, step);
    lemma_header_kept(past, past.push(step), header);
}

/// A verifier that was started stays started.
pub proof fn lemma_started_kept(
    past: Seq<Step>,
    then: Seq<Step>,
    header: BlockHeader,
    state: ReservedState,
)
    requires
        verifier_started(past, header, state),
        extends(then, past),
    ensures
        verifier_started(then, header, state),
{
    lemma_header_kept(past, then, header);
}

/// A run goes on from the run without its last step.
pub broadcast proof fn lemma_extends(past: Seq<Step>, step: Step)
    ensures
        #![trigger past.push(step)]
        extends(past.push(step), past),
{
    broadcast use lemma_asked;

}

/// A run goes on from itself.
pub proof fn lemma_extends_self(past: Seq<Step>)
    ensures
        extends(past, past),
{
}

/// A run that goes on from a run that goes on from a third one goes on from that.
pub broadcast proof fn lemma_extends_both(then: Seq<Step>, between: Seq<Step>, past: Seq<Step>)
    requires
        #[trigger] extends(then, between),
        #[trigger] extends(between, past),
    ensures
        extends(then, past),
{
    assert forall|request: RequestView, reply: Reply| #[trigger]
        asked(past, request, reply) implies asked(then, request, reply) by {
        assert(asked(between, request, reply));
    }
}

pub broadcast group group_past {
    lemma_asked,
    lemma_unwritten,
    lemma_header_read,
    lemma_extends,
    lemma_extends_both,
}

/// A law holds of a plan where it allows the first request and holds after every reply.
pub proof fn lemma_holds<O>(plan: Plan<O>, past: Seq<Step>, law: Law<O>)
    requires
        plan is Ask,
        (law.rule)(past, plan.request()),
        forall|reply: Reply|
            holds(#[trigger] plan.after(reply), past.push((plan.request(), reply)), law),
    ensures
        holds(plan, past, law),
{
    let follow = plan->Ask_1;
    assert forall|reply: Reply| holds(
        #[trigger] follow(reply),
        past.push((plan.request(), reply)),
        law,
    ) by {
        assert(plan.after(reply) == follow(reply));
    }
}

/// A law holds of two plans in a row where it holds of the first one up to its result, and of the
/// second one after every such result.
pub proof fn lemma_bind_holds<A, B>(
    first: Plan<A>,
    second: spec_fn(A) -> Plan<B>,
    past: Seq<Step>,
    law: Law<B>,
    between: spec_fn(Seq<Step>, A) -> bool,
)
    requires
        holds(first, past, up_to(law, between)),
        forall|then: Seq<Step>, output: A| #[trigger]
            between(then, output) ==> holds(second(output), then, law),
    ensures
        holds(bind(first, second), past, law),
    decreases first,
{
    match first {
        Plan::Done(_) => {},
        Plan::Ask(request, follow) => {
            let both = bind(first, second);
            let next = both->Ask_1;
            assert forall|reply: Reply| holds(
                #[trigger] next(reply),
                past.push((request, reply)),
                law,
            ) by {
                lemma_bind_holds(
                    follow(reply),
                    second,
                    past.push((request, reply)),
                    law,
                    between,
                );
                assert(next(reply) == bind(follow(reply), second));
            }
        },
        Plan::Stuck => {},
    }
}

/// The law of the first of two plans in a row: an error is the end of both, and a result is as
/// `between` says.
pub open spec fn up_to<A, B>(law: Law<B>, between: spec_fn(Seq<Step>, A) -> bool) -> Law<A> {
    Law {
        rule: law.rule,
        end: |past: Seq<Step>, result: Result<A, ErrorView>|
            match result {
                Ok(output) => between(past, output),
                Err(error) => (law.end)(past, Err(error)),
            },
    }
}

/// Where a law holds, so does one that says no more.
pub proof fn lemma_weaker<O>(plan: Plan<O>, past: Seq<Step>, law: Law<O>, other: Law<O>)
    requires
        holds(plan, past, law),
        forall|then: Seq<Step>, request: RequestView| #[trigger]
            (law.rule)(then, request) ==> (other.rule)(then, request),
        forall|then: Seq<Step>, result: Result<O, ErrorView>| #[trigger]
            (law.end)(then, result) ==> (other.end)(then, result),
    ensures
        holds(plan, past, other),
    decreases plan,
{
    if let Plan::Ask(request, follow) = plan {
        assert forall|reply: Reply| holds(
            #[trigger] follow(reply),
            past.push((request, reply)),
            other,
        ) by {
            lemma_weaker(follow(reply), past.push((request, reply)), law, other);
        }
    }
}

/// The steps that start a verifier on the last finalized header and the reserved state.
pub open spec fn verifier_started(past: Seq<Step>, header: BlockHeader, state: ReservedState) -> bool {
    &&& header_read(past, header)
    &&& asked(past, RequestView::ReadReservedState, Reply::ReservedState(Ok(state)))
    &&& did(past, RequestView::CreateVerifier(header, state))
}

/// The steps that read a commit of the repository.
pub open spec fn read_as(
    past: Seq<Step>,
    commit: CommitHash,
    stored: SemanticCommit,
    content: Commit,
) -> bool {
    &&& asked(past, RequestView::ReadSemanticCommit(commit), Reply::SemanticCommit(Ok(stored)))
    &&& asked(past, RequestView::DecodeCommit(stored), Reply::Decoded(Ok(content)))
}

/// The steps that read the header of the block that `finalized` is at.
pub open spec fn finalized_at(
    past: Seq<Step>,
    commit: CommitHash,
    stored: SemanticCommit,
    header: BlockHeader,
) -> bool {
    &&& asked(past, RequestView::LocateBranch(FINALIZED_BRANCH_NAME@), Reply::Commit(Ok(commit)))
    &&& read_as(past, commit, stored, Commit::Block(header))
}

/// Whether a header was read as that of the block that `finalized` is at.
pub open spec fn header_read(past: Seq<Step>, header: BlockHeader) -> bool {
    exists|commit: CommitHash, stored: SemanticCommit|
        #[trigger] finalized_at(past, commit, stored, header)
}

/// Whether a finalization proof was committed on the `fp` branch.
pub open spec fn proof_recorded(past: Seq<Step>, proof: LastFinalizationProof) -> bool {
    &&& did(past, RequestView::Checkout(FP_BRANCH_NAME@))
    &&& exists|stored: SemanticCommit, commit: CommitHash|
        {
            &&& #[trigger] asked(
                past,
                RequestView::EncodeProof(proof),
                Reply::SemanticCommit(Ok(stored)),
            )
            &&& #[trigger] asked(
                past,
                RequestView::CreateSemanticCommit(stored),
                Reply::Commit(Ok(commit)),
            )
        }
}

/// Whether a write is one of those that record a finalization proof: `fp` is checked out, and the
/// stored form of the proof is committed.
pub open spec fn writes_proof(
    past: Seq<Step>,
    request: RequestView,
    proof: LastFinalizationProof,
) -> bool {
    match request {
        RequestView::Checkout(name) => name == FP_BRANCH_NAME@,
        RequestView::CreateSemanticCommit(stored) => asked(
            past,
            RequestView::EncodeProof(proof),
            Reply::SemanticCommit(Ok(stored)),
        ),
        _ => false,
    }
}

/// Whether one run goes on from another: its steps are the first steps of the run, and so each of
/// them is among those.
pub open spec fn extends(then: Seq<Step>, past: Seq<Step>) -> bool {
    &&& past.len() <= then.len()
    &&& forall|i: int| 0 <= i < past.len() ==> #[trigger] then[i] == past[i]
    &&& forall|request: RequestView, reply: Reply| #[trigger]
        asked(past, request, reply) ==> asked(then, request, reply)
}

/// Whether a law lets every run that goes on from `past` read on, and lets it end in an error.
pub open spec fn calm<O>(law: Law<O>, past: Seq<Step>) -> bool {
    &&& forall|then: Seq<Step>, request: RequestView|
        extends(then, past) && !request.writes() ==> #[trigger] (law.rule)(then, request)
    &&& forall|then: Seq<Step>, error: ErrorView|
        extends(then, past) ==> #[trigger] (law.end)(then, Err(error))
}

/// Reading the last header writes nothing, and gives a header that was read. What was asked before
/// is kept.
pub proof fn lemma_last_header<O>(
    past: Seq<Step>,
    law: Law<O>,
    between: spec_fn(Seq<Step>, BlockHeader) -> bool,
)
    requires
        calm(law, past),
        forall|then: Seq<Step>, header: BlockHeader|
            extends(then, past) && header_read(then, header) && (unwritten(past) ==> unwritten(
                then,
            )) ==> #[trigger] between(then, header),
    ensures
        holds(last_header_plan(), past, up_to(law, between)),
{
    broadcast use group_past;

    let law1 = up_to(law, between);
    let plan = last_header_plan();
    assert forall|reply: Reply| holds(
        #[trigger] plan.after(reply),
        past.push((plan.request(), reply)),
        law1,
    ) by {
        let past1 = past.push((plan.request(), reply));
        if let Reply::Commit(Ok(commit)) = reply {
            let plan = last_header_read(commit);
            assert forall|reply: Reply| holds(
                #[trigger] plan.after(reply),
                past1.push((plan.request(), reply)),
                law1,
            ) by {
                let past2 = past1.push((plan.request(), reply));
                if let Reply::SemanticCommit(Ok(stored)) = reply {
                    let plan = last_header_decode(stored);
                    assert forall|reply: Reply| holds(
                        #[trigger] plan.after(reply),
                        past2.push((plan.request(), reply)),
                        law1,
                    ) by {
                        let past3 = past2.push((plan.request(), reply));
                        if let Reply::Decoded(Ok(Commit::Block(header))) = reply {
                            assert(finalized_at(past3, commit, stored, header));
                        }
                    }
                    lemma_holds(plan, past2, law1);
                }
            }
            lemma_holds(plan, past1, law1);
        }
    }
    lemma_holds(plan, past, law1);
}

/// Verifying some commits writes nothing, and where it ends well each of them was accepted.
pub proof fn lemma_apply_all<O>(
    commits: Seq<(Commit, CommitHash)>,
    i: int,
    past: Seq<Step>,
    law: Law<O>,
    between: spec_fn(Seq<Step>, Seq<(Commit, CommitHash)>) -> bool,
)
    requires
        calm(law, past),
        0 <= i <= commits.len(),
        accepted(past, commits.take(i)),
        forall|then: Seq<Step>|
            extends(then, past) && accepted(then, commits) && (unwritten(past) ==> unwritten(then))
                ==> #[trigger] between(then, commits),
    ensures
        holds(apply_from(commits, i), past, up_to(law, between)),
    decreases commits.len() - i,
{
    broadcast use group_past;

    if i >= commits.len() {
        assert(commits.take(i) =~= commits);
    } else {
        let plan = apply_from(commits, i);
        assert forall|reply: Reply| holds(
            #[trigger] plan.after(reply),
            past.push((plan.request(), reply)),
            up_to(law, between),
        ) by {
            let then = past.push((plan.request(), reply));
            if let Reply::Nothing(Ok(_)) = reply {
                assert forall|j: int| 0 <= j < commits.take(i + 1).len() implies did(
                    then,
                    RequestView::ApplyCommit((#[trigger] commits.take(i + 1)[j]).0),
                ) by {
                    if j < i {
                        assert(commits.take(i)[j] == commits[j]);
                    }
                }
                lemma_apply_all(commits, i + 1, then, law, between);
            }
        }
        lemma_holds(plan, past, up_to(law, between));
    }
}

/// Recording a finalization proof: where it ends well the proof was recorded.
pub proof fn lemma_record_proof(proof: LastFinalizationProof, past: Seq<Step>, law: Law<()>)
    requires
        forall|then: Seq<Step>, request: RequestView|
            extends(then, past) && (!request.writes() || writes_proof(then, request, proof))
                ==> #[trigger] (law.rule)(then, request),
        forall|then: Seq<Step>, error: ErrorView|
            extends(then, past) ==> #[trigger] (law.end)(then, Err(error)),
        forall|then: Seq<Step>|
            extends(then, past) && proof_recorded(then, proof) ==> #[trigger] (law.end)(
                then,
                Ok(()),
            ),
    ensures
        holds(checkout_fp(proof), past, law),
{
    broadcast use group_past;

    let plan = checkout_fp(proof);
    assert forall|reply: Reply| holds(
        #[trigger] plan.after(reply),
        past.push((plan.request(), reply)),
        law,
    ) by {
        let past1 = past.push((plan.request(), reply));
        if let Reply::Nothing(Ok(_)) = reply {
            let plan = encode_fp(proof);
            assert forall|reply: Reply| holds(
                #[trigger] plan.after(reply),
                past1.push((plan.request(), reply)),
                law,
            ) by {
                let past2 = past1.push((plan.request(), reply));
                if let Reply::SemanticCommit(Ok(stored)) = reply {
                    let plan = commit_fp(stored);
                    assert forall|reply: Reply| holds(
                        #[trigger] plan.after(reply),
                        past2.push((plan.request(), reply)),
                        law,
                    ) by {
                        let past3 = past2.push((plan.request(), reply));
                        if let Reply::Commit(Ok(commit)) = reply {
                            assert(asked(
                                past3,
                                RequestView::EncodeProof(proof),
                                Reply::SemanticCommit(Ok(stored)),
                            ));
                            assert(asked(
                                past3,
                                RequestView::CreateSemanticCommit(stored),
                                Reply::Commit(Ok(commit)),
                            ));
                            assert(proof_recorded(past3, proof));
                        }
                    }
                    lemma_holds(plan, past2, law);
                }
            }
            lemma_holds(plan, past1, law);
        }
    }
    lemma_holds(plan, past, law);
}

} // verus!
