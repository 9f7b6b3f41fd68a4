//! Starting a repository: what is there at the end.
use vstd::prelude::*;

use crate::data::{Commit, LastFinalizationProof, ReservedState, SemanticCommit};
use crate::error::{ErrorView, HostError};
use crate::genesis::{
    genesis_checkout, genesis_clean, genesis_commit, genesis_encode, genesis_finalized, genesis_fp,
    genesis_head, genesis_plan, genesis_work,
};
use crate::hash::CommitHash;
use crate::host::{Reply, RequestView};
use crate::laws::{
    asked, did, extends, group_past, holds, lemma_holds, lemma_record_proof, proof_recorded,
    writes_proof, Law, Step,
};
use crate::{FINALIZED_BRANCH_NAME, FP_BRANCH_NAME, WORK_BRANCH_NAME};

verus! {

/// Whether a branch was tried to be made at a commit. It may have been there already.
pub open spec fn tried(past: Seq<Step>, name: Seq<char>, commit: CommitHash) -> bool {
    exists|answer: Result<(), HostError>|
        #[trigger] asked(past, RequestView::CreateBranch(name, commit), Reply::Nothing(answer))
}

/// The steps that make `finalized` at the head.
pub open spec fn headed(past: Seq<Step>, head: CommitHash) -> bool {
    &&& asked(past, RequestView::GetHead, Reply::Commit(Ok(head)))
    &&& tried(past, FINALIZED_BRANCH_NAME@, head)
}

/// The proof of the genesis block.
pub open spec fn genesis_record(state: ReservedState) -> LastFinalizationProof {
    LastFinalizationProof { height: 0, proof: state.genesis_info.genesis_proof }
}

/// The steps that commit the genesis block on `finalized`, which is made at the head where it was
/// not there before.
pub open spec fn founded(
    past: Seq<Step>,
    state: ReservedState,
    stored: SemanticCommit,
    commit: CommitHash,
) -> bool {
    &&& exists|head: CommitHash| #[trigger] headed(past, head)
    &&& asked(past, RequestView::ReadReservedState, Reply::ReservedState(Ok(state)))
    &&& asked(
        past,
        RequestView::EncodeCommit(Commit::Block(state.genesis_info.header), state),
        Reply::SemanticCommit(Ok(stored)),
    )
    &&& did(past, RequestView::Checkout(FINALIZED_BRANCH_NAME@))
    &&& asked(past, RequestView::CreateSemanticCommit(stored), Reply::Commit(Ok(commit)))
}

/// The steps that start a repository: the genesis block is on `finalized`, the branches `work` and
/// `fp` are made at the same commit, and the genesis proof is recorded with the height zero.
pub open spec fn begun(
    past: Seq<Step>,
    state: ReservedState,
    stored: SemanticCommit,
    commit: CommitHash,
) -> bool {
    &&& founded(past, state, stored, commit)
    &&& tried(past, WORK_BRANCH_NAME@, commit)
    &&& tried(past, FP_BRANCH_NAME@, commit)
    &&& proof_recorded(past, genesis_record(state))
}

/// Whether a commit of a genesis may be stored: that of the genesis block, or that of its proof.
pub open spec fn genesis_stores(
    past: Seq<Step>,
    stored: SemanticCommit,
    state: ReservedState,
) -> bool {
    &&& asked(past, RequestView::ReadReservedState, Reply::ReservedState(Ok(state)))
    &&& {
        ||| asked(
            past,
            RequestView::EncodeCommit(Commit::Block(state.genesis_info.header), state),
            Reply::SemanticCommit(Ok(stored)),
        )
        ||| asked(
            past,
            RequestView::EncodeProof(genesis_record(state)),
            Reply::SemanticCommit(Ok(stored)),
        )
    }
}

/// Whether a stored form is one that a genesis may commit.
pub open spec fn genesis_commits(past: Seq<Step>, stored: SemanticCommit) -> bool {
    exists|state: ReservedState| #[trigger] genesis_stores(past, stored, state)
}

/// `finalized` is made at the head, and `work` and `fp` at the commit of the genesis block. No
/// other branch is made, and none is moved or deleted. Nothing is committed but the genesis block
/// and its proof. The end is good only where the repository has begun.
pub open spec fn genesis_law() -> Law<()> {
    Law {
        rule: |past: Seq<Step>, request: RequestView|
            match request {
                RequestView::CreateBranch(name, commit) => {
                    ||| name == FINALIZED_BRANCH_NAME@ && asked(
                        past,
                        RequestView::GetHead,
                        Reply::Commit(Ok(commit)),
                    )
                    ||| {
                        &&& name == WORK_BRANCH_NAME@ || name == FP_BRANCH_NAME@
                        &&& exists|state: ReservedState, stored: SemanticCommit| #[trigger]
                            founded(past, state, stored, commit)
                    }
                },
                RequestView::Checkout(name) => name == FINALIZED_BRANCH_NAME@ || name
                    == FP_BRANCH_NAME@,
                RequestView::CheckoutClean => true,
                RequestView::CreateSemanticCommit(stored) => genesis_commits(past, stored),
                _ => !request.writes(),
            },
        end: |past: Seq<Step>, result: Result<(), ErrorView>|
            result is Ok ==> exists|
                state: ReservedState,
                stored: SemanticCommit,
                commit: CommitHash,
            | #[trigger] begun(past, state, stored, commit),
    }
}

/// A genesis makes no branch but `finalized`, `work` and `fp`, and commits nothing but the genesis
/// block and its proof. It ends well only with the genesis block committed on `finalized`, which is
/// made at the head where it was not there before, with `work` and `fp` made at that commit where
/// they were not there before, and with the genesis proof committed on `fp`.
pub proof fn law_genesis()
    ensures
        holds(genesis_plan(), Seq::empty(), genesis_law()),
{
    broadcast use group_past;

    let law = genesis_law();
    let past = Seq::<Step>::empty();
    let plan = genesis_plan();
    assert forall|reply: Reply| holds(
        #[trigger] plan.after(reply),
        past.push((plan.request(), reply)),
        law,
    ) by {
        let past1 = past.push((plan.request(), reply));
        if let Reply::ReservedState(Ok(state)) = reply {
            let plan = genesis_encode(state);
            assert forall|reply: Reply| holds(
                #[trigger] plan.after(reply),
                past1.push((plan.request(), reply)),
                law,
            ) by {
                let past2 = past1.push((plan.request(), reply));
                if let Reply::SemanticCommit(Ok(stored)) = reply {
                    lemma_finalized(state, stored, past2);
                }
            }
            lemma_holds(plan, past1, law);
        }
    }
    lemma_holds(plan, past, law);
}

proof fn lemma_finalized(state: ReservedState, stored: SemanticCommit, past: Seq<Step>)
    requires
        asked(past, RequestView::ReadReservedState, Reply::ReservedState(Ok(state))),
        asked(
            past,
            RequestView::EncodeCommit(Commit::Block(state.genesis_info.header), state),
            Reply::SemanticCommit(Ok(stored)),
        ),
    ensures
        holds(genesis_clean(stored, state.genesis_info.genesis_proof), past, genesis_law()),
{
    broadcast use group_past;

    let law = genesis_law();
    let proof = state.genesis_info.genesis_proof;
    let plan = genesis_clean(stored, proof);
    assert forall|reply: Reply| holds(
        #[trigger] plan.after(reply),
        past.push((plan.request(), reply)),
        law,
    ) by {
        let past1 = past.push((plan.request(), reply));
        if let Reply::Nothing(Ok(_)) = reply {
            let plan = genesis_head(stored, proof);
            assert forall|reply: Reply| holds(
                #[trigger] plan.after(reply),
                past1.push((plan.request(), reply)),
                law,
            ) by {
                let past2 = past1.push((plan.request(), reply));
                if let Reply::Commit(Ok(head)) = reply {
                    let plan = genesis_finalized(stored, proof, head);
                    assert forall|reply: Reply| holds(
                        #[trigger] plan.after(reply),
                        past2.push((plan.request(), reply)),
                        law,
                    ) by {
                        let past3 = past2.push((plan.request(), reply));
                        if let Reply::Nothing(answer) = reply {
                            assert(asked(
                                past3,
                                RequestView::CreateBranch(FINALIZED_BRANCH_NAME@, head),
                                Reply::Nothing(answer),
                            ));
                            lemma_founded(state, stored, head, past3);
                        }
                    }
                    lemma_holds(plan, past2, law);
                }
            }
            lemma_holds(plan, past1, law);
        }
    }
    lemma_holds(plan, past, law);
}

/// What was made at the head stays so.
proof fn lemma_headed(past: Seq<Step>, then: Seq<Step>, head: CommitHash)
    requires
        headed(past, head),
        extends(then, past),
    ensures
        headed(then, head),
{
    let request = RequestView::CreateBranch(FINALIZED_BRANCH_NAME@, head);
    let answer = choose|answer: Result<(), HostError>|
        #[trigger] asked(past, request, Reply::Nothing(answer));
    assert(asked(then, request, Reply::Nothing(answer)));
}

/// What is founded stays so.
proof fn lemma_founded_kept(
    past: Seq<Step>,
    then: Seq<Step>,
    state: ReservedState,
    stored: SemanticCommit,
    commit: CommitHash,
)
    requires
        founded(past, state, stored, commit),
        extends(then, past),
    ensures
        founded(then, state, stored, commit),
{
    let head = choose|head: CommitHash| #[trigger] headed(past, head);
    lemma_headed(past, then, head);
}

proof fn lemma_founded(
    state: ReservedState,
    stored: SemanticCommit,
    head: CommitHash,
    past: Seq<Step>,
)
    requires
        headed(past, head),
        asked(past, RequestView::ReadReservedState, Reply::ReservedState(Ok(state))),
        asked(
            past,
            RequestView::EncodeCommit(Commit::Block(state.genesis_info.header), state),
            Reply::SemanticCommit(Ok(stored)),
        ),
    ensures
        holds(genesis_checkout(stored, state.genesis_info.genesis_proof), past, genesis_law()),
{
    broadcast use group_past;

    let law = genesis_law();
    let proof = state.genesis_info.genesis_proof;
    let plan = genesis_checkout(stored, proof);
    assert forall|reply: Reply| holds(
        #[trigger] plan.after(reply),
        past.push((plan.request(), reply)),
        law,
    ) by {
        let past1 = past.push((plan.request(), reply));
        if let Reply::Nothing(Ok(_)) = reply {
            let plan = genesis_commit(stored, proof);
            assert(genesis_stores(past1, stored, state));
            assert(genesis_commits(past1, stored));
            assert forall|reply: Reply| holds(
                #[trigger] plan.after(reply),
                past1.push((plan.request(), reply)),
                law,
            ) by {
                let past2 = past1.push((plan.request(), reply));
                if let Reply::Commit(Ok(commit)) = reply {
                    lemma_headed(past, past2, head);
                    lemma_branches(state, stored, commit, past2);
                }
            }
            lemma_holds(plan, past1, law);
        }
    }
    lemma_holds(plan, past, law);
}

proof fn lemma_branches(
    state: ReservedState,
    stored: SemanticCommit,
    commit: CommitHash,
    past: Seq<Step>,
)
    requires
        founded(past, state, stored, commit),
    ensures
        holds(genesis_work(state.genesis_info.genesis_proof, commit), past, genesis_law()),
{
    broadcast use group_past;

    let law = genesis_law();
    let proof = state.genesis_info.genesis_proof;
    let record = genesis_record(state);
    let plan = genesis_work(proof, commit);
    assert forall|reply: Reply| holds(
        #[trigger] plan.after(reply),
        past.push((plan.request(), reply)),
        law,
    ) by {
        let past1 = past.push((plan.request(), reply));
        if let Reply::Nothing(work) = reply {
            let plan = genesis_fp(proof, commit);
            lemma_founded_kept(past, past1, state, stored, commit);
            assert forall|reply: Reply| holds(
                #[trigger] plan.after(reply),
                past1.push((plan.request(), reply)),
                law,
            ) by {
                let past2 = past1.push((plan.request(), reply));
                if let Reply::Nothing(fp) = reply {
                    assert(asked(
                        past2,
                        RequestView::CreateBranch(WORK_BRANCH_NAME@, commit),
                        Reply::Nothing(work),
                    ));
                    assert(asked(
                        past2,
                        RequestView::CreateBranch(FP_BRANCH_NAME@, commit),
                        Reply::Nothing(fp),
                    ));
                    assert forall|then: Seq<Step>|
                        extends(then, past2) && proof_recorded(then, record) implies #[trigger] (
                    law.end)(then, Ok(())) by {
                        assert(asked(
                            then,
                            RequestView::CreateBranch(WORK_BRANCH_NAME@, commit),
                            Reply::Nothing(work),
                        ));
                        assert(asked(
                            then,
                            RequestView::CreateBranch(FP_BRANCH_NAME@, commit),
                            Reply::Nothing(fp),
                        ));
                        assert(extends(then, past));
                        lemma_founded_kept(past, then, state, stored, commit);
                        assert(begun(then, state, stored, commit));
                    }
                    assert forall|then: Seq<Step>, request: RequestView|
                        extends(then, past2) && (!request.writes() || writes_proof(
                            then,
                            request,
                            record,
                        )) implies #[trigger] (law.rule)(then, request) by {
                        if let RequestView::CreateSemanticCommit(stored) = request {
                            assert(extends(then, past));
                            assert(genesis_stores(then, stored, state));
                        }
                    }
                    lemma_record_proof(record, past2, law);
                }
            }
            lemma_holds(plan, past1, law);
        }
    }
    lemma_holds(plan, past, law);
}

} // verus!
