//! Recording an approval: only of an agenda on top of the finalized block, and with its proof.
use vstd::prelude::*;

use crate::approve::{
    approve_apply, approve_checkout, approve_commit, approve_create, approve_delete, approve_encode,
    approve_existing, approve_finalized, approve_hash, approve_header, approve_if_new,
    approve_locate, approve_name, approve_plan, approve_read, approve_rebased, approve_state,
    approve_verifier, approve_verify, lists, Approval,
};
use crate::data::{Agenda, AgendaProof, BlockHeader, Commit, ReservedState, SemanticCommit};
use crate::error::ErrorView;
use crate::hash::{agenda_branch, CommitHash, Hash256};
use crate::host::{Reply, RequestView};
use crate::laws::{
    accepted, asked, did, extends, group_past, header_read, holds, lemma_apply_all,
    lemma_bind_holds, lemma_holds, lemma_last_header, lemma_started_kept, verifier_started, Law,
    Step,
};
use crate::plan::{fail, Plan};
use crate::query::last_header_plan;
use crate::steps::apply_from;
use crate::FINALIZED_BRANCH_NAME;

verus! {

/// Where an agenda stands: the commits that `finalized` and its branch point to, the last
/// finalized header, the reserved state, the commits between, and the agenda.
pub struct Standing {
    pub last: CommitHash,
    pub tip: CommitHash,
    pub from: CommitHash,
    pub header: BlockHeader,
    pub state: ReservedState,
    pub commits: Vec<(Commit, CommitHash)>,
    pub agenda: Agenda,
}

/// The steps that show that the branch of an agenda is on top of the finalized commit.
pub open spec fn based(past: Seq<Step>, hash: Hash256, last: CommitHash, tip: CommitHash) -> bool {
    &&& asked(past, RequestView::LocateBranch(FINALIZED_BRANCH_NAME@), Reply::Commit(Ok(last)))
    &&& asked(past, RequestView::LocateBranch(agenda_branch(hash)), Reply::Commit(Ok(tip)))
    &&& asked(past, RequestView::FindMergeBase(last, tip), Reply::Commit(Ok(last)))
}

/// The steps that show which commits are between the finalized commit and the tip of a branch.
pub open spec fn gathered(
    past: Seq<Step>,
    from: CommitHash,
    tip: CommitHash,
    commits: Vec<(Commit, CommitHash)>,
) -> bool {
    &&& asked(past, RequestView::LocateBranch(FINALIZED_BRANCH_NAME@), Reply::Commit(Ok(from)))
    &&& asked(past, RequestView::ReadCommits(from, tip), Reply::Commits(Ok(commits)))
}

/// The steps that show that a branch is on top of the finalized commit, that all its commits are
/// valid, and that it ends in an agenda.
pub open spec fn stands(past: Seq<Step>, hash: Hash256, standing: Standing) -> bool {
    &&& based(past, hash, standing.last, standing.tip)
    &&& gathered(past, standing.from, standing.tip, standing.commits)
    &&& verifier_started(past, standing.header, standing.state)
    &&& accepted(past, standing.commits@)
    &&& standing.commits@.len() > 0
    &&& standing.commits@.last().0 == Commit::Agenda(standing.agenda)
}

/// The commit that says that an agenda was approved.
pub open spec fn proof_commit(approval: Approval, agenda: Agenda, agenda_hash: Hash256) -> Commit {
    Commit::AgendaProof(
        AgendaProof {
            height: agenda.height,
            agenda_hash,
            proof: approval.proof,
            timestamp: approval.timestamp,
        },
    )
}

/// The steps that show that the proof of an approval is valid on top of the agenda.
pub open spec fn proof_valid(
    past: Seq<Step>,
    approval: Approval,
    standing: Standing,
    agenda_hash: Hash256,
) -> bool {
    &&& asked(
        past,
        RequestView::HashCommit(Commit::Agenda(standing.agenda)),
        Reply::Hash(agenda_hash),
    )
    &&& did(past, RequestView::ApplyCommit(proof_commit(approval, standing.agenda, agenda_hash)))
}

/// The proof of an approval: the hash of the agenda, the stored form of the proof and its hash.
pub struct Proof {
    pub agenda_hash: Hash256,
    pub stored: SemanticCommit,
    pub hash: Hash256,
}

/// The steps that make the proof of an approval, once it is shown to be valid.
pub open spec fn proof_made(
    past: Seq<Step>,
    approval: Approval,
    standing: Standing,
    proof: Proof,
) -> bool {
    let commit = proof_commit(approval, standing.agenda, proof.agenda_hash);
    &&& proof_valid(past, approval, standing, proof.agenda_hash)
    &&& asked(
        past,
        RequestView::EncodeCommit(commit, standing.state),
        Reply::SemanticCommit(Ok(proof.stored)),
    )
    &&& asked(past, RequestView::HashCommit(commit), Reply::Hash(proof.hash))
}

/// Whether a write puts a proof on a branch of its own, at the tip of the branch of the agenda.
pub open spec fn writes_proof(request: RequestView, standing: Standing, proof: Proof) -> bool {
    match request {
        RequestView::CreateBranch(name, commit) => {
            &&& name == agenda_branch(proof.hash)
            &&& commit == standing.tip
        },
        RequestView::Checkout(name) => name == agenda_branch(proof.hash),
        RequestView::CreateSemanticCommit(stored) => stored == proof.stored,
        _ => false,
    }
}

/// Whether a proof is there: on a branch that was there already, or on one that was made at the
/// tip of the branch of the agenda.
pub open spec fn proof_there(
    past: Seq<Step>,
    standing: Standing,
    proof: Proof,
    commit: CommitHash,
) -> bool {
    let branch = agenda_branch(proof.hash);
    ||| {
        &&& exists|names: Vec<String>|
            {
                &&& #[trigger] asked(past, RequestView::ListBranches, Reply::Names(Ok(names)))
                &&& lists(names@, branch)
            }
        &&& asked(past, RequestView::LocateBranch(branch), Reply::Commit(Ok(commit)))
    }
    ||| {
        &&& did(past, RequestView::CreateBranch(branch, standing.tip))
        &&& did(past, RequestView::Checkout(branch))
        &&& asked(
            past,
            RequestView::CreateSemanticCommit(proof.stored),
            Reply::Commit(Ok(commit)),
        )
    }
}

/// The steps that put the proof of an approval in the place of the branch of the agenda.
pub open spec fn approved(past: Seq<Step>, approval: Approval, commit: CommitHash) -> bool {
    exists|standing: Standing, proof: Proof|
        {
            &&& #[trigger] stands(past, approval.agenda_hash, standing)
            &&& did(past, RequestView::DeleteBranch(agenda_branch(approval.agenda_hash)))
            &&& #[trigger] proof_made(past, approval, standing, proof)
            &&& proof_there(past, standing, proof, commit)
        }
}

/// Nothing is written before the agenda is shown to stand and the proof to be valid on top of it,
/// and then the branch of the agenda is deleted, or the proof is put on a branch of its own. The
/// end is good only where the proof is there.
pub open spec fn approve_law(approval: Approval) -> Law<CommitHash> {
    Law {
        rule: |past: Seq<Step>, request: RequestView|
            request.writes() ==> exists|standing: Standing, agenda_hash: Hash256|
                {
                    &&& #[trigger] stands(past, approval.agenda_hash, standing)
                    &&& #[trigger] proof_valid(past, approval, standing, agenda_hash)
                    &&& {
                        ||| request == RequestView::DeleteBranch(
                            agenda_branch(approval.agenda_hash),
                        )
                        ||| exists|proof: Proof| #[trigger]
                            proof_made(past, approval, standing, proof) && writes_proof(
                                request,
                                standing,
                                proof,
                            )
                    }
                },
        end: |past: Seq<Step>, result: Result<CommitHash, ErrorView>|
            result matches Ok(commit) ==> approved(past, approval, commit),
    }
}

/// In every run that records an approval, nothing is written before the branch of the agenda is
/// shown to be on top of the finalized block, every commit on it to be valid, the last one to be an
/// agenda, and the proof of the approval to be valid on top of that. No branch is deleted but that
/// of the agenda. A run ends well only with a proof of the height of that agenda on a branch of its
/// own name, and it gives the commit of the proof.
pub proof fn law_approve(approval: Approval)
    ensures
        holds(approve_plan(approval), Seq::empty(), approve_law(approval)),
{
    broadcast use group_past;

    let law = approve_law(approval);
    let past = Seq::<Step>::empty();
    let plan = approve_plan(approval);
    assert forall|reply: Reply| holds(
        #[trigger] plan.after(reply),
        past.push((plan.request(), reply)),
        law,
    ) by {
        let past1 = past.push((plan.request(), reply));
        if let Reply::Commit(Ok(last)) = reply {
            let plan = approve_locate(approval, last);
            assert forall|reply: Reply| holds(
                #[trigger] plan.after(reply),
                past1.push((plan.request(), reply)),
                law,
            ) by {
                let past2 = past1.push((plan.request(), reply));
                if let Reply::Commit(Ok(tip)) = reply {
                    let plan = approve_rebased(approval, last, tip);
                    assert forall|reply: Reply| holds(
                        #[trigger] plan.after(reply),
                        past2.push((plan.request(), reply)),
                        law,
                    ) by {
                        let past3 = past2.push((plan.request(), reply));
                        if let Reply::Commit(Ok(base)) = reply {
                            if base == last {
                                lemma_header(approval, last, tip, past3);
                            }
                        }
                    }
                    lemma_holds(plan, past2, law);
                }
            }
            lemma_holds(plan, past1, law);
        }
    }
    lemma_holds(plan, past, law);
}

proof fn lemma_header(approval: Approval, last: CommitHash, tip: CommitHash, past: Seq<Step>)
    requires
        based(past, approval.agenda_hash, last, tip),
    ensures
        holds(approve_header(last_header_plan(), approval, tip), past, approve_law(approval)),
{
    let law = approve_law(approval);
    let second = |header: BlockHeader| approve_state(approval, tip, header);
    let between = |then: Seq<Step>, header: BlockHeader|
        header_read(then, header) && based(then, approval.agenda_hash, last, tip);
    lemma_last_header(past, law, between);
    assert forall|then: Seq<Step>, header: BlockHeader| #[trigger]
        between(then, header) implies holds(second(header), then, law) by {
        lemma_start(approval, last, tip, header, then);
    }
    lemma_bind_holds(last_header_plan(), second, past, law, between);
}

proof fn lemma_start(
    approval: Approval,
    last: CommitHash,
    tip: CommitHash,
    header: BlockHeader,
    past: Seq<Step>,
)
    requires
        based(past, approval.agenda_hash, last, tip),
        header_read(past, header),
    ensures
        holds(approve_state(approval, tip, header), past, approve_law(approval)),
{
    broadcast use group_past;

    let law = approve_law(approval);
    let plan = approve_state(approval, tip, header);
    assert forall|reply: Reply| holds(
        #[trigger] plan.after(reply),
        past.push((plan.request(), reply)),
        law,
    ) by {
        let past1 = past.push((plan.request(), reply));
        if let Reply::ReservedState(Ok(state)) = reply {
            let plan = approve_finalized(approval, tip, header, state);
            assert forall|reply: Reply| holds(
                #[trigger] plan.after(reply),
                past1.push((plan.request(), reply)),
                law,
            ) by {
                let past2 = past1.push((plan.request(), reply));
                if let Reply::Commit(Ok(from)) = reply {
                    let plan = approve_read(approval, tip, header, state, from);
                    assert forall|reply: Reply| holds(
                        #[trigger] plan.after(reply),
                        past2.push((plan.request(), reply)),
                        law,
                    ) by {
                        let past3 = past2.push((plan.request(), reply));
                        if let Reply::Commits(Ok(commits)) = reply {
                            let plan = approve_verifier(approval, tip, header, state, commits@);
                            assert forall|reply: Reply| holds(
                                #[trigger] plan.after(reply),
                                past3.push((plan.request(), reply)),
                                law,
                            ) by {
                                let past4 = past3.push((plan.request(), reply));
                                if let Reply::Nothing(Ok(_)) = reply {
                                    assert(verifier_started(past4, header, state));
                                    lemma_verify(
                                        approval,
                                        last,
                                        tip,
                                        from,
                                        header,
                                        state,
                                        commits,
                                        past4,
                                    );
                                }
                            }
                            lemma_holds(plan, past3, law);
                        }
                    }
                    lemma_holds(plan, past2, law);
                }
            }
            lemma_holds(plan, past1, law);
        }
    }
    lemma_holds(plan, past, law);
}

proof fn lemma_verify(
    approval: Approval,
    last: CommitHash,
    tip: CommitHash,
    from: CommitHash,
    header: BlockHeader,
    state: ReservedState,
    commits: Vec<(Commit, CommitHash)>,
    past: Seq<Step>,
)
    requires
        based(past, approval.agenda_hash, last, tip),
        gathered(past, from, tip, commits),
        verifier_started(past, header, state),
    ensures
        holds(
            approve_verify(apply_from(commits@, 0), approval, tip, state),
            past,
            approve_law(approval),
        ),
{
    let law = approve_law(approval);
    let second = |commits: Seq<(Commit, CommitHash)>|
        if commits.len() == 0 {
            Plan::Stuck
        } else {
            match commits.last().0 {
                Commit::Agenda(last) => approve_hash(
                    approval,
                    tip,
                    state,
                    commits.last().0,
                    last.height,
                ),
                _ => fail("not an agenda commit"@),
            }
        };
    let between = |then: Seq<Step>, verified: Seq<(Commit, CommitHash)>|
        {
            &&& verified == commits@
            &&& based(then, approval.agenda_hash, last, tip)
            &&& gathered(then, from, tip, commits)
            &&& verifier_started(then, header, state)
            &&& accepted(then, commits@)
        };
    assert forall|then: Seq<Step>|
        extends(then, past) && accepted(then, commits@) implies #[trigger] between(
        then,
        commits@,
    ) by {
        lemma_started_kept(past, then, header, state);
    }
    lemma_apply_all(commits@, 0, past, law, between);
    assert forall|then: Seq<Step>, verified: Seq<(Commit, CommitHash)>| #[trigger]
        between(then, verified) implies holds(second(verified), then, law) by {
        if commits@.len() > 0 {
            if let Commit::Agenda(agenda) = commits@.last().0 {
                let standing = Standing { last, tip, from, header, state, commits, agenda };
                assert(stands(then, approval.agenda_hash, standing));
                lemma_valid(approval, standing, then);
            }
        }
    }
    lemma_bind_holds(apply_from(commits@, 0), second, past, law, between);
}

/// An agenda that stands goes on standing.
proof fn lemma_stands(past: Seq<Step>, then: Seq<Step>, hash: Hash256, standing: Standing)
    requires
        stands(past, hash, standing),
        extends(then, past),
    ensures
        stands(then, hash, standing),
{
    lemma_started_kept(past, then, standing.header, standing.state);
}

proof fn lemma_valid(approval: Approval, standing: Standing, past: Seq<Step>)
    requires
        stands(past, approval.agenda_hash, standing),
    ensures
        holds(
            approve_hash(
                approval,
                standing.tip,
                standing.state,
                Commit::Agenda(standing.agenda),
                standing.agenda.height,
            ),
            past,
            approve_law(approval),
        ),
{
    broadcast use group_past;

    let law = approve_law(approval);
    let tip = standing.tip;
    let state = standing.state;
    let commit = Commit::Agenda(standing.agenda);
    let plan = approve_hash(approval, tip, state, commit, standing.agenda.height);
    assert forall|reply: Reply| holds(
        #[trigger] plan.after(reply),
        past.push((plan.request(), reply)),
        law,
    ) by {
        let past1 = past.push((plan.request(), reply));
        if let Reply::Hash(agenda_hash) = reply {
            let proof = proof_commit(approval, standing.agenda, agenda_hash);
            let plan = approve_apply(approval.agenda_hash, tip, state, proof);
            assert forall|reply: Reply| holds(
                #[trigger] plan.after(reply),
                past1.push((plan.request(), reply)),
                law,
            ) by {
                let past2 = past1.push((plan.request(), reply));
                if let Reply::Nothing(Ok(_)) = reply {
                    lemma_stands(past, past2, approval.agenda_hash, standing);
                    lemma_delete(approval, standing, agenda_hash, past2);
                }
            }
            lemma_holds(plan, past1, law);
        }
    }
    lemma_holds(plan, past, law);
}

proof fn lemma_delete(
    approval: Approval,
    standing: Standing,
    agenda_hash: Hash256,
    past: Seq<Step>,
)
    requires
        stands(past, approval.agenda_hash, standing),
        proof_valid(past, approval, standing, agenda_hash),
    ensures
        holds(
            approve_delete(
                approval.agenda_hash,
                standing.tip,
                standing.state,
                proof_commit(approval, standing.agenda, agenda_hash),
            ),
            past,
            approve_law(approval),
        ),
{
    broadcast use group_past;

    let law = approve_law(approval);
    let tip = standing.tip;
    let state = standing.state;
    let proof = proof_commit(approval, standing.agenda, agenda_hash);
    let plan = approve_delete(approval.agenda_hash, tip, state, proof);
    assert forall|reply: Reply| holds(
        #[trigger] plan.after(reply),
        past.push((plan.request(), reply)),
        law,
    ) by {
        let past1 = past.push((plan.request(), reply));
        if let Reply::Nothing(Ok(_)) = reply {
            let plan = approve_encode(tip, state, proof);
            assert forall|reply: Reply| holds(
                #[trigger] plan.after(reply),
                past1.push((plan.request(), reply)),
                law,
            ) by {
                let past2 = past1.push((plan.request(), reply));
                if let Reply::SemanticCommit(Ok(stored)) = reply {
                    let plan = approve_name(tip, proof, stored);
                    assert forall|reply: Reply| holds(
                        #[trigger] plan.after(reply),
                        past2.push((plan.request(), reply)),
                        law,
                    ) by {
                        let past3 = past2.push((plan.request(), reply));
                        if let Reply::Hash(hash) = reply {
                            lemma_stands(past, past3, approval.agenda_hash, standing);
                            lemma_if_new(
                                approval,
                                standing,
                                Proof { agenda_hash, stored, hash },
                                past3,
                            );
                        }
                    }
                    lemma_holds(plan, past2, law);
                }
            }
            lemma_holds(plan, past1, law);
        }
    }
    lemma_holds(plan, past, law);
}

proof fn lemma_if_new(approval: Approval, standing: Standing, proof: Proof, past: Seq<Step>)
    requires
        stands(past, approval.agenda_hash, standing),
        did(past, RequestView::DeleteBranch(agenda_branch(approval.agenda_hash))),
        proof_made(past, approval, standing, proof),
    ensures
        holds(
            approve_if_new(standing.tip, proof.stored, agenda_branch(proof.hash)),
            past,
            approve_law(approval),
        ),
{
    broadcast use group_past;

    let law = approve_law(approval);
    let branch = agenda_branch(proof.hash);
    let plan = approve_if_new(standing.tip, proof.stored, branch);
    assert forall|reply: Reply| holds(
        #[trigger] plan.after(reply),
        past.push((plan.request(), reply)),
        law,
    ) by {
        let past1 = past.push((plan.request(), reply));
        if let Reply::Names(Ok(names)) = reply {
            lemma_stands(past, past1, approval.agenda_hash, standing);
            if lists(names@, branch) {
                let plan = approve_existing(branch);
                assert forall|reply: Reply| holds(
                    #[trigger] plan.after(reply),
                    past1.push((plan.request(), reply)),
                    law,
                ) by {
                    let past2 = past1.push((plan.request(), reply));
                    if let Reply::Commit(Ok(commit)) = reply {
                        lemma_stands(past1, past2, approval.agenda_hash, standing);
                        assert(asked(past2, RequestView::ListBranches, Reply::Names(Ok(names))));
                        assert(proof_there(past2, standing, proof, commit));
                        assert(proof_made(past2, approval, standing, proof));
                        assert(approved(past2, approval, commit));
                    }
                }
                lemma_holds(plan, past1, law);
            } else {
                assert(proof_made(past1, approval, standing, proof));
                lemma_create(approval, standing, proof, past1);
            }
        }
    }
    lemma_holds(plan, past, law);
}

proof fn lemma_create(approval: Approval, standing: Standing, proof: Proof, past: Seq<Step>)
    requires
        stands(past, approval.agenda_hash, standing),
        did(past, RequestView::DeleteBranch(agenda_branch(approval.agenda_hash))),
        proof_made(past, approval, standing, proof),
    ensures
        holds(
            approve_create(standing.tip, proof.stored, agenda_branch(proof.hash)),
            past,
            approve_law(approval),
        ),
{
    broadcast use group_past;

    let law = approve_law(approval);
    let branch = agenda_branch(proof.hash);
    let plan = approve_create(standing.tip, proof.stored, branch);
    assert forall|reply: Reply| holds(
        #[trigger] plan.after(reply),
        past.push((plan.request(), reply)),
        law,
    ) by {
        let past1 = past.push((plan.request(), reply));
        if let Reply::Nothing(Ok(_)) = reply {
            let plan = approve_checkout(proof.stored, branch);
            lemma_stands(past, past1, approval.agenda_hash, standing);
            assert(proof_made(past1, approval, standing, proof));
            assert forall|reply: Reply| holds(
                #[trigger] plan.after(reply),
                past1.push((plan.request(), reply)),
                law,
            ) by {
                let past2 = past1.push((plan.request(), reply));
                if let Reply::Nothing(Ok(_)) = reply {
                    let plan = approve_commit(proof.stored);
                    lemma_stands(past1, past2, approval.agenda_hash, standing);
                    assert(proof_made(past2, approval, standing, proof));
                    assert forall|reply: Reply| holds(
                        #[trigger] plan.after(reply),
                        past2.push((plan.request(), reply)),
                        law,
                    ) by {
                        let past3 = past2.push((plan.request(), reply));
                        if let Reply::Commit(Ok(commit)) = reply {
                            lemma_stands(past2, past3, approval.agenda_hash, standing);
                            assert(proof_made(past3, approval, standing, proof));
                            assert(proof_there(past3, standing, proof, commit));
                            assert(approved(past3, approval, commit));
                        }
                    }
                    lemma_holds(plan, past2, law);
                }
            }
            lemma_holds(plan, past1, law);
        }
    }
    lemma_holds(plan, past, law);
}

} // verus!
