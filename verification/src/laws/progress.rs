//! Progress: an operation takes every reply that answers its request, and no other.
use vstd::prelude::*;

use crate::agenda::{
    agenda_apply, agenda_name, agenda_time, agenda_verify, agenda_work, create_agenda_plan,
    transactions_of,
};
use crate::approve::{
    approve_hash, approve_header, approve_plan, approve_state, approve_verify, Approval,
};
use crate::block::{
    bare, block_apply, block_checkout, block_fp, block_header, block_name, block_verify,
    create_block_plan, NewBlock,
};
use crate::clean::{
    clean_delete, clean_from, clean_header, clean_judge, clean_plan, is_permanent, keep_from,
    keep_plan, may_stay, remove_from, CleanJob,
};
use crate::data::{
    Agenda, BlockHeader, Commit, ExtraAgendaTransaction, FinalizationProof, LastFinalizationProof,
    MemberName, ReservedState, SemanticCommit, Timestamp, ValidatorSet,
};
use crate::error::Blame;
use crate::extra::{create_extra_plan, extra_apply, extra_header, extra_verifier};
use crate::fetch::{fetch_from, fetch_plan, get_pushed_plan};
use crate::genesis::genesis_plan;
use crate::hash::{CommitHash, Hash256};
use crate::host::{Reply, RequestView};
use crate::listing::{
    branch_header, branch_plan, hash_from, list_branch, list_from, list_next, list_plan, ListKind,
};
use crate::mark::{mark_hash, mark_plan, MarkKind};
use crate::plan::{
    ask_anyway, ask_branches, ask_commit, ask_commits, ask_decoded, ask_decoded_proof, ask_hash,
    ask_names, ask_nothing, ask_received, ask_remote_branches, ask_remotes, ask_reserved_state,
    ask_stored, ask_stored_proof, ask_timestamp, ask_validator_set, bind, fail, Plan,
};
use crate::query::{last_header_plan, read_commit_plan, reserved_state_plan};
use crate::steps::{apply_from, no_work_branch, publish_plan};
use crate::sync::{sync_finalization, sync_header, sync_plan, sync_state};

verus! {

/// Whether a reply is of the sort that a request asks for. Every finalization proof has a stored
/// form, the `fp` branch holds a proof, and the reserved state has validators.
pub open spec fn answers(request: RequestView, reply: Reply) -> bool {
    match request {
        RequestView::GetHead => reply is Commit,
        RequestView::LocateBranch(_) => reply is Commit,
        RequestView::ListBranches => reply is Names,
        RequestView::RetrieveLocalBranches => reply is Branches,
        RequestView::CreateBranch(_, _) => reply is Nothing,
        RequestView::MoveBranch(_, _) => reply is Nothing,
        RequestView::DeleteBranch(_) => reply is Nothing,
        RequestView::Checkout(_) => reply is Nothing,
        RequestView::CheckoutClean => reply is Nothing,
        RequestView::CreateTag(_, _) => reply is Nothing,
        RequestView::FindMergeBase(_, _) => reply is Commit,
        RequestView::ReadCommits(_, _) => reply is Commits,
        RequestView::ReadSemanticCommit(_) => reply is SemanticCommit,
        RequestView::CreateSemanticCommit(_) => reply is Commit,
        RequestView::ReadReservedState => reply is ReservedState,
        RequestView::ListRemotes => reply is Remotes,
        RequestView::RemoveRemote(_) => reply is Nothing,
        RequestView::AddRemotes => reply is Nothing,
        RequestView::FetchAll => reply is Nothing,
        RequestView::ListRemoteTrackingBranches => reply is RemoteBranches,
        RequestView::Receive(_) => reply is Received,
        RequestView::EncodeCommit(_, _) => reply is SemanticCommit,
        RequestView::DecodeCommit(_) => reply is Decoded,
        RequestView::EncodeProof(_) => reply matches Reply::SemanticCommit(Ok(_)),
        RequestView::DecodeProof(_) => reply matches Reply::DecodedProof(Ok(_)),
        RequestView::CreateVerifier(_, _) => reply is Nothing,
        RequestView::ApplyCommit(_) => reply is Nothing,
        RequestView::VerifyLastHeaderFinalization(_) => reply is Nothing,
        RequestView::HashAgenda(_) => reply is Hash,
        RequestView::HashHeader(_) => reply is Hash,
        RequestView::HashCommit(_) => reply is Hash,
        RequestView::CalculateTransactionsHash(_) => reply is Hash,
        RequestView::CalculateCommitMerkleRoot(_) => reply is Hash,
        RequestView::GetValidatorSet(_) => reply matches Reply::ValidatorSet(Ok(_)),
        RequestView::GetTimestamp => reply is Timestamp,
    }
}

/// Whether a plan goes on to its end whatever the replies are, as long as they answer its requests
/// and are as `usual` tells. It takes no reply that does not answer. A result at the end is one
/// that `good` tells.
pub open spec fn goes_on<O>(
    plan: Plan<O>,
    usual: spec_fn(Reply) -> bool,
    good: spec_fn(O) -> bool,
) -> bool
    decreases plan,
{
    match plan {
        Plan::Done(result) => result matches Ok(output) ==> good(output),
        Plan::Ask(request, follow) => forall|reply: Reply|
            {
                &&& answers(request, reply) && usual(reply) ==> goes_on(
                    #[trigger] follow(reply),
                    usual,
                    good,
                )
                &&& !answers(request, reply) ==> follow(reply) is Stuck
            },
        Plan::Stuck => false,
    }
}

/// Every value.
pub open spec fn any<O>() -> spec_fn(O) -> bool {
    |_output: O| true
}

/// The headers with a height after them.
pub open spec fn not_last() -> spec_fn(BlockHeader) -> bool {
    |header: BlockHeader| header.height < u64::MAX
}

/// The replies without a block that has no height after it.
pub open spec fn with_height() -> spec_fn(Reply) -> bool {
    |reply: Reply|
        reply matches Reply::Decoded(Ok(Commit::Block(header))) ==> header.height < u64::MAX
}

/// The replies without an empty sequence of commits.
pub open spec fn with_commits() -> spec_fn(Reply) -> bool {
    |reply: Reply| reply matches Reply::Commits(Ok(commits)) ==> commits@.len() > 0
}

/// The given commits.
pub open spec fn just(commits: Seq<(Commit, CommitHash)>) -> spec_fn(
    Seq<(Commit, CommitHash)>,
) -> bool {
    |verified: Seq<(Commit, CommitHash)>| verified == commits
}

broadcast proof fn lemma_ask_nothing<O>(
    request: RequestView,
    blame: Blame,
    then: Plan<O>,
    usual: spec_fn(Reply) -> bool,
    good: spec_fn(O) -> bool,
)
    requires
        forall|reply: Reply| #[trigger] answers(request, reply) <==> (reply is Nothing),
        goes_on(then, usual, good),
    ensures
        #[trigger] goes_on(ask_nothing(request, blame, then), usual, good),
{
    reveal_with_fuel(goes_on, 2);
}

broadcast proof fn lemma_ask_anyway<O>(
    request: RequestView,
    then: Plan<O>,
    usual: spec_fn(Reply) -> bool,
    good: spec_fn(O) -> bool,
)
    requires
        forall|reply: Reply| #[trigger] answers(request, reply) <==> (reply is Nothing),
        goes_on(then, usual, good),
    ensures
        #[trigger] goes_on(ask_anyway(request, then), usual, good),
{
    reveal_with_fuel(goes_on, 2);
}

broadcast proof fn lemma_ask_commit<O>(
    request: RequestView,
    blame: Blame,
    follow: spec_fn(CommitHash) -> Plan<O>,
    usual: spec_fn(Reply) -> bool,
    good: spec_fn(O) -> bool,
)
    requires
        forall|reply: Reply| #[trigger] answers(request, reply) <==> (reply is Commit),
        forall|value: CommitHash| goes_on(#[trigger] follow(value), usual, good),
    ensures
        #[trigger] goes_on(ask_commit(request, blame, follow), usual, good),
{
    reveal_with_fuel(goes_on, 2);
}

broadcast proof fn lemma_ask_names<O>(
    request: RequestView,
    follow: spec_fn(Seq<String>) -> Plan<O>,
    usual: spec_fn(Reply) -> bool,
    good: spec_fn(O) -> bool,
)
    requires
        forall|reply: Reply| #[trigger] answers(request, reply) <==> (reply is Names),
        forall|value: Seq<String>| goes_on(#[trigger] follow(value), usual, good),
    ensures
        #[trigger] goes_on(ask_names(request, follow), usual, good),
{
    reveal_with_fuel(goes_on, 2);
}

broadcast proof fn lemma_ask_branches<O>(
    request: RequestView,
    follow: spec_fn(Seq<(String, CommitHash)>) -> Plan<O>,
    usual: spec_fn(Reply) -> bool,
    good: spec_fn(O) -> bool,
)
    requires
        forall|reply: Reply| #[trigger] answers(request, reply) <==> (reply is Branches),
        forall|value: Seq<(String, CommitHash)>| goes_on(#[trigger] follow(value), usual, good),
    ensures
        #[trigger] goes_on(ask_branches(request, follow), usual, good),
{
    reveal_with_fuel(goes_on, 2);
}

broadcast proof fn lemma_ask_commits<O>(
    request: RequestView,
    follow: spec_fn(Seq<(Commit, CommitHash)>) -> Plan<O>,
    usual: spec_fn(Reply) -> bool,
    good: spec_fn(O) -> bool,
)
    requires
        forall|reply: Reply| #[trigger] answers(request, reply) <==> (reply is Commits),
        forall|value: Vec<(Commit, CommitHash)>|
            usual(Reply::Commits(Ok(value))) ==> goes_on(#[trigger] follow(value@), usual, good),
    ensures
        #[trigger] goes_on(ask_commits(request, follow), usual, good),
{
    reveal_with_fuel(goes_on, 2);
}

broadcast proof fn lemma_ask_stored<O>(
    request: RequestView,
    follow: spec_fn(SemanticCommit) -> Plan<O>,
    usual: spec_fn(Reply) -> bool,
    good: spec_fn(O) -> bool,
)
    requires
        forall|reply: Reply| #[trigger] answers(request, reply) <==> (reply is SemanticCommit),
        forall|value: SemanticCommit| goes_on(#[trigger] follow(value), usual, good),
    ensures
        #[trigger] goes_on(ask_stored(request, follow), usual, good),
{
    reveal_with_fuel(goes_on, 2);
}

broadcast proof fn lemma_ask_stored_proof<O>(
    request: RequestView,
    follow: spec_fn(SemanticCommit) -> Plan<O>,
    usual: spec_fn(Reply) -> bool,
    good: spec_fn(O) -> bool,
)
    requires
        forall|reply: Reply| #[trigger]
            answers(request, reply) <==> (reply matches Reply::SemanticCommit(Ok(_))),
        forall|value: SemanticCommit| goes_on(#[trigger] follow(value), usual, good),
    ensures
        #[trigger] goes_on(ask_stored_proof(request, follow), usual, good),
{
    reveal_with_fuel(goes_on, 2);
}

broadcast proof fn lemma_ask_decoded<O>(
    request: RequestView,
    follow: spec_fn(Commit) -> Plan<O>,
    usual: spec_fn(Reply) -> bool,
    good: spec_fn(O) -> bool,
)
    requires
        forall|reply: Reply| #[trigger] answers(request, reply) <==> (reply is Decoded),
        forall|value: Commit|
            usual(Reply::Decoded(Ok(value))) ==> goes_on(#[trigger] follow(value), usual, good),
    ensures
        #[trigger] goes_on(ask_decoded(request, follow), usual, good),
{
    reveal_with_fuel(goes_on, 2);
}

broadcast proof fn lemma_ask_decoded_proof<O>(
    request: RequestView,
    follow: spec_fn(LastFinalizationProof) -> Plan<O>,
    usual: spec_fn(Reply) -> bool,
    good: spec_fn(O) -> bool,
)
    requires
        forall|reply: Reply| #[trigger]
            answers(request, reply) <==> (reply matches Reply::DecodedProof(Ok(_))),
        forall|value: LastFinalizationProof| goes_on(#[trigger] follow(value), usual, good),
    ensures
        #[trigger] goes_on(ask_decoded_proof(request, follow), usual, good),
{
    reveal_with_fuel(goes_on, 2);
}

broadcast proof fn lemma_ask_reserved_state<O>(
    follow: spec_fn(ReservedState) -> Plan<O>,
    usual: spec_fn(Reply) -> bool,
    good: spec_fn(O) -> bool,
)
    requires
        forall|value: ReservedState| goes_on(#[trigger] follow(value), usual, good),
    ensures
        #[trigger] goes_on(ask_reserved_state(follow), usual, good),
{
    reveal_with_fuel(goes_on, 2);
}

broadcast proof fn lemma_ask_validator_set<O>(
    state: ReservedState,
    follow: spec_fn(ValidatorSet) -> Plan<O>,
    usual: spec_fn(Reply) -> bool,
    good: spec_fn(O) -> bool,
)
    requires
        forall|value: ValidatorSet| goes_on(#[trigger] follow(value), usual, good),
    ensures
        #[trigger] goes_on(ask_validator_set(state, follow), usual, good),
{
    reveal_with_fuel(goes_on, 2);
}

broadcast proof fn lemma_ask_hash<O>(
    request: RequestView,
    follow: spec_fn(Hash256) -> Plan<O>,
    usual: spec_fn(Reply) -> bool,
    good: spec_fn(O) -> bool,
)
    requires
        forall|reply: Reply| #[trigger] answers(request, reply) <==> (reply is Hash),
        forall|value: Hash256| goes_on(#[trigger] follow(value), usual, good),
    ensures
        #[trigger] goes_on(ask_hash(request, follow), usual, good),
{
    reveal_with_fuel(goes_on, 2);
}

broadcast proof fn lemma_ask_timestamp<O>(
    follow: spec_fn(Timestamp) -> Plan<O>,
    usual: spec_fn(Reply) -> bool,
    good: spec_fn(O) -> bool,
)
    requires
        forall|value: Timestamp| goes_on(#[trigger] follow(value), usual, good),
    ensures
        #[trigger] goes_on(ask_timestamp(follow), usual, good),
{
    reveal_with_fuel(goes_on, 2);
}

broadcast proof fn lemma_ask_remotes<O>(
    follow: spec_fn(Seq<(String, String)>) -> Plan<O>,
    usual: spec_fn(Reply) -> bool,
    good: spec_fn(O) -> bool,
)
    requires
        forall|value: Seq<(String, String)>| goes_on(#[trigger] follow(value), usual, good),
    ensures
        #[trigger] goes_on(ask_remotes(follow), usual, good),
{
    reveal_with_fuel(goes_on, 2);
}

broadcast proof fn lemma_ask_remote_branches<O>(
    follow: spec_fn(Seq<(String, String, CommitHash)>) -> Plan<O>,
    usual: spec_fn(Reply) -> bool,
    good: spec_fn(O) -> bool,
)
    requires
        forall|value: Seq<(String, String, CommitHash)>|
            goes_on(#[trigger] follow(value), usual, good),
    ensures
        #[trigger] goes_on(ask_remote_branches(follow), usual, good),
{
    reveal_with_fuel(goes_on, 2);
}

broadcast proof fn lemma_ask_received<O>(
    commit: CommitHash,
    follow: spec_fn(Result<(), String>) -> Plan<O>,
    usual: spec_fn(Reply) -> bool,
    good: spec_fn(O) -> bool,
)
    requires
        forall|value: Result<(), String>| goes_on(#[trigger] follow(value), usual, good),
    ensures
        #[trigger] goes_on(ask_received(commit, follow), usual, good),
{
    reveal_with_fuel(goes_on, 2);
}

broadcast group group_asks {
    lemma_ask_nothing,
    lemma_ask_anyway,
    lemma_ask_commit,
    lemma_ask_names,
    lemma_ask_branches,
    lemma_ask_commits,
    lemma_ask_stored,
    lemma_ask_stored_proof,
    lemma_ask_decoded,
    lemma_ask_decoded_proof,
    lemma_ask_reserved_state,
    lemma_ask_validator_set,
    lemma_ask_hash,
    lemma_ask_timestamp,
    lemma_ask_remotes,
    lemma_ask_remote_branches,
    lemma_ask_received,
}

/// Two plans in a row go on where the first does, and the second does after every result of it.
proof fn lemma_bind<A, B>(
    first: Plan<A>,
    second: spec_fn(A) -> Plan<B>,
    usual: spec_fn(Reply) -> bool,
    middle: spec_fn(A) -> bool,
    good: spec_fn(B) -> bool,
)
    requires
        goes_on(first, usual, middle),
        forall|output: A| middle(output) ==> goes_on(#[trigger] second(output), usual, good),
    ensures
        goes_on(bind(first, second), usual, good),
    decreases first,
{
    if let Plan::Ask(request, follow) = first {
        let both = bind(first, second);
        let next = both->Ask_1;
        assert forall|reply: Reply|
            {
                &&& answers(request, reply) && usual(reply) ==> goes_on(
                    #[trigger] next(reply),
                    usual,
                    good,
                )
                &&& !answers(request, reply) ==> next(reply) is Stuck
            } by {
            assert(next(reply) == bind(follow(reply), second));
            if answers(request, reply) && usual(reply) {
                lemma_bind(follow(reply), second, usual, middle, good);
            }
        }
    }
}

/// Getting the last header goes on to its end.
pub proof fn law_last_header_goes_on()
    ensures
        goes_on(last_header_plan(), any(), any()),
{
    lemma_last_header(any(), any());
}

proof fn lemma_last_header(usual: spec_fn(Reply) -> bool, good: spec_fn(BlockHeader) -> bool)
    requires
        forall|header: BlockHeader|
            usual(Reply::Decoded(Ok(Commit::Block(header)))) ==> #[trigger] good(header),
    ensures
        goes_on(last_header_plan(), usual, good),
{
    broadcast use group_asks;

}

proof fn lemma_apply(commits: Seq<(Commit, CommitHash)>, i: int, usual: spec_fn(Reply) -> bool)
    requires
        0 <= i,
    ensures
        goes_on(apply_from(commits, i), usual, just(commits)),
    decreases commits.len() - i,
{
    broadcast use group_asks;

    if i < commits.len() {
        lemma_apply(commits, i + 1, usual);
    }
}

/// A sync goes on to its end.
pub proof fn law_sync_goes_on(hash: Hash256, proof: FinalizationProof)
    ensures
        goes_on(sync_plan(hash, proof), any(), any()),
{
    broadcast use group_asks;

    let usual = any();
    assert forall|block: CommitHash, commits: Seq<(Commit, CommitHash)>, height: u64| goes_on(
        #[trigger] sync_header(last_header_plan(), proof, block, commits, height),
        usual,
        any(),
    ) by {
        let second = |header: BlockHeader| sync_state(proof, block, commits, height, header);
        assert forall|header: BlockHeader| goes_on(#[trigger] second(header), usual, any()) by {
            let third = |_commits: Seq<(Commit, CommitHash)>|
                sync_finalization(proof, block, height);
            lemma_apply(commits, 0, usual);
            lemma_bind(apply_from(commits, 0), third, usual, just(commits), any());
        }
        lemma_last_header(usual, any());
        lemma_bind(last_header_plan(), second, usual, any(), any());
    }
}

/// Reading a commit goes on to its end.
pub proof fn law_read_commit_goes_on(commit: CommitHash)
    ensures
        goes_on(read_commit_plan(commit), any(), any()),
{
    broadcast use group_asks;

}

/// Getting the reserved state goes on to its end.
pub proof fn law_reserved_state_goes_on()
    ensures
        goes_on(reserved_state_plan(), any(), any()),
{
    broadcast use group_asks;

}

/// A genesis goes on to its end.
pub proof fn law_genesis_goes_on()
    ensures
        goes_on(genesis_plan(), any(), any()),
{
    broadcast use group_asks;

}

/// A vote or a veto goes on to its end.
pub proof fn law_mark_goes_on(kind: MarkKind, commit: CommitHash)
    ensures
        goes_on(mark_plan(kind, commit), any(), any()),
{
    broadcast use group_asks;

    let second = |content: Commit|
        if kind.fits(content) {
            mark_hash(kind, commit, content)
        } else {
            fail(kind.misfit(commit))
        };
    law_read_commit_goes_on(commit);
    lemma_bind(read_commit_plan(commit), second, any(), any(), any());
}

/// A fetch goes on to its end.
pub proof fn law_fetch_goes_on()
    ensures
        goes_on(fetch_plan(), any(), any()),
{
    broadcast use group_asks;

    assert forall|branches: Seq<(String, String, CommitHash)>| goes_on(
        #[trigger] fetch_from(branches, 0),
        any(),
        any(),
    ) by {
        lemma_fetch(branches, 0);
    }
}

proof fn lemma_fetch(branches: Seq<(String, String, CommitHash)>, i: int)
    requires
        0 <= i,
    ensures
        goes_on(fetch_from(branches, i), any(), any()),
    decreases branches.len() - i,
{
    broadcast use group_asks;

    if i < branches.len() {
        lemma_fetch(branches, i + 1);
    }
}

/// Taking in a branch that was pushed goes on to its end.
pub proof fn law_get_pushed_goes_on(commit: CommitHash)
    ensures
        goes_on(get_pushed_plan(commit), any(), any()),
{
    broadcast use group_asks;

}

/// Creating an agenda goes on to its end, as long as there is a height after the last one.
pub proof fn law_create_agenda_goes_on(author: MemberName)
    ensures
        goes_on(create_agenda_plan(author), with_height(), any()),
{
    broadcast use group_asks;

    let usual = with_height();
    let second = |header: BlockHeader| agenda_work(author, header);
    assert forall|header: BlockHeader| header.height < u64::MAX implies goes_on(
        #[trigger] second(header),
        usual,
        any(),
    ) by {
        assert forall|commits: Seq<(Commit, CommitHash)>, state: ReservedState| goes_on(
            #[trigger] agenda_verify(apply_from(commits, 0), author, header.height, state),
            usual,
            any(),
        ) by {
            let height = header.height;
            let third = |commits: Seq<(Commit, CommitHash)>|
                agenda_time(author, height, state, transactions_of(commits));
            assert forall|agenda: Agenda| goes_on(
                #[trigger] agenda_apply(state, agenda),
                usual,
                any(),
            ) by {
                let publish = publish_plan(Commit::Agenda(agenda), state, no_work_branch());
                let fourth = |commit: CommitHash| agenda_name(agenda, commit);
                lemma_bind(publish, fourth, usual, any(), any());
            }
            lemma_apply(commits, 0, usual);
            lemma_bind(apply_from(commits, 0), third, usual, just(commits), any());
        }
    }
    lemma_last_header(usual, not_last());
    lemma_bind(last_header_plan(), second, usual, not_last(), any());
}

/// Creating a block goes on to its end, as long as there is a height after the last one.
pub proof fn law_create_block_goes_on(block: NewBlock)
    ensures
        goes_on(create_block_plan(block), with_height(), any()),
{
    broadcast use group_asks;

    let usual = with_height();
    assert forall|commits: Seq<(Commit, CommitHash)>| goes_on(
        #[trigger] block_header(last_header_plan(), block, commits),
        usual,
        any(),
    ) by {
        let second = |header: BlockHeader| block_checkout(block, commits, header);
        assert forall|header: BlockHeader| header.height < u64::MAX implies goes_on(
            #[trigger] second(header),
            usual,
            any(),
        ) by {
            assert forall|state: ReservedState| goes_on(
                #[trigger] block_verify(apply_from(commits, 0), block, header, state),
                usual,
                any(),
            ) by {
                let third = |commits: Seq<(Commit, CommitHash)>|
                    block_fp(block, header, state, bare(commits));
                assert forall|header: BlockHeader| goes_on(
                    #[trigger] block_apply(state, header),
                    usual,
                    any(),
                ) by {
                    let publish = publish_plan(Commit::Block(header), state, no_work_branch());
                    let fourth = |commit: CommitHash| block_name(header, commit);
                    lemma_bind(publish, fourth, usual, any(), any());
                }
                lemma_apply(commits, 0, usual);
                lemma_bind(apply_from(commits, 0), third, usual, just(commits), any());
            }
        }
        lemma_last_header(usual, not_last());
        lemma_bind(last_header_plan(), second, usual, not_last(), any());
    }
}

/// Creating an extra-agenda transaction goes on to its end.
pub proof fn law_create_extra_agenda_transaction_goes_on(transaction: ExtraAgendaTransaction)
    ensures
        goes_on(create_extra_plan(transaction), any(), any()),
{
    broadcast use group_asks;

    assert forall|state: ReservedState, commits: Seq<(Commit, CommitHash)>| goes_on(
        #[trigger] extra_header(last_header_plan(), transaction, state, commits),
        any(),
        any(),
    ) by {
        let second = |header: BlockHeader| extra_verifier(transaction, state, commits, header);
        assert forall|header: BlockHeader| goes_on(#[trigger] second(header), any(), any()) by {
            let third = |_commits: Seq<(Commit, CommitHash)>| extra_apply(transaction, state);
            lemma_apply(commits, 0, any());
            lemma_bind(apply_from(commits, 0), third, any(), just(commits), any());
        }
        lemma_last_header(any(), any());
        lemma_bind(last_header_plan(), second, any(), any(), any());
    }
}

/// Recording an approval goes on to its end, as long as there are commits up to the agenda.
pub proof fn law_approve_goes_on(approval: Approval)
    ensures
        goes_on(approve_plan(approval), with_commits(), any()),
{
    broadcast use group_asks;

    let usual = with_commits();
    assert forall|tip: CommitHash| goes_on(
        #[trigger] approve_header(last_header_plan(), approval, tip),
        usual,
        any(),
    ) by {
        let second = |header: BlockHeader| approve_state(approval, tip, header);
        assert forall|header: BlockHeader| goes_on(#[trigger] second(header), usual, any()) by {
            assert forall|state: ReservedState, commits: Seq<(Commit, CommitHash)>|
                commits.len() > 0 implies goes_on(
                #[trigger] approve_verify(apply_from(commits, 0), approval, tip, state),
                usual,
                any(),
            ) by {
                let third = |commits: Seq<(Commit, CommitHash)>|
                    if commits.len() == 0 {
                        Plan::Stuck
                    } else {
                        match commits.last().0 {
                            Commit::Agenda(last) => approve_hash(
                                approval,
                                tip,
                                state,
                                commits.last().0,
                                last.height,
                            ),
                            _ => fail("not an agenda commit"@),
                        }
                    };
                lemma_apply(commits, 0, usual);
                lemma_bind(apply_from(commits, 0), third, usual, just(commits), any());
            }
        }
        lemma_last_header(usual, any());
        lemma_bind(last_header_plan(), second, usual, any(), any());
    }
}

/// A cleaning goes on to its end.
pub proof fn law_clean_goes_on(hard: bool)
    ensures
        goes_on(clean_plan(hard), any(), any()),
{
    broadcast use group_asks;

    assert forall|finalized: CommitHash, branches: Seq<(String, CommitHash)>| goes_on(
        #[trigger] clean_header(last_header_plan(), hard, finalized, branches),
        any(),
        any(),
    ) by {
        let second = |header: BlockHeader|
            clean_from(CleanJob { hard, finalized, header }, branches, 0);
        assert forall|header: BlockHeader| goes_on(#[trigger] second(header), any(), any()) by {
            lemma_clean(CleanJob { hard, finalized, header }, branches, 0);
        }
        lemma_last_header(any(), any());
        lemma_bind(last_header_plan(), second, any(), any(), any());
    }
}

proof fn lemma_clean(job: CleanJob, branches: Seq<(String, CommitHash)>, i: int)
    requires
        0 <= i,
    ensures
        goes_on(clean_from(job, branches, i), any(), any()),
    decreases branches.len() - i,
{
    broadcast use group_asks;

    if i >= branches.len() {
        assert forall|remotes: Seq<(String, String)>| goes_on(
            #[trigger] remove_from(remotes, 0),
            any(),
            any(),
        ) by {
            lemma_remove(remotes, 0);
        }
    } else {
        lemma_clean(job, branches, i + 1);
        let name = branches[i].0@;
        let keep = keep_plan(job.finalized, job.header, name, branches[i].1);
        assert(goes_on(clean_delete(job, branches, i), any(), any()));
        if !is_permanent(name) && !job.hard && may_stay(name) {
            let second = |kept: bool|
                if kept {
                    clean_from(job, branches, i + 1)
                } else {
                    clean_delete(job, branches, i)
                };
            assert forall|commits: Seq<(Commit, CommitHash)>| goes_on(
                #[trigger] keep_from(commits, 0),
                any(),
                any(),
            ) by {
                lemma_keep(commits, 0);
            }
            lemma_bind(keep, second, any(), any(), any());
            assert(clean_from(job, branches, i) == clean_judge(keep, job, branches, i));
        }
    }
}

proof fn lemma_keep(commits: Seq<(Commit, CommitHash)>, i: int)
    requires
        0 <= i,
    ensures
        goes_on(keep_from(commits, i), any(), any()),
    decreases commits.len() - i,
{
    reveal_with_fuel(goes_on, 2);
    if i < commits.len() {
        lemma_keep(commits, i + 1);
    }
}

proof fn lemma_remove(remotes: Seq<(String, String)>, i: int)
    requires
        0 <= i,
    ensures
        goes_on(remove_from(remotes, i), any(), any()),
    decreases remotes.len() - i,
{
    broadcast use group_asks;

    if i < remotes.len() {
        lemma_remove(remotes, i + 1);
    }
}

/// Whether no reply that is as `usual` tells asks for a height that is not there: a block without a
/// height after it comes with no commit whose height would be compared to that.
pub open spec fn comparable(kind: ListKind, usual: spec_fn(Reply) -> bool) -> bool {
    forall|header: BlockHeader, commits: Vec<(Commit, CommitHash)>|
        #[trigger] usual(Reply::Decoded(Ok(Commit::Block(header)))) && #[trigger] usual(
            Reply::Commits(Ok(commits)),
        ) ==> header.height < u64::MAX || !kind.occurs(commits@)
}

/// A listing goes on to its end, as long as every height can be compared to the one after the
/// last.
pub proof fn law_list_goes_on(kind: ListKind, usual: spec_fn(Reply) -> bool)
    requires
        comparable(kind, usual),
    ensures
        goes_on(list_plan(kind), usual, any()),
{
    broadcast use group_asks;

    assert forall|branches: Seq<(String, CommitHash)>, last: CommitHash| goes_on(
        #[trigger] list_from(kind, branches, last, Seq::empty(), 0),
        usual,
        any(),
    ) by {
        lemma_list(kind, branches, last, Seq::empty(), 0, usual);
    }
}

proof fn lemma_list(
    kind: ListKind,
    branches: Seq<(String, CommitHash)>,
    last: CommitHash,
    found: Seq<(CommitHash, Hash256)>,
    i: int,
    usual: spec_fn(Reply) -> bool,
)
    requires
        0 <= i,
        comparable(kind, usual),
    ensures
        goes_on(list_from(kind, branches, last, found, i), usual, any()),
    decreases branches.len() - i,
{
    if i < branches.len() {
        if !kind.prefix().is_prefix_of(branches[i].0@) {
            lemma_list(kind, branches, last, found, i + 1, usual);
        } else {
            let branch = branch_plan(kind, last, branches[i].0@, branches[i].1);
            let second = list_next(kind, branches, last, found, i);
            assert forall|more: Seq<(CommitHash, Hash256)>| goes_on(
                #[trigger] second(more),
                usual,
                any(),
            ) by {
                lemma_list(kind, branches, last, found + more, i + 1, usual);
            }
            lemma_list_branch(kind, last, branches[i].0@, branches[i].1, usual);
            lemma_bind(branch, second, usual, any(), any());
            assert(list_from(kind, branches, last, found, i) == list_branch(
                branch,
                kind,
                branches,
                last,
                found,
                i,
            ));
        }
    }
}

proof fn lemma_list_branch(
    kind: ListKind,
    last: CommitHash,
    name: Seq<char>,
    commit: CommitHash,
    usual: spec_fn(Reply) -> bool,
)
    requires
        comparable(kind, usual),
    ensures
        goes_on(branch_plan(kind, last, name, commit), usual, any()),
{
    broadcast use group_asks;

    assert forall|commits: Vec<(Commit, CommitHash)>| usual(Reply::Commits(Ok(commits))) implies goes_on(
        #[trigger] branch_header(last_header_plan(), kind, commits@),
        usual,
        any(),
    ) by {
        let second = |header: BlockHeader|
            if header.height == u64::MAX && kind.occurs(commits@) {
                Plan::Stuck
            } else {
                hash_from(kind, kind.select(commits@, header.height), Seq::empty(), 0)
            };
        let read = |header: BlockHeader| usual(Reply::Decoded(Ok(Commit::Block(header))));
        assert forall|header: BlockHeader| read(header) implies goes_on(
            #[trigger] second(header),
            usual,
            any(),
        ) by {
            lemma_hash(kind, kind.select(commits@, header.height), Seq::empty(), 0, usual);
        }
        lemma_last_header(usual, read);
        lemma_bind(last_header_plan(), second, usual, read, any());
    }
}

proof fn lemma_hash(
    kind: ListKind,
    selected: Seq<(Commit, CommitHash)>,
    found: Seq<(CommitHash, Hash256)>,
    i: int,
    usual: spec_fn(Reply) -> bool,
)
    requires
        0 <= i,
    ensures
        goes_on(hash_from(kind, selected, found, i), usual, any()),
    decreases selected.len() - i,
{
    if i < selected.len() {
        let plan = hash_from(kind, selected, found, i);
        let follow = plan->Ask_1;
        assert forall|reply: Reply|
            {
                &&& answers(plan.request(), reply) ==> goes_on(
                    #[trigger] follow(reply),
                    usual,
                    any(),
                )
                &&& !answers(plan.request(), reply) ==> follow(reply) is Stuck
            } by {
            if let Reply::Hash(hash) = reply {
                lemma_hash(kind, selected, found.push((selected[i].1, hash)), i + 1, usual);
            }
        }
    }
}

} // verus!
