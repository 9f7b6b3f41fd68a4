//! What is said where a request fails, and what the names of branches and tags are made of.
use vstd::prelude::*;

use crate::agenda::{agenda_apply, agenda_rebased, agenda_verifier};
use crate::approve::{approve_apply, approve_rebased, approve_verifier, Approval};
use crate::block::{block_apply, block_checkout, block_rebased, block_verifier, NewBlock};
use crate::clean::{clean_plan, keep_plan, keep_verifier};
use crate::data::{
    Agenda, BlockHeader, BlockHeight, Commit, ExtraAgendaTransaction, FinalizationProof,
    LastFinalizationProof, MemberName, ReservedState, SemanticCommit,
};
use crate::error::{ErrorView, HostError};
use crate::extra::{extra_apply, extra_rebased, extra_verifier};
use crate::fetch::{fetch_all, fetch_from, fetch_list, fetch_plan, get_pushed_plan};
use crate::genesis::genesis_checkout;
use crate::hash::{
    agenda_branch, block_branch, hex_digit, hex_text, trimmed, veto_tag, vote_tag, CommitHash,
    Hash256,
};
use crate::host::{Reply, RequestView};
use crate::listing::{branch_plan, ListKind};
use crate::plan::Plan;
use crate::steps::{apply_from, checkout_fp, no_work_branch, publish_checkout};
use crate::sync::{sync_descends, sync_finalization, sync_read, sync_verifier};
use crate::{
    BRANCH_NAME_HASH_DIGITS, FINALIZED_BRANCH_NAME, FP_BRANCH_NAME, TAG_NAME_HASH_DIGITS,
    WORK_BRANCH_NAME,
};

verus! {

/// Whether a plan ends with an error after a reply.
pub open spec fn ends_in<O>(plan: Plan<O>, reply: Reply, error: ErrorView) -> bool {
    plan is Ask && plan.after(reply) == Plan::<O>::Done(Err(error))
}

/// A commit that is rejected is named, with the reason.
pub proof fn law_rejection_is_told(
    commits: Seq<(Commit, CommitHash)>,
    i: int,
    error: HostError,
)
    requires
        0 <= i < commits.len(),
    ensures
        ends_in(
            apply_from(commits, i),
            Reply::Nothing(Err(error)),
            ErrorView::Message(
                "verification error on commit "@ + commits[i].1.text() + ": "@ + error.text@,
            ),
        ),
{
}

/// Where no verifier can be started, every operation tells so, with the reason.
pub proof fn law_missing_verifier_is_told(
    error: HostError,
    header: BlockHeader,
    state: ReservedState,
    commits: Seq<(Commit, CommitHash)>,
    at: CommitHash,
    last: CommitHash,
    height: BlockHeight,
    proof: FinalizationProof,
    approval: Approval,
    author: MemberName,
    block: NewBlock,
    transaction: ExtraAgendaTransaction,
)
    ensures
        ({
            let reply = Reply::Nothing(Err(error));
            let told = ErrorView::Message(
                "failed to create a commit sequence verifier: "@ + error.text@,
            );
            &&& ends_in(sync_verifier(proof, at, commits, height, header, state), reply, told)
            &&& ends_in(approve_verifier(approval, at, header, state, commits), reply, told)
            &&& ends_in(agenda_verifier(author, header, at, last, state), reply, told)
            &&& ends_in(block_verifier(block, commits, header, state), reply, told)
            &&& ends_in(extra_verifier(transaction, state, commits, header), reply, told)
            &&& ends_in(keep_verifier(header, state, commits), reply, told)
        }),
{
}

/// What is said where a request for something that ought to be there fails: that it is missing, or
/// the failure itself.
pub open spec fn missing_or(error: HostError, msg: Seq<char>) -> ErrorView {
    if error.not_found {
        ErrorView::Integrity(msg)
    } else {
        ErrorView::Host(error)
    }
}

/// Where a branch has no ancestor in common with `finalized`, the repository is broken, and the
/// branch is named. Of `work` the failure is handed on.
pub proof fn law_missing_ancestor_is_told(
    error: HostError,
    kind: ListKind,
    name: Seq<char>,
    commit: CommitHash,
    last: CommitHash,
    header: BlockHeader,
    state: ReservedState,
    hash: Hash256,
    proof: FinalizationProof,
    commits: Seq<(Commit, CommitHash)>,
    height: BlockHeight,
    approval: Approval,
    author: MemberName,
    block: NewBlock,
    transaction: ExtraAgendaTransaction,
)
    ensures
        ({
            let reply = Reply::Commit(Err(error));
            let start = "cannot find merge base for branch "@;
            let end = " and finalized branch"@;
            &&& ends_in(
                branch_plan(kind, last, name, commit),
                reply,
                missing_or(error, start + name + end),
            )
            &&& ends_in(
                keep_plan(last, header, name, commit),
                reply,
                missing_or(error, start + name + end),
            )
            &&& ends_in(
                approve_rebased(approval, last, commit),
                reply,
                missing_or(error, start + agenda_branch(approval.agenda_hash) + end),
            )
            &&& ends_in(
                sync_descends(hash, proof, commit, last, commits, height),
                reply,
                missing_or(error, start + block_branch(hash) + end),
            )
            &&& ends_in(
                agenda_rebased(author, header, commit, last),
                reply,
                ErrorView::Host(error),
            )
            &&& ends_in(block_rebased(block, commit, last), reply, ErrorView::Host(error))
            &&& ends_in(
                extra_rebased(transaction, commit, last, state),
                reply,
                ErrorView::Host(error),
            )
        }),
{
}

/// Where a permanent branch cannot be checked out because it is missing, the repository is broken,
/// and the branch is named, with the failure.
pub proof fn law_missing_branch_is_told(
    error: HostError,
    stored: SemanticCommit,
    proof: FinalizationProof,
    record: LastFinalizationProof,
    block: NewBlock,
    commits: Seq<(Commit, CommitHash)>,
    header: BlockHeader,
    hard: bool,
)
    ensures
        ({
            let reply = Reply::Nothing(Err(error));
            &&& ends_in(
                genesis_checkout(stored, proof),
                reply,
                missing_or(
                    error,
                    "failed to checkout to the finalized branch: "@ + error.text@,
                ),
            )
            &&& ends_in(
                checkout_fp(record),
                reply,
                missing_or(error, "failed to checkout to the fp branch: "@ + error.text@),
            )
            &&& ends_in(
                block_checkout(block, commits, header),
                reply,
                missing_or(error, "failed to checkout to the work branch: "@ + error.text@),
            )
            &&& ends_in(
                publish_checkout(stored, no_work_branch()),
                reply,
                missing_or(error, "failed to checkout to the work branch: "@ + error.text@),
            )
            &&& ends_in(
                clean_plan(hard),
                Reply::Commit(Err(error)),
                missing_or(error, "cannot locate `finalized` branch"@),
            )
        }),
{
}

/// Where the new commit of an operation is not valid, it is told so, and nothing else. Where the
/// proof does not finalize a block, the reason is told.
pub proof fn law_invalid_commit_is_told(
    error: HostError,
    state: ReservedState,
    agenda: Agenda,
    header: BlockHeader,
    transaction: ExtraAgendaTransaction,
    hash: Hash256,
    at: CommitHash,
    new: Commit,
    proof: FinalizationProof,
    height: BlockHeight,
)
    ensures
        ({
            let reply = Reply::Nothing(Err(error));
            &&& ends_in(
                agenda_apply(state, agenda),
                reply,
                ErrorView::Message(
                    "agenda commit cannot be created on top of the current commit sequence"@,
                ),
            )
            &&& ends_in(
                block_apply(state, header),
                reply,
                ErrorView::Message(
                    "block commit cannot be created on top of the current commit sequence"@,
                ),
            )
            &&& ends_in(
                extra_apply(transaction, state),
                reply,
                ErrorView::Message(
                    "extra-agenda transaction commit cannot be created on top of the current commit sequence"@,
                ),
            )
            &&& ends_in(
                approve_apply(hash, at, state, new),
                reply,
                ErrorView::Message(
                    "agenda proof commit cannot be created on top of the current commit sequence"@,
                ),
            )
            &&& ends_in(
                sync_finalization(proof, at, height),
                reply,
                ErrorView::Message("verification error on the last block header: "@ + error.text@),
            )
        }),
{
}

/// A sync to a branch that does not end in a block tells so.
pub proof fn law_other_than_a_block_is_told(
    hash: Hash256,
    proof: FinalizationProof,
    block: CommitHash,
    current: CommitHash,
    commits: Vec<(Commit, CommitHash)>,
)
    requires
        commits@.len() > 0,
        !(commits@.last().0 is Block),
    ensures
        ends_in(
            sync_read(hash, proof, block, current),
            Reply::Commits(Ok(commits)),
            ErrorView::Message("the last commit is not a block commit"@),
        ),
{
}

/// An error in words: that of the host as it came, a message as it is, and of a broken repository
/// that it is broken, with what is wrong.
pub proof fn law_error_in_words(error: ErrorView)
    ensures
        match error {
            ErrorView::Host(failure) => error.text() == failure.text@,
            ErrorView::Message(text) => error.text() == text,
            ErrorView::Integrity(msg) => error.text() == "repository integrity broken: "@ + msg,
        },
{
}

/// Whether a plan hands over branches from a position on, each in its turn and once, whatever the
/// verdicts, and then ends well. A failure ends it.
pub open spec fn hands_over(
    plan: Plan<()>,
    branches: Seq<(String, String, CommitHash)>,
    i: int,
) -> bool
    decreases branches.len() - i,
{
    if i >= branches.len() {
        plan == Plan::<()>::Done(Ok(()))
    } else {
        &&& plan is Ask
        &&& plan.request() == RequestView::Receive(branches[i].2)
        &&& forall|verdict: Result<(), String>|
            hands_over(#[trigger] plan.after(Reply::Received(Ok(verdict))), branches, i + 1)
        &&& forall|error: HostError| #[trigger]
            ends_in(plan, Reply::Received(Err(error)), ErrorView::Host(error))
    }
}

proof fn lemma_hands_over(branches: Seq<(String, String, CommitHash)>, i: int)
    requires
        0 <= i,
    ensures
        hands_over(fetch_from(branches, i), branches, i),
    decreases branches.len() - i,
{
    if i < branches.len() {
        lemma_hands_over(branches, i + 1);
        let plan = fetch_from(branches, i);
        assert forall|verdict: Result<(), String>| hands_over(
            #[trigger] plan.after(Reply::Received(Ok(verdict))),
            branches,
            i + 1,
        ) by {
            assert(plan.after(Reply::Received(Ok(verdict))) == fetch_from(branches, i + 1));
        }
    }
}

/// A fetch adds the remotes, fetches from them even where that fails, and hands over each of their
/// branches in its turn. A branch that is rejected keeps no other from it.
pub proof fn law_fetch_hands_over(
    fetched: Result<(), HostError>,
    branches: Vec<(String, String, CommitHash)>,
)
    ensures
        ({
            let all = fetch_plan().after(Reply::Nothing(Ok(())));
            let list = all.after(Reply::Nothing(fetched));
            &&& fetch_plan() is Ask && fetch_plan().request() == RequestView::AddRemotes
            &&& all is Ask && all.request() == RequestView::FetchAll
            &&& list is Ask && list.request() == RequestView::ListRemoteTrackingBranches
            &&& hands_over(list.after(Reply::RemoteBranches(Ok(branches))), branches@, 0)
        }),
{
    assert(fetch_plan().after(Reply::Nothing(Ok(()))) == fetch_all());
    assert(fetch_all().after(Reply::Nothing(fetched)) == fetch_list());
    lemma_hands_over(branches@, 0);
}

/// A branch that was pushed is handed over, and the verdict is given as it came.
pub proof fn law_get_pushed_verdict(
    commit: CommitHash,
    verdict: Result<(), String>,
    error: HostError,
)
    ensures
        get_pushed_plan(commit) is Ask,
        get_pushed_plan(commit).request() == RequestView::Receive(commit),
        get_pushed_plan(commit).after(Reply::Received(Ok(verdict))) == Plan::<
            Result<(), String>,
        >::Done(Ok(verdict)),
        ends_in(get_pushed_plan(commit), Reply::Received(Err(error)), ErrorView::Host(error)),
{
}

/// Whether a text is a prefix and the first eight digits of a hash: two for each of its first four
/// bytes, the high half first, in lower case.
pub open spec fn names_hash(name: Seq<char>, prefix: Seq<char>, hash: Hash256) -> bool {
    &&& name.len() == prefix.len() + 8
    &&& prefix.is_prefix_of(name)
    &&& forall|k: int|
        #![trigger hash.hash@[k]]
        0 <= k < 4 ==> {
            &&& shows(name[prefix.len() + 2 * k], hash.hash@[k] as int / 16)
            &&& shows(name[prefix.len() + 2 * k + 1], hash.hash@[k] as int % 16)
        }
}

/// Whether a character is the digit of a value below sixteen.
pub open spec fn shows(digit: char, value: int) -> bool {
    if value < 10 {
        digit as int == '0' as int + value
    } else {
        digit as int == 'a' as int + value - 10
    }
}

/// The branches of agendas and of blocks are named by `a-` and by `b-`, the tags of votes and of
/// vetoes by `vote-` and by `veto-`, each with the first eight digits of the hash.
pub proof fn law_names_show_the_hash(hash: Hash256)
    ensures
        names_hash(agenda_branch(hash), "a-"@, hash),
        names_hash(block_branch(hash), "b-"@, hash),
        names_hash(vote_tag(hash), "vote-"@, hash),
        names_hash(veto_tag(hash), "veto-"@, hash),
        FINALIZED_BRANCH_NAME@ == "finalized"@,
        WORK_BRANCH_NAME@ == "work"@,
        FP_BRANCH_NAME@ == "fp"@,
{
    lemma_named("a-"@, hash);
    lemma_named("b-"@, hash);
    lemma_named("vote-"@, hash);
    lemma_named("veto-"@, hash);
    assert(BRANCH_NAME_HASH_DIGITS == 8 && TAG_NAME_HASH_DIGITS == 8);
}

proof fn lemma_named(prefix: Seq<char>, hash: Hash256)
    ensures
        names_hash(prefix + trimmed(hash, 8), prefix, hash),
{
    let name = prefix + trimmed(hash, 8);
    let text = hex_text(hash.hash@);
    assert(name.subrange(0, prefix.len() as int) =~= prefix);
    assert forall|k: int| #![trigger hash.hash@[k]] 0 <= k < 4 implies {
        &&& shows(name[prefix.len() + 2 * k], hash.hash@[k] as int / 16)
        &&& shows(name[prefix.len() + 2 * k + 1], hash.hash@[k] as int % 16)
    } by {
        let byte = hash.hash@[k] as int;
        assert(0 <= byte / 16 < 16 && 0 <= byte % 16 < 16);
        assert(name[prefix.len() + 2 * k] == text[2 * k]);
        assert(name[prefix.len() + 2 * k + 1] == text[2 * k + 1]);
        assert(text[2 * k] == hex_digit(byte / 16));
        assert(text[2 * k + 1] == hex_digit(byte % 16));
    }
}

} // verus!
