//! The texts of hashes and the names made of them.
use vstd::prelude::*;
use vstd::utf8::{encode_utf8, is_ascii_chars_encode_utf8};

use crate::agenda::agenda_name;
use crate::approve::{approve_plan, Approval};
use crate::block::block_name;
use crate::clean::{is_permanent, may_stay};
use crate::data::{Agenda, BlockHeader, FinalizationProof};
use crate::hash::{
    agenda_branch, block_branch, hex_bytes, hex_fault, hex_text, hex_value, is_hex, is_hex_digit,
    lemma_hex_text_is_ascii, trimmed, veto_tag, vote_tag, CommitHash, Hash256, HexError,
};
use crate::host::{Reply, RequestView};
use crate::listing::ListKind;
use crate::sync::sync_plan;
use crate::{
    BRANCH_NAME_HASH_DIGITS, FINALIZED_BRANCH_NAME, FP_BRANCH_NAME, TAG_NAME_HASH_DIGITS,
    WORK_BRANCH_NAME,
};

verus! {

/// The text of some bytes, read back, gives the bytes.
proof fn lemma_read_back(bytes: Seq<u8>)
    ensures
        is_hex(encode_utf8(hex_text(bytes))),
        hex_bytes(encode_utf8(hex_text(bytes))) == bytes,
{
    let text = hex_text(bytes);
    let read = encode_utf8(text);
    lemma_hex_text_is_ascii(bytes);
    is_ascii_chars_encode_utf8(text);
    assert forall|i: int| 0 <= i < read.len() implies is_hex_digit(#[trigger] read[i]) && hex_value(
        read[i],
    ) == (if i % 2 == 0 {
        bytes[i / 2] as int / 16
    } else {
        bytes[i / 2] as int % 16
    }) by {
        assert(read[i] == text[i] as u8);
    }
    assert forall|i: int| 0 <= i < bytes.len() implies hex_bytes(read)[i] == #[trigger] bytes[i] by {
        assert(hex_value(read[2 * i]) == bytes[i] as int / 16);
        assert(hex_value(read[2 * i + 1]) == bytes[i] as int % 16);
    }
    assert(hex_bytes(read) =~= bytes);
}

/// A commit hash that is written down and read again is the same hash: its text is hexadecimal,
/// without a fault, and what the text stands for is the hash.
pub proof fn law_commit_hash_round_trip(commit: CommitHash)
    ensures
        is_hex(encode_utf8(commit.text())),
        forall|error: HexError| !#[trigger] hex_fault(encode_utf8(commit.text()), error),
        hex_bytes(encode_utf8(commit.text())) == commit.hash@,
        commit.text().len() == 40,
{
    lemma_read_back(commit.hash@);
}

/// Two commit hashes with the same text are the same.
pub proof fn law_commit_hash_text_is_unique(a: CommitHash, b: CommitHash)
    requires
        a.text() == b.text(),
    ensures
        a == b,
{
    lemma_read_back(a.hash@);
    lemma_read_back(b.hash@);
    assert(a.hash =~= b.hash);
}

/// The branches of agendas and of blocks are those that the listings look at and that a cleaning
/// may keep. None of them is a permanent branch, and no branch of an agenda is one of a block.
pub proof fn law_branch_names(agenda: Hash256, block: Hash256)
    ensures
        ListKind::Agendas.prefix().is_prefix_of(agenda_branch(agenda)),
        ListKind::Blocks.prefix().is_prefix_of(block_branch(block)),
        !ListKind::Blocks.prefix().is_prefix_of(agenda_branch(agenda)),
        !ListKind::Agendas.prefix().is_prefix_of(block_branch(block)),
        may_stay(agenda_branch(agenda)) && may_stay(block_branch(block)),
        !is_permanent(agenda_branch(agenda)) && !is_permanent(block_branch(block)),
        agenda_branch(agenda) != block_branch(block),
        agenda_branch(agenda).len() == 10 && block_branch(block).len() == 10,
{
    reveal_strlit("a-");
    reveal_strlit("b-");
    reveal_strlit("work");
    reveal_strlit("finalized");
    reveal_strlit("fp");
    let a = agenda_branch(agenda);
    let b = block_branch(block);
    assert(a.subrange(0, 2) =~= "a-"@);
    assert(b.subrange(0, 2) =~= "b-"@);
    assert(a[0] == 'a' && b[0] == 'b');
    assert("a-"@[0] == 'a' && "b-"@[0] == 'b');
    assert(WORK_BRANCH_NAME@.len() == 4 && FP_BRANCH_NAME@.len() == 2
        && FINALIZED_BRANCH_NAME@.len() == 9);
}

/// Two agendas share a branch name exactly where their hashes agree in the digits that the name
/// keeps, and so do two blocks. The same holds of the tags of votes and of vetoes.
pub proof fn law_names_keep_the_trimmed_hash(a: Hash256, b: Hash256)
    ensures
        (agenda_branch(a) == agenda_branch(b)) == (trimmed(a, BRANCH_NAME_HASH_DIGITS as int)
            == trimmed(b, BRANCH_NAME_HASH_DIGITS as int)),
        (block_branch(a) == block_branch(b)) == (trimmed(a, BRANCH_NAME_HASH_DIGITS as int)
            == trimmed(b, BRANCH_NAME_HASH_DIGITS as int)),
        (vote_tag(a) == vote_tag(b)) == (trimmed(a, TAG_NAME_HASH_DIGITS as int) == trimmed(
            b,
            TAG_NAME_HASH_DIGITS as int,
        )),
        (veto_tag(a) == veto_tag(b)) == (trimmed(a, TAG_NAME_HASH_DIGITS as int) == trimmed(
            b,
            TAG_NAME_HASH_DIGITS as int,
        )),
        vote_tag(a) != veto_tag(b),
{
    let branch_digits = BRANCH_NAME_HASH_DIGITS as int;
    let tag_digits = TAG_NAME_HASH_DIGITS as int;
    lemma_behind_prefix("a-"@, trimmed(a, branch_digits), trimmed(b, branch_digits));
    lemma_behind_prefix("b-"@, trimmed(a, branch_digits), trimmed(b, branch_digits));
    lemma_behind_prefix("vote-"@, trimmed(a, tag_digits), trimmed(b, tag_digits));
    lemma_behind_prefix("veto-"@, trimmed(a, tag_digits), trimmed(b, tag_digits));
    reveal_strlit("vote-");
    reveal_strlit("veto-");
    assert(vote_tag(a)[1] == 'o' && veto_tag(b)[1] == 'e');
}

/// What is created is what is looked up later: the branch that a new block gets is the one that a
/// sync to the hash of the block asks for, and the branch that a new agenda gets is the one that an
/// approval of the hash of the agenda asks for.
pub proof fn law_branches_are_found_again(
    header: BlockHeader,
    agenda: Agenda,
    commit: CommitHash,
    last: CommitHash,
    hash: Hash256,
    proof: FinalizationProof,
    approval: Approval,
)
    requires
        approval.agenda_hash == hash,
    ensures
        block_name(header, commit).after(Reply::Hash(hash)).request() == RequestView::CreateBranch(
            block_branch(hash),
            commit,
        ),
        sync_plan(hash, proof).request() == RequestView::LocateBranch(block_branch(hash)),
        agenda_name(agenda, commit).after(Reply::Hash(hash)).request()
            == RequestView::CreateBranch(agenda_branch(hash), commit),
        approve_plan(approval).after(Reply::Commit(Ok(last))).request()
            == RequestView::LocateBranch(agenda_branch(hash)),
{
}

/// Two texts behind the same prefix are the same exactly where the whole is.
proof fn lemma_behind_prefix(prefix: Seq<char>, a: Seq<char>, b: Seq<char>)
    ensures
        (prefix + a == prefix + b) == (a == b),
{
    if prefix + a == prefix + b {
        assert((prefix + a).skip(prefix.len() as int) =~= a);
        assert((prefix + b).skip(prefix.len() as int) =~= b);
    }
}

} // verus!
