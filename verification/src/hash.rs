//! Commit hashes of the repository, hashes of the chain data, and their hexadecimal text.
use vstd::prelude::*;
use vstd::string::*;
use vstd::utf8::encode_utf8;

use crate::text::concat2;
use crate::{BRANCH_NAME_HASH_DIGITS, TAG_NAME_HASH_DIGITS};

verus! {

/// The lower-case hexadecimal digit of a value below sixteen.
pub open spec fn hex_digit(value: int) -> char {
    if value < 10 {
        (48 + value) as char
    } else {
        (87 + value) as char
    }
}

/// The hexadecimal text of some bytes: two digits for each, the high half first.
pub open spec fn hex_text(bytes: Seq<u8>) -> Seq<char> {
    Seq::new(
        2 * bytes.len(),
        |i: int|
            if i % 2 == 0 {
                hex_digit(bytes[i / 2] as int / 16)
            } else {
                hex_digit(bytes[i / 2] as int % 16)
            },
    )
}

/// Whether an ASCII byte is a hexadecimal digit, of either case.
pub open spec fn is_hex_digit(byte: u8) -> bool {
    48 <= byte <= 57 || 65 <= byte <= 70 || 97 <= byte <= 102
}

/// The value of a hexadecimal digit.
pub open spec fn hex_value(byte: u8) -> int {
    if byte <= 57 {
        byte - 48
    } else if byte <= 70 {
        byte - 55
    } else {
        byte - 87
    }
}

/// Whether a text is an even number of hexadecimal digits and nothing else.
pub open spec fn is_hex(text: Seq<u8>) -> bool {
    text.len() % 2 == 0 && forall|i: int| 0 <= i < text.len() ==> is_hex_digit(#[trigger] text[i])
}

/// The bytes that pairs of hexadecimal digits stand for.
pub open spec fn hex_bytes(text: Seq<u8>) -> Seq<u8> {
    Seq::new(
        text.len() / 2,
        |i: int| (16 * hex_value(text[2 * i]) + hex_value(text[2 * i + 1])) as u8,
    )
}

/// Why a text is not the hexadecimal form of some bytes.
#[derive(Debug, PartialEq, Eq, Clone, Copy)]
pub enum HexError {
    InvalidHexCharacter { c: char, index: usize },
    OddLength,
    InvalidStringLength,
}

/// What is wrong with a text whose bytes are `text`, as `error` says it: an odd number of bytes
/// comes before any digit is looked at, and of the bytes that are no digits the first is named.
pub open spec fn hex_fault(text: Seq<u8>, error: HexError) -> bool {
    match error {
        HexError::OddLength => text.len() % 2 != 0,
        HexError::InvalidHexCharacter { c, index } => {
            &&& text.len() % 2 == 0
            &&& index < text.len()
            &&& !is_hex_digit(text[index as int])
            &&& c == text[index as int] as char
            &&& forall|j: int| 0 <= j < index ==> is_hex_digit(#[trigger] text[j])
        },
        HexError::InvalidStringLength => false,
    }
}

/// Calls `hex::encode`: two lower-case digits for each byte, the high half first.
///
/// The text must fit the largest allocation, twice the number of bytes.
#[verifier::external_body]
fn hex_encode(bytes: &[u8]) -> (text: String)
    requires
        2 * bytes@.len() <= isize::MAX,
    ensures
        text@ == hex_text(bytes@),
{
    hex::encode(bytes)
}

/// Calls `hex::decode` on the UTF-8 bytes of a text: an even number of digits of either case gives
/// the bytes that the pairs stand for. Otherwise an odd number of bytes is reported, or else the
/// first byte that is no digit, with its position.
#[verifier::external_body]
fn hex_decode(text: &str) -> (res: Result<Vec<u8>, HexError>)
    ensures
        match res {
            Ok(bytes) => is_hex(encode_utf8(text@)) && bytes@ == hex_bytes(encode_utf8(text@)),
            Err(error) => hex_fault(encode_utf8(text@), error),
        },
{
    match hex::decode(text) {
        Ok(bytes) => Ok(bytes),
        Err(hex::FromHexError::InvalidHexCharacter { c, index }) => {
            Err(HexError::InvalidHexCharacter { c, index })
        },
        Err(hex::FromHexError::OddLength) => Err(HexError::OddLength),
        Err(hex::FromHexError::InvalidStringLength) => Err(HexError::InvalidStringLength),
    }
}

/// The hash of a commit of the repository.
#[derive(Debug, PartialEq, Eq, PartialOrd, Ord, Copy, Clone, Hash)]
pub struct CommitHash {
    pub hash: [u8; 20],
}

/// Why a text is no commit hash.
#[derive(Debug, PartialEq, Eq, Clone, Copy)]
pub enum CommitHashError {
    /// The text is not hexadecimal.
    Hex(HexError),
    /// The text is hexadecimal, but not of twenty bytes.
    InvalidLength,
}

/// The hash of a piece of chain data: a commit, an agenda, a block header.
#[derive(Debug, PartialEq, Eq, PartialOrd, Ord, Copy, Clone, Hash)]
pub struct Hash256 {
    pub hash: [u8; 32],
}

/// The first `digits` hexadecimal digits of a hash.
pub open spec fn trimmed(hash: Hash256, digits: int) -> Seq<char> {
    hash.text().subrange(0, digits)
}

/// The name of the branch that holds an agenda or the proof of one: `a-` and the trimmed hash.
pub open spec fn agenda_branch(hash: Hash256) -> Seq<char> {
    "a-"@ + trimmed(hash, BRANCH_NAME_HASH_DIGITS as int)
}

/// The name of the branch that holds a block: `b-` and the trimmed hash.
pub open spec fn block_branch(hash: Hash256) -> Seq<char> {
    "b-"@ + trimmed(hash, BRANCH_NAME_HASH_DIGITS as int)
}

/// The name of the tag that marks a vote for an agenda.
pub open spec fn vote_tag(hash: Hash256) -> Seq<char> {
    "vote-"@ + trimmed(hash, TAG_NAME_HASH_DIGITS as int)
}

/// The name of the tag that marks a veto on a block.
pub open spec fn veto_tag(hash: Hash256) -> Seq<char> {
    "veto-"@ + trimmed(hash, TAG_NAME_HASH_DIGITS as int)
}

/// Every digit of a hexadecimal text is an ASCII digit or a letter from `a` to `f`.
pub proof fn lemma_hex_text_is_ascii(bytes: Seq<u8>)
    ensures
        forall|i: int|
            0 <= i < hex_text(bytes).len() ==> {
                let c = #[trigger] hex_text(bytes)[i];
                '0' <= c <= '9' || 'a' <= c <= 'f'
            },
        vstd::utf8::is_ascii_chars(hex_text(bytes)),
{
    assert forall|i: int| 0 <= i < hex_text(bytes).len() implies {
        let c = #[trigger] hex_text(bytes)[i];
        '0' <= c <= '9' || 'a' <= c <= 'f'
    } by {
        let value = if i % 2 == 0 {
            bytes[i / 2] as int / 16
        } else {
            bytes[i / 2] as int % 16
        };
        assert(0 <= value < 16);
        assert(hex_text(bytes)[i] == hex_digit(value));
    }
}

impl Hash256 {
    /// The hexadecimal text of the hash.
    pub open spec fn text(self) -> Seq<char> {
        hex_text(self.hash@)
    }

    /// The hash that is zero in every byte.
    pub fn zero() -> (res: Hash256)
        ensures
            res == Hash256::zeroed(),
            forall|i: int| 0 <= i < 32 ==> res.hash@[i] == 0,
    {
        let hash: [u8; 32] = [0u8; 32];
        Hash256 { hash }
    }

    /// The hash that is zero in every byte.
    pub open spec fn zeroed() -> Hash256 {
        Hash256 { hash: vstd::array::spec_array_fill_for_copy_type(0u8) }
    }

    /// The hexadecimal text of the hash, in lower case.
    pub fn to_string(&self) -> (res: String)
        ensures
            res@ == self.text(),
    {
        hex_encode(self.hash.as_slice())
    }

    /// A prefix followed by the first digits of the hash.
    fn named(&self, prefix: &str, digits: usize) -> (res: String)
        requires
            digits <= 64,
        ensures
            res@ == prefix@ + trimmed(*self, digits as int),
    {
        let text = self.to_string();
        proof {
            lemma_hex_text_is_ascii(self.hash@);
        }
        concat2(prefix, text.as_str().substring_ascii(0, digits))
    }

    /// The name of the branch of an agenda, or of an agenda proof, of this hash.
    pub fn agenda_branch(&self) -> (res: String)
        ensures
            res@ == agenda_branch(*self),
    {
        self.named("a-", BRANCH_NAME_HASH_DIGITS)
    }

    /// The name of the branch of a block of this hash.
    pub fn block_branch(&self) -> (res: String)
        ensures
            res@ == block_branch(*self),
    {
        self.named("b-", BRANCH_NAME_HASH_DIGITS)
    }

    /// The name of the tag of a vote for the agenda of this hash.
    pub fn vote_tag(&self) -> (res: String)
        ensures
            res@ == vote_tag(*self),
    {
        self.named("vote-", TAG_NAME_HASH_DIGITS)
    }

    /// The name of the tag of a veto on the block of this hash.
    pub fn veto_tag(&self) -> (res: String)
        ensures
            res@ == veto_tag(*self),
    {
        self.named("veto-", TAG_NAME_HASH_DIGITS)
    }
}

impl CommitHash {
    /// The hexadecimal text of the hash, which is also its serialized form.
    pub open spec fn text(self) -> Seq<char> {
        hex_text(self.hash@)
    }

    /// Whether two commits are the same.
    pub fn same(&self, other: &CommitHash) -> (res: bool)
        ensures
            res == (*self == *other),
    {
        let mut i: usize = 0;
        while i < 20
            invariant
                i <= 20,
                forall|j: int| 0 <= j < i ==> self.hash@[j] == other.hash@[j],
            decreases 20 - i,
        {
            if self.hash[i] != other.hash[i] {
                assert(self.hash@[i as int] != other.hash@[i as int]);
                return false;
            }
            i = i + 1;
        }
        assert(self.hash =~= other.hash);
        true
    }

    /// The hexadecimal text of the hash, in lower case.
    pub fn to_string(&self) -> (res: String)
        ensures
            res@ == self.text(),
    {
        hex_encode(self.hash.as_slice())
    }

    /// Reads a commit hash from its serialized form: forty hexadecimal digits of either case.
    pub fn deserialize(text: &str) -> (res: Result<CommitHash, CommitHashError>)
        ensures
            match res {
                Ok(commit_hash) => {
                    &&& is_hex(encode_utf8(text@))
                    &&& hex_bytes(encode_utf8(text@)) == commit_hash.hash@
                },
                Err(CommitHashError::Hex(error)) => hex_fault(encode_utf8(text@), error),
                Err(CommitHashError::InvalidLength) => {
                    &&& is_hex(encode_utf8(text@))
                    &&& hex_bytes(encode_utf8(text@)).len() != 20
                },
            },
    {
        let bytes = match hex_decode(text) {
            Ok(bytes) => bytes,
            Err(error) => return Err(CommitHashError::Hex(error)),
        };
        if bytes.len() != 20 {
            return Err(CommitHashError::InvalidLength);
        }
        let mut hash: [u8; 20] = [0u8; 20];
        let mut i: usize = 0;
        while i < 20
            invariant
                i <= 20,
                bytes@.len() == 20,
                forall|j: int| 0 <= j < i ==> hash@[j] == bytes@[j],
            decreases 20 - i,
        {
            hash[i] = bytes[i];
            i = i + 1;
        }
        assert(hash@ =~= bytes@);
        Ok(CommitHash { hash })
    }
}

} // verus!
