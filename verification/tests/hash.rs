use simperby_repository::hash::{CommitHashError, Hash256, HexError};
use simperby_repository::CommitHash;

fn counting() -> CommitHash {
    let mut hash = [0u8; 20];
    let mut i = 0;
    while i < 20 {
        hash[i] = (i * 13) as u8;
        i += 1;
    }
    CommitHash { hash }
}

#[test]
fn commit_hash_text_is_lower_case_hex() {
    let hash = CommitHash { hash: [0xab; 20] };
    assert_eq!(hash.to_string(), "ab".repeat(20));
    assert_eq!(
        counting().to_string(),
        "000d1a2734414e5b6875828f9ca9b6c3d0ddeaf7"
    );
}

#[test]
fn commit_hash_round_trip() {
    let text = counting().to_string();
    assert_eq!(CommitHash::deserialize(&text), Ok(counting()));
    assert_eq!(text.len(), 40);
}

#[test]
fn commit_hash_reads_upper_case() {
    let text = counting().to_string().to_uppercase();
    assert_eq!(CommitHash::deserialize(&text), Ok(counting()));
}

#[test]
fn commit_hash_of_a_wrong_length() {
    assert_eq!(
        CommitHash::deserialize(&"ab".repeat(19)),
        Err(CommitHashError::InvalidLength)
    );
    assert_eq!(
        CommitHash::deserialize(&"ab".repeat(21)),
        Err(CommitHashError::InvalidLength)
    );
    assert_eq!(CommitHash::deserialize(""), Err(CommitHashError::InvalidLength));
}

#[test]
fn commit_hash_of_an_odd_text() {
    assert_eq!(
        CommitHash::deserialize(&"a".repeat(39)),
        Err(CommitHashError::Hex(HexError::OddLength))
    );
    // The odd number of digits is reported before the one that is none.
    assert_eq!(
        CommitHash::deserialize("g"),
        Err(CommitHashError::Hex(HexError::OddLength))
    );
}

#[test]
fn commit_hash_with_another_character() {
    let mut text = "ab".repeat(20);
    text.replace_range(7..8, "g");
    text.replace_range(30..31, "z");
    assert_eq!(
        CommitHash::deserialize(&text),
        Err(CommitHashError::Hex(HexError::InvalidHexCharacter {
            c: 'g',
            index: 7
        }))
    );
    // Two bytes in UTF-8, of which the first is named.
    assert_eq!(
        CommitHash::deserialize("é"),
        Err(CommitHashError::Hex(HexError::InvalidHexCharacter {
            c: '\u{c3}',
            index: 0
        }))
    );
}

#[test]
fn commit_hashes_compare() {
    let mut other = counting();
    other.hash[19] = 1;
    assert!(counting().same(&counting()));
    assert!(!counting().same(&other));
    assert_ne!(counting().to_string(), other.to_string());
}

#[test]
fn names_of_branches_and_tags() {
    let mut hash = Hash256::zero();
    assert_eq!(hash.to_string(), "0".repeat(64));
    assert_eq!(hash.agenda_branch(), "a-00000000");
    hash.hash[0] = 0xde;
    hash.hash[1] = 0xad;
    hash.hash[2] = 0xbe;
    hash.hash[3] = 0xef;
    hash.hash[4] = 0x99;
    assert_eq!(hash.agenda_branch(), "a-deadbeef");
    assert_eq!(hash.block_branch(), "b-deadbeef");
    assert_eq!(hash.vote_tag(), "vote-deadbeef");
    assert_eq!(hash.veto_tag(), "veto-deadbeef");
}

#[test]
fn names_keep_eight_digits() {
    let mut a = Hash256::zero();
    let mut b = Hash256::zero();
    a.hash[4] = 1;
    assert_eq!(a.block_branch(), b.block_branch());
    assert_eq!(a.vote_tag(), b.vote_tag());
    b.hash[3] = 1;
    assert_ne!(a.block_branch(), b.block_branch());
    assert_ne!(a.veto_tag(), b.veto_tag());
}
