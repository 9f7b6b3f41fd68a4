use simperby_repository::data::{Agenda, BlockHeader, Commit, Encoded};
use simperby_repository::error::HostError;
use simperby_repository::hash::Hash256;
use simperby_repository::host::{Reply, Request};
use simperby_repository::plan::{Next, Operation};
use simperby_repository::{CommitHash, Config, DistributedRepository, Error, IntegrityError};

fn commit(byte: u8) -> CommitHash {
    CommitHash { hash: [byte; 20] }
}

fn encoded(text: &str) -> Encoded {
    Encoded {
        text: text.to_owned(),
    }
}

fn header(height: u64) -> BlockHeader {
    BlockHeader {
        author: encoded("author"),
        prev_block_finalization_proof: encoded("previous proof"),
        previous_hash: Hash256::zero(),
        height,
        timestamp: 7,
        commit_merkle_root: Hash256::zero(),
        repository_merkle_root: Hash256::zero(),
        validator_set: encoded("validators"),
        version: "0.1.0".to_owned(),
    }
}

fn hash(byte: u8) -> Hash256 {
    Hash256 { hash: [byte; 32] }
}

fn missing() -> HostError {
    HostError {
        not_found: true,
        text: "no such thing".to_owned(),
    }
}

fn broken() -> HostError {
    HostError {
        not_found: false,
        text: "disk failure".to_owned(),
    }
}

fn repository() -> DistributedRepository<(), ()> {
    let config = Config {
        mirrors: vec![],
        long_range_attack_distance: 3,
    };
    match DistributedRepository::new((), config, ()) {
        Ok(repository) => repository,
        Err(_) => panic!("a repository can always be made"),
    }
}

fn advance<S: Operation>(
    start: Next<S, S::Output>,
    script: Vec<(Request, Reply)>,
) -> Next<S, S::Output> {
    let mut next = start;
    for (expected, reply) in script {
        next = match next {
            Next::Ask(request, operation) => {
                assert_eq!(request, expected);
                assert!(operation.accepts(&reply));
                operation.resume(reply)
            }
            Next::Done(_) => panic!("ended before {:?}", expected),
        };
    }
    next
}

fn run<S: Operation>(
    start: Next<S, S::Output>,
    script: Vec<(Request, Reply)>,
) -> Result<S::Output, Error> {
    match advance(start, script) {
        Next::Ask(request, _) => panic!("not at its end: {:?}", request),
        Next::Done(result) => result,
    }
}

fn rejects<S: Operation>(next: Next<S, S::Output>, reply: Reply) -> bool {
    match next {
        Next::Ask(_, operation) => !operation.accepts(&reply),
        Next::Done(_) => panic!("no reply is expected"),
    }
}

fn locate(name: &str, at: CommitHash) -> (Request, Reply) {
    (
        Request::LocateBranch(name.to_owned()),
        Reply::Commit(Ok(at)),
    )
}

fn base(a: CommitHash, b: CommitHash, at: CommitHash) -> (Request, Reply) {
    (Request::FindMergeBase(a, b), Reply::Commit(Ok(at)))
}

/// The requests for the last finalized header.
fn last_header(height: u64) -> Vec<(Request, Reply)> {
    vec![
        locate("finalized", commit(1)),
        (
            Request::ReadSemanticCommit(commit(1)),
            Reply::SemanticCommit(Ok(encoded("last block"))),
        ),
        (
            Request::DecodeCommit(encoded("last block")),
            Reply::Decoded(Ok(Commit::Block(header(height)))),
        ),
    ]
}

fn agenda(height: u64) -> Agenda {
    Agenda {
        height,
        author: "member".to_owned(),
        timestamp: 1,
        transactions_hash: Hash256::zero(),
    }
}

fn list_start(names: &[(&str, u8)]) -> Vec<(Request, Reply)> {
    let mut branches = vec![];
    for (name, byte) in names {
        branches.push((name.to_string(), commit(*byte)));
    }
    vec![
        (
            Request::RetrieveLocalBranches,
            Reply::Branches(Ok(branches)),
        ),
        locate("finalized", commit(1)),
    ]
}

fn read(tip: u8, commits: Vec<(Commit, CommitHash)>) -> (Request, Reply) {
    (
        Request::ReadCommits(commit(1), commit(tip)),
        Reply::Commits(Ok(commits)),
    )
}

#[test]
fn agendas_of_the_next_height() {
    let mut script = list_start(&[("a-01010101", 2), ("b-02020202", 3), ("a-03030303", 4)]);
    script.push(base(commit(1), commit(2), commit(1)));
    script.push(read(
        2,
        vec![
            (Commit::Transaction(encoded("t")), commit(20)),
            (Commit::Agenda(agenda(5)), commit(21)),
            (Commit::Agenda(agenda(6)), commit(22)),
            (Commit::Block(header(5)), commit(23)),
        ],
    ));
    script.extend(last_header(4));
    script.push((Request::HashAgenda(agenda(5)), Reply::Hash(hash(5))));
    script.push(base(commit(1), commit(4), commit(1)));
    script.push(read(4, vec![(Commit::Agenda(agenda(5)), commit(24))]));
    script.extend(last_header(4));
    script.push((Request::HashAgenda(agenda(5)), Reply::Hash(hash(6))));
    assert_eq!(
        run(repository().get_agendas(), script),
        Ok(vec![(commit(21), hash(5)), (commit(24), hash(6))])
    );
}

#[test]
fn blocks_of_the_next_height() {
    let mut script = list_start(&[("a-01010101", 2), ("b-02020202", 3)]);
    script.push(base(commit(1), commit(3), commit(1)));
    script.push(read(
        3,
        vec![
            (Commit::Agenda(agenda(5)), commit(20)),
            (Commit::Block(header(5)), commit(21)),
        ],
    ));
    script.extend(last_header(4));
    script.push((Request::HashHeader(header(5)), Reply::Hash(hash(5))));
    assert_eq!(
        run(repository().get_blocks(), script),
        Ok(vec![(commit(21), hash(5))])
    );
}

#[test]
fn branches_off_the_finalized_one_are_left_out() {
    let mut script = list_start(&[("a-01010101", 2)]);
    script.push(base(commit(1), commit(2), commit(7)));
    assert_eq!(run(repository().get_agendas(), script), Ok(vec![]));
}

#[test]
fn nothing_to_list() {
    let script = list_start(&[("finalized", 1), ("work", 2), ("a", 3)]);
    assert_eq!(run(repository().get_agendas(), script), Ok(vec![]));
    let script = list_start(&[]);
    assert_eq!(run(repository().get_blocks(), script), Ok(vec![]));
}

#[test]
fn listing_without_a_common_ancestor() {
    let mut script = list_start(&[("b-01010101", 2)]);
    script.push((
        Request::FindMergeBase(commit(1), commit(2)),
        Reply::Commit(Err(missing())),
    ));
    assert_eq!(
        run(repository().get_blocks(), script),
        Err(Error::Integrity(IntegrityError::new(
            "cannot find merge base for branch b-01010101 and finalized branch".to_owned()
        )))
    );
}

#[test]
fn listing_hands_failures_on() {
    let script = vec![(
        Request::RetrieveLocalBranches,
        Reply::Branches(Err(broken())),
    )];
    assert_eq!(
        run(repository().get_agendas(), script),
        Err(Error::Host(broken()))
    );
}

#[test]
fn no_height_after_the_last_one() {
    let mut script = list_start(&[("a-01010101", 2)]);
    script.push(base(commit(1), commit(2), commit(1)));
    script.push(read(2, vec![(Commit::Agenda(agenda(5)), commit(20))]));
    let mut last = last_header(u64::MAX);
    let reply = match last.pop() {
        Some((_, reply)) => reply,
        None => panic!("a header takes some requests"),
    };
    script.extend(last);
    assert!(rejects(advance(repository().get_agendas(), script), reply));
    // Without an agenda there is no height to compare.
    let mut script = list_start(&[("a-01010101", 2)]);
    script.push(base(commit(1), commit(2), commit(1)));
    script.push(read(2, vec![(Commit::Block(header(5)), commit(20))]));
    script.extend(last_header(u64::MAX));
    assert_eq!(run(repository().get_agendas(), script), Ok(vec![]));
}
