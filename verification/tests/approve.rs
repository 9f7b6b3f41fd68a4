use simperby_repository::approve::Approve;
use simperby_repository::data::{
    Agenda, AgendaProof, BlockHeader, Commit, Encoded, GenesisInfo, ReservedState,
};
use simperby_repository::error::HostError;
use simperby_repository::hash::Hash256;
use simperby_repository::host::{Reply, Request};
use simperby_repository::plan::{Next, Operation};
use simperby_repository::{CommitHash, Config, DistributedRepository, Error, IntegrityError};

fn commit(byte: u8) -> CommitHash {
    CommitHash { hash: [byte; 20] }
}

fn encoded(text: &str) -> Encoded {
    Encoded {
        text: text.to_owned(),
    }
}

fn header(height: u64) -> BlockHeader {
    BlockHeader {
        author: encoded("author"),
        prev_block_finalization_proof: encoded("previous proof"),
        previous_hash: Hash256::zero(),
        height,
        timestamp: 7,
        commit_merkle_root: Hash256::zero(),
        repository_merkle_root: Hash256::zero(),
        validator_set: encoded("validators"),
        version: "0.1.0".to_owned(),
    }
}

fn state() -> ReservedState {
    ReservedState {
        genesis_info: GenesisInfo {
            header: header(0),
            genesis_proof: encoded("genesis proof"),
        },
        rest: encoded("rest"),
    }
}

fn hash(byte: u8) -> Hash256 {
    Hash256 { hash: [byte; 32] }
}

fn missing() -> HostError {
    HostError {
        not_found: true,
        text: "no such thing".to_owned(),
    }
}

fn broken() -> HostError {
    HostError {
        not_found: false,
        text: "disk failure".to_owned(),
    }
}

fn repository() -> DistributedRepository<(), ()> {
    let config = Config {
        mirrors: vec![],
        long_range_attack_distance: 3,
    };
    match DistributedRepository::new((), config, ()) {
        Ok(repository) => repository,
        Err(_) => panic!("a repository can always be made"),
    }
}

fn advance<S: Operation>(
    start: Next<S, S::Output>,
    script: Vec<(Request, Reply)>,
) -> Next<S, S::Output> {
    let mut next = start;
    for (expected, reply) in script {
        next = match next {
            Next::Ask(request, operation) => {
                assert_eq!(request, expected);
                assert!(operation.accepts(&reply));
                operation.resume(reply)
            }
            Next::Done(_) => panic!("ended before {:?}", expected),
        };
    }
    next
}

fn run<S: Operation>(
    start: Next<S, S::Output>,
    script: Vec<(Request, Reply)>,
) -> Result<S::Output, Error> {
    match advance(start, script) {
        Next::Ask(request, _) => panic!("not at its end: {:?}", request),
        Next::Done(result) => result,
    }
}

fn rejects<S: Operation>(next: Next<S, S::Output>, reply: Reply) -> bool {
    match next {
        Next::Ask(_, operation) => !operation.accepts(&reply),
        Next::Done(_) => panic!("no reply is expected"),
    }
}

fn locate(name: &str, at: CommitHash) -> (Request, Reply) {
    (
        Request::LocateBranch(name.to_owned()),
        Reply::Commit(Ok(at)),
    )
}

fn base(a: CommitHash, b: CommitHash, at: CommitHash) -> (Request, Reply) {
    (Request::FindMergeBase(a, b), Reply::Commit(Ok(at)))
}

fn checkout(name: &str) -> (Request, Reply) {
    (Request::Checkout(name.to_owned()), Reply::Nothing(Ok(())))
}

fn apply(commit: Commit) -> (Request, Reply) {
    (Request::ApplyCommit(commit), Reply::Nothing(Ok(())))
}

fn reserved() -> (Request, Reply) {
    (
        Request::ReadReservedState,
        Reply::ReservedState(Ok(state())),
    )
}

fn start_verifier(height: u64) -> (Request, Reply) {
    (
        Request::CreateVerifier(header(height), state()),
        Reply::Nothing(Ok(())),
    )
}

/// The requests for the last finalized header.
fn last_header(height: u64) -> Vec<(Request, Reply)> {
    vec![
        locate("finalized", commit(1)),
        (
            Request::ReadSemanticCommit(commit(1)),
            Reply::SemanticCommit(Ok(encoded("last block"))),
        ),
        (
            Request::DecodeCommit(encoded("last block")),
            Reply::Decoded(Ok(Commit::Block(header(height)))),
        ),
    ]
}

fn agenda(height: u64) -> Agenda {
    Agenda {
        height,
        author: "member".to_owned(),
        timestamp: 1,
        transactions_hash: Hash256::zero(),
    }
}

fn start() -> Next<Approve, CommitHash> {
    repository().approve(&hash(5), encoded("signatures"), 77)
}

fn approve_start(last: Commit) -> Vec<(Request, Reply)> {
    let mut script = vec![
        locate("finalized", commit(1)),
        locate("a-05050505", commit(9)),
        base(commit(1), commit(9), commit(1)),
    ];
    script.extend(last_header(4));
    script.push(reserved());
    script.push(locate("finalized", commit(1)));
    script.push((
        Request::ReadCommits(commit(1), commit(9)),
        Reply::Commits(Ok(vec![
            (Commit::Transaction(encoded("t")), commit(8)),
            (last.clone(), commit(9)),
        ])),
    ));
    script.push(start_verifier(4));
    script.push(apply(Commit::Transaction(encoded("t"))));
    script.push(apply(last));
    script
}

fn agenda_proof() -> Commit {
    Commit::AgendaProof(AgendaProof {
        height: 5,
        agenda_hash: hash(5),
        proof: encoded("signatures"),
        timestamp: 77,
    })
}

fn hashed() -> Vec<(Request, Reply)> {
    let mut script = approve_start(Commit::Agenda(agenda(5)));
    script.push((
        Request::HashCommit(Commit::Agenda(agenda(5))),
        Reply::Hash(hash(5)),
    ));
    script
}

fn proved(names: Vec<String>) -> Vec<(Request, Reply)> {
    let mut script = hashed();
    script.push(apply(agenda_proof()));
    script.push((
        Request::DeleteBranch("a-05050505".to_owned()),
        Reply::Nothing(Ok(())),
    ));
    script.push((
        Request::EncodeCommit(agenda_proof(), state()),
        Reply::SemanticCommit(Ok(encoded("proof commit"))),
    ));
    script.push((Request::HashCommit(agenda_proof()), Reply::Hash(hash(6))));
    script.push((Request::ListBranches, Reply::Names(Ok(names))));
    script
}

#[test]
fn approval_puts_the_proof_on_its_own_branch() {
    let mut script = proved(vec!["work".to_owned(), "a-05050505".to_owned()]);
    script.push((
        Request::CreateBranch("a-06060606".to_owned(), commit(9)),
        Reply::Nothing(Ok(())),
    ));
    script.push(checkout("a-06060606"));
    script.push((
        Request::CreateSemanticCommit(encoded("proof commit")),
        Reply::Commit(Ok(commit(10))),
    ));
    assert_eq!(run(start(), script), Ok(commit(10)));
}

#[test]
fn approval_with_a_proof_that_is_not_valid() {
    let mut script = hashed();
    script.push((
        Request::ApplyCommit(agenda_proof()),
        Reply::Nothing(Err(broken())),
    ));
    assert_eq!(
        run(start(), script),
        Err(Error::Message(
            "agenda proof commit cannot be created on top of the current commit sequence"
                .to_owned()
        ))
    );
}

#[test]
fn approval_that_is_there_already() {
    let mut script = proved(vec!["work".to_owned(), "a-06060606".to_owned()]);
    script.push(locate("a-06060606", commit(11)));
    assert_eq!(run(start(), script), Ok(commit(11)));
}

#[test]
fn approval_of_a_branch_off_the_finalized_one() {
    let script = vec![
        locate("finalized", commit(1)),
        locate("a-05050505", commit(9)),
        base(commit(1), commit(9), commit(7)),
    ];
    assert_eq!(
        run(start(), script),
        Err(Error::Message(
            "branch a-05050505 should be rebased on finalized".to_owned()
        ))
    );
}

#[test]
fn approval_without_a_common_ancestor() {
    let script = vec![
        locate("finalized", commit(1)),
        locate("a-05050505", commit(9)),
        (
            Request::FindMergeBase(commit(1), commit(9)),
            Reply::Commit(Err(missing())),
        ),
    ];
    assert_eq!(
        run(start(), script),
        Err(Error::Integrity(IntegrityError::new(
            "cannot find merge base for branch a-05050505 and finalized branch".to_owned()
        )))
    );
}

#[test]
fn approval_of_another_commit_than_an_agenda() {
    assert_eq!(
        run(start(), approve_start(Commit::Block(header(5)))),
        Err(Error::Message("not an agenda commit".to_owned()))
    );
}

#[test]
fn approval_over_a_commit_that_is_not_valid() {
    let mut script = approve_start(Commit::Agenda(agenda(5)));
    script.truncate(script.len() - 2);
    script.push((
        Request::ApplyCommit(Commit::Transaction(encoded("t"))),
        Reply::Nothing(Err(broken())),
    ));
    assert_eq!(
        run(start(), script),
        Err(Error::Message(format!(
            "verification error on commit {}: disk failure",
            "08".repeat(20)
        )))
    );
}

#[test]
fn approval_whose_branch_cannot_be_made() {
    let mut script = proved(vec![]);
    script.push((
        Request::CreateBranch("a-06060606".to_owned(), commit(9)),
        Reply::Nothing(Err(broken())),
    ));
    assert_eq!(run(start(), script), Err(Error::Host(broken())));
}

#[test]
fn approval_does_not_take_an_empty_branch() {
    let mut script = approve_start(Commit::Agenda(agenda(5)));
    script.truncate(8);
    script.push((
        Request::ReadCommits(commit(1), commit(9)),
        Reply::Commits(Ok(vec![])),
    ));
    assert!(rejects(
        advance(start(), script),
        Reply::Nothing(Ok(()))
    ));
}
