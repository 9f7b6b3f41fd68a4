use simperby_repository::agenda::{collect_transactions, CreateAgenda};
use simperby_repository::block::{collect_commits, CreateBlock};
use simperby_repository::data::{
    Agenda, BlockHeader, Commit, Encoded, GenesisInfo, LastFinalizationProof, ReservedState,
};
use simperby_repository::error::HostError;
use simperby_repository::extra::CreateExtra;
use simperby_repository::hash::Hash256;
use simperby_repository::host::{Reply, Request};
use simperby_repository::plan::{Next, Operation};
use simperby_repository::{CommitHash, Config, DistributedRepository, Error, IntegrityError};

fn commit(byte: u8) -> CommitHash {
    CommitHash { hash: [byte; 20] }
}

fn encoded(text: &str) -> Encoded {
    Encoded {
        text: text.to_owned(),
    }
}

fn header(height: u64) -> BlockHeader {
    BlockHeader {
        author: encoded("author"),
        prev_block_finalization_proof: encoded("previous proof"),
        previous_hash: Hash256::zero(),
        height,
        timestamp: 7,
        commit_merkle_root: Hash256::zero(),
        repository_merkle_root: Hash256::zero(),
        validator_set: encoded("validators"),
        version: "0.1.0".to_owned(),
    }
}

fn state() -> ReservedState {
    ReservedState {
        genesis_info: GenesisInfo {
            header: header(0),
            genesis_proof: encoded("genesis proof"),
        },
        rest: encoded("rest"),
    }
}

fn hash(byte: u8) -> Hash256 {
    Hash256 { hash: [byte; 32] }
}

fn missing() -> HostError {
    HostError {
        not_found: true,
        text: "no such thing".to_owned(),
    }
}

fn broken() -> HostError {
    HostError {
        not_found: false,
        text: "disk failure".to_owned(),
    }
}

fn repository() -> DistributedRepository<(), ()> {
    let config = Config {
        mirrors: vec![],
        long_range_attack_distance: 3,
    };
    match DistributedRepository::new((), config, ()) {
        Ok(repository) => repository,
        Err(_) => panic!("a repository can always be made"),
    }
}

fn advance<S: Operation>(
    start: Next<S, S::Output>,
    script: Vec<(Request, Reply)>,
) -> Next<S, S::Output> {
    let mut next = start;
    for (expected, reply) in script {
        next = match next {
            Next::Ask(request, operation) => {
                assert_eq!(request, expected);
                assert!(operation.accepts(&reply));
                operation.resume(reply)
            }
            Next::Done(_) => panic!("ended before {:?}", expected),
        };
    }
    next
}

fn run<S: Operation>(
    start: Next<S, S::Output>,
    script: Vec<(Request, Reply)>,
) -> Result<S::Output, Error> {
    match advance(start, script) {
        Next::Ask(request, _) => panic!("not at its end: {:?}", request),
        Next::Done(result) => result,
    }
}

fn rejects<S: Operation>(next: Next<S, S::Output>, reply: Reply) -> bool {
    match next {
        Next::Ask(_, operation) => !operation.accepts(&reply),
        Next::Done(_) => panic!("no reply is expected"),
    }
}

fn locate(name: &str, at: CommitHash) -> (Request, Reply) {
    (
        Request::LocateBranch(name.to_owned()),
        Reply::Commit(Ok(at)),
    )
}

fn base(a: CommitHash, b: CommitHash, at: CommitHash) -> (Request, Reply) {
    (Request::FindMergeBase(a, b), Reply::Commit(Ok(at)))
}

fn checkout(name: &str) -> (Request, Reply) {
    (Request::Checkout(name.to_owned()), Reply::Nothing(Ok(())))
}

fn apply(commit: Commit) -> (Request, Reply) {
    (Request::ApplyCommit(commit), Reply::Nothing(Ok(())))
}

fn reserved() -> (Request, Reply) {
    (
        Request::ReadReservedState,
        Reply::ReservedState(Ok(state())),
    )
}

fn start_verifier(height: u64) -> (Request, Reply) {
    (
        Request::CreateVerifier(header(height), state()),
        Reply::Nothing(Ok(())),
    )
}

/// The requests for the last finalized header.
fn last_header(height: u64) -> Vec<(Request, Reply)> {
    vec![
        locate("finalized", commit(1)),
        (
            Request::ReadSemanticCommit(commit(1)),
            Reply::SemanticCommit(Ok(encoded("last block"))),
        ),
        (
            Request::DecodeCommit(encoded("last block")),
            Reply::Decoded(Ok(Commit::Block(header(height)))),
        ),
    ]
}

fn commits() -> Vec<(Commit, CommitHash)> {
    vec![
        (Commit::Transaction(encoded("t1")), commit(6)),
        (Commit::Other(encoded("o")), commit(7)),
        (Commit::Transaction(encoded("t2")), commit(8)),
    ]
}

fn read() -> (Request, Reply) {
    (
        Request::ReadCommits(commit(1), commit(8)),
        Reply::Commits(Ok(commits())),
    )
}

fn apply_all() -> Vec<(Request, Reply)> {
    vec![
        apply(Commit::Transaction(encoded("t1"))),
        apply(Commit::Other(encoded("o"))),
        apply(Commit::Transaction(encoded("t2"))),
    ]
}

fn publish(new: Commit) -> Vec<(Request, Reply)> {
    vec![
        (
            Request::EncodeCommit(new, state()),
            Reply::SemanticCommit(Ok(encoded("new commit"))),
        ),
        (Request::CheckoutClean, Reply::Nothing(Ok(()))),
        checkout("work"),
        (
            Request::CreateSemanticCommit(encoded("new commit")),
            Reply::Commit(Ok(commit(9))),
        ),
    ]
}

fn new_agenda() -> Agenda {
    Agenda {
        height: 5,
        author: "member".to_owned(),
        timestamp: 99,
        transactions_hash: hash(3),
    }
}

fn agenda_start(height: u64) -> Vec<(Request, Reply)> {
    let mut script = last_header(height);
    script.push(locate("work", commit(8)));
    script.push(locate("finalized", commit(1)));
    script.push(base(commit(1), commit(8), commit(1)));
    script.push(reserved());
    script.push(start_verifier(height));
    script.push(read());
    script.extend(apply_all());
    script.push((Request::GetTimestamp, Reply::Timestamp(99)));
    script
}

fn transactions_hash() -> (Request, Reply) {
    (
        Request::CalculateTransactionsHash(vec![encoded("t1"), encoded("t2")]),
        Reply::Hash(hash(3)),
    )
}

fn create_agenda() -> Next<CreateAgenda, (Agenda, CommitHash)> {
    repository().create_agenda("member".to_owned())
}

#[test]
fn agenda_on_top_of_work() {
    let mut script = agenda_start(4);
    script.push(transactions_hash());
    script.push(apply(Commit::Agenda(new_agenda())));
    script.extend(publish(Commit::Agenda(new_agenda())));
    script.push((
        Request::HashCommit(Commit::Agenda(new_agenda())),
        Reply::Hash(hash(5)),
    ));
    script.push((
        Request::CreateBranch("a-05050505".to_owned(), commit(9)),
        Reply::Nothing(Ok(())),
    ));
    assert_eq!(
        run(create_agenda(), script),
        Ok((new_agenda(), commit(9)))
    );
}

#[test]
fn agenda_on_a_branch_off_the_finalized_one() {
    let mut script = last_header(4);
    script.push(locate("work", commit(8)));
    script.push(locate("finalized", commit(1)));
    script.push(base(commit(1), commit(8), commit(7)));
    assert_eq!(
        run(create_agenda(), script),
        Err(Error::Message(
            "branch work should be rebased on finalized".to_owned()
        ))
    );
}

#[test]
fn agenda_without_a_common_ancestor() {
    let mut script = last_header(4);
    script.push(locate("work", commit(8)));
    script.push(locate("finalized", commit(1)));
    script.push((
        Request::FindMergeBase(commit(1), commit(8)),
        Reply::Commit(Err(missing())),
    ));
    assert_eq!(run(create_agenda(), script), Err(Error::Host(missing())));
}

#[test]
fn agenda_that_is_not_valid() {
    let mut script = agenda_start(4);
    script.push(transactions_hash());
    script.push((
        Request::ApplyCommit(Commit::Agenda(new_agenda())),
        Reply::Nothing(Err(broken())),
    ));
    assert_eq!(
        run(create_agenda(), script),
        Err(Error::Message(
            "agenda commit cannot be created on top of the current commit sequence".to_owned()
        ))
    );
}

#[test]
fn agenda_without_a_work_branch() {
    let mut script = agenda_start(4);
    script.push(transactions_hash());
    script.push(apply(Commit::Agenda(new_agenda())));
    script.extend(publish(Commit::Agenda(new_agenda())));
    script.truncate(script.len() - 2);
    script.push((
        Request::Checkout("work".to_owned()),
        Reply::Nothing(Err(missing())),
    ));
    assert_eq!(
        run(create_agenda(), script),
        Err(Error::Integrity(IntegrityError::new(
            "failed to checkout to the work branch: no such thing".to_owned()
        )))
    );
}

#[test]
fn no_agenda_after_the_last_height() {
    let script = agenda_start(u64::MAX);
    assert!(rejects(
        advance(create_agenda(), script),
        Reply::Hash(hash(3))
    ));
    let script = agenda_start(u64::MAX - 1);
    assert!(!rejects(
        advance(create_agenda(), script),
        Reply::Hash(hash(3))
    ));
}

fn new_header() -> BlockHeader {
    BlockHeader {
        author: encoded("key"),
        prev_block_finalization_proof: encoded("last proof"),
        previous_hash: hash(2),
        height: 5,
        timestamp: 99,
        commit_merkle_root: hash(4),
        repository_merkle_root: Hash256::zero(),
        validator_set: encoded("validators of the state"),
        version: "0.2.0".to_owned(),
    }
}

fn create_block() -> Next<CreateBlock, (BlockHeader, CommitHash)> {
    repository().create_block(encoded("key"), "0.2.0".to_owned())
}

fn block_start() -> Vec<(Request, Reply)> {
    let mut script = vec![
        locate("work", commit(8)),
        locate("finalized", commit(1)),
        base(commit(1), commit(8), commit(1)),
        read(),
    ];
    script.extend(last_header(4));
    script.push(checkout("work"));
    script.push(reserved());
    script.push(start_verifier(4));
    script.extend(apply_all());
    script.push(locate("fp", commit(2)));
    script.push((
        Request::ReadSemanticCommit(commit(2)),
        Reply::SemanticCommit(Ok(encoded("stored proof"))),
    ));
    script
}

fn block_made() -> Vec<(Request, Reply)> {
    let mut script = block_start();
    script.push((
        Request::DecodeProof(encoded("stored proof")),
        Reply::DecodedProof(Ok(LastFinalizationProof {
            height: 4,
            proof: encoded("last proof"),
        })),
    ));
    script.push((Request::HashHeader(header(4)), Reply::Hash(hash(2))));
    script.push((Request::GetTimestamp, Reply::Timestamp(99)));
    script.push((
        Request::CalculateCommitMerkleRoot(vec![
            Commit::Transaction(encoded("t1")),
            Commit::Other(encoded("o")),
            Commit::Transaction(encoded("t2")),
        ]),
        Reply::Hash(hash(4)),
    ));
    script
}

fn validators() -> (Request, Reply) {
    (
        Request::GetValidatorSet(state()),
        Reply::ValidatorSet(Ok(encoded("validators of the state"))),
    )
}

#[test]
fn block_on_top_of_work() {
    let mut script = block_made();
    script.push(validators());
    script.push(apply(Commit::Block(new_header())));
    script.extend(publish(Commit::Block(new_header())));
    script.push((
        Request::HashCommit(Commit::Block(new_header())),
        Reply::Hash(hash(5)),
    ));
    script.push((
        Request::CreateBranch("b-05050505".to_owned(), commit(9)),
        Reply::Nothing(Ok(())),
    ));
    assert_eq!(run(create_block(), script), Ok((new_header(), commit(9))));
}

#[test]
fn block_that_is_not_valid() {
    let mut script = block_made();
    script.push(validators());
    script.push((
        Request::ApplyCommit(Commit::Block(new_header())),
        Reply::Nothing(Err(broken())),
    ));
    assert_eq!(
        run(create_block(), script),
        Err(Error::Message(
            "block commit cannot be created on top of the current commit sequence".to_owned()
        ))
    );
}

#[test]
fn block_on_a_branch_off_the_finalized_one() {
    let script = vec![
        locate("work", commit(8)),
        locate("finalized", commit(1)),
        base(commit(1), commit(8), commit(7)),
    ];
    assert_eq!(
        run(create_block(), script),
        Err(Error::Message(
            "branch work should be rebased on finalized".to_owned()
        ))
    );
}

#[test]
fn block_without_a_work_branch() {
    let mut script = block_start();
    script.truncate(7);
    script.push((
        Request::Checkout("work".to_owned()),
        Reply::Nothing(Err(missing())),
    ));
    assert_eq!(
        run(create_block(), script),
        Err(Error::Integrity(IntegrityError::new(
            "failed to checkout to the work branch: no such thing".to_owned()
        )))
    );
}

#[test]
fn block_needs_a_proof_and_validators() {
    assert!(rejects(
        advance(create_block(), block_start()),
        Reply::DecodedProof(Err(broken()))
    ));
    assert!(rejects(
        advance(create_block(), block_made()),
        Reply::ValidatorSet(Err(broken()))
    ));
}

fn extra_start() -> Vec<(Request, Reply)> {
    let mut script = vec![
        locate("work", commit(8)),
        locate("finalized", commit(1)),
        reserved(),
        base(commit(1), commit(8), commit(1)),
        read(),
    ];
    script.extend(last_header(4));
    script.push(start_verifier(4));
    script.extend(apply_all());
    script
}

fn create_extra() -> Next<CreateExtra, CommitHash> {
    repository().create_extra_agenda_transaction(&encoded("extra"))
}

#[test]
fn extra_transaction_on_top_of_work() {
    let new = Commit::ExtraAgendaTransaction(encoded("extra"));
    let mut script = extra_start();
    script.push(apply(new.clone()));
    script.extend(publish(new));
    assert_eq!(run(create_extra(), script), Ok(commit(9)));
}

#[test]
fn extra_transaction_that_is_not_valid() {
    let mut script = extra_start();
    script.push((
        Request::ApplyCommit(Commit::ExtraAgendaTransaction(encoded("extra"))),
        Reply::Nothing(Err(broken())),
    ));
    assert_eq!(
        run(create_extra(), script),
        Err(Error::Message(
            "extra-agenda transaction commit cannot be created on top of the current commit sequence"
                .to_owned()
        ))
    );
}

#[test]
fn extra_transaction_without_a_work_branch() {
    let new = Commit::ExtraAgendaTransaction(encoded("extra"));
    let mut script = extra_start();
    script.push(apply(new.clone()));
    script.extend(publish(new));
    script.truncate(script.len() - 2);
    script.push((
        Request::Checkout("work".to_owned()),
        Reply::Nothing(Err(missing())),
    ));
    assert_eq!(run(create_extra(), script), Err(Error::Host(missing())));
}

#[test]
fn extra_transaction_over_a_commit_that_is_not_valid() {
    let mut script = extra_start();
    script.pop();
    script.push((
        Request::ApplyCommit(Commit::Transaction(encoded("t2"))),
        Reply::Nothing(Err(broken())),
    ));
    assert_eq!(
        run(create_extra(), script),
        Err(Error::Message(format!(
            "verification error on commit {}: disk failure",
            "08".repeat(20)
        )))
    );
}

#[test]
fn transactions_and_commits_are_collected() {
    assert_eq!(
        collect_transactions(&commits()),
        vec![encoded("t1"), encoded("t2")]
    );
    assert_eq!(
        collect_commits(&commits()),
        vec![
            Commit::Transaction(encoded("t1")),
            Commit::Other(encoded("o")),
            Commit::Transaction(encoded("t2")),
        ]
    );
}
