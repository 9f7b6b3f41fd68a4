use simperby_repository::data::{
    BlockHeader, Commit, Encoded, GenesisInfo, LastFinalizationProof, ReservedState,
};
use simperby_repository::error::HostError;
use simperby_repository::hash::Hash256;
use simperby_repository::host::{Reply, Request};
use simperby_repository::plan::{Next, Operation};
use simperby_repository::sync::Sync;
use simperby_repository::{CommitHash, Config, DistributedRepository, Error, IntegrityError};

fn commit(byte: u8) -> CommitHash {
    CommitHash { hash: [byte; 20] }
}

fn encoded(text: &str) -> Encoded {
    Encoded {
        text: text.to_owned(),
    }
}

fn header(height: u64) -> BlockHeader {
    BlockHeader {
        author: encoded("author"),
        prev_block_finalization_proof: encoded("previous proof"),
        previous_hash: Hash256::zero(),
        height,
        timestamp: 7,
        commit_merkle_root: Hash256::zero(),
        repository_merkle_root: Hash256::zero(),
        validator_set: encoded("validators"),
        version: "0.1.0".to_owned(),
    }
}

fn state() -> ReservedState {
    ReservedState {
        genesis_info: GenesisInfo {
            header: header(0),
            genesis_proof: encoded("genesis proof"),
        },
        rest: encoded("rest"),
    }
}

fn hash(byte: u8) -> Hash256 {
    Hash256 { hash: [byte; 32] }
}

fn missing() -> HostError {
    HostError {
        not_found: true,
        text: "no such thing".to_owned(),
    }
}

fn broken() -> HostError {
    HostError {
        not_found: false,
        text: "disk failure".to_owned(),
    }
}

fn repository() -> DistributedRepository<(), ()> {
    let config = Config {
        mirrors: vec![],
        long_range_attack_distance: 3,
    };
    match DistributedRepository::new((), config, ()) {
        Ok(repository) => repository,
        Err(_) => panic!("a repository can always be made"),
    }
}

fn advance<S: Operation>(
    start: Next<S, S::Output>,
    script: Vec<(Request, Reply)>,
) -> Next<S, S::Output> {
    let mut next = start;
    for (expected, reply) in script {
        next = match next {
            Next::Ask(request, operation) => {
                assert_eq!(request, expected);
                assert!(operation.accepts(&reply));
                operation.resume(reply)
            }
            Next::Done(_) => panic!("ended before {:?}", expected),
        };
    }
    next
}

fn run<S: Operation>(
    start: Next<S, S::Output>,
    script: Vec<(Request, Reply)>,
) -> Result<S::Output, Error> {
    match advance(start, script) {
        Next::Ask(request, _) => panic!("not at its end: {:?}", request),
        Next::Done(result) => result,
    }
}

fn rejects<S: Operation>(next: Next<S, S::Output>, reply: Reply) -> bool {
    match next {
        Next::Ask(_, operation) => !operation.accepts(&reply),
        Next::Done(_) => panic!("no reply is expected"),
    }
}

fn locate(name: &str, at: CommitHash) -> (Request, Reply) {
    (
        Request::LocateBranch(name.to_owned()),
        Reply::Commit(Ok(at)),
    )
}

fn base(a: CommitHash, b: CommitHash, at: CommitHash) -> (Request, Reply) {
    (Request::FindMergeBase(a, b), Reply::Commit(Ok(at)))
}

fn checkout(name: &str) -> (Request, Reply) {
    (Request::Checkout(name.to_owned()), Reply::Nothing(Ok(())))
}

fn apply(commit: Commit) -> (Request, Reply) {
    (Request::ApplyCommit(commit), Reply::Nothing(Ok(())))
}

fn reserved() -> (Request, Reply) {
    (
        Request::ReadReservedState,
        Reply::ReservedState(Ok(state())),
    )
}

fn start_verifier(height: u64) -> (Request, Reply) {
    (
        Request::CreateVerifier(header(height), state()),
        Reply::Nothing(Ok(())),
    )
}

/// The requests for the last finalized header.
fn last_header(height: u64) -> Vec<(Request, Reply)> {
    vec![
        locate("finalized", commit(1)),
        (
            Request::ReadSemanticCommit(commit(1)),
            Reply::SemanticCommit(Ok(encoded("last block"))),
        ),
        (
            Request::DecodeCommit(encoded("last block")),
            Reply::Decoded(Ok(Commit::Block(header(height)))),
        ),
    ]
}

/// The script of a sync up to the verification of the commits.
fn sync_start(commits: Vec<(Commit, CommitHash)>) -> Vec<(Request, Reply)> {
    let mut script = vec![
        locate("b-05050505", commit(9)),
        locate("finalized", commit(1)),
        locate("finalized", commit(1)),
        (
            Request::ReadCommits(commit(1), commit(9)),
            Reply::Commits(Ok(commits)),
        ),
    ];
    script.push(base(commit(1), commit(9), commit(1)));
    script.extend(last_header(4));
    script.push(reserved());
    script.push(start_verifier(4));
    script
}

fn commits() -> Vec<(Commit, CommitHash)> {
    vec![
        (Commit::Transaction(encoded("t")), commit(8)),
        (Commit::Block(header(5)), commit(9)),
    ]
}

fn moved(name: &str) -> (Request, Reply) {
    (
        Request::MoveBranch(name.to_owned(), commit(9)),
        Reply::Nothing(Ok(())),
    )
}

fn verified() -> Vec<(Request, Reply)> {
    let mut script = sync_start(commits());
    script.push(apply(Commit::Transaction(encoded("t"))));
    script.push(apply(Commit::Block(header(5))));
    script
}

fn proved() -> Vec<(Request, Reply)> {
    let mut script = verified();
    script.push((
        Request::VerifyLastHeaderFinalization(encoded("proof")),
        Reply::Nothing(Ok(())),
    ));
    script
}

fn start() -> Next<Sync, ()> {
    repository().sync(&hash(5), &encoded("proof"))
}

#[test]
fn sync_moves_both_branches_and_records_the_proof() {
    let mut script = proved();
    script.push((Request::CheckoutClean, Reply::Nothing(Ok(()))));
    script.push(moved("finalized"));
    script.push(moved("fp"));
    script.push(checkout("fp"));
    script.push((
        Request::EncodeProof(LastFinalizationProof {
            height: 5,
            proof: encoded("proof"),
        }),
        Reply::SemanticCommit(Ok(encoded("proof commit"))),
    ));
    script.push((
        Request::CreateSemanticCommit(encoded("proof commit")),
        Reply::Commit(Ok(commit(10))),
    ));
    assert_eq!(run(start(), script), Ok(()));
}

#[test]
fn sync_to_the_finalized_block_does_nothing() {
    let script = vec![
        locate("b-05050505", commit(1)),
        locate("finalized", commit(1)),
    ];
    assert_eq!(run(start(), script), Ok(()));
}

#[test]
fn sync_without_a_branch_of_the_block() {
    let script = vec![(
        Request::LocateBranch("b-05050505".to_owned()),
        Reply::Commit(Err(missing())),
    )];
    assert_eq!(run(start(), script), Err(Error::Host(missing())));
}

#[test]
fn sync_to_another_commit_than_a_block() {
    let mut script = sync_start(vec![(Commit::Transaction(encoded("t")), commit(9))]);
    script.truncate(4);
    assert_eq!(
        run(start(), script),
        Err(Error::Message(
            "the last commit is not a block commit".to_owned()
        ))
    );
}

#[test]
fn sync_to_no_descendant() {
    let mut script = sync_start(commits());
    script.truncate(4);
    script.push(base(commit(1), commit(9), commit(7)));
    assert_eq!(
        run(start(), script),
        Err(Error::Message(
            "block commit is not a descendant of the current finalized branch".to_owned()
        ))
    );
}

#[test]
fn sync_without_a_common_ancestor() {
    let mut script = sync_start(commits());
    script.truncate(4);
    script.push((
        Request::FindMergeBase(commit(1), commit(9)),
        Reply::Commit(Err(missing())),
    ));
    assert_eq!(
        run(start(), script),
        Err(Error::Integrity(IntegrityError::new(
            "cannot find merge base for branch b-05050505 and finalized branch".to_owned()
        )))
    );
    let mut script = sync_start(commits());
    script.truncate(4);
    script.push((
        Request::FindMergeBase(commit(1), commit(9)),
        Reply::Commit(Err(broken())),
    ));
    assert_eq!(run(start(), script), Err(Error::Host(broken())));
}

#[test]
fn sync_without_a_verifier() {
    let mut script = sync_start(commits());
    script.pop();
    script.push((
        Request::CreateVerifier(header(4), state()),
        Reply::Nothing(Err(broken())),
    ));
    assert_eq!(
        run(start(), script),
        Err(Error::Message(
            "failed to create a commit sequence verifier: disk failure".to_owned()
        ))
    );
}

#[test]
fn sync_over_a_commit_that_is_not_valid() {
    let mut script = verified();
    script.pop();
    script.push((
        Request::ApplyCommit(Commit::Block(header(5))),
        Reply::Nothing(Err(broken())),
    ));
    assert_eq!(
        run(start(), script),
        Err(Error::Message(format!(
            "verification error on commit {}: disk failure",
            "09".repeat(20)
        )))
    );
}

#[test]
fn sync_with_a_wrong_proof() {
    let mut script = verified();
    script.push((
        Request::VerifyLastHeaderFinalization(encoded("proof")),
        Reply::Nothing(Err(broken())),
    ));
    assert_eq!(
        run(start(), script),
        Err(Error::Message(
            "verification error on the last block header: disk failure".to_owned()
        ))
    );
}

#[test]
fn sync_without_an_fp_branch() {
    let mut script = proved();
    script.push((Request::CheckoutClean, Reply::Nothing(Ok(()))));
    script.push(moved("finalized"));
    script.push(moved("fp"));
    script.push((
        Request::Checkout("fp".to_owned()),
        Reply::Nothing(Err(missing())),
    ));
    assert_eq!(
        run(start(), script),
        Err(Error::Integrity(IntegrityError::new(
            "failed to checkout to the fp branch: no such thing".to_owned()
        )))
    );
}

#[test]
fn sync_to_a_block_that_was_passed() {
    let script = sync_start(vec![]).into_iter().take(4).collect();
    assert_eq!(
        run(start(), script),
        Err(Error::Message(
            "block commit is not a descendant of the current finalized branch".to_owned()
        ))
    );
}

#[test]
fn sync_does_not_take_other_replies() {
    assert!(rejects(start(), Reply::Nothing(Ok(()))));
    assert!(rejects(advance(start(), proved()), Reply::Hash(hash(1))));
}
