use simperby_repository::data::{BlockHeader, Commit, Encoded, GenesisInfo, ReservedState};
use simperby_repository::error::HostError;
use simperby_repository::hash::Hash256;
use simperby_repository::host::{Reply, Request};
use simperby_repository::plan::{Next, Operation};
use simperby_repository::{CommitHash, Config, DistributedRepository, Error, IntegrityError};

fn commit(byte: u8) -> CommitHash {
    CommitHash { hash: [byte; 20] }
}

fn encoded(text: &str) -> Encoded {
    Encoded {
        text: text.to_owned(),
    }
}

fn header(height: u64) -> BlockHeader {
    BlockHeader {
        author: encoded("author"),
        prev_block_finalization_proof: encoded("previous proof"),
        previous_hash: Hash256::zero(),
        height,
        timestamp: 7,
        commit_merkle_root: Hash256::zero(),
        repository_merkle_root: Hash256::zero(),
        validator_set: encoded("validators"),
        version: "0.1.0".to_owned(),
    }
}

fn state() -> ReservedState {
    ReservedState {
        genesis_info: GenesisInfo {
            header: header(0),
            genesis_proof: encoded("genesis proof"),
        },
        rest: encoded("rest"),
    }
}

fn missing() -> HostError {
    HostError {
        not_found: true,
        text: "no such thing".to_owned(),
    }
}

fn broken() -> HostError {
    HostError {
        not_found: false,
        text: "disk failure".to_owned(),
    }
}

fn repository() -> DistributedRepository<(), ()> {
    let config = Config {
        mirrors: vec![],
        long_range_attack_distance: 3,
    };
    match DistributedRepository::new((), config, ()) {
        Ok(repository) => repository,
        Err(_) => panic!("a repository can always be made"),
    }
}

fn advance<S: Operation>(
    start: Next<S, S::Output>,
    script: Vec<(Request, Reply)>,
) -> Next<S, S::Output> {
    let mut next = start;
    for (expected, reply) in script {
        next = match next {
            Next::Ask(request, operation) => {
                assert_eq!(request, expected);
                assert!(operation.accepts(&reply));
                operation.resume(reply)
            }
            Next::Done(_) => panic!("ended before {:?}", expected),
        };
    }
    next
}

fn run<S: Operation>(
    start: Next<S, S::Output>,
    script: Vec<(Request, Reply)>,
) -> Result<S::Output, Error> {
    match advance(start, script) {
        Next::Ask(request, _) => panic!("not at its end: {:?}", request),
        Next::Done(result) => result,
    }
}

fn rejects<S: Operation>(next: Next<S, S::Output>, reply: Reply) -> bool {
    match next {
        Next::Ask(_, operation) => !operation.accepts(&reply),
        Next::Done(_) => panic!("no reply is expected"),
    }
}

fn locate(name: &str, at: CommitHash) -> (Request, Reply) {
    (
        Request::LocateBranch(name.to_owned()),
        Reply::Commit(Ok(at)),
    )
}

fn base(a: CommitHash, b: CommitHash, at: CommitHash) -> (Request, Reply) {
    (Request::FindMergeBase(a, b), Reply::Commit(Ok(at)))
}

fn checkout(name: &str) -> (Request, Reply) {
    (Request::Checkout(name.to_owned()), Reply::Nothing(Ok(())))
}

fn reserved() -> (Request, Reply) {
    (
        Request::ReadReservedState,
        Reply::ReservedState(Ok(state())),
    )
}

fn start_verifier(height: u64) -> (Request, Reply) {
    (
        Request::CreateVerifier(header(height), state()),
        Reply::Nothing(Ok(())),
    )
}

/// The requests for the last finalized header.
fn last_header(height: u64) -> Vec<(Request, Reply)> {
    vec![
        locate("finalized", commit(1)),
        (
            Request::ReadSemanticCommit(commit(1)),
            Reply::SemanticCommit(Ok(encoded("last block"))),
        ),
        (
            Request::DecodeCommit(encoded("last block")),
            Reply::Decoded(Ok(Commit::Block(header(height)))),
        ),
    ]
}

fn branches(names: &[(&str, u8)]) -> Vec<(String, CommitHash)> {
    let mut res = vec![];
    for (name, byte) in names {
        res.push((name.to_string(), commit(*byte)));
    }
    res
}

fn clean_start(names: &[(&str, u8)]) -> Vec<(Request, Reply)> {
    let mut script = vec![
        locate("finalized", commit(1)),
        (
            Request::RetrieveLocalBranches,
            Reply::Branches(Ok(branches(names))),
        ),
    ];
    script.extend(last_header(4));
    script
}

fn delete(name: &str) -> (Request, Reply) {
    (
        Request::DeleteBranch(name.to_owned()),
        Reply::Nothing(Ok(())),
    )
}

fn no_remotes() -> (Request, Reply) {
    (Request::ListRemotes, Reply::Remotes(Ok(vec![])))
}

/// The requests that look at a branch with one commit.
fn judge(name: &str, tip: u8, verdict: Reply) -> Vec<(Request, Reply)> {
    vec![
        base(commit(tip), commit(1), commit(1)),
        checkout(name),
        reserved(),
        (
            Request::ReadCommits(commit(1), commit(tip)),
            Reply::Commits(Ok(vec![(Commit::Transaction(encoded("t")), commit(tip))])),
        ),
        start_verifier(4),
        (
            Request::ApplyCommit(Commit::Transaction(encoded("t"))),
            verdict,
        ),
    ]
}

#[test]
fn hard_clean_leaves_the_permanent_branches() {
    let mut script = clean_start(&[
        ("a-01010101", 2),
        ("finalized", 1),
        ("fp", 3),
        ("p", 4),
        ("work", 5),
        ("mine", 6),
    ]);
    script.push(delete("a-01010101"));
    script.push(delete("p"));
    script.push(delete("mine"));
    script.push((
        Request::ListRemotes,
        Reply::Remotes(Ok(vec![
            ("peer".to_owned(), "address".to_owned()),
            ("public_1".to_owned(), "mirror".to_owned()),
        ])),
    ));
    script.push((
        Request::RemoveRemote("peer".to_owned()),
        Reply::Nothing(Ok(())),
    ));
    script.push((
        Request::RemoveRemote("public_1".to_owned()),
        Reply::Nothing(Ok(())),
    ));
    assert_eq!(run(repository().clean(true), script), Ok(()));
}

#[test]
fn clean_keeps_sound_branches() {
    for name in ["p", "a-01010101", "b-01010101"] {
        let mut script = clean_start(&[(name, 2), ("work", 3)]);
        script.extend(judge(name, 2, Reply::Nothing(Ok(()))));
        script.push(no_remotes());
        assert_eq!(run(repository().clean(false), script), Ok(()));
    }
}

#[test]
fn clean_deletes_outdated_branches() {
    let mut script = clean_start(&[("a-01010101", 2)]);
    script.push(base(commit(2), commit(1), commit(7)));
    script.push(delete("a-01010101"));
    script.push(no_remotes());
    assert_eq!(run(repository().clean(false), script), Ok(()));
}

#[test]
fn clean_deletes_branches_that_are_not_valid() {
    let mut script = clean_start(&[("b-01010101", 2), ("p", 3)]);
    script.extend(judge("b-01010101", 2, Reply::Nothing(Err(broken()))));
    script.push(delete("b-01010101"));
    script.extend(judge("p", 3, Reply::Nothing(Ok(()))));
    script.push(no_remotes());
    assert_eq!(run(repository().clean(false), script), Ok(()));
}

#[test]
fn clean_deletes_branches_of_other_names() {
    let mut script = clean_start(&[("mine", 2), ("pp", 3), ("a", 4)]);
    script.push(delete("mine"));
    script.push(delete("pp"));
    script.push(delete("a"));
    script.push(no_remotes());
    assert_eq!(run(repository().clean(false), script), Ok(()));
}

#[test]
fn clean_without_a_finalized_branch() {
    let script = vec![(
        Request::LocateBranch("finalized".to_owned()),
        Reply::Commit(Err(missing())),
    )];
    assert_eq!(
        run(repository().clean(true), script),
        Err(Error::Integrity(IntegrityError::new(
            "cannot locate `finalized` branch".to_owned()
        )))
    );
}

#[test]
fn clean_without_a_common_ancestor() {
    let mut script = clean_start(&[("a-01010101", 2)]);
    script.push((
        Request::FindMergeBase(commit(2), commit(1)),
        Reply::Commit(Err(missing())),
    ));
    assert_eq!(
        run(repository().clean(false), script),
        Err(Error::Integrity(IntegrityError::new(
            "cannot find merge base for branch a-01010101 and finalized branch".to_owned()
        )))
    );
}

#[test]
fn clean_without_a_verifier() {
    let mut script = clean_start(&[("p", 2)]);
    script.extend(judge("p", 2, Reply::Nothing(Ok(()))));
    script.truncate(script.len() - 2);
    script.push((
        Request::CreateVerifier(header(4), state()),
        Reply::Nothing(Err(broken())),
    ));
    assert_eq!(
        run(repository().clean(false), script),
        Err(Error::Message(
            "failed to create a commit sequence verifier: disk failure".to_owned()
        ))
    );
}

#[test]
fn clean_stops_where_a_branch_cannot_be_deleted() {
    let mut script = clean_start(&[("p", 2), ("mine", 3)]);
    script.push((
        Request::DeleteBranch("p".to_owned()),
        Reply::Nothing(Err(broken())),
    ));
    assert_eq!(
        run(repository().clean(true), script),
        Err(Error::Host(broken()))
    );
}

#[test]
fn clean_does_not_take_other_replies() {
    let script = clean_start(&[("p", 2)]);
    assert!(rejects(
        advance(repository().clean(true), script),
        Reply::Commit(Ok(commit(1)))
    ));
}
