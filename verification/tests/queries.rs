use simperby_repository::data::{
    BlockHeader, Commit, Encoded, GenesisInfo, LastFinalizationProof, ReservedState,
};
use simperby_repository::error::HostError;
use simperby_repository::hash::Hash256;
use simperby_repository::host::{Reply, Request};
use simperby_repository::mark::MarkKind;
use simperby_repository::plan::{Next, Operation};
use simperby_repository::{CommitHash, Config, DistributedRepository, Error, IntegrityError};

fn commit(byte: u8) -> CommitHash {
    CommitHash { hash: [byte; 20] }
}

fn encoded(text: &str) -> Encoded {
    Encoded {
        text: text.to_owned(),
    }
}

fn header(height: u64) -> BlockHeader {
    BlockHeader {
        author: encoded("author"),
        prev_block_finalization_proof: encoded("previous proof"),
        previous_hash: Hash256::zero(),
        height,
        timestamp: 7,
        commit_merkle_root: Hash256::zero(),
        repository_merkle_root: Hash256::zero(),
        validator_set: encoded("validators"),
        version: "0.1.0".to_owned(),
    }
}

fn state() -> ReservedState {
    ReservedState {
        genesis_info: GenesisInfo {
            header: header(0),
            genesis_proof: encoded("genesis proof"),
        },
        rest: encoded("rest"),
    }
}

fn missing() -> HostError {
    HostError {
        not_found: true,
        text: "no such thing".to_owned(),
    }
}

fn broken() -> HostError {
    HostError {
        not_found: false,
        text: "disk failure".to_owned(),
    }
}

fn repository() -> DistributedRepository<&'static str, u8> {
    let config = Config {
        mirrors: vec!["https://example.com".to_owned()],
        long_range_attack_distance: 3,
    };
    match DistributedRepository::new("raw", config, 9u8) {
        Ok(repository) => repository,
        Err(_) => panic!("a repository can always be made"),
    }
}

fn run<S: Operation>(
    start: Next<S, S::Output>,
    script: Vec<(Request, Reply)>,
) -> Result<S::Output, Error> {
    let mut next = start;
    for (expected, reply) in script {
        next = match next {
            Next::Ask(request, operation) => {
                assert_eq!(request, expected);
                assert!(operation.accepts(&reply));
                operation.resume(reply)
            }
            Next::Done(_) => panic!("ended before {:?}", expected),
        };
    }
    match next {
        Next::Ask(request, _) => panic!("not at its end: {:?}", request),
        Next::Done(result) => result,
    }
}

fn rejects<S: Operation>(next: Next<S, S::Output>, reply: Reply) -> bool {
    match next {
        Next::Ask(_, operation) => !operation.accepts(&reply),
        Next::Done(_) => panic!("no reply is expected"),
    }
}

fn locate(name: &str) -> Request {
    Request::LocateBranch(name.to_owned())
}

#[test]
fn repository_holds_its_parts() {
    let mut repository = repository();
    assert_eq!(*repository.get_raw(), "raw");
    *repository.get_raw_mut() = "other";
    assert_eq!(*repository.get_raw(), "other");
    let (raw, config, peers) = repository.get_parts_mut();
    *raw = "third";
    assert_eq!(config.long_range_attack_distance, 3);
    assert_eq!(config.mirrors, vec!["https://example.com".to_owned()]);
    assert_eq!(*peers, 9);
    assert_eq!(*repository.get_raw(), "third");
    assert_eq!(repository.broadcast(), Ok(()));
}

#[test]
fn integrity_error_in_words() {
    let error = IntegrityError::new("no branch".to_owned());
    assert_eq!(error.to_string(), "repository integrity broken: no branch");
    assert_eq!(
        Error::Integrity(error).to_string(),
        "repository integrity broken: no branch"
    );
    assert_eq!(Error::Host(broken()).to_string(), "disk failure");
    assert_eq!(Error::Message("text".to_owned()).to_string(), "text");
}

#[test]
fn last_header() {
    let script = vec![
        (locate("finalized"), Reply::Commit(Ok(commit(1)))),
        (
            Request::ReadSemanticCommit(commit(1)),
            Reply::SemanticCommit(Ok(encoded("stored"))),
        ),
        (
            Request::DecodeCommit(encoded("stored")),
            Reply::Decoded(Ok(Commit::Block(header(4)))),
        ),
    ];
    assert_eq!(
        run(repository().get_last_finalized_block_header(), script),
        Ok(header(4))
    );
}

#[test]
fn last_header_not_on_a_block() {
    let script = vec![
        (locate("finalized"), Reply::Commit(Ok(commit(1)))),
        (
            Request::ReadSemanticCommit(commit(1)),
            Reply::SemanticCommit(Ok(encoded("stored"))),
        ),
        (
            Request::DecodeCommit(encoded("stored")),
            Reply::Decoded(Ok(Commit::Transaction(encoded("t")))),
        ),
    ];
    assert_eq!(
        run(repository().get_last_finalized_block_header(), script),
        Err(Error::Integrity(IntegrityError::new(
            "`finalized` branch is not on a block".to_owned()
        )))
    );
}

#[test]
fn last_header_hands_failures_on() {
    assert_eq!(
        run(
            repository().get_last_finalized_block_header(),
            vec![(locate("finalized"), Reply::Commit(Err(missing())))]
        ),
        Err(Error::Host(missing()))
    );
}

#[test]
fn read_commit_gives_what_is_stored() {
    let script = vec![
        (
            Request::ReadSemanticCommit(commit(2)),
            Reply::SemanticCommit(Ok(encoded("stored"))),
        ),
        (
            Request::DecodeCommit(encoded("stored")),
            Reply::Decoded(Ok(Commit::Other(encoded("any")))),
        ),
    ];
    assert_eq!(
        run(repository().read_commit(commit(2)), script),
        Ok(Commit::Other(encoded("any")))
    );
    let script = vec![
        (
            Request::ReadSemanticCommit(commit(2)),
            Reply::SemanticCommit(Ok(encoded("stored"))),
        ),
        (
            Request::DecodeCommit(encoded("stored")),
            Reply::Decoded(Err(broken())),
        ),
    ];
    assert_eq!(
        run(repository().read_commit(commit(2)), script),
        Err(Error::Host(broken()))
    );
}

#[test]
fn reserved_state() {
    assert_eq!(
        run(
            repository().get_reserved_state(),
            vec![(
                Request::ReadReservedState,
                Reply::ReservedState(Ok(state()))
            )]
        ),
        Ok(state())
    );
    assert!(rejects(
        repository().get_reserved_state(),
        Reply::Nothing(Ok(()))
    ));
}

fn genesis_script(work: Reply, fp: Reply) -> Vec<(Request, Reply)> {
    vec![
        (
            Request::ReadReservedState,
            Reply::ReservedState(Ok(state())),
        ),
        (
            Request::EncodeCommit(Commit::Block(header(0)), state()),
            Reply::SemanticCommit(Ok(encoded("genesis block"))),
        ),
        (Request::CheckoutClean, Reply::Nothing(Ok(()))),
        (Request::GetHead, Reply::Commit(Ok(commit(1)))),
        (
            Request::CreateBranch("finalized".to_owned(), commit(1)),
            Reply::Nothing(Err(broken())),
        ),
        (
            Request::Checkout("finalized".to_owned()),
            Reply::Nothing(Ok(())),
        ),
        (
            Request::CreateSemanticCommit(encoded("genesis block")),
            Reply::Commit(Ok(commit(2))),
        ),
        (
            Request::CreateBranch("work".to_owned(), commit(2)),
            work,
        ),
        (Request::CreateBranch("fp".to_owned(), commit(2)), fp),
        (Request::Checkout("fp".to_owned()), Reply::Nothing(Ok(()))),
        (
            Request::EncodeProof(LastFinalizationProof {
                height: 0,
                proof: encoded("genesis proof"),
            }),
            Reply::SemanticCommit(Ok(encoded("proof commit"))),
        ),
        (
            Request::CreateSemanticCommit(encoded("proof commit")),
            Reply::Commit(Ok(commit(3))),
        ),
    ]
}

#[test]
fn genesis_makes_the_three_branches() {
    let script = genesis_script(Reply::Nothing(Ok(())), Reply::Nothing(Ok(())));
    assert_eq!(run(repository().genesis(), script), Ok(()));
}

#[test]
fn genesis_goes_on_where_the_branches_are_there() {
    let script = genesis_script(Reply::Nothing(Err(broken())), Reply::Nothing(Err(broken())));
    assert_eq!(run(repository().genesis(), script), Ok(()));
}

#[test]
fn genesis_without_a_finalized_branch() {
    let mut script = genesis_script(Reply::Nothing(Ok(())), Reply::Nothing(Ok(())));
    script.truncate(5);
    script.push((
        Request::Checkout("finalized".to_owned()),
        Reply::Nothing(Err(missing())),
    ));
    assert_eq!(
        run(repository().genesis(), script),
        Err(Error::Integrity(IntegrityError::new(
            "failed to checkout to the finalized branch: no such thing".to_owned()
        )))
    );
}

#[test]
fn genesis_without_an_fp_branch() {
    let mut script = genesis_script(Reply::Nothing(Ok(())), Reply::Nothing(Ok(())));
    script.truncate(9);
    script.push((
        Request::Checkout("fp".to_owned()),
        Reply::Nothing(Err(missing())),
    ));
    assert_eq!(
        run(repository().genesis(), script),
        Err(Error::Integrity(IntegrityError::new(
            "failed to checkout to the fp branch: no such thing".to_owned()
        )))
    );
    let mut script = genesis_script(Reply::Nothing(Ok(())), Reply::Nothing(Ok(())));
    script.truncate(9);
    script.push((
        Request::Checkout("fp".to_owned()),
        Reply::Nothing(Err(broken())),
    ));
    assert_eq!(
        run(repository().genesis(), script),
        Err(Error::Host(broken()))
    );
}

fn mark_script(kind: MarkKind) -> Vec<(Request, Reply)> {
    let mut hash = Hash256::zero();
    hash.hash[0] = 0x12;
    let tag = match kind {
        MarkKind::Vote => "vote-12000000",
        MarkKind::Veto => "veto-12000000",
    };
    let content = match kind {
        MarkKind::Vote => Commit::Agenda(agenda(5)),
        MarkKind::Veto => Commit::Block(header(5)),
    };
    vec![
        (
            Request::ReadSemanticCommit(commit(6)),
            Reply::SemanticCommit(Ok(encoded("stored"))),
        ),
        (
            Request::DecodeCommit(encoded("stored")),
            Reply::Decoded(Ok(content.clone())),
        ),
        (Request::HashCommit(content), Reply::Hash(hash)),
        (
            Request::CreateTag(tag.to_owned(), commit(6)),
            Reply::Nothing(Ok(())),
        ),
    ]
}

fn agenda(height: u64) -> simperby_repository::data::Agenda {
    simperby_repository::data::Agenda {
        height,
        author: "member".to_owned(),
        timestamp: 1,
        transactions_hash: Hash256::zero(),
    }
}

#[test]
fn votes_and_vetoes() {
    assert_eq!(
        run(repository().vote(commit(6)), mark_script(MarkKind::Vote)),
        Ok(())
    );
    assert_eq!(
        run(repository().veto(commit(6)), mark_script(MarkKind::Veto)),
        Ok(())
    );
}

#[test]
fn votes_and_vetoes_on_the_wrong_kind() {
    let mut script = mark_script(MarkKind::Veto);
    script.truncate(2);
    assert_eq!(
        run(repository().vote(commit(6)), script),
        Err(Error::Message(format!(
            "commit {} is not an agenda commit",
            "06".repeat(20)
        )))
    );
    let mut script = mark_script(MarkKind::Vote);
    script.truncate(2);
    assert_eq!(
        run(repository().veto(commit(6)), script),
        Err(Error::Message(format!(
            "commit {} is not a block commit",
            "06".repeat(20)
        )))
    );
}

#[test]
fn vote_whose_tag_fails() {
    let mut script = mark_script(MarkKind::Vote);
    script[3].1 = Reply::Nothing(Err(broken()));
    assert_eq!(
        run(repository().vote(commit(6)), script),
        Err(Error::Host(broken()))
    );
}

#[test]
fn fetch_receives_every_branch() {
    let branches = vec![
        ("peer".to_owned(), "work".to_owned(), commit(1)),
        ("peer".to_owned(), "fp".to_owned(), commit(2)),
    ];
    let script = vec![
        (Request::AddRemotes, Reply::Nothing(Ok(()))),
        (Request::FetchAll, Reply::Nothing(Err(broken()))),
        (
            Request::ListRemoteTrackingBranches,
            Reply::RemoteBranches(Ok(branches)),
        ),
        (
            Request::Receive(commit(1)),
            Reply::Received(Ok(Err("not valid".to_owned()))),
        ),
        (Request::Receive(commit(2)), Reply::Received(Ok(Ok(())))),
    ];
    assert_eq!(run(repository().fetch(), script), Ok(()));
}

#[test]
fn fetch_stops_at_a_failure() {
    let script = vec![(Request::AddRemotes, Reply::Nothing(Err(broken())))];
    assert_eq!(
        run(repository().fetch(), script),
        Err(Error::Host(broken()))
    );
    let branches = vec![
        ("peer".to_owned(), "work".to_owned(), commit(1)),
        ("peer".to_owned(), "fp".to_owned(), commit(2)),
    ];
    let script = vec![
        (Request::AddRemotes, Reply::Nothing(Ok(()))),
        (Request::FetchAll, Reply::Nothing(Ok(()))),
        (
            Request::ListRemoteTrackingBranches,
            Reply::RemoteBranches(Ok(branches)),
        ),
        (Request::Receive(commit(1)), Reply::Received(Err(missing()))),
    ];
    assert_eq!(
        run(repository().fetch(), script),
        Err(Error::Host(missing()))
    );
}

#[test]
fn fetch_without_branches() {
    let script = vec![
        (Request::AddRemotes, Reply::Nothing(Ok(()))),
        (Request::FetchAll, Reply::Nothing(Ok(()))),
        (
            Request::ListRemoteTrackingBranches,
            Reply::RemoteBranches(Ok(vec![])),
        ),
    ];
    assert_eq!(run(repository().fetch(), script), Ok(()));
}

#[test]
fn pushed_branches() {
    assert_eq!(
        run(
            repository().get_pushed(commit(8)),
            vec![(Request::Receive(commit(8)), Reply::Received(Ok(Ok(()))))]
        ),
        Ok(Ok(()))
    );
    assert_eq!(
        run(
            repository().get_pushed(commit(8)),
            vec![(
                Request::Receive(commit(8)),
                Reply::Received(Ok(Err("not valid".to_owned())))
            )]
        ),
        Ok(Err("not valid".to_owned()))
    );
    assert_eq!(
        run(
            repository().get_pushed(commit(8)),
            vec![(Request::Receive(commit(8)), Reply::Received(Err(broken())))]
        ),
        Err(Error::Host(broken()))
    );
}
