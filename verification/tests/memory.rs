use simperby_repository::data::{
    BlockHeader, Commit, Encoded, GenesisInfo, LastFinalizationProof, ReservedState,
};
use simperby_repository::error::HostError;
use simperby_repository::hash::Hash256;
use simperby_repository::host::{Reply, Request};
use simperby_repository::plan::{Next, Operation};
use simperby_repository::{CommitHash, Config, DistributedRepository, Error};

fn encoded(text: &str) -> Encoded {
    Encoded {
        text: text.to_owned(),
    }
}

fn genesis_header() -> BlockHeader {
    BlockHeader {
        author: encoded("author"),
        prev_block_finalization_proof: encoded("no proof"),
        previous_hash: Hash256::zero(),
        height: 0,
        timestamp: 7,
        commit_merkle_root: Hash256::zero(),
        repository_merkle_root: Hash256::zero(),
        validator_set: encoded("validators"),
        version: "0.1.0".to_owned(),
    }
}

fn state() -> ReservedState {
    ReservedState {
        genesis_info: GenesisInfo {
            header: genesis_header(),
            genesis_proof: encoded("genesis proof"),
        },
        rest: encoded("rest"),
    }
}

fn repository() -> DistributedRepository<(), ()> {
    let config = Config {
        mirrors: vec![],
        long_range_attack_distance: 3,
    };
    match DistributedRepository::new((), config, ()) {
        Ok(repository) => repository,
        Err(_) => panic!("a repository can always be made"),
    }
}

fn missing() -> HostError {
    HostError {
        not_found: true,
        text: "no such thing".to_owned(),
    }
}

/// A host that holds its repository in memory, and whose chain takes every commit.
struct Memory {
    branches: Vec<(String, CommitHash)>,
    /// The way to each commit.
    paths: Vec<Vec<(Encoded, CommitHash)>>,
    head: String,
    /// What was encoded, each at the number that its stored form shows.
    stored: Vec<Commit>,
    stored_proofs: Vec<LastFinalizationProof>,
    hashed: Vec<Commit>,
    clock: i64,
}

impl Memory {
    /// A repository with one commit, on a branch of another name than those of the chain.
    fn new() -> Memory {
        let first = CommitHash { hash: [1; 20] };
        Memory {
            branches: vec![("main".to_owned(), first)],
            paths: vec![vec![(encoded("initial"), first)]],
            head: "main".to_owned(),
            stored: vec![],
            stored_proofs: vec![],
            hashed: vec![],
            clock: 100,
        }
    }

    fn tip(&self, name: &str) -> Option<CommitHash> {
        self.branches
            .iter()
            .find(|branch| branch.0 == name)
            .map(|branch| branch.1)
    }

    fn path(&self, commit: CommitHash) -> Vec<(Encoded, CommitHash)> {
        for path in &self.paths {
            if path[path.len() - 1].1 == commit {
                return path.clone();
            }
        }
        panic!("no commit {:?}", commit)
    }

    fn parent(&self, commit: CommitHash) -> CommitHash {
        let path = self.path(commit);
        path[path.len() - 2].1
    }

    fn descends(&self, from: CommitHash, to: CommitHash) -> bool {
        self.path(to).iter().any(|step| step.1 == from)
    }

    fn set(&mut self, name: &str, commit: CommitHash) {
        self.branches.retain(|branch| branch.0 != name);
        self.branches.push((name.to_owned(), commit));
    }

    fn decode(&self, stored: &Encoded) -> Result<Commit, HostError> {
        for (number, commit) in self.stored.iter().enumerate() {
            if stored.text == format!("commit {}", number) {
                return Ok(commit.clone());
            }
        }
        Err(missing())
    }

    fn decode_proof(&self, stored: &Encoded) -> Option<(u64, Encoded)> {
        for (number, recorded) in self.stored_proofs.iter().enumerate() {
            if stored.text == format!("proof {}", number) {
                return Some((recorded.height, recorded.proof.clone()));
            }
        }
        None
    }

    fn hash(&mut self, commit: &Commit) -> Hash256 {
        let at = match self.hashed.iter().position(|known| known == commit) {
            Some(at) => at,
            None => {
                self.hashed.push(commit.clone());
                self.hashed.len() - 1
            }
        };
        Hash256 {
            hash: [at as u8 + 1; 32],
        }
    }

    fn merge_base(&self, a: CommitHash, b: CommitHash) -> CommitHash {
        let (a, b) = (self.path(a), self.path(b));
        let mut base = a[0].1;
        for i in 0..a.len().min(b.len()) {
            if a[i].1 != b[i].1 {
                break;
            }
            base = a[i].1;
        }
        base
    }

    fn answer(&mut self, request: Request) -> Reply {
        match request {
            Request::GetHead => {
                let head = self.head.clone();
                Reply::Commit(self.tip(&head).ok_or(missing()))
            }
            Request::LocateBranch(name) => Reply::Commit(self.tip(&name).ok_or(missing())),
            Request::RetrieveLocalBranches => Reply::Branches(Ok(self.branches.clone())),
            Request::CreateBranch(name, commit) => {
                if self.tip(&name).is_some() {
                    Reply::Nothing(Err(missing()))
                } else {
                    self.set(&name, commit);
                    Reply::Nothing(Ok(()))
                }
            }
            Request::MoveBranch(name, commit) => {
                if self.tip(&name).is_none() {
                    Reply::Nothing(Err(missing()))
                } else {
                    self.set(&name, commit);
                    Reply::Nothing(Ok(()))
                }
            }
            Request::Checkout(name) => {
                if self.tip(&name).is_none() {
                    Reply::Nothing(Err(missing()))
                } else {
                    self.head = name;
                    Reply::Nothing(Ok(()))
                }
            }
            Request::CheckoutClean => Reply::Nothing(Ok(())),
            Request::FindMergeBase(a, b) => Reply::Commit(Ok(self.merge_base(a, b))),
            Request::ReadCommits(from, to) => {
                let base = self.path(self.merge_base(from, to)).len();
                let mut commits = vec![];
                for (stored, commit) in self.path(to).split_off(base) {
                    match self.decode(&stored) {
                        Ok(content) => commits.push((content, commit)),
                        Err(error) => return Reply::Commits(Err(error)),
                    }
                }
                Reply::Commits(Ok(commits))
            }
            Request::ReadSemanticCommit(commit) => {
                let path = self.path(commit);
                Reply::SemanticCommit(Ok(path[path.len() - 1].0.clone()))
            }
            Request::CreateSemanticCommit(stored) => {
                let head = self.head.clone();
                let mut path = match self.tip(&head) {
                    Some(parent) => self.path(parent),
                    None => return Reply::Commit(Err(missing())),
                };
                let commit = CommitHash {
                    hash: [self.paths.len() as u8 + 1; 20],
                };
                path.push((stored, commit));
                self.paths.push(path);
                self.set(&head, commit);
                Reply::Commit(Ok(commit))
            }
            Request::ReadReservedState => Reply::ReservedState(Ok(state())),
            Request::EncodeCommit(commit, _) => {
                self.stored.push(commit);
                Reply::SemanticCommit(Ok(encoded(&format!("commit {}", self.stored.len() - 1))))
            }
            Request::DecodeCommit(stored) => Reply::Decoded(self.decode(&stored)),
            Request::EncodeProof(recorded) => {
                self.stored_proofs.push(recorded);
                let number = self.stored_proofs.len() - 1;
                Reply::SemanticCommit(Ok(encoded(&format!("proof {}", number))))
            }
            Request::DecodeProof(stored) => match self.decode_proof(&stored) {
                Some((height, signatures)) => Reply::DecodedProof(Ok(LastFinalizationProof {
                    height,
                    proof: signatures,
                })),
                None => Reply::DecodedProof(Err(missing())),
            },
            Request::CreateVerifier(_, _) => Reply::Nothing(Ok(())),
            Request::ApplyCommit(_) => Reply::Nothing(Ok(())),
            Request::VerifyLastHeaderFinalization(_) => Reply::Nothing(Ok(())),
            Request::HashAgenda(agenda) => Reply::Hash(self.hash(&Commit::Agenda(agenda))),
            Request::HashHeader(header) => Reply::Hash(self.hash(&Commit::Block(header))),
            Request::HashCommit(commit) => Reply::Hash(self.hash(&commit)),
            Request::CalculateTransactionsHash(transactions) => Reply::Hash(Hash256 {
                hash: [transactions.len() as u8; 32],
            }),
            Request::CalculateCommitMerkleRoot(commits) => Reply::Hash(Hash256 {
                hash: [commits.len() as u8; 32],
            }),
            Request::GetValidatorSet(_) => Reply::ValidatorSet(Ok(encoded("validators"))),
            Request::GetTimestamp => {
                self.clock += 1;
                Reply::Timestamp(self.clock)
            }
            other => panic!("not answered here: {:?}", other),
        }
    }

    fn run<S: Operation>(&mut self, start: Next<S, S::Output>) -> Result<S::Output, Error> {
        let mut next = start;
        loop {
            next = match next {
                Next::Done(result) => return result,
                Next::Ask(request, operation) => {
                    let reply = self.answer(request);
                    assert!(operation.accepts(&reply));
                    operation.resume(reply)
                }
            };
        }
    }

    /// The proof in the last commit of `fp`, with its height.
    fn recorded(&self) -> Option<(u64, Encoded)> {
        let path = self.path(self.tip("fp")?);
        self.decode_proof(&path[path.len() - 1].0)
    }

    /// Whether `fp` is one commit after `finalized`.
    fn in_step(&self) -> bool {
        match (self.tip("fp"), self.tip("finalized")) {
            (Some(fp), Some(finalized)) => self.parent(fp) == finalized,
            _ => false,
        }
    }
}

fn begun() -> (Memory, DistributedRepository<(), ()>) {
    let mut memory = Memory::new();
    let mut repository = repository();
    assert_eq!(memory.run(repository.genesis()), Ok(()));
    (memory, repository)
}

#[test]
fn genesis_header_is_found_again() {
    let (mut memory, repository) = begun();
    let found = memory.run(repository.get_last_finalized_block_header());
    assert_eq!(found, Ok(genesis_header()));
    assert_eq!(memory.recorded(), Some((0, encoded("genesis proof"))));
    assert!(memory.in_step());
    assert_eq!(memory.tip("work"), memory.tip("finalized"));
}

#[test]
fn created_agenda_is_read_and_listed() {
    let (mut memory, mut repository) = begun();
    assert_eq!(memory.run(repository.get_agendas()), Ok(vec![]));
    let (agenda, commit) = match memory.run(repository.create_agenda("doyeon".to_owned())) {
        Ok(created) => created,
        Err(error) => panic!("{:?}", error),
    };
    assert_eq!(agenda.height, 1);
    assert_eq!(
        memory.run(repository.read_commit(commit)),
        Ok(Commit::Agenda(agenda.clone()))
    );
    let entry = (commit, memory.hash(&Commit::Agenda(agenda)));
    assert_eq!(memory.run(repository.get_agendas()), Ok(vec![entry]));
    assert_eq!(memory.run(repository.get_blocks()), Ok(vec![]));

    let (second, at) = match memory.run(repository.create_agenda("jeong".to_owned())) {
        Ok(created) => created,
        Err(error) => panic!("{:?}", error),
    };
    let other = (at, memory.hash(&Commit::Agenda(second)));
    let found = match memory.run(repository.get_agendas()) {
        Ok(found) => found,
        Err(error) => panic!("{:?}", error),
    };
    assert!(found.contains(&entry) && found.contains(&other));
    assert!(memory.in_step());
    assert_eq!(memory.recorded(), Some((0, encoded("genesis proof"))));
}

#[test]
fn created_extra_agenda_transaction_is_read() {
    let (mut memory, mut repository) = begun();
    let transaction = encoded("delegation");
    let commit = match memory.run(repository.create_extra_agenda_transaction(&transaction)) {
        Ok(commit) => commit,
        Err(error) => panic!("{:?}", error),
    };
    assert_eq!(memory.tip("work"), Some(commit));
    assert!(memory.in_step());
    assert_eq!(
        memory.run(repository.read_commit(commit)),
        Ok(Commit::ExtraAgendaTransaction(transaction))
    );
}

#[test]
fn created_block_is_read_listed_and_synchronized_to() {
    let (mut memory, mut repository) = begun();
    let before = memory.tip("finalized");
    assert_eq!(memory.run(repository.get_blocks()), Ok(vec![]));
    let start = repository.create_block(encoded("author"), "0.1.0".to_owned());
    let (header, block) = match memory.run(start) {
        Ok(created) => created,
        Err(error) => panic!("{:?}", error),
    };
    assert_eq!(header.height, 1);
    assert_eq!(
        header.prev_block_finalization_proof,
        encoded("genesis proof")
    );
    assert_eq!(
        header.previous_hash,
        memory.hash(&Commit::Block(genesis_header()))
    );
    assert_eq!(
        memory.run(repository.read_commit(block)),
        Ok(Commit::Block(header.clone()))
    );
    let hash = memory.hash(&Commit::Block(header.clone()));
    assert_eq!(memory.run(repository.get_blocks()), Ok(vec![(block, hash)]));

    let signatures = encoded("signatures");
    assert_eq!(memory.run(repository.sync(&hash, &signatures)), Ok(()));
    assert_eq!(memory.tip("finalized"), Some(block));
    assert_eq!(memory.tip("work"), Some(block));
    assert!(memory.in_step());
    assert_eq!(memory.recorded(), Some((1, signatures.clone())));
    assert!(before.map_or(false, |before| memory.descends(before, block)));
    assert_eq!(
        memory.run(repository.get_last_finalized_block_header()),
        Ok(header.clone())
    );

    // A second sync to the same block changes nothing, not even with another proof.
    assert_eq!(
        memory.run(repository.sync(&hash, &encoded("others"))),
        Ok(())
    );
    assert_eq!(memory.recorded(), Some((1, signatures.clone())));

    // The next block carries the proof of this one.
    let start = repository.create_block(encoded("author"), "0.1.0".to_owned());
    let (next, _) = match memory.run(start) {
        Ok(created) => created,
        Err(error) => panic!("{:?}", error),
    };
    assert_eq!(next.height, 2);
    assert_eq!(next.prev_block_finalization_proof, signatures);
    assert_eq!(next.previous_hash, hash);
}
