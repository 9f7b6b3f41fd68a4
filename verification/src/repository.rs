//! The distributed repository: where every operation starts.
use vstd::prelude::*;

use crate::agenda::{create_agenda_plan, CreateAgenda};
use crate::approve::{approve_plan, Approval, Approve};
use crate::block::{create_block_plan, CreateBlock, NewBlock};
use crate::clean::{clean_plan, Clean};
use crate::data::{
    Agenda, AgendaSignatures, BlockHeader, Commit, ExtraAgendaTransaction, FinalizationProof,
    MemberName, PublicKey, ReservedState, Timestamp,
};
use crate::error::Error;
use crate::extra::{create_extra_plan, CreateExtra};
use crate::fetch::{fetch_plan, get_pushed_plan, Fetch, GetPushed};
use crate::genesis::{genesis_plan, Genesis};
use crate::hash::{CommitHash, Hash256};
use crate::listing::{list_plan, ListKind, Listing};
use crate::mark::{mark_plan, Mark, MarkKind};
use crate::plan::{begins, Next};
use crate::query::{
    last_header_plan, read_commit_plan, reserved_state_plan, GetReservedState, LastHeader,
    ReadCommit,
};
use crate::sync::{sync_plan, Sync};

verus! {

/// How a repository is set up.
#[derive(Debug, Clone, PartialEq, Eq)]
pub struct Config {
    /// Public repositories, usually mirrors, for accesses that only read.
    ///
    /// They are added as remotes named `public_#`, and are not among the known peers.
    pub mirrors: Vec<String>,
    /// How far back a commit may be for a branch that forks from it to be looked at. A fork from
    /// farther back is taken for a long-range attack and ignored.
    ///
    /// Where it is zero, a fork is noticed only from the last finalized commit.
    pub long_range_attack_distance: usize,
}

/// A repository of the chain, held together with its configuration and the peers that it knows.
///
/// Each operation on it begins with a request to the host, and goes on with the replies.
pub struct DistributedRepository<T, P> {
    raw: T,
    config: Config,
    peers: P,
}

impl<T, P> DistributedRepository<T, P> {
    /// The repository that is underneath.
    pub closed spec fn underlying(self) -> T {
        self.raw
    }

    /// How the repository is set up.
    pub closed spec fn setup(self) -> Config {
        self.config
    }

    /// The peers that the repository knows.
    pub closed spec fn known_peers(self) -> P {
        self.peers
    }

    pub fn new(raw: T, config: Config, peers: P) -> (res: Result<Self, Error>)
        ensures
            res matches Ok(repository) && {
                &&& repository.underlying() == raw
                &&& repository.setup() == config
                &&& repository.known_peers() == peers
            },
    {
        Ok(Self { raw, config, peers })
    }

    pub fn get_raw_mut(&mut self) -> (res: &mut T)
        ensures
            *res == old(self).underlying(),
            final(self).underlying() == *final(res),
            final(self).setup() == old(self).setup(),
            final(self).known_peers() == old(self).known_peers(),
    {
        &mut self.raw
    }

    pub fn get_raw(&self) -> (res: &T)
        ensures
            *res == self.underlying(),
    {
        &self.raw
    }

    /// The repository that is underneath, to be changed, with the configuration and the known
    /// peers.
    pub fn get_parts_mut(&mut self) -> (res: (&mut T, &Config, &P))
        ensures
            *res.0 == old(self).underlying(),
            *res.1 == old(self).setup(),
            *res.2 == old(self).known_peers(),
            final(self).underlying() == *final(res.0),
            final(self).setup() == old(self).setup(),
            final(self).known_peers() == old(self).known_peers(),
    {
        (&mut self.raw, &self.config, &self.peers)
    }

    /// Starts the repository with the genesis block.
    ///
    /// It also makes the `fp` branch, with the proof of the genesis block on it, and the `work`
    /// branch at the same place as the `finalized` branch. It can be called on any commit.
    pub fn genesis(&mut self) -> (next: Next<Genesis, ()>)
        ensures
            begins(next, genesis_plan()),
            *final(self) == *old(self),
    {
        Genesis::start()
    }

    /// Gets the header of the block that the `finalized` branch is at.
    pub fn get_last_finalized_block_header(&self) -> (next: Next<LastHeader, BlockHeader>)
        ensures
            begins(next, last_header_plan()),
    {
        LastHeader::start()
    }

    /// Reads a commit.
    pub fn read_commit(&self, commit_hash: CommitHash) -> (next: Next<ReadCommit, Commit>)
        ensures
            begins(next, read_commit_plan(commit_hash)),
    {
        ReadCommit::start(commit_hash)
    }

    /// Gets the reserved state from the `finalized` branch.
    pub fn get_reserved_state(&self) -> (next: Next<GetReservedState, ReservedState>)
        ensures
            begins(next, reserved_state_plan()),
    {
        GetReservedState::start()
    }

    /// Cleans the repository of outdated branches and of remotes.
    ///
    /// Only the branches `finalized`, `work` and `fp` are left where `hard` is true. Where it is
    /// false, so are the `p` branch and the branches of agendas and of blocks, as far as they
    /// start from the last finalized commit and all their commits are valid.
    pub fn clean(&mut self, hard: bool) -> (next: Next<Clean, ()>)
        ensures
            begins(next, clean_plan(hard)),
            *final(self) == *old(self),
    {
        Clean::start(hard)
    }

    /// Broadcasts all the local messages. There is nothing yet that would be sent.
    pub fn broadcast(&mut self) -> (res: Result<(), Error>)
        ensures
            res == Ok::<(), Error>(()),
            *final(self) == *old(self),
    {
        Ok(())
    }

    /// Fetches new commits from the network, and applies those that are valid.
    pub fn fetch(&mut self) -> (next: Next<Fetch, ()>)
        ensures
            begins(next, fetch_plan()),
            *final(self) == *old(self),
    {
        Fetch::start()
    }

    /// Takes in a branch that was pushed, and applies it where it is valid. The reason is given
    /// where it is rejected.
    pub fn get_pushed(&mut self, commit_hash: CommitHash) -> (next: Next<
        GetPushed,
        Result<(), String>,
    >)
        ensures
            begins(next, get_pushed_plan(commit_hash)),
            *final(self) == *old(self),
    {
        GetPushed::start(commit_hash)
    }

    /// Moves the `finalized` branch to the block of a hash.
    ///
    /// Every commit on the way is verified, and the block by its finalization proof. It fails
    /// where the block does not descend from the commit that `finalized` is at. The `fp` branch is
    /// brought up to date too.
    pub fn sync(&mut self, block_hash: &Hash256, last_block_proof: &FinalizationProof) -> (next: Next<
        Sync,
        (),
    >)
        ensures
            begins(next, sync_plan(*block_hash, *last_block_proof)),
            *final(self) == *old(self),
    {
        Sync::start(*block_hash, last_block_proof.clone())
    }

    /// Lists the agendas that the next height can take, with their hashes.
    pub fn get_agendas(&self) -> (next: Next<Listing, Vec<(CommitHash, Hash256)>>)
        ensures
            begins(next, list_plan(ListKind::Agendas)),
    {
        Listing::start(ListKind::Agendas)
    }

    /// Lists the blocks that the next height can take, with their hashes.
    pub fn get_blocks(&self) -> (next: Next<Listing, Vec<(CommitHash, Hash256)>>)
        ensures
            begins(next, list_plan(ListKind::Blocks)),
    {
        Listing::start(ListKind::Blocks)
    }

    /// Records that an agenda was approved: once the agenda and the proof on top of it are
    /// verified, a commit with the proof takes the place of the branch of the agenda.
    pub fn approve(
        &mut self,
        agenda_hash: &Hash256,
        proof: AgendaSignatures,
        timestamp: Timestamp,
    ) -> (next: Next<Approve, CommitHash>)
        ensures
            begins(
                next,
                approve_plan((Approval { agenda_hash: *agenda_hash, proof, timestamp })),
            ),
            *final(self) == *old(self),
    {
        Approve::start(Approval { agenda_hash: *agenda_hash, proof, timestamp })
    }

    /// Creates an agenda on top of the `work` branch.
    pub fn create_agenda(&mut self, author: MemberName) -> (next: Next<
        CreateAgenda,
        (Agenda, CommitHash),
    >)
        ensures
            begins(next, create_agenda_plan(author)),
            *final(self) == *old(self),
    {
        CreateAgenda::start(author)
    }

    /// Puts a vote on an agenda.
    pub fn vote(&mut self, commit_hash: CommitHash) -> (next: Next<Mark, ()>)
        ensures
            begins(next, mark_plan(MarkKind::Vote, commit_hash)),
            *final(self) == *old(self),
    {
        Mark::start(MarkKind::Vote, commit_hash)
    }

    /// Puts a veto on a block.
    pub fn veto(&mut self, commit_hash: CommitHash) -> (next: Next<Mark, ()>)
        ensures
            begins(next, mark_plan(MarkKind::Veto, commit_hash)),
            *final(self) == *old(self),
    {
        Mark::start(MarkKind::Veto, commit_hash)
    }

    /// Creates a block on top of the `work` branch. `version` is that of the protocol.
    pub fn create_block(&mut self, author: PublicKey, version: String) -> (next: Next<
        CreateBlock,
        (BlockHeader, CommitHash),
    >)
        ensures
            begins(next, create_block_plan((NewBlock { author, version }))),
            *final(self) == *old(self),
    {
        CreateBlock::start(NewBlock { author, version })
    }

    /// Creates an extra-agenda transaction on top of the `work` branch.
    pub fn create_extra_agenda_transaction(&mut self, transaction: &ExtraAgendaTransaction) -> (next:
        Next<CreateExtra, CommitHash>)
        ensures
            begins(next, create_extra_plan(*transaction)),
            *final(self) == *old(self),
    {
        CreateExtra::start(transaction.clone())
    }
}

} // verus!
