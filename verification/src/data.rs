//! The chain data that the operations read, pass on and put together.
//!
//! What an operation never looks into is held in its encoded form.
use vstd::prelude::*;

use crate::hash::Hash256;

verus! {

pub type MemberName = String;

pub type BlockHeight = u64;

pub type Timestamp = i64;

/// A value in its encoded form, which the operations carry unread.
#[derive(Debug, PartialEq, Eq)]
pub struct Encoded {
    pub text: String,
}

impl Clone for Encoded {
    fn clone(&self) -> (res: Self)
        ensures
            res == *self,
    {
        Encoded { text: self.text.clone() }
    }
}

pub type PublicKey = Encoded;

pub type FinalizationProof = Encoded;

/// The signatures of the members who approve of an agenda.
pub type AgendaSignatures = Encoded;

pub type ValidatorSet = Encoded;

pub type Transaction = Encoded;

pub type ExtraAgendaTransaction = Encoded;

/// A commit in the form in which the repository stores it.
pub type SemanticCommit = Encoded;

/// A proposal to take the transactions before it into the next block.
#[derive(Debug, PartialEq, Eq)]
pub struct Agenda {
    pub height: BlockHeight,
    pub author: MemberName,
    pub timestamp: Timestamp,
    pub transactions_hash: Hash256,
}

impl Clone for Agenda {
    fn clone(&self) -> (res: Self)
        ensures
            res == *self,
    {
        Agenda {
            height: self.height,
            author: self.author.clone(),
            timestamp: self.timestamp,
            transactions_hash: self.transactions_hash,
        }
    }
}

/// The proof that an agenda was approved.
#[derive(Debug, PartialEq, Eq)]
pub struct AgendaProof {
    pub height: BlockHeight,
    pub agenda_hash: Hash256,
    pub proof: AgendaSignatures,
    pub timestamp: Timestamp,
}

impl Clone for AgendaProof {
    fn clone(&self) -> (res: Self)
        ensures
            res == *self,
    {
        AgendaProof {
            height: self.height,
            agenda_hash: self.agenda_hash,
            proof: self.proof.clone(),
            timestamp: self.timestamp,
        }
    }
}

/// The header of a block.
#[derive(Debug, PartialEq, Eq)]
pub struct BlockHeader {
    pub author: PublicKey,
    pub prev_block_finalization_proof: FinalizationProof,
    pub previous_hash: Hash256,
    pub height: BlockHeight,
    pub timestamp: Timestamp,
    pub commit_merkle_root: Hash256,
    pub repository_merkle_root: Hash256,
    pub validator_set: ValidatorSet,
    pub version: String,
}

impl Clone for BlockHeader {
    fn clone(&self) -> (res: Self)
        ensures
            res == *self,
    {
        BlockHeader {
            author: self.author.clone(),
            prev_block_finalization_proof: self.prev_block_finalization_proof.clone(),
            previous_hash: self.previous_hash,
            height: self.height,
            timestamp: self.timestamp,
            commit_merkle_root: self.commit_merkle_root,
            repository_merkle_root: self.repository_merkle_root,
            validator_set: self.validator_set.clone(),
            version: self.version.clone(),
        }
    }
}

/// A commit of the chain.
#[derive(Debug, PartialEq, Eq)]
pub enum Commit {
    Block(BlockHeader),
    Transaction(Transaction),
    Agenda(Agenda),
    AgendaProof(AgendaProof),
    ExtraAgendaTransaction(ExtraAgendaTransaction),
    /// A commit of any other kind.
    Other(Encoded),
}

impl Clone for Commit {
    fn clone(&self) -> (res: Self)
        ensures
            res == *self,
    {
        match self {
            Commit::Block(header) => Commit::Block(header.clone()),
            Commit::Transaction(transaction) => Commit::Transaction(transaction.clone()),
            Commit::Agenda(agenda) => Commit::Agenda(agenda.clone()),
            Commit::AgendaProof(proof) => Commit::AgendaProof(proof.clone()),
            Commit::ExtraAgendaTransaction(transaction) => Commit::ExtraAgendaTransaction(
                transaction.clone(),
            ),
            Commit::Other(encoded) => Commit::Other(encoded.clone()),
        }
    }
}

/// The finalization proof of the last finalized block, with the height of that block.
#[derive(Debug, PartialEq, Eq)]
pub struct LastFinalizationProof {
    pub height: BlockHeight,
    pub proof: FinalizationProof,
}

/// What the chain started from.
#[derive(Debug, PartialEq, Eq)]
pub struct GenesisInfo {
    pub header: BlockHeader,
    pub genesis_proof: FinalizationProof,
}

impl Clone for GenesisInfo {
    fn clone(&self) -> (res: Self)
        ensures
            res == *self,
    {
        GenesisInfo { header: self.header.clone(), genesis_proof: self.genesis_proof.clone() }
    }
}

/// The reserved state of the chain: the genesis, and the rest unread.
#[derive(Debug, PartialEq, Eq)]
pub struct ReservedState {
    pub genesis_info: GenesisInfo,
    pub rest: Encoded,
}

impl Clone for ReservedState {
    fn clone(&self) -> (res: Self)
        ensures
            res == *self,
    {
        ReservedState { genesis_info: self.genesis_info.clone(), rest: self.rest.clone() }
    }
}

} // verus!
