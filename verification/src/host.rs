//! What an operation asks of its host, and what the host replies.
//!
//! The host holds the repository itself and the rules of the chain. An operation makes one request
//! at a time and decides on the reply to it.
use vstd::prelude::*;

use crate::data::{
    Agenda, BlockHeader, Commit, FinalizationProof, LastFinalizationProof, ReservedState,
    SemanticCommit, Timestamp, Transaction, ValidatorSet,
};
use crate::error::HostError;
use crate::hash::{CommitHash, Hash256};

verus! {

/// One request of an operation.
#[derive(Debug, PartialEq, Eq)]
pub enum Request {
    /// The commit that the working tree is at.
    GetHead,
    /// The commit that a branch points to.
    LocateBranch(String),
    /// The names of all local branches.
    ListBranches,
    /// All local branches, with the commits that they point to.
    RetrieveLocalBranches,
    CreateBranch(String, CommitHash),
    MoveBranch(String, CommitHash),
    DeleteBranch(String),
    /// Put the working tree on a branch.
    Checkout(String),
    /// Drop every change of the working tree that is not committed.
    CheckoutClean,
    CreateTag(String, CommitHash),
    /// The last common ancestor of two commits.
    FindMergeBase(CommitHash, CommitHash),
    /// The commits after the first commit, up to and with the second, oldest first.
    ReadCommits(CommitHash, CommitHash),
    ReadSemanticCommit(CommitHash),
    /// Commit on top of the branch that is checked out.
    CreateSemanticCommit(SemanticCommit),
    /// The reserved state of the chain, as of the commit that the `finalized` branch points to.
    ReadReservedState,
    ListRemotes,
    RemoveRemote(String),
    /// Add the known peers and the mirrors as remotes.
    AddRemotes,
    FetchAll,
    ListRemoteTrackingBranches,
    /// Verify the branch that ends at a commit, and apply it where it is valid.
    Receive(CommitHash),
    /// The stored form of a commit.
    EncodeCommit(Commit, ReservedState),
    /// The commit of a stored form.
    DecodeCommit(SemanticCommit),
    /// The stored form of a finalization proof.
    EncodeProof(LastFinalizationProof),
    /// The finalization proof of a stored form.
    DecodeProof(SemanticCommit),
    /// Start to verify a sequence of commits on top of a finalized block.
    CreateVerifier(BlockHeader, ReservedState),
    /// Verify the next commit of the sequence.
    ApplyCommit(Commit),
    /// Verify that a proof finalizes the last block of the sequence.
    VerifyLastHeaderFinalization(FinalizationProof),
    HashAgenda(Agenda),
    HashHeader(BlockHeader),
    HashCommit(Commit),
    CalculateTransactionsHash(Vec<Transaction>),
    CalculateCommitMerkleRoot(Vec<Commit>),
    GetValidatorSet(ReservedState),
    /// The time of day.
    GetTimestamp,
}

/// A request, with names and lists as sequences.
pub enum RequestView {
    GetHead,
    LocateBranch(Seq<char>),
    ListBranches,
    RetrieveLocalBranches,
    CreateBranch(Seq<char>, CommitHash),
    MoveBranch(Seq<char>, CommitHash),
    DeleteBranch(Seq<char>),
    Checkout(Seq<char>),
    CheckoutClean,
    CreateTag(Seq<char>, CommitHash),
    FindMergeBase(CommitHash, CommitHash),
    ReadCommits(CommitHash, CommitHash),
    ReadSemanticCommit(CommitHash),
    CreateSemanticCommit(SemanticCommit),
    ReadReservedState,
    ListRemotes,
    RemoveRemote(Seq<char>),
    AddRemotes,
    FetchAll,
    ListRemoteTrackingBranches,
    Receive(CommitHash),
    EncodeCommit(Commit, ReservedState),
    DecodeCommit(SemanticCommit),
    EncodeProof(LastFinalizationProof),
    DecodeProof(SemanticCommit),
    CreateVerifier(BlockHeader, ReservedState),
    ApplyCommit(Commit),
    VerifyLastHeaderFinalization(FinalizationProof),
    HashAgenda(Agenda),
    HashHeader(BlockHeader),
    HashCommit(Commit),
    CalculateTransactionsHash(Seq<Transaction>),
    CalculateCommitMerkleRoot(Seq<Commit>),
    GetValidatorSet(ReservedState),
    GetTimestamp,
}

impl View for Request {
    type V = RequestView;

    open spec fn view(&self) -> RequestView {
        match *self {
            Request::GetHead => RequestView::GetHead,
            Request::LocateBranch(name) => RequestView::LocateBranch(name@),
            Request::ListBranches => RequestView::ListBranches,
            Request::RetrieveLocalBranches => RequestView::RetrieveLocalBranches,
            Request::CreateBranch(name, commit) => RequestView::CreateBranch(name@, commit),
            Request::MoveBranch(name, commit) => RequestView::MoveBranch(name@, commit),
            Request::DeleteBranch(name) => RequestView::DeleteBranch(name@),
            Request::Checkout(name) => RequestView::Checkout(name@),
            Request::CheckoutClean => RequestView::CheckoutClean,
            Request::CreateTag(name, commit) => RequestView::CreateTag(name@, commit),
            Request::FindMergeBase(a, b) => RequestView::FindMergeBase(a, b),
            Request::ReadCommits(from, to) => RequestView::ReadCommits(from, to),
            Request::ReadSemanticCommit(commit) => RequestView::ReadSemanticCommit(commit),
            Request::CreateSemanticCommit(stored) => RequestView::CreateSemanticCommit(stored),
            Request::ReadReservedState => RequestView::ReadReservedState,
            Request::ListRemotes => RequestView::ListRemotes,
            Request::RemoveRemote(name) => RequestView::RemoveRemote(name@),
            Request::AddRemotes => RequestView::AddRemotes,
            Request::FetchAll => RequestView::FetchAll,
            Request::ListRemoteTrackingBranches => RequestView::ListRemoteTrackingBranches,
            Request::Receive(commit) => RequestView::Receive(commit),
            Request::EncodeCommit(commit, state) => RequestView::EncodeCommit(commit, state),
            Request::DecodeCommit(stored) => RequestView::DecodeCommit(stored),
            Request::EncodeProof(proof) => RequestView::EncodeProof(proof),
            Request::DecodeProof(stored) => RequestView::DecodeProof(stored),
            Request::CreateVerifier(header, state) => RequestView::CreateVerifier(header, state),
            Request::ApplyCommit(commit) => RequestView::ApplyCommit(commit),
            Request::VerifyLastHeaderFinalization(proof) =>
                RequestView::VerifyLastHeaderFinalization(proof),
            Request::HashAgenda(agenda) => RequestView::HashAgenda(agenda),
            Request::HashHeader(header) => RequestView::HashHeader(header),
            Request::HashCommit(commit) => RequestView::HashCommit(commit),
            Request::CalculateTransactionsHash(transactions) =>
                RequestView::CalculateTransactionsHash(transactions@),
            Request::CalculateCommitMerkleRoot(commits) => RequestView::CalculateCommitMerkleRoot(
                commits@,
            ),
            Request::GetValidatorSet(state) => RequestView::GetValidatorSet(state),
            Request::GetTimestamp => RequestView::GetTimestamp,
        }
    }
}

impl RequestView {
    /// Whether the request changes the repository: its branches, tags, commits, remotes or working
    /// tree.
    pub open spec fn writes(self) -> bool {
        match self {
            RequestView::CreateBranch(_, _) => true,
            RequestView::MoveBranch(_, _) => true,
            RequestView::DeleteBranch(_) => true,
            RequestView::Checkout(_) => true,
            RequestView::CheckoutClean => true,
            RequestView::CreateTag(_, _) => true,
            RequestView::CreateSemanticCommit(_) => true,
            RequestView::RemoveRemote(_) => true,
            RequestView::AddRemotes => true,
            RequestView::FetchAll => true,
            RequestView::Receive(_) => true,
            _ => false,
        }
    }
}

/// The reply to a request.
#[derive(Debug, PartialEq, Eq)]
pub enum Reply {
    /// To a request that gives nothing back but that it was done, or that the chain rules agree.
    Nothing(Result<(), HostError>),
    /// A commit of the repository: located, found as merge base or created.
    Commit(Result<CommitHash, HostError>),
    /// The names of the local branches.
    Names(Result<Vec<String>, HostError>),
    /// The local branches with their commits.
    Branches(Result<Vec<(String, CommitHash)>, HostError>),
    /// Commits, decoded, each with its hash in the repository.
    Commits(Result<Vec<(Commit, CommitHash)>, HostError>),
    /// A stored form, read or encoded.
    SemanticCommit(Result<SemanticCommit, HostError>),
    Decoded(Result<Commit, HostError>),
    DecodedProof(Result<LastFinalizationProof, HostError>),
    ReservedState(Result<ReservedState, HostError>),
    ValidatorSet(Result<ValidatorSet, HostError>),
    Hash(Hash256),
    Timestamp(Timestamp),
    /// The remotes: name and address.
    Remotes(Result<Vec<(String, String)>, HostError>),
    /// The remote-tracking branches: remote, branch and commit.
    RemoteBranches(Result<Vec<(String, String, CommitHash)>, HostError>),
    /// Whether a branch was received, or the reason why it was rejected.
    Received(Result<Result<(), String>, HostError>),
}

} // verus!
