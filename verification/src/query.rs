//! Operations that only read: one commit, the last finalized header, the reserved state.
use vstd::pervasive::unreached;
use vstd::prelude::*;

use crate::data::{BlockHeader, Commit, ReservedState, SemanticCommit};
use crate::error::{Blame, Error, IntegrityError};
use crate::hash::CommitHash;
use crate::host::{Reply, Request, RequestView};
use crate::plan::{
    ask_commit, ask_decoded, ask_reserved_state, ask_stored, begins, broken, done, Next, Operation,
    Plan,
};
use crate::FINALIZED_BRANCH_NAME;

verus! {

/// The plan to read a commit: its stored form, then what that holds.
pub open spec fn read_commit_plan(commit: CommitHash) -> Plan<Commit> {
    ask_stored(
        RequestView::ReadSemanticCommit(commit),
        |stored: SemanticCommit| read_commit_decode(stored),
    )
}

pub open spec fn read_commit_decode(stored: SemanticCommit) -> Plan<Commit> {
    ask_decoded(RequestView::DecodeCommit(stored), |commit: Commit| done(commit))
}

#[allow(inconsistent_fields)]
enum ReadCommitStage {
    Read(Ghost<CommitHash>),
    Decode(Ghost<SemanticCommit>),
}

/// Reading a commit.
pub struct ReadCommit {
    stage: ReadCommitStage,
}

impl ReadCommit {
    /// The first request, and the operation as it waits for the reply.
    pub fn first(commit: CommitHash) -> (res: (Request, ReadCommit))
        ensures
            read_commit_plan(commit) is Ask,
            read_commit_plan(commit).request() == res.0@,
            res.1.plan() == read_commit_plan(commit),
    {
        (
            Request::ReadSemanticCommit(commit),
            ReadCommit { stage: ReadCommitStage::Read(Ghost(commit)) },
        )
    }

    pub fn start(commit: CommitHash) -> (next: Next<ReadCommit, Commit>)
        ensures
            begins(next, read_commit_plan(commit)),
    {
        let (request, operation) = ReadCommit::first(commit);
        Next::Ask(request, operation)
    }
}

impl Operation for ReadCommit {
    type Output = Commit;

    type Value = Commit;

    open spec fn value(output: Commit) -> Commit {
        output
    }

    closed spec fn plan(self) -> Plan<Commit> {
        match self.stage {
            ReadCommitStage::Read(commit) => read_commit_plan(commit@),
            ReadCommitStage::Decode(stored) => read_commit_decode(stored@),
        }
    }

    fn accepts(&self, reply: &Reply) -> (res: bool) {
        match (&self.stage, reply) {
            (ReadCommitStage::Read(_), Reply::SemanticCommit(_)) => true,
            (ReadCommitStage::Decode(_), Reply::Decoded(_)) => true,
            _ => false,
        }
    }

    fn resume(self, reply: Reply) -> (next: Next<Self, Commit>) {
        match (self.stage, reply) {
            (ReadCommitStage::Read(_), Reply::SemanticCommit(Ok(stored))) => {
                let ghost of = stored;
                Next::Ask(
                    Request::DecodeCommit(stored),
                    ReadCommit { stage: ReadCommitStage::Decode(Ghost(of)) },
                )
            },
            (ReadCommitStage::Read(_), Reply::SemanticCommit(Err(error))) => Next::Done(
                Err(Error::Host(error)),
            ),
            (ReadCommitStage::Decode(_), Reply::Decoded(Ok(commit))) => Next::Done(Ok(commit)),
            (ReadCommitStage::Decode(_), Reply::Decoded(Err(error))) => Next::Done(
                Err(Error::Host(error)),
            ),
            _ => unreached(),
        }
    }
}

/// The plan to get the header of the last finalized block: the `finalized` branch must be on a
/// block.
pub open spec fn last_header_plan() -> Plan<BlockHeader> {
    ask_commit(
        RequestView::LocateBranch(FINALIZED_BRANCH_NAME@),
        Blame::Pass,
        |commit: CommitHash| last_header_read(commit),
    )
}

pub open spec fn last_header_read(commit: CommitHash) -> Plan<BlockHeader> {
    ask_stored(
        RequestView::ReadSemanticCommit(commit),
        |stored: SemanticCommit| last_header_decode(stored),
    )
}

pub open spec fn last_header_decode(stored: SemanticCommit) -> Plan<BlockHeader> {
    ask_decoded(RequestView::DecodeCommit(stored), |commit: Commit| header_of(commit))
}

pub open spec fn header_of(commit: Commit) -> Plan<BlockHeader> {
    match commit {
        Commit::Block(header) => done(header),
        _ => broken("`finalized` branch is not on a block"@),
    }
}

#[allow(inconsistent_fields)]
enum LastHeaderStage {
    Locate,
    Read(Ghost<CommitHash>),
    Decode(Ghost<SemanticCommit>),
}

/// Getting the header of the last finalized block.
pub struct LastHeader {
    stage: LastHeaderStage,
}

impl LastHeader {
    /// The first request, and the operation as it waits for the reply.
    pub fn first() -> (res: (Request, LastHeader))
        ensures
            last_header_plan() is Ask,
            last_header_plan().request() == res.0@,
            res.1.plan() == last_header_plan(),
    {
        (
            Request::LocateBranch(FINALIZED_BRANCH_NAME.to_owned()),
            LastHeader { stage: LastHeaderStage::Locate },
        )
    }

    pub fn start() -> (next: Next<LastHeader, BlockHeader>)
        ensures
            begins(next, last_header_plan()),
    {
        let (request, operation) = LastHeader::first();
        Next::Ask(request, operation)
    }
}

impl LastHeader {
    /// A header comes out of a block that was decoded, and of no other reply.
    pub proof fn lemma_decoded(self, reply: Reply)
        ensures
            match reply {
                Reply::Decoded(Ok(Commit::Block(header))) => self.plan().takes(reply)
                    ==> self.plan().after(reply) == done(header),
                _ => !(self.plan().after(reply) matches Plan::Done(Ok(_))),
            },
    {
    }
}

impl Operation for LastHeader {
    type Output = BlockHeader;

    type Value = BlockHeader;

    open spec fn value(output: BlockHeader) -> BlockHeader {
        output
    }

    closed spec fn plan(self) -> Plan<BlockHeader> {
        match self.stage {
            LastHeaderStage::Locate => last_header_plan(),
            LastHeaderStage::Read(commit) => last_header_read(commit@),
            LastHeaderStage::Decode(stored) => last_header_decode(stored@),
        }
    }

    fn accepts(&self, reply: &Reply) -> (res: bool) {
        match (&self.stage, reply) {
            (LastHeaderStage::Locate, Reply::Commit(_)) => true,
            (LastHeaderStage::Read(_), Reply::SemanticCommit(_)) => true,
            (LastHeaderStage::Decode(_), Reply::Decoded(_)) => true,
            _ => false,
        }
    }

    fn resume(self, reply: Reply) -> (next: Next<Self, BlockHeader>) {
        match (self.stage, reply) {
            (LastHeaderStage::Locate, Reply::Commit(Ok(commit))) => Next::Ask(
                Request::ReadSemanticCommit(commit),
                LastHeader { stage: LastHeaderStage::Read(Ghost(commit)) },
            ),
            (LastHeaderStage::Locate, Reply::Commit(Err(error))) => Next::Done(
                Err(Error::Host(error)),
            ),
            (LastHeaderStage::Read(_), Reply::SemanticCommit(Ok(stored))) => {
                let ghost of = stored;
                Next::Ask(
                    Request::DecodeCommit(stored),
                    LastHeader { stage: LastHeaderStage::Decode(Ghost(of)) },
                )
            },
            (LastHeaderStage::Read(_), Reply::SemanticCommit(Err(error))) => Next::Done(
                Err(Error::Host(error)),
            ),
            (LastHeaderStage::Decode(_), Reply::Decoded(Ok(Commit::Block(header)))) => Next::Done(
                Ok(header),
            ),
            (LastHeaderStage::Decode(_), Reply::Decoded(Ok(_))) => Next::Done(
                Err(
                    Error::Integrity(
                        IntegrityError::new("`finalized` branch is not on a block".to_owned()),
                    ),
                ),
            ),
            (LastHeaderStage::Decode(_), Reply::Decoded(Err(error))) => Next::Done(
                Err(Error::Host(error)),
            ),
            _ => unreached(),
        }
    }
}

/// The plan to get the reserved state from the `finalized` branch.
pub open spec fn reserved_state_plan() -> Plan<ReservedState> {
    ask_reserved_state(|state: ReservedState| done(state))
}

/// Getting the reserved state from the `finalized` branch.
pub struct GetReservedState {
    waiting: (),
}

impl GetReservedState {
    pub fn start() -> (next: Next<GetReservedState, ReservedState>)
        ensures
            begins(next, reserved_state_plan()),
    {
        Next::Ask(Request::ReadReservedState, GetReservedState { waiting: () })
    }
}

impl Operation for GetReservedState {
    type Output = ReservedState;

    type Value = ReservedState;

    open spec fn value(output: ReservedState) -> ReservedState {
        output
    }

    closed spec fn plan(self) -> Plan<ReservedState> {
        reserved_state_plan()
    }

    fn accepts(&self, reply: &Reply) -> (res: bool) {
        match reply {
            Reply::ReservedState(_) => true,
            _ => false,
        }
    }

    fn resume(self, reply: Reply) -> (next: Next<Self, ReservedState>) {
        match reply {
            Reply::ReservedState(Ok(state)) => Next::Done(Ok(state)),
            Reply::ReservedState(Err(error)) => Next::Done(Err(Error::Host(error))),
            _ => unreached(),
        }
    }
}

} // verus!
