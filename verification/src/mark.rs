//! Marking commits with tags: votes for agendas and vetoes on blocks.
use vstd::pervasive::unreached;
use vstd::prelude::*;

use crate::data::Commit;
use crate::error::{Blame, Error};
use crate::hash::{veto_tag, vote_tag, CommitHash, Hash256};
use crate::host::{Reply, Request, RequestView};
use crate::plan::{
    ask_hash, ask_nothing, begins, bind, done, fail, lemma_bind_after, Next, Operation, Plan,
};
use crate::query::{read_commit_plan, ReadCommit};
use crate::text::concat3;

verus! {

/// What a tag says of the commit that it is on.
#[derive(Debug, PartialEq, Eq, Clone, Copy, Structural)]
pub enum MarkKind {
    Vote,
    Veto,
}

impl MarkKind {
    /// Votes go to agendas, vetoes to blocks.
    pub open spec fn fits(self, commit: Commit) -> bool {
        match self {
            MarkKind::Vote => commit is Agenda,
            MarkKind::Veto => commit is Block,
        }
    }

    /// The name of the tag.
    pub open spec fn tag(self, hash: Hash256) -> Seq<char> {
        match self {
            MarkKind::Vote => vote_tag(hash),
            MarkKind::Veto => veto_tag(hash),
        }
    }

    /// The message that a commit is of another kind.
    pub open spec fn misfit(self, commit: CommitHash) -> Seq<char> {
        "commit "@ + commit.text() + match self {
            MarkKind::Vote => " is not an agenda commit"@,
            MarkKind::Veto => " is not a block commit"@,
        }
    }
}

/// The plan to put a tag on a commit.
pub open spec fn mark_plan(kind: MarkKind, commit: CommitHash) -> Plan<()> {
    mark_read(read_commit_plan(commit), kind, commit)
}

pub open spec fn mark_read(read: Plan<Commit>, kind: MarkKind, commit: CommitHash) -> Plan<()> {
    bind(
        read,
        |content: Commit|
            if kind.fits(content) {
                mark_hash(kind, commit, content)
            } else {
                fail(kind.misfit(commit))
            },
    )
}

pub open spec fn mark_hash(kind: MarkKind, commit: CommitHash, content: Commit) -> Plan<()> {
    ask_hash(
        RequestView::HashCommit(content),
        |hash: Hash256| mark_tag(commit, kind.tag(hash)),
    )
}

pub open spec fn mark_tag(commit: CommitHash, tag: Seq<char>) -> Plan<()> {
    ask_nothing(RequestView::CreateTag(tag, commit), Blame::Pass, done(()))
}

#[allow(inconsistent_fields)]
enum MarkStage {
    Read { inner: ReadCommit },
    Hash { content: Ghost<Commit> },
    Tag { tag: Ghost<Seq<char>> },
}

/// Putting a tag on a commit.
pub struct Mark {
    kind: MarkKind,
    commit: CommitHash,
    stage: MarkStage,
}

impl Mark {
    pub fn start(kind: MarkKind, commit: CommitHash) -> (next: Next<Mark, ()>)
        ensures
            begins(next, mark_plan(kind, commit)),
    {
        let (request, inner) = ReadCommit::first(commit);
        Next::Ask(request, Mark { kind, commit, stage: MarkStage::Read { inner } })
    }
}

impl Operation for Mark {
    type Output = ();

    type Value = ();

    open spec fn value(output: ()) -> () {
        output
    }

    closed spec fn plan(self) -> Plan<()> {
        match self.stage {
            MarkStage::Read { inner } => if inner.plan() is Ask {
                mark_read(inner.plan(), self.kind, self.commit)
            } else {
                Plan::Stuck
            },
            MarkStage::Hash { content } => mark_hash(self.kind, self.commit, content@),
            MarkStage::Tag { tag } => mark_tag(self.commit, tag@),
        }
    }

    fn accepts(&self, reply: &Reply) -> (res: bool) {
        broadcast use lemma_bind_after;

        match (&self.stage, reply) {
            (MarkStage::Read { inner }, _) => inner.accepts(reply),
            (MarkStage::Hash { .. }, Reply::Hash(_)) => true,
            (MarkStage::Tag { .. }, Reply::Nothing(_)) => true,
            _ => false,
        }
    }

    fn resume(self, reply: Reply) -> (next: Next<Self, ()>) {
        broadcast use lemma_bind_after;

        let kind = self.kind;
        let commit = self.commit;
        match (self.stage, reply) {
            (MarkStage::Read { inner }, reply) => match inner.resume(reply) {
                Next::Ask(request, inner) => Next::Ask(
                    request,
                    Mark { kind, commit, stage: MarkStage::Read { inner } },
                ),
                Next::Done(Ok(content)) => {
                    let fits = match (&kind, &content) {
                        (MarkKind::Vote, Commit::Agenda(_)) => true,
                        (MarkKind::Veto, Commit::Block(_)) => true,
                        _ => false,
                    };
                    if fits {
                        let ghost of = content;
                        Next::Ask(
                            Request::HashCommit(content),
                            Mark { kind, commit, stage: MarkStage::Hash { content: Ghost(of) } },
                        )
                    } else {
                        let text = commit.to_string();
                        let end = match kind {
                            MarkKind::Vote => " is not an agenda commit",
                            MarkKind::Veto => " is not a block commit",
                        };
                        Next::Done(Err(Error::Message(concat3("commit ", text.as_str(), end))))
                    }
                },
                Next::Done(Err(error)) => Next::Done(Err(error)),
            },
            (MarkStage::Hash { .. }, Reply::Hash(hash)) => {
                let tag = match kind {
                    MarkKind::Vote => hash.vote_tag(),
                    MarkKind::Veto => hash.veto_tag(),
                };
                let ghost of = tag@;
                Next::Ask(
                    Request::CreateTag(tag, commit),
                    Mark { kind, commit, stage: MarkStage::Tag { tag: Ghost(of) } },
                )
            },
            (MarkStage::Tag { .. }, Reply::Nothing(Ok(()))) => Next::Done(Ok(())),
            (MarkStage::Tag { .. }, Reply::Nothing(Err(error))) => Next::Done(
                Err(Error::Host(error)),
            ),
            _ => unreached(),
        }
    }
}

} // verus!
