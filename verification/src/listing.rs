//! Listing the agendas and the blocks that the next height can take.
use vstd::pervasive::unreached;
use vstd::prelude::*;

use crate::data::{BlockHeader, BlockHeight, Commit};
use crate::error::{Blame, Error};
use crate::hash::{CommitHash, Hash256};
use crate::host::{Reply, Request, RequestView};
use crate::plan::{
    ask_branches, ask_commit, ask_commits, ask_hash, begins, bind, done, follows, lemma_bind_after,
    Next, Operation, Plan,
};
use crate::query::{last_header_plan, LastHeader};
use crate::steps::{no_merge_base, no_merge_base_text};
use crate::text::has_prefix;
use crate::FINALIZED_BRANCH_NAME;

verus! {

/// What is listed.
#[derive(Debug, PartialEq, Eq, Clone, Copy, Structural)]
pub enum ListKind {
    Agendas,
    Blocks,
}

impl ListKind {
    /// What the names of the branches begin with.
    pub open spec fn prefix(self) -> Seq<char> {
        match self {
            ListKind::Agendas => "a-"@,
            ListKind::Blocks => "b-"@,
        }
    }

    /// Whether a commit is of the kind.
    pub open spec fn fits(self, commit: Commit) -> bool {
        match self {
            ListKind::Agendas => commit is Agenda,
            ListKind::Blocks => commit is Block,
        }
    }

    /// Whether a commit is of the kind and of the height after `height`.
    pub open spec fn acceptable(self, commit: Commit, height: BlockHeight) -> bool {
        match (self, commit) {
            (ListKind::Agendas, Commit::Agenda(agenda)) => agenda.height == height + 1,
            (ListKind::Blocks, Commit::Block(header)) => header.height == height + 1,
            _ => false,
        }
    }

    /// The request for the hash of what a commit of the kind holds.
    pub open spec fn hash_request(self, commit: Commit) -> RequestView {
        match commit {
            Commit::Agenda(agenda) => RequestView::HashAgenda(agenda),
            Commit::Block(header) => RequestView::HashHeader(header),
            _ => RequestView::HashCommit(commit),
        }
    }

    /// The commits of the kind and of the height after `height`, in their order.
    pub open spec fn select(
        self,
        commits: Seq<(Commit, CommitHash)>,
        height: BlockHeight,
    ) -> Seq<(Commit, CommitHash)> {
        commits.filter(|entry: (Commit, CommitHash)| self.acceptable(entry.0, height))
    }

    /// Whether one of some commits is of the kind.
    pub open spec fn occurs(self, commits: Seq<(Commit, CommitHash)>) -> bool {
        exists|i: int| 0 <= i < commits.len() && self.fits(#[trigger] commits[i].0)
    }

    fn has_kind(self, commits: &Vec<(Commit, CommitHash)>) -> (res: bool)
        ensures
            res == self.occurs(commits@),
    {
        let mut i: usize = 0;
        while i < commits.len()
            invariant
                i <= commits@.len(),
                forall|j: int| 0 <= j < i ==> !self.fits(#[trigger] commits@[j].0),
            decreases commits@.len() - i,
        {
            match (self, &commits[i].0) {
                (ListKind::Agendas, Commit::Agenda(_)) => {
                    return true;
                },
                (ListKind::Blocks, Commit::Block(_)) => {
                    return true;
                },
                _ => {},
            }
            i = i + 1;
        }
        false
    }

    fn collect(self, commits: Vec<(Commit, CommitHash)>, height: BlockHeight) -> (res: Vec<
        (Commit, CommitHash),
    >)
        requires
            height < u64::MAX || !self.occurs(commits@),
        ensures
            res@ == self.select(commits@, height),
    {
        let ghost pick = |entry: (Commit, CommitHash)| self.acceptable(entry.0, height);
        let mut res: Vec<(Commit, CommitHash)> = Vec::new();
        let mut i: usize = 0;
        proof {
            reveal(Seq::filter);
            assert(commits@.take(0) =~= Seq::empty());
        }
        while i < commits.len()
            invariant
                i <= commits@.len(),
                height < u64::MAX || !self.occurs(commits@),
                pick == (|entry: (Commit, CommitHash)| self.acceptable(entry.0, height)),
                res@ == commits@.take(i as int).filter(pick),
            decreases commits@.len() - i,
        {
            proof {
                reveal(Seq::filter);
                assert(commits@.take(i + 1).drop_last() =~= commits@.take(i as int));
                assert(self.fits(commits@[i as int].0) ==> self.occurs(commits@));
            }
            let taken = match (self, &commits[i].0) {
                (ListKind::Agendas, Commit::Agenda(agenda)) => agenda.height == height + 1,
                (ListKind::Blocks, Commit::Block(header)) => header.height == height + 1,
                _ => false,
            };
            if taken {
                res.push((commits[i].0.clone(), commits[i].1));
            }
            i = i + 1;
        }
        assert(commits@.take(i as int) =~= commits@);
        res
    }
}

/// The plan to list what one branch holds: nothing where the branch is not on top of the
/// `finalized` branch, else its commits of the kind and of the next height, with their hashes.
pub open spec fn branch_plan(
    kind: ListKind,
    last: CommitHash,
    name: Seq<char>,
    commit: CommitHash,
) -> Plan<Seq<(CommitHash, Hash256)>> {
    ask_commit(
        RequestView::FindMergeBase(last, commit),
        no_merge_base(name),
        |base: CommitHash|
            if base != last {
                done(Seq::empty())
            } else {
                branch_read(kind, last, commit)
            },
    )
}

pub open spec fn branch_read(kind: ListKind, last: CommitHash, commit: CommitHash) -> Plan<
    Seq<(CommitHash, Hash256)>,
> {
    ask_commits(
        RequestView::ReadCommits(last, commit),
        |commits: Seq<(Commit, CommitHash)>| branch_header(last_header_plan(), kind, commits),
    )
}

pub open spec fn branch_header(
    header: Plan<BlockHeader>,
    kind: ListKind,
    commits: Seq<(Commit, CommitHash)>,
) -> Plan<Seq<(CommitHash, Hash256)>> {
    bind(
        header,
        |header: BlockHeader|
            if header.height == u64::MAX && kind.occurs(commits) {
                Plan::Stuck
            } else {
                hash_from(kind, kind.select(commits, header.height), Seq::empty(), 0)
            },
    )
}

/// The hashes of the selected commits from position `i` on, one after another.
pub open spec fn hash_from(
    kind: ListKind,
    selected: Seq<(Commit, CommitHash)>,
    found: Seq<(CommitHash, Hash256)>,
    i: int,
) -> Plan<Seq<(CommitHash, Hash256)>>
    decreases selected.len() - i,
{
    if i < 0 || i >= selected.len() {
        done(found)
    } else {
        ask_hash(
            kind.hash_request(selected[i].0),
            |hash: Hash256| hash_from(kind, selected, found.push((selected[i].1, hash)), i + 1),
        )
    }
}

#[allow(inconsistent_fields)]
enum ListBranchStage {
    Base { name: String, commit: CommitHash },
    Read { commit: Ghost<CommitHash> },
    Header { inner: LastHeader, commits: Vec<(Commit, CommitHash)> },
    Hash {
        selected: Vec<(Commit, CommitHash)>,
        found: Vec<(CommitHash, Hash256)>,
        at: usize,
    },
}

/// Listing what one branch holds.
pub struct ListBranch {
    kind: ListKind,
    last: CommitHash,
    stage: ListBranchStage,
}

impl ListBranch {
    /// The first request, and the operation as it waits for the reply.
    fn first(kind: ListKind, last: CommitHash, name: String, commit: CommitHash) -> (res: (
        Request,
        ListBranch,
    ))
        ensures
            branch_plan(kind, last, name@, commit) is Ask,
            branch_plan(kind, last, name@, commit).request() == res.0@,
            res.1.plan() == branch_plan(kind, last, name@, commit),
    {
        (
            Request::FindMergeBase(last, commit),
            ListBranch { kind, last, stage: ListBranchStage::Base { name, commit } },
        )
    }

    closed spec fn rest(self) -> Plan<Seq<(CommitHash, Hash256)>> {
        match self.stage {
            ListBranchStage::Base { name, commit } => branch_plan(
                self.kind,
                self.last,
                name@,
                commit,
            ),
            ListBranchStage::Read { commit } => branch_read(self.kind, self.last, commit@),
            ListBranchStage::Header { inner, commits } => if inner.plan() is Ask {
                branch_header(inner.plan(), self.kind, commits@)
            } else {
                Plan::Stuck
            },
            ListBranchStage::Hash { selected, found, at } => hash_from(
                self.kind,
                selected@,
                found@,
                at as int,
            ),
        }
    }

    /// Goes on with the selected commit at a position.
    fn proceed(
        kind: ListKind,
        last: CommitHash,
        selected: Vec<(Commit, CommitHash)>,
        found: Vec<(CommitHash, Hash256)>,
        at: usize,
    ) -> (next: Next<ListBranch, Vec<(CommitHash, Hash256)>>)
        ensures
            follows(
                next,
                hash_from(kind, selected@, found@, at as int),
                |operation: ListBranch| operation.rest(),
                |output: Vec<(CommitHash, Hash256)>| output@,
            ),
    {
        if at < selected.len() {
            let request = match &selected[at].0 {
                Commit::Agenda(agenda) => Request::HashAgenda(agenda.clone()),
                Commit::Block(header) => Request::HashHeader(header.clone()),
                commit => Request::HashCommit(commit.clone()),
            };
            Next::Ask(
                request,
                ListBranch { kind, last, stage: ListBranchStage::Hash { selected, found, at } },
            )
        } else {
            Next::Done(Ok(found))
        }
    }
}

impl Operation for ListBranch {
    type Output = Vec<(CommitHash, Hash256)>;

    type Value = Seq<(CommitHash, Hash256)>;

    open spec fn value(output: Vec<(CommitHash, Hash256)>) -> Seq<(CommitHash, Hash256)> {
        output@
    }

    closed spec fn plan(self) -> Plan<Seq<(CommitHash, Hash256)>> {
        self.rest()
    }

    fn accepts(&self, reply: &Reply) -> (res: bool) {
        broadcast use lemma_bind_after;

        match (&self.stage, reply) {
            (ListBranchStage::Base { .. }, Reply::Commit(_)) => true,
            (ListBranchStage::Read { .. }, Reply::Commits(_)) => true,
            (
                ListBranchStage::Header { inner, commits },
                Reply::Decoded(Ok(Commit::Block(header))),
            ) => {
                let fits = inner.accepts(reply);
                proof {
                    inner.lemma_decoded(*reply);
                }
                fits && (header.height < u64::MAX || !self.kind.has_kind(commits))
            },
            (ListBranchStage::Header { inner, .. }, _) => {
                proof {
                    inner.lemma_decoded(*reply);
                }
                inner.accepts(reply)
            },
            (ListBranchStage::Hash { selected, found, at }, Reply::Hash(hash)) => {
                proof {
                    let more = found@.push((selected@[*at as int].1, *hash));
                    assert(!(hash_from(self.kind, selected@, more, *at as int + 1) is Stuck));
                }
                *at < selected.len()
            },
            _ => false,
        }
    }

    fn resume(self, reply: Reply) -> (next: Next<Self, Vec<(CommitHash, Hash256)>>) {
        broadcast use lemma_bind_after;

        let kind = self.kind;
        let last = self.last;
        match (self.stage, reply) {
            (ListBranchStage::Base { name: _, commit }, Reply::Commit(Ok(base))) => {
                if !base.same(&last) {
                    Next::Done(Ok(Vec::new()))
                } else {
                    Next::Ask(
                        Request::ReadCommits(last, commit),
                        ListBranch {
                            kind,
                            last,
                            stage: ListBranchStage::Read { commit: Ghost(commit) },
                        },
                    )
                }
            },
            (ListBranchStage::Base { name, .. }, Reply::Commit(Err(error))) => Next::Done(
                Err(error.not_found(no_merge_base_text(name.as_str()))),
            ),
            (ListBranchStage::Read { .. }, Reply::Commits(Ok(commits))) => {
                let (request, inner) = LastHeader::first();
                Next::Ask(
                    request,
                    ListBranch { kind, last, stage: ListBranchStage::Header { inner, commits } },
                )
            },
            (ListBranchStage::Read { .. }, Reply::Commits(Err(error))) => Next::Done(
                Err(Error::Host(error)),
            ),
            (ListBranchStage::Header { inner, commits }, reply) => match inner.resume(reply) {
                Next::Ask(request, inner) => Next::Ask(
                    request,
                    ListBranch { kind, last, stage: ListBranchStage::Header { inner, commits } },
                ),
                Next::Done(Ok(header)) => {
                    let selected = kind.collect(commits, header.height);
                    ListBranch::proceed(kind, last, selected, Vec::new(), 0)
                },
                Next::Done(Err(error)) => Next::Done(Err(error)),
            },
            (ListBranchStage::Hash { selected, found, at }, Reply::Hash(hash)) => {
                if at < selected.len() {
                    let mut found = found;
                    found.push((selected[at].1, hash));
                    ListBranch::proceed(kind, last, selected, found, at + 1)
                } else {
                    unreached()
                }
            },
            _ => unreached(),
        }
    }
}

/// The plan to list the agendas, or the blocks, that the next height can take, over all branches
/// of the kind.
pub open spec fn list_plan(kind: ListKind) -> Plan<Seq<(CommitHash, Hash256)>> {
    ask_branches(
        RequestView::RetrieveLocalBranches,
        |branches: Seq<(String, CommitHash)>| list_last(kind, branches),
    )
}

pub open spec fn list_last(kind: ListKind, branches: Seq<(String, CommitHash)>) -> Plan<
    Seq<(CommitHash, Hash256)>,
> {
    ask_commit(
        RequestView::LocateBranch(FINALIZED_BRANCH_NAME@),
        Blame::Pass,
        |last: CommitHash| list_from(kind, branches, last, Seq::empty(), 0),
    )
}

/// The branches from position `i` on, one after another.
pub open spec fn list_from(
    kind: ListKind,
    branches: Seq<(String, CommitHash)>,
    last: CommitHash,
    found: Seq<(CommitHash, Hash256)>,
    i: int,
) -> Plan<Seq<(CommitHash, Hash256)>>
    decreases branches.len() - i, 2int,
{
    if i < 0 || i >= branches.len() {
        done(found)
    } else if !kind.prefix().is_prefix_of(branches[i].0@) {
        list_from(kind, branches, last, found, i + 1)
    } else {
        list_branch(
            branch_plan(kind, last, branches[i].0@, branches[i].1),
            kind,
            branches,
            last,
            found,
            i,
        )
    }
}

pub open spec fn list_branch(
    branch: Plan<Seq<(CommitHash, Hash256)>>,
    kind: ListKind,
    branches: Seq<(String, CommitHash)>,
    last: CommitHash,
    found: Seq<(CommitHash, Hash256)>,
    i: int,
) -> Plan<Seq<(CommitHash, Hash256)>>
    decreases branches.len() - i, 1int,
{
    if i < 0 || i >= branches.len() {
        Plan::Stuck
    } else {
        bind(branch, list_next(kind, branches, last, found, i))
    }
}

/// What follows once it is known what the branch at position `i` holds.
pub open spec fn list_next(
    kind: ListKind,
    branches: Seq<(String, CommitHash)>,
    last: CommitHash,
    found: Seq<(CommitHash, Hash256)>,
    i: int,
) -> spec_fn(Seq<(CommitHash, Hash256)>) -> Plan<Seq<(CommitHash, Hash256)>>
    decreases branches.len() - i, 0int,
{
    |more: Seq<(CommitHash, Hash256)>|
        if i < 0 || i >= branches.len() {
            Plan::Stuck
        } else {
            list_from(kind, branches, last, found + more, i + 1)
        }
}

/// The plan to list the branches from some position on is never without a continuation.
proof fn lemma_list_goes_on(
    kind: ListKind,
    branches: Seq<(String, CommitHash)>,
    last: CommitHash,
    found: Seq<(CommitHash, Hash256)>,
    i: int,
)
    requires
        0 <= i,
    ensures
        !(list_from(kind, branches, last, found, i) is Stuck),
    decreases branches.len() - i,
{
    if i < branches.len() {
        lemma_list_goes_on(kind, branches, last, found, i + 1);
        let branch = branch_plan(kind, last, branches[i].0@, branches[i].1);
        assert(list_branch(branch, kind, branches, last, found, i) is Ask);
    }
}

#[allow(inconsistent_fields)]
enum ListStage {
    Branches,
    Last { branches: Vec<(String, CommitHash)> },
    Branch {
        inner: ListBranch,
        branches: Vec<(String, CommitHash)>,
        last: CommitHash,
        found: Vec<(CommitHash, Hash256)>,
        at: usize,
    },
}

/// Listing the agendas, or the blocks, that the next height can take.
pub struct Listing {
    kind: ListKind,
    stage: ListStage,
}

impl Listing {
    pub fn start(kind: ListKind) -> (next: Next<Listing, Vec<(CommitHash, Hash256)>>)
        ensures
            begins(next, list_plan(kind)),
    {
        Next::Ask(Request::RetrieveLocalBranches, Listing { kind, stage: ListStage::Branches })
    }

    closed spec fn rest(self) -> Plan<Seq<(CommitHash, Hash256)>> {
        match self.stage {
            ListStage::Branches => list_plan(self.kind),
            ListStage::Last { branches } => list_last(self.kind, branches@),
            ListStage::Branch { inner, branches, last, found, at } => {
                if inner.plan() is Ask {
                    list_branch(inner.plan(), self.kind, branches@, last, found@, at as int)
                } else {
                    Plan::Stuck
                }
            },
        }
    }

    /// Goes on with the branch at a position.
    fn proceed(
        kind: ListKind,
        branches: Vec<(String, CommitHash)>,
        last: CommitHash,
        found: Vec<(CommitHash, Hash256)>,
        from: usize,
    ) -> (next: Next<Listing, Vec<(CommitHash, Hash256)>>)
        ensures
            follows(
                next,
                list_from(kind, branches@, last, found@, from as int),
                |operation: Listing| operation.rest(),
                |output: Vec<(CommitHash, Hash256)>| output@,
            ),
    {
        let prefix = match kind {
            ListKind::Agendas => "a-",
            ListKind::Blocks => "b-",
        };
        let mut at: usize = from;
        while at < branches.len() && !has_prefix(branches[at].0.as_str(), prefix)
            invariant
                prefix@ == kind.prefix(),
                list_from(kind, branches@, last, found@, at as int) == list_from(
                    kind,
                    branches@,
                    last,
                    found@,
                    from as int,
                ),
            decreases branches@.len() - at,
        {
            at = at + 1;
        }
        if at >= branches.len() {
            Next::Done(Ok(found))
        } else {
            proof {
                let branch = branch_plan(
                    kind,
                    last,
                    branches@[at as int].0@,
                    branches@[at as int].1,
                );
                assert(list_from(kind, branches@, last, found@, at as int) == list_branch(
                    branch,
                    kind,
                    branches@,
                    last,
                    found@,
                    at as int,
                ));
            }
            let (request, inner) = ListBranch::first(
                kind,
                last,
                branches[at].0.clone(),
                branches[at].1,
            );
            Next::Ask(
                request,
                Listing { kind, stage: ListStage::Branch { inner, branches, last, found, at } },
            )
        }
    }
}

impl Operation for Listing {
    type Output = Vec<(CommitHash, Hash256)>;

    type Value = Seq<(CommitHash, Hash256)>;

    open spec fn value(output: Vec<(CommitHash, Hash256)>) -> Seq<(CommitHash, Hash256)> {
        output@
    }

    closed spec fn plan(self) -> Plan<Seq<(CommitHash, Hash256)>> {
        self.rest()
    }

    fn accepts(&self, reply: &Reply) -> (res: bool) {
        broadcast use lemma_bind_after;

        match (&self.stage, reply) {
            (ListStage::Branches, Reply::Branches(_)) => true,
            (ListStage::Last { branches }, Reply::Commit(answer)) => {
                proof {
                    if let Ok(last) = answer {
                        lemma_list_goes_on(self.kind, branches@, *last, Seq::empty(), 0);
                    }
                }
                true
            },
            (ListStage::Branch { inner, branches, last, found, at }, _) => {
                proof {
                    if let Plan::Done(Ok(more)) = inner.plan().after(*reply) {
                        lemma_list_goes_on(
                            self.kind,
                            branches@,
                            *last,
                            found@ + more,
                            *at as int + 1,
                        );
                    }
                }
                inner.accepts(reply) && *at < branches.len()
            },
            _ => false,
        }
    }

    fn resume(self, reply: Reply) -> (next: Next<Self, Vec<(CommitHash, Hash256)>>) {
        broadcast use lemma_bind_after;

        let kind = self.kind;
        match (self.stage, reply) {
            (ListStage::Branches, Reply::Branches(Ok(branches))) => Next::Ask(
                Request::LocateBranch(FINALIZED_BRANCH_NAME.to_owned()),
                Listing { kind, stage: ListStage::Last { branches } },
            ),
            (ListStage::Branches, Reply::Branches(Err(error))) => Next::Done(
                Err(Error::Host(error)),
            ),
            (ListStage::Last { branches }, Reply::Commit(Ok(last))) => Listing::proceed(
                kind,
                branches,
                last,
                Vec::new(),
                0,
            ),
            (ListStage::Last { .. }, Reply::Commit(Err(error))) => Next::Done(
                Err(Error::Host(error)),
            ),
            (ListStage::Branch { inner, branches, last, found, at }, reply) => {
                match inner.resume(reply) {
                    Next::Ask(request, inner) => Next::Ask(
                        request,
                        Listing {
                            kind,
                            stage: ListStage::Branch { inner, branches, last, found, at },
                        },
                    ),
                    Next::Done(Ok(more)) => {
                        if at < branches.len() {
                            let ghost before = found@;
                            let mut found = found;
                            let mut more = more;
                            let ghost added = more@;
                            found.append(&mut more);
                            assert(found@ =~= before + added);
                            Listing::proceed(kind, branches, last, found, at + 1)
                        } else {
                            unreached()
                        }
                    },
                    Next::Done(Err(error)) => Next::Done(Err(error)),
                }
            },
            _ => unreached(),
        }
    }
}

} // verus!
