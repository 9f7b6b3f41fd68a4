//! What is created is listed.
use vstd::prelude::*;

use crate::agenda::create_agenda_plan;
use crate::block::{create_block_plan, NewBlock};
use crate::data::{Agenda, BlockHeader, Commit, MemberName};
use crate::error::ErrorView;
use crate::hash::{agenda_branch, block_branch, CommitHash, Hash256};
use crate::host::{Reply, RequestView};
use crate::laws::calls::lemma_last_header;
use crate::laws::created::{
    agenda_post, block_post, lemma_agenda, lemma_block, lemma_marked, marked,
};
use crate::laws::names::law_branch_names;
use crate::laws::world::{
    after_ok, always, group_runs, lemma_after_ok, lemma_always, lemma_bind_always,
    lemma_decodes, lemma_merge_base, lemma_surely, lists_branches, surely, Chain, Path, World,
};
use crate::listing::{
    branch_header, branch_plan, branch_read, hash_from, list_branch, list_from, list_last,
    list_next, list_plan, ListKind,
};
use crate::plan::Plan;
use crate::query::last_header_plan;
use crate::{FINALIZED_BRANCH_NAME, WORK_BRANCH_NAME};

verus! {

/// The commits after `finalized`, up to and with some commit.
pub open spec fn ahead_of(world: World, commit: CommitHash) -> Path {
    world.repo.between(world.repo.branches[FINALIZED_BRANCH_NAME@], commit)
}

/// Whether a commit is on top of the `finalized` branch.
pub open spec fn on_top(world: World, commit: CommitHash) -> bool {
    world.repo.descends(world.repo.branches[FINALIZED_BRANCH_NAME@], commit)
}

/// What the names of the branches of a kind begin with.
pub open spec fn beginning(kind: ListKind) -> Seq<char> {
    match kind {
        ListKind::Agendas => "a-"@,
        ListKind::Blocks => "b-"@,
    }
}

/// Whether a branch is of a kind, by its name.
pub open spec fn named_for(kind: ListKind, name: Seq<char>) -> bool {
    beginning(kind).is_prefix_of(name)
}

/// The agendas of a height among some commits, by their commits and hashes.
pub open spec fn agendas_of(
    chain: Chain,
    commits: Seq<(Commit, CommitHash)>,
    height: int,
) -> Seq<(CommitHash, Hash256)> {
    commits.filter(
        |entry: (Commit, CommitHash)| entry.0 is Agenda && entry.0->Agenda_0.height == height,
    ).map_values(
        |entry: (Commit, CommitHash)| (entry.1, (chain.hash_agenda)(entry.0->Agenda_0)),
    )
}

/// The blocks of a height among some commits, by their commits and hashes.
pub open spec fn blocks_of(
    chain: Chain,
    commits: Seq<(Commit, CommitHash)>,
    height: int,
) -> Seq<(CommitHash, Hash256)> {
    commits.filter(
        |entry: (Commit, CommitHash)| entry.0 is Block && entry.0->Block_0.height == height,
    ).map_values(
        |entry: (Commit, CommitHash)| (entry.1, (chain.hash_header)(entry.0->Block_0)),
    )
}

/// What a branch at some commit adds to a listing: its agendas, or its blocks, of the height after
/// the last one, where it is on top of `finalized`.
pub open spec fn branch_entries(world: World, kind: ListKind, commit: CommitHash) -> Seq<
    (CommitHash, Hash256),
> {
    let commits = world.chain.held(ahead_of(world, commit));
    let height = world.last_header()->0.height + 1;
    if !on_top(world, commit) {
        Seq::empty()
    } else {
        match kind {
            ListKind::Agendas => agendas_of(world.chain, commits, height),
            ListKind::Blocks => blocks_of(world.chain, commits, height),
        }
    }
}

/// What the branches before a position add to a listing, one after another.
pub open spec fn entries_up_to(
    world: World,
    kind: ListKind,
    branches: Seq<(String, CommitHash)>,
    n: int,
) -> Seq<(CommitHash, Hash256)>
    decreases n,
{
    if n <= 0 {
        Seq::empty()
    } else {
        let before = entries_up_to(world, kind, branches, n - 1);
        if named_for(kind, branches[n - 1].0@) {
            before + branch_entries(world, kind, branches[n - 1].1)
        } else {
            before
        }
    }
}

/// Whether a commit of a kind is among some.
pub open spec fn present(kind: ListKind, commits: Seq<(Commit, CommitHash)>) -> bool {
    exists|i: int|
        0 <= i < commits.len() && match kind {
            ListKind::Agendas => (#[trigger] commits[i]).0 is Agenda,
            ListKind::Blocks => commits[i].0 is Block,
        }
}

/// Whether a branch at some commit can be listed: it has an ancestor in common with `finalized`
/// and, where it is on top of it, its commits and the last header can be read, and there is a next
/// height.
pub open spec fn branch_ready(world: World, kind: ListKind, commit: CommitHash) -> bool {
    &&& exists|base: CommitHash| #[trigger]
        world.repo.merge_base(base, world.repo.branches[FINALIZED_BRANCH_NAME@], commit)
    &&& on_top(world, commit) ==> {
        &&& world.chain.readable(ahead_of(world, commit))
        &&& world.last_header() matches Some(header)
        &&& header.height < u64::MAX || !present(kind, world.chain.held(ahead_of(world, commit)))
    }
}

/// Whether every branch of a kind can be listed.
pub open spec fn list_ready(world: World, kind: ListKind) -> bool {
    &&& world.repo.branches.contains_key(FINALIZED_BRANCH_NAME@)
    &&& forall|name: Seq<char>| #[trigger]
        world.repo.branches.contains_key(name) && named_for(kind, name) ==> branch_ready(
            world,
            kind,
            world.repo.branches[name],
        )
}

/// Whether an entry is for a commit on the way to a branch: an agenda, or a block, of the height
/// after the last one, with its hash.
pub open spec fn entry_at(
    world: World,
    kind: ListKind,
    path: Path,
    j: int,
    entry: (CommitHash, Hash256),
) -> bool {
    let height = world.last_header()->0.height + 1;
    &&& 0 <= j < path.len()
    &&& path[j].1 == entry.0
    &&& match (kind, (world.chain.decode)(path[j].0)) {
        (ListKind::Agendas, Some(Commit::Agenda(agenda))) => {
            &&& agenda.height == height
            &&& entry.1 == (world.chain.hash_agenda)(agenda)
        },
        (ListKind::Blocks, Some(Commit::Block(header))) => {
            &&& header.height == height
            &&& entry.1 == (world.chain.hash_header)(header)
        },
        _ => false,
    }
}

/// Whether an entry is for a commit on the way from `finalized` to a branch of the kind.
pub open spec fn offered(world: World, kind: ListKind, entry: (CommitHash, Hash256)) -> bool {
    exists|name: Seq<char>, j: int|
        {
            &&& #[trigger] world.repo.branches.contains_key(name)
            &&& named_for(kind, name)
            &&& on_top(world, world.repo.branches[name])
            &&& #[trigger] entry_at(
                world,
                kind,
                ahead_of(world, world.repo.branches[name]),
                j,
                entry,
            )
        }
}

/// Whether a listing is the truth: it holds what the branches of the kind offer, and nothing else.
pub open spec fn listed(world: World, kind: ListKind, found: Seq<(CommitHash, Hash256)>) -> bool {
    &&& list_ready(world, kind)
    &&& forall|entry: (CommitHash, Hash256)| #[trigger]
        found.contains(entry) <==> offered(world, kind, entry)
}

spec fn branch_post(world: World, kind: ListKind, commit: CommitHash, faultless: bool) -> spec_fn(
    Result<Seq<(CommitHash, Hash256)>, ErrorView>,
    World,
) -> bool {
    |result: Result<Seq<(CommitHash, Hash256)>, ErrorView>, end: World|
        end == world && match result {
            Ok(found) => {
                &&& branch_ready(world, kind, commit)
                &&& found == branch_entries(world, kind, commit)
            },
            Err(_) => !faultless || !branch_ready(world, kind, commit),
        }
}

/// Two tests that agree on the elements of a sequence pick the same ones.
proof fn lemma_same_filter<A>(s: Seq<A>, p: spec_fn(A) -> bool, q: spec_fn(A) -> bool)
    requires
        forall|i: int| 0 <= i < s.len() ==> p(#[trigger] s[i]) == q(s[i]),
    ensures
        s.filter(p) == s.filter(q),
    decreases s.len(),
{
    reveal(Seq::filter);
    if s.len() > 0 {
        let rest = s.drop_last();
        assert forall|i: int| 0 <= i < rest.len() implies p(#[trigger] rest[i]) == q(rest[i]) by {
            assert(rest[i] == s[i]);
        }
        lemma_same_filter(rest, p, q);
    }
}

impl Chain {
    /// The hash of what a commit holds.
    pub open spec fn hash_of(self, commit: Commit) -> Hash256 {
        match commit {
            Commit::Agenda(agenda) => (self.hash_agenda)(agenda),
            Commit::Block(header) => (self.hash_header)(header),
            _ => (self.hash_commit)(commit),
        }
    }

    /// Commits, each with the hash of what it holds.
    pub open spec fn hashed(self, commits: Seq<(Commit, CommitHash)>) -> Seq<
        (CommitHash, Hash256),
    > {
        Seq::new(commits.len(), |i: int| (commits[i].1, self.hash_of(commits[i].0)))
    }
}

/// What is selected of some commits, with the hashes, is what a branch adds.
proof fn lemma_selected(
    chain: Chain,
    kind: ListKind,
    commits: Seq<(Commit, CommitHash)>,
    height: u64,
)
    ensures
        chain.hashed(kind.select(commits, height)) == match kind {
            ListKind::Agendas => agendas_of(chain, commits, height + 1),
            ListKind::Blocks => blocks_of(chain, commits, height + 1),
        },
{
    broadcast use vstd::seq_lib::group_filter_ensures;

    let old = |entry: (Commit, CommitHash)| kind.acceptable(entry.0, height);
    match kind {
        ListKind::Agendas => {
            let pick = |entry: (Commit, CommitHash)|
                entry.0 is Agenda && entry.0->Agenda_0.height == height + 1;
            lemma_same_filter(commits, old, pick);
            assert(chain.hashed(commits.filter(pick)) =~= agendas_of(chain, commits, height + 1));
        },
        ListKind::Blocks => {
            let pick = |entry: (Commit, CommitHash)|
                entry.0 is Block && entry.0->Block_0.height == height + 1;
            lemma_same_filter(commits, old, pick);
            assert(chain.hashed(commits.filter(pick)) =~= blocks_of(chain, commits, height + 1));
        },
    }
    assert(kind.select(commits, height) == commits.filter(old));
}

/// The tests of a listing are those of its kind.
proof fn lemma_kind(kind: ListKind, commits: Seq<(Commit, CommitHash)>)
    ensures
        kind.prefix() == beginning(kind),
        kind.occurs(commits) == present(kind, commits),
{
    if kind.occurs(commits) {
        let i = choose|i: int| 0 <= i < commits.len() && kind.fits(#[trigger] commits[i].0);
        assert(kind.fits(commits[i].0));
    }
    if present(kind, commits) {
        let i = choose|i: int|
            0 <= i < commits.len() && match kind {
                ListKind::Agendas => (#[trigger] commits[i]).0 is Agenda,
                ListKind::Blocks => commits[i].0 is Block,
            };
        assert(kind.fits(commits[i].0));
    }
}

proof fn lemma_hashes(
    world: World,
    kind: ListKind,
    selected: Seq<(Commit, CommitHash)>,
    i: int,
    faultless: bool,
    post: spec_fn(Result<Seq<(CommitHash, Hash256)>, ErrorView>, World) -> bool,
)
    requires
        0 <= i <= selected.len(),
        post(Ok(world.chain.hashed(selected)), world),
    ensures
        always(
            hash_from(kind, selected, world.chain.hashed(selected).take(i), i),
            world,
            faultless,
            post,
        ),
    decreases selected.len() - i,
{
    broadcast use group_runs;

    let all = world.chain.hashed(selected);
    if i >= selected.len() {
        assert(all.take(i) =~= all);
    } else {
        lemma_hashes(world, kind, selected, i + 1, faultless, post);
        assert(all.take(i).push(all[i]) =~= all.take(i + 1));
    }
}

proof fn lemma_branch_header(
    world: World,
    kind: ListKind,
    commit: CommitHash,
    faultless: bool,
)
    requires
        world.repo.well_formed(),
        world.repo.branches.contains_key(FINALIZED_BRANCH_NAME@),
        on_top(world, commit),
        world.chain.readable(ahead_of(world, commit)),
        faultless ==> (world.last_header() matches Some(header) ==> header.height < u64::MAX),
    ensures
        always(
            branch_header(last_header_plan(), kind, world.chain.held(ahead_of(world, commit))),
            world,
            faultless,
            branch_post(world, kind, commit, faultless),
        ),
{
    let post = branch_post(world, kind, commit, faultless);
    let commits = world.chain.held(ahead_of(world, commit));
    let second = |header: BlockHeader|
        if header.height == u64::MAX && kind.occurs(commits) {
            Plan::Stuck
        } else {
            hash_from(kind, kind.select(commits, header.height), Seq::empty(), 0)
        };
    let middle = |result: Result<BlockHeader, ErrorView>, then: World|
        match result {
            Ok(found) => world.last_header() == Some(found) && then == world,
            Err(_) => then == world && (!faultless || world.last_header() is None),
        };
    lemma_kind(kind, commits);
    lemma_merge_base(world.repo, world.repo.branches[FINALIZED_BRANCH_NAME@], commit);
    assert forall|found: BlockHeader, then: World|
        #![trigger middle(Ok(found), then)]
        middle(Ok(found), then) implies always(second(found), then, faultless, post) by {
        if found.height < u64::MAX || !kind.occurs(commits) {
            let selected = kind.select(commits, found.height);
            assert(world.chain.hashed(selected).take(0) =~= Seq::empty());
            lemma_selected(world.chain, kind, commits, found.height);
            lemma_hashes(world, kind, selected, 0, faultless, post);
        }
    }
    lemma_last_header(world, faultless, middle);
    lemma_bind_always(last_header_plan(), second, world, faultless, middle, post);
}

proof fn lemma_branch(
    world: World,
    kind: ListKind,
    name: Seq<char>,
    commit: CommitHash,
    faultless: bool,
)
    requires
        world.repo.well_formed(),
        world.repo.branches.contains_key(FINALIZED_BRANCH_NAME@),
        faultless ==> (world.last_header() matches Some(header) ==> header.height < u64::MAX),
    ensures
        always(
            branch_plan(kind, world.repo.branches[FINALIZED_BRANCH_NAME@], name, commit),
            world,
            faultless,
            branch_post(world, kind, commit, faultless),
        ),
{
    broadcast use group_runs;

    let last = world.repo.branches[FINALIZED_BRANCH_NAME@];
    let post = branch_post(world, kind, commit, faultless);
    let path = ahead_of(world, commit);
    let request = RequestView::ReadCommits(last, commit);
    lemma_merge_base(world.repo, last, commit);
    if on_top(world, commit) {
        assert(world.repo.merge_base(last, last, commit));
        assert forall|commits: Vec<(Commit, CommitHash)>|
            world.tells(request, Reply::Commits(Ok(commits))) implies always(
            #[trigger] branch_header(last_header_plan(), kind, commits@),
            world,
            faultless,
            post,
        ) by {
            lemma_decodes(world.chain, path, commits@);
            lemma_branch_header(world, kind, commit, faultless);
        }
        assert(world.refuses(request) ==> !branch_ready(world, kind, commit));
        assert(always(branch_read(kind, last, commit), world, faultless, post));
    }
}

/// How a listing ends. It ends well with what the branches of the kind add, in the order in which
/// the host lists them. On a host without a fault it ends well exactly where every branch of the
/// kind can be listed. The repository stays as it is.
pub open spec fn list_ends(world: World, kind: ListKind, faultless: bool) -> spec_fn(
    Result<Seq<(CommitHash, Hash256)>, ErrorView>,
    World,
) -> bool {
    |result: Result<Seq<(CommitHash, Hash256)>, ErrorView>, end: World|
        {
            &&& end.repo == world.repo && end.chain == world.chain && end.trial == world.trial
            &&& match result {
                Ok(found) => {
                    &&& list_ready(world, kind)
                    &&& end.told[RequestView::RetrieveLocalBranches] matches Reply::Branches(
                        Ok(branches),
                    )
                    &&& lists_branches(branches@, world.repo.branches)
                    &&& found == entries_up_to(world, kind, branches@, branches@.len() as int)
                },
                Err(_) => faultless ==> !list_ready(world, kind),
            }
        }
}

/// Where all branches were listed, all can be.
proof fn lemma_all_ready(world: World, kind: ListKind, branches: Seq<(String, CommitHash)>)
    requires
        world.repo.branches.contains_key(FINALIZED_BRANCH_NAME@),
        lists_branches(branches, world.repo.branches),
        forall|j: int|
            0 <= j < branches.len() && named_for(kind, (#[trigger] branches[j]).0@)
                ==> branch_ready(world, kind, branches[j].1),
    ensures
        list_ready(world, kind),
{
    let all = world.repo.branches;
    assert forall|name: Seq<char>| #[trigger]
        all.contains_key(name) && named_for(kind, name) implies branch_ready(
        world,
        kind,
        all[name],
    ) by {
        let j = choose|j: int| 0 <= j < branches.len() && (#[trigger] branches[j]).0@ == name;
        assert(branches[j].1 == all[name]);
    }
}

proof fn lemma_list_from(
    world: World,
    now: World,
    kind: ListKind,
    branches: Vec<(String, CommitHash)>,
    i: int,
    faultless: bool,
)
    requires
        world.repo.well_formed(),
        world.repo.branches.contains_key(FINALIZED_BRANCH_NAME@),
        lists_branches(branches@, world.repo.branches),
        faultless ==> (world.last_header() matches Some(header) ==> header.height < u64::MAX),
        now == world.having_told(
            RequestView::RetrieveLocalBranches,
            Reply::Branches(Ok(branches)),
        ),
        0 <= i <= branches@.len(),
        forall|j: int|
            0 <= j < i && named_for(kind, (#[trigger] branches@[j]).0@) ==> branch_ready(
                world,
                kind,
                branches@[j].1,
            ),
    ensures
        always(
            list_from(
                kind,
                branches@,
                world.repo.branches[FINALIZED_BRANCH_NAME@],
                entries_up_to(world, kind, branches@, i),
                i,
            ),
            now,
            faultless,
            list_ends(world, kind, faultless),
        ),
    decreases branches@.len() - i,
{
    let last = world.repo.branches[FINALIZED_BRANCH_NAME@];
    let post = list_ends(world, kind, faultless);
    let found = entries_up_to(world, kind, branches@, i);
    lemma_kind(kind, Seq::empty());
    if i >= branches@.len() {
        lemma_all_ready(world, kind, branches@);
    } else if !kind.prefix().is_prefix_of(branches@[i].0@) {
        lemma_list_from(world, now, kind, branches, i + 1, faultless);
    } else {
        let commit = branches@[i].1;
        let branch = branch_plan(kind, last, branches@[i].0@, commit);
        let middle = branch_post(now, kind, commit, faultless);
        let second = list_next(kind, branches@, last, found, i);
        assert(world.repo.branches.contains_key(branches@[i].0@));
        lemma_branch(now, kind, branches@[i].0@, commit, faultless);
        lemma_ready_told(world, now, kind, commit);
        assert forall|more: Seq<(CommitHash, Hash256)>, then: World|
            #![trigger middle(Ok(more), then)]
            middle(Ok(more), then) implies always(second(more), then, faultless, post) by {
            assert(found + more == entries_up_to(world, kind, branches@, i + 1));
            lemma_list_from(world, now, kind, branches, i + 1, faultless);
        }
        lemma_bind_always(branch, second, now, faultless, middle, post);
        assert(list_from(kind, branches@, last, found, i) == list_branch(
            branch,
            kind,
            branches@,
            last,
            found,
            i,
        ));
    }
}

/// Whether a branch can be listed, and what it adds, does not depend on what the host told.
proof fn lemma_ready_told(world: World, now: World, kind: ListKind, commit: CommitHash)
    requires
        now.repo == world.repo,
        now.chain == world.chain,
    ensures
        branch_ready(now, kind, commit) == branch_ready(world, kind, commit),
        branch_entries(now, kind, commit) == branch_entries(world, kind, commit),
{
}

/// A listing ends as told: on a truthful host it ends well only with the agendas, or the blocks, of
/// the height after the last one, on the branches of the kind that are on top of `finalized`, each
/// once for every branch that it is on. On a host without a fault it does so wherever the branches
/// of the kind can be read.
pub proof fn law_list_ends(world: World, kind: ListKind, faultless: bool)
    requires
        world.repo.well_formed(),
        faultless ==> (world.last_header() matches Some(header) ==> header.height < u64::MAX),
    ensures
        always(list_plan(kind), world, faultless, list_ends(world, kind, faultless)),
{
    broadcast use group_runs;

    let post = list_ends(world, kind, faultless);
    let request = RequestView::RetrieveLocalBranches;
    assert forall|branches: Vec<(String, CommitHash)>|
        world.tells(request, Reply::Branches(Ok(branches))) implies always(
        #[trigger] list_last(kind, branches@),
        world.after(request, Reply::Branches(Ok(branches))),
        faultless,
        post,
    ) by {
        let now = world.having_told(request, Reply::Branches(Ok(branches)));
        if world.repo.branches.contains_key(FINALIZED_BRANCH_NAME@) {
            lemma_list_from(world, now, kind, branches, 0, faultless);
        }
    }
}

/// What a branch adds are the entries for the commits on the way to it.
proof fn lemma_entries(
    world: World,
    kind: ListKind,
    commit: CommitHash,
    entry: (CommitHash, Hash256),
)
    requires
        on_top(world, commit),
        world.chain.readable(ahead_of(world, commit)),
    ensures
        branch_entries(world, kind, commit).contains(entry) <==> exists|j: int| #[trigger]
            entry_at(world, kind, ahead_of(world, commit), j, entry),
{
    broadcast use vstd::seq_lib::group_filter_ensures;

    let path = ahead_of(world, commit);
    let commits = world.chain.held(path);
    let height = world.last_header()->0.height + 1;
    let entries = branch_entries(world, kind, commit);
    let pick = match kind {
        ListKind::Agendas => |entry: (Commit, CommitHash)|
            entry.0 is Agenda && entry.0->Agenda_0.height == height,
        ListKind::Blocks => |entry: (Commit, CommitHash)|
            entry.0 is Block && entry.0->Block_0.height == height,
    };
    let picked = commits.filter(pick);
    assert(entries.len() == picked.len());
    if entries.contains(entry) {
        let k = choose|k: int| 0 <= k < entries.len() && entries[k] == entry;
        assert(pick(picked[k]));
        lemma_filter_source(commits, pick, k);
        let j = choose|j: int| 0 <= j < commits.len() && commits[j] == picked[k];
        assert(entry_at(world, kind, path, j, entry));
    }
    if exists|j: int| #[trigger] entry_at(world, kind, path, j, entry) {
        let j = choose|j: int| #[trigger] entry_at(world, kind, path, j, entry);
        assert((world.chain.decode)(path[j].0) is Some);
        assert(pick(commits[j]));
        assert(picked.contains(commits[j]));
        let k = choose|k: int| 0 <= k < picked.len() && picked[k] == commits[j];
        assert(entries[k] == entry);
    }
}

/// What is picked was there.
proof fn lemma_filter_source<A>(s: Seq<A>, pick: spec_fn(A) -> bool, k: int)
    requires
        0 <= k < s.filter(pick).len(),
    ensures
        s.contains(s.filter(pick)[k]),
    decreases s.len(),
{
    reveal(Seq::filter);
    if s.len() > 0 {
        let rest = s.drop_last();
        if k < rest.filter(pick).len() {
            lemma_filter_source(rest, pick, k);
            let j = choose|j: int| 0 <= j < rest.len() && rest[j] == rest.filter(pick)[k];
            assert(s[j] == s.filter(pick)[k]);
        } else {
            assert(s[s.len() - 1] == s.filter(pick)[k]);
        }
    }
}

/// Whether an entry is one that the branches before a position add.
spec fn among(
    world: World,
    kind: ListKind,
    branches: Seq<(String, CommitHash)>,
    i: int,
    entry: (CommitHash, Hash256),
) -> bool {
    exists|j: int|
        0 <= j < i && named_for(kind, (#[trigger] branches[j]).0@) && branch_entries(
            world,
            kind,
            branches[j].1,
        ).contains(entry)
}

proof fn lemma_among(
    world: World,
    kind: ListKind,
    branches: Seq<(String, CommitHash)>,
    n: int,
    entry: (CommitHash, Hash256),
)
    requires
        0 <= n <= branches.len(),
    ensures
        entries_up_to(world, kind, branches, n).contains(entry) <==> among(
            world,
            kind,
            branches,
            n,
            entry,
        ),
    decreases n,
{
    let all = entries_up_to(world, kind, branches, n);
    if n > 0 {
        let before = entries_up_to(world, kind, branches, n - 1);
        let more = branch_entries(world, kind, branches[n - 1].1);
        lemma_among(world, kind, branches, n - 1, entry);
        if named_for(kind, branches[n - 1].0@) {
            assert(all == before + more);
            if all.contains(entry) {
                let k = choose|k: int| 0 <= k < all.len() && all[k] == entry;
                if k < before.len() {
                    assert(before[k] == entry);
                    assert(before.contains(entry));
                } else {
                    assert(more[k - before.len()] == entry);
                    assert(more.contains(entry));
                }
            }
            if before.contains(entry) {
                let k = choose|k: int| 0 <= k < before.len() && before[k] == entry;
                assert(all[k] == entry);
            }
            if more.contains(entry) {
                let k = choose|k: int| 0 <= k < more.len() && more[k] == entry;
                assert(all[before.len() + k] == entry);
            }
        }
        if among(world, kind, branches, n, entry) {
            let j = choose|j: int|
                0 <= j < n && named_for(kind, (#[trigger] branches[j]).0@) && branch_entries(
                    world,
                    kind,
                    branches[j].1,
                ).contains(entry);
            if j < n - 1 {
                assert(among(world, kind, branches, n - 1, entry));
            }
        }
        if among(world, kind, branches, n - 1, entry) {
            assert(among(world, kind, branches, n, entry));
        }
    }
}

/// A listing that is put together from all branches is the truth.
proof fn lemma_listed(
    world: World,
    kind: ListKind,
    branches: Seq<(String, CommitHash)>,
    found: Seq<(CommitHash, Hash256)>,
)
    requires
        list_ready(world, kind),
        lists_branches(branches, world.repo.branches),
        found == entries_up_to(world, kind, branches, branches.len() as int),
    ensures
        listed(world, kind, found),
{
    let all = world.repo.branches;
    assert forall|entry: (CommitHash, Hash256)| #[trigger] found.contains(entry) <==> offered(
        world,
        kind,
        entry,
    ) by {
        lemma_among(world, kind, branches, branches.len() as int, entry);
        if found.contains(entry) {
            let j = choose|j: int|
                0 <= j < branches.len() && named_for(kind, (#[trigger] branches[j]).0@)
                    && branch_entries(world, kind, branches[j].1).contains(entry);
            let name = branches[j].0@;
            assert(all.contains_key(name) && all[name] == branches[j].1);
            lemma_entries(world, kind, all[name], entry);
            let at = choose|at: int| #[trigger]
                entry_at(world, kind, ahead_of(world, all[name]), at, entry);
            assert(offered(world, kind, entry));
        }
        if offered(world, kind, entry) {
            let (name, at) = choose|name: Seq<char>, at: int|
                {
                    &&& #[trigger] all.contains_key(name)
                    &&& named_for(kind, name)
                    &&& on_top(world, all[name])
                    &&& #[trigger] entry_at(world, kind, ahead_of(world, all[name]), at, entry)
                };
            let j = choose|j: int| 0 <= j < branches.len() && (#[trigger] branches[j]).0@ == name;
            assert(branches[j].1 == all[name]);
            lemma_entries(world, kind, all[name], entry);
            assert(among(world, kind, branches, branches.len() as int, entry));
        }
    }
}

/// Whether a listing is the truth does not depend on what the host told.
proof fn lemma_listed_told(
    world: World,
    now: World,
    kind: ListKind,
    found: Seq<(CommitHash, Hash256)>,
)
    requires
        now.repo == world.repo,
        now.chain == world.chain,
        listed(world, kind, found),
    ensures
        listed(now, kind, found),
{
    assert forall|entry: (CommitHash, Hash256)| #[trigger] found.contains(entry) <==> offered(
        now,
        kind,
        entry,
    ) by {
        if offered(world, kind, entry) {
            let (name, j) = choose|name: Seq<char>, j: int|
                {
                    &&& #[trigger] world.repo.branches.contains_key(name)
                    &&& named_for(kind, name)
                    &&& on_top(world, world.repo.branches[name])
                    &&& #[trigger] entry_at(
                        world,
                        kind,
                        ahead_of(world, world.repo.branches[name]),
                        j,
                        entry,
                    )
                };
            assert(entry_at(now, kind, ahead_of(now, now.repo.branches[name]), j, entry));
        }
        if offered(now, kind, entry) {
            let (name, j) = choose|name: Seq<char>, j: int|
                {
                    &&& #[trigger] now.repo.branches.contains_key(name)
                    &&& named_for(kind, name)
                    &&& on_top(now, now.repo.branches[name])
                    &&& #[trigger] entry_at(
                        now,
                        kind,
                        ahead_of(now, now.repo.branches[name]),
                        j,
                        entry,
                    )
                };
            assert(entry_at(world, kind, ahead_of(world, world.repo.branches[name]), j, entry));
        }
    }
}

spec fn list_post(world: World, kind: ListKind, faultless: bool) -> spec_fn(
    Result<Seq<(CommitHash, Hash256)>, ErrorView>,
    World,
) -> bool {
    |result: Result<Seq<(CommitHash, Hash256)>, ErrorView>, end: World|
        {
            &&& end.repo == world.repo && end.chain == world.chain && end.trial == world.trial
            &&& match result {
                Ok(found) => listed(world, kind, found),
                Err(_) => !faultless,
            }
        }
}

/// Listing the agendas or the blocks.
proof fn lemma_list(world: World, kind: ListKind, faultless: bool)
    requires
        world.repo.well_formed(),
        faultless ==> list_ready(world, kind),
        faultless ==> (world.last_header() matches Some(header) ==> header.height < u64::MAX),
    ensures
        always(list_plan(kind), world, faultless, list_post(world, kind, faultless)),
{
    let known = list_ends(world, kind, faultless);
    let post = list_post(world, kind, faultless);
    law_list_ends(world, kind, faultless);
    assert forall|result: Result<Seq<(CommitHash, Hash256)>, ErrorView>, end: World| #[trigger]
        known(result, end) implies post(result, end) by {
        if let Ok(found) = result {
            let branches = end.told[RequestView::RetrieveLocalBranches]->Branches_0->Ok_0@;
            lemma_listed(world, kind, branches, found);
        }
    }
    lemma_always(list_plan(kind), world, faultless, known, post);
}

/// Every agenda that is listed is one of the height after the last one, and is on a branch of an
/// agenda that is on top of `finalized`.
pub proof fn law_listed_agendas(world: World)
    requires
        world.repo.well_formed(),
    ensures
        after_ok(
            list_plan(ListKind::Agendas),
            world,
            |found: Seq<(CommitHash, Hash256)>, _end: World|
                forall|entry: (CommitHash, Hash256)| #[trigger]
                    found.contains(entry) <==> offered(world, ListKind::Agendas, entry),
        ),
{
    let good = |found: Seq<(CommitHash, Hash256)>, _end: World|
        forall|entry: (CommitHash, Hash256)| #[trigger]
            found.contains(entry) <==> offered(world, ListKind::Agendas, entry);
    lemma_list(world, ListKind::Agendas, false);
    lemma_after_ok(
        list_plan(ListKind::Agendas),
        world,
        list_post(world, ListKind::Agendas, false),
        good,
    );
}

/// Every block that is listed is one of the height after the last one, and is on a branch of a
/// block that is on top of `finalized`.
pub proof fn law_listed_blocks(world: World)
    requires
        world.repo.well_formed(),
    ensures
        after_ok(
            list_plan(ListKind::Blocks),
            world,
            |found: Seq<(CommitHash, Hash256)>, _end: World|
                forall|entry: (CommitHash, Hash256)| #[trigger]
                    found.contains(entry) <==> offered(world, ListKind::Blocks, entry),
        ),
{
    let good = |found: Seq<(CommitHash, Hash256)>, _end: World|
        forall|entry: (CommitHash, Hash256)| #[trigger]
            found.contains(entry) <==> offered(world, ListKind::Blocks, entry);
    lemma_list(world, ListKind::Blocks, false);
    lemma_after_ok(
        list_plan(ListKind::Blocks),
        world,
        list_post(world, ListKind::Blocks, false),
        good,
    );
}

/// The names of the branches of a kind are not the permanent ones.
proof fn lemma_kind_names(kind: ListKind)
    ensures
        !named_for(kind, FINALIZED_BRANCH_NAME@),
        !named_for(kind, WORK_BRANCH_NAME@),
{
    reveal_strlit("a-");
    reveal_strlit("b-");
    reveal_strlit("work");
    reveal_strlit("finalized");
    assert(beginning(kind)[1] == '-');
    assert(FINALIZED_BRANCH_NAME@[1] == 'i' && WORK_BRANCH_NAME@[1] == 'o');
}

/// A branch that was there before a new commit adds what it added before.
proof fn lemma_old_branch(
    before: World,
    then: World,
    kind: ListKind,
    new: Commit,
    commit: CommitHash,
    name: Seq<char>,
    old: CommitHash,
)
    requires
        before.repo.well_formed(),
        before.chain.consistent(),
        marked(before, then, new, commit, name),
        name != FINALIZED_BRANCH_NAME@,
        before.repo.paths.contains_key(old),
        branch_ready(before, kind, old),
    ensures
        branch_ready(then, kind, old),
        on_top(then, old) == on_top(before, old),
        ahead_of(then, old) == ahead_of(before, old),
{
    let last = before.repo.branches[FINALIZED_BRANCH_NAME@];
    let work = before.repo.branches[WORK_BRANCH_NAME@];
    lemma_marked(before, then, new, commit, name);
    let base = choose|base: CommitHash| #[trigger] before.repo.merge_base(base, last, old);
    assert(before.repo.paths[last].len() <= before.repo.paths[work].len());
    assert forall|other: CommitHash| #[trigger]
        then.repo.descends(other, last) && then.repo.descends(other, old) implies then.repo.paths[
        other].len() <= then.repo.paths[base].len() by {
        assert(before.repo.descends(other, last) && before.repo.descends(other, old));
    }
    assert(then.repo.merge_base(base, last, old));
    assert(ahead_of(then, old) == ahead_of(before, old));
}

/// Whether a commit is of a kind and of a height.
spec fn of_height(kind: ListKind, commit: Commit, height: int) -> bool {
    match (kind, commit) {
        (ListKind::Agendas, Commit::Agenda(agenda)) => agenda.height == height,
        (ListKind::Blocks, Commit::Block(header)) => header.height == height,
        _ => false,
    }
}

/// A new commit on a branch of its own is listed, and so is what was listed before.
proof fn lemma_more(
    before: World,
    then: World,
    kind: ListKind,
    new: Commit,
    commit: CommitHash,
    name: Seq<char>,
)
    requires
        before.repo.well_formed(),
        before.chain.consistent(),
        marked(before, then, new, commit, name),
        named_for(kind, name),
        before.last_header() is Some,
        of_height(kind, new, before.last_header()->0.height + 1),
        list_ready(before, kind),
    ensures
        list_ready(then, kind),
        offered(then, kind, (commit, then.chain.hash_of(new))),
        forall|entry: (CommitHash, Hash256)| #[trigger]
            offered(before, kind, entry) ==> offered(then, kind, entry),
{
    let last = before.repo.branches[FINALIZED_BRANCH_NAME@];
    let height = before.last_header()->0.height;
    lemma_kind_names(kind);
    lemma_marked(before, then, new, commit, name);
    lemma_merge_base(then.repo, last, commit);
    assert(then.repo.merge_base(last, last, commit));
    assert(branch_ready(then, kind, commit));
    assert forall|other: Seq<char>| #[trigger]
        then.repo.branches.contains_key(other) && named_for(kind, other) implies branch_ready(
        then,
        kind,
        then.repo.branches[other],
    ) by {
        if other != name {
            assert(before.repo.branches.contains_key(other));
            lemma_old_branch(
                before,
                then,
                kind,
                new,
                commit,
                name,
                before.repo.branches[other],
            );
        }
    }
    let path = ahead_of(then, commit);
    let added = (commit, then.chain.hash_of(new));
    assert(path.last().1 == commit && (then.chain.decode)(path.last().0) == Some(new));
    assert(then.repo.branches.contains_key(name) && then.repo.branches[name] == commit);
    assert(entry_at(then, kind, path, path.len() - 1, added));
    assert forall|entry: (CommitHash, Hash256)| #[trigger]
        offered(before, kind, entry) implies offered(then, kind, entry) by {
        let (other, j) = choose|other: Seq<char>, j: int|
            {
                &&& #[trigger] before.repo.branches.contains_key(other)
                &&& named_for(kind, other)
                &&& on_top(before, before.repo.branches[other])
                &&& #[trigger] entry_at(
                    before,
                    kind,
                    ahead_of(before, before.repo.branches[other]),
                    j,
                    entry,
                )
            };
        lemma_old_branch(before, then, kind, new, commit, name, before.repo.branches[other]);
        assert(then.repo.branches.contains_key(other));
        assert(then.repo.branches[other] == before.repo.branches[other]);
        assert(entry_at(then, kind, ahead_of(then, then.repo.branches[other]), j, entry));
    }
}

/// That a listing holds an entry, and all that another listing holds.
pub open spec fn lists_more(
    before: Seq<(CommitHash, Hash256)>,
    entry: (CommitHash, Hash256),
) -> spec_fn(Seq<(CommitHash, Hash256)>, World) -> bool {
    |found: Seq<(CommitHash, Hash256)>, _end: World|
        {
            &&& found.contains(entry)
            &&& forall|other: (CommitHash, Hash256)| #[trigger]
                before.contains(other) ==> found.contains(other)
        }
}

proof fn lemma_lists_more(
    before: World,
    then: World,
    kind: ListKind,
    new: Commit,
    commit: CommitHash,
    name: Seq<char>,
    found: Seq<(CommitHash, Hash256)>,
)
    requires
        before.repo.well_formed(),
        before.chain.consistent(),
        marked(before, then, new, commit, name),
        named_for(kind, name),
        before.last_header() is Some,
        of_height(kind, new, before.last_header()->0.height + 1),
        listed(before, kind, found),
    ensures
        surely(list_plan(kind), then, lists_more(found, (commit, then.chain.hash_of(new)))),
{
    let good = lists_more(found, (commit, then.chain.hash_of(new)));
    lemma_more(before, then, kind, new, commit, name);
    assert(then.last_header() == before.last_header()) by {
        lemma_kind_names(kind);
        lemma_marked(before, then, new, commit, name);
    }
    lemma_list(then, kind, true);
    assert forall|more: Seq<(CommitHash, Hash256)>, end: World| #[trigger]
        list_post(then, kind, true)(Ok(more), end) implies good(more, end) by {
        assert forall|other: (CommitHash, Hash256)| #[trigger]
            found.contains(other) implies more.contains(other) by {
            assert(offered(before, kind, other));
        }
    }
    lemma_surely(list_plan(kind), then, list_post(then, kind, true), good);
}

/// Whether an agenda that is created is listed then, with all that was listed before.
pub open spec fn agenda_gets_listed(
    world: World,
    author: MemberName,
    before: Seq<(CommitHash, Hash256)>,
) -> bool {
    after_ok(
        create_agenda_plan(author),
        world,
        |created: (Agenda, CommitHash), then: World|
            surely(
                list_plan(ListKind::Agendas),
                then,
                lists_more(before, (created.1, (then.chain.hash_agenda)(created.0))),
            ),
    )
}

/// An agenda that is created is listed, and so is every agenda that was listed before.
pub proof fn law_created_agenda_is_listed(world: World, author: MemberName)
    requires
        world.repo.well_formed(),
        world.chain.consistent(),
    ensures
        after_ok(
            list_plan(ListKind::Agendas),
            world,
            |before: Seq<(CommitHash, Hash256)>, now: World|
                agenda_gets_listed(now, author, before),
        ),
{
    let kind = ListKind::Agendas;
    let known = list_post(world, kind, false);
    let good = |before: Seq<(CommitHash, Hash256)>, now: World|
        agenda_gets_listed(now, author, before);
    lemma_list(world, kind, false);
    assert forall|before: Seq<(CommitHash, Hash256)>, now: World| #[trigger]
        known(Ok(before), now) implies good(before, now) by {
        let next = |created: (Agenda, CommitHash), then: World|
            surely(
                list_plan(ListKind::Agendas),
                then,
                lists_more(before, (created.1, (then.chain.hash_agenda)(created.0))),
            );
        lemma_agenda(now, author);
        assert forall|created: (Agenda, CommitHash), then: World| #[trigger]
            agenda_post(now)(Ok(created), then) implies next(created, then) by {
            let new = Commit::Agenda(created.0);
            let hash = (now.chain.hash_commit)(new);
            law_branch_names(hash, hash);
            lemma_listed_told(world, now, kind, before);
            lemma_lists_more(now, then, kind, new, created.1, agenda_branch(hash), before);
        }
        lemma_after_ok(create_agenda_plan(author), now, agenda_post(now), next);
    }
    lemma_after_ok(list_plan(kind), world, known, good);
}

/// Whether a block that is created is listed then, with all that was listed before.
pub open spec fn block_gets_listed(
    world: World,
    new: NewBlock,
    before: Seq<(CommitHash, Hash256)>,
) -> bool {
    after_ok(
        create_block_plan(new),
        world,
        |created: (BlockHeader, CommitHash), then: World|
            surely(
                list_plan(ListKind::Blocks),
                then,
                lists_more(before, (created.1, (then.chain.hash_header)(created.0))),
            ),
    )
}

/// A block that is created is listed, and so is every block that was listed before.
pub proof fn law_created_block_is_listed(world: World, new: NewBlock)
    requires
        world.repo.well_formed(),
        world.chain.consistent(),
    ensures
        after_ok(
            list_plan(ListKind::Blocks),
            world,
            |before: Seq<(CommitHash, Hash256)>, now: World| block_gets_listed(now, new, before),
        ),
{
    let kind = ListKind::Blocks;
    let known = list_post(world, kind, false);
    let good = |before: Seq<(CommitHash, Hash256)>, now: World|
        block_gets_listed(now, new, before);
    lemma_list(world, kind, false);
    assert forall|before: Seq<(CommitHash, Hash256)>, now: World| #[trigger]
        known(Ok(before), now) implies good(before, now) by {
        let next = |created: (BlockHeader, CommitHash), then: World|
            surely(
                list_plan(ListKind::Blocks),
                then,
                lists_more(before, (created.1, (then.chain.hash_header)(created.0))),
            );
        lemma_block(now, new);
        assert forall|created: (BlockHeader, CommitHash), then: World| #[trigger]
            block_post(now)(Ok(created), then) implies next(created, then) by {
            let new = Commit::Block(created.0);
            let hash = (now.chain.hash_commit)(new);
            law_branch_names(hash, hash);
            lemma_listed_told(world, now, kind, before);
            lemma_lists_more(now, then, kind, new, created.1, block_branch(hash), before);
        }
        lemma_after_ok(create_block_plan(new), now, block_post(now), next);
    }
    lemma_after_ok(list_plan(kind), world, known, good);
}

} // verus!
