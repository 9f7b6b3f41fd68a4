//! Taking in branches of other nodes.
use vstd::pervasive::unreached;
use vstd::prelude::*;

use crate::error::{Blame, Error};
use crate::hash::CommitHash;
use crate::host::{Reply, Request, RequestView};
use crate::plan::{
    ask_anyway, ask_nothing, ask_received, ask_remote_branches, begins, done, follows, Next,
    Operation, Plan,
};

verus! {

/// The plan to fetch from the known peers: every remote-tracking branch is received, and one that
/// is rejected does not keep the others from it.
pub open spec fn fetch_plan() -> Plan<()> {
    ask_nothing(RequestView::AddRemotes, Blame::Pass, fetch_all())
}

pub open spec fn fetch_all() -> Plan<()> {
    ask_anyway(RequestView::FetchAll, fetch_list())
}

pub open spec fn fetch_list() -> Plan<()> {
    ask_remote_branches(|branches: Seq<(String, String, CommitHash)>| fetch_from(branches, 0))
}

pub open spec fn fetch_from(branches: Seq<(String, String, CommitHash)>, i: int) -> Plan<()>
    decreases branches.len() - i,
{
    if i < 0 || i >= branches.len() {
        done(())
    } else {
        ask_received(branches[i].2, |_verdict: Result<(), String>| fetch_from(branches, i + 1))
    }
}

#[allow(inconsistent_fields)]
enum FetchStage {
    Add,
    All,
    List,
    Receive { branches: Vec<(String, String, CommitHash)>, at: usize },
}

/// Fetching from the known peers.
pub struct Fetch {
    stage: FetchStage,
}

impl Fetch {
    pub fn start() -> (next: Next<Fetch, ()>)
        ensures
            begins(next, fetch_plan()),
    {
        Next::Ask(Request::AddRemotes, Fetch { stage: FetchStage::Add })
    }

    closed spec fn rest(self) -> Plan<()> {
        match self.stage {
            FetchStage::Add => fetch_plan(),
            FetchStage::All => fetch_all(),
            FetchStage::List => fetch_list(),
            FetchStage::Receive { branches, at } => fetch_from(branches@, at as int),
        }
    }

    fn proceed(branches: Vec<(String, String, CommitHash)>, at: usize) -> (next: Next<Fetch, ()>)
        ensures
            follows(
                next,
                fetch_from(branches@, at as int),
                |operation: Fetch| operation.rest(),
                |output: ()| output,
            ),
    {
        if at < branches.len() {
            let request = Request::Receive(branches[at].2);
            Next::Ask(request, Fetch { stage: FetchStage::Receive { branches, at } })
        } else {
            Next::Done(Ok(()))
        }
    }
}

impl Operation for Fetch {
    type Output = ();

    type Value = ();

    open spec fn value(output: ()) -> () {
        output
    }

    closed spec fn plan(self) -> Plan<()> {
        self.rest()
    }

    fn accepts(&self, reply: &Reply) -> (res: bool) {
        match (&self.stage, reply) {
            (FetchStage::Add, Reply::Nothing(_)) => true,
            (FetchStage::All, Reply::Nothing(_)) => true,
            (FetchStage::List, Reply::RemoteBranches(_)) => true,
            (FetchStage::Receive { branches, at }, Reply::Received(_)) => {
                proof {
                    assert(!(fetch_from(branches@, *at as int + 1) is Stuck));
                }
                *at < branches.len()
            },
            _ => false,
        }
    }

    fn resume(self, reply: Reply) -> (next: Next<Self, ()>) {
        match (self.stage, reply) {
            (FetchStage::Add, Reply::Nothing(Ok(()))) => Next::Ask(
                Request::FetchAll,
                Fetch { stage: FetchStage::All },
            ),
            (FetchStage::Add, Reply::Nothing(Err(error))) => Next::Done(Err(Error::Host(error))),
            (FetchStage::All, Reply::Nothing(_)) => Next::Ask(
                Request::ListRemoteTrackingBranches,
                Fetch { stage: FetchStage::List },
            ),
            (FetchStage::List, Reply::RemoteBranches(Ok(branches))) => Fetch::proceed(branches, 0),
            (FetchStage::List, Reply::RemoteBranches(Err(error))) => Next::Done(
                Err(Error::Host(error)),
            ),
            (FetchStage::Receive { branches, at }, Reply::Received(Ok(_))) => {
                if at < branches.len() {
                    Fetch::proceed(branches, at + 1)
                } else {
                    unreached()
                }
            },
            (FetchStage::Receive { .. }, Reply::Received(Err(error))) => Next::Done(
                Err(Error::Host(error)),
            ),
            _ => unreached(),
        }
    }
}

/// The plan to take in a branch that was pushed. It gives the reason where the branch is rejected.
pub open spec fn get_pushed_plan(commit: CommitHash) -> Plan<Result<(), String>> {
    ask_received(commit, |verdict: Result<(), String>| done(verdict))
}

/// Taking in a branch that was pushed.
pub struct GetPushed {
    commit: Ghost<CommitHash>,
}

impl GetPushed {
    pub fn start(commit: CommitHash) -> (next: Next<GetPushed, Result<(), String>>)
        ensures
            begins(next, get_pushed_plan(commit)),
    {
        Next::Ask(Request::Receive(commit), GetPushed { commit: Ghost(commit) })
    }
}

impl Operation for GetPushed {
    type Output = Result<(), String>;

    type Value = Result<(), String>;

    open spec fn value(output: Result<(), String>) -> Result<(), String> {
        output
    }

    closed spec fn plan(self) -> Plan<Result<(), String>> {
        get_pushed_plan(self.commit@)
    }

    fn accepts(&self, reply: &Reply) -> (res: bool) {
        match reply {
            Reply::Received(_) => true,
            _ => false,
        }
    }

    fn resume(self, reply: Reply) -> (next: Next<Self, Result<(), String>>) {
        match reply {
            Reply::Received(Ok(verdict)) => Next::Done(Ok(verdict)),
            Reply::Received(Err(error)) => Next::Done(Err(Error::Host(error))),
            _ => unreached(),
        }
    }
}

} // verus!
