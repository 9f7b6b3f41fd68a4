//! Plans: the model of an operation, as the requests it makes and what follows each reply.
use vstd::prelude::*;

use crate::data::{
    Commit, LastFinalizationProof, ReservedState, SemanticCommit, Timestamp, ValidatorSet,
};
use crate::error::{Blame, Error, ErrorView, HostError};
use crate::hash::{CommitHash, Hash256};
use crate::host::{Reply, Request, RequestView};

verus! {

/// What an operation does from some point on.
pub enum Plan<O> {
    /// It ends, with a result or an error.
    Done(Result<O, ErrorView>),
    /// It makes a request, and goes on as the reply says.
    Ask(RequestView, spec_fn(Reply) -> Plan<O>),
    /// It cannot go on: the reply does not answer the request, or is one that no operation can
    /// take.
    Stuck,
}

impl<O> Plan<O> {
    /// The plan once the reply to its request is in.
    pub open spec fn after(self, reply: Reply) -> Plan<O> {
        match self {
            Plan::Ask(_, follow) => follow(reply),
            _ => Plan::Stuck,
        }
    }

    /// Whether the plan can take a reply.
    pub open spec fn takes(self, reply: Reply) -> bool {
        !(self.after(reply) is Stuck)
    }

    /// The request that the plan makes.
    pub open spec fn request(self) -> RequestView
        recommends
            self is Ask,
    {
        self->Ask_0
    }
}

/// The end with a result.
pub open spec fn done<O>(output: O) -> Plan<O> {
    Plan::Done(Ok(output))
}

/// The end with a message.
pub open spec fn fail<O>(text: Seq<char>) -> Plan<O> {
    Plan::Done(Err(ErrorView::Message(text)))
}

/// The end with an integrity error.
pub open spec fn broken<O>(msg: Seq<char>) -> Plan<O> {
    Plan::Done(Err(ErrorView::Integrity(msg)))
}

/// What follows the reply to a request that can fail: the plan on success, or the error that
/// `blame` makes of the failure.
pub open spec fn settle<T, O>(
    answer: Result<T, HostError>,
    blame: Blame,
    follow: spec_fn(T) -> Plan<O>,
) -> Plan<O> {
    match answer {
        Ok(value) => follow(value),
        Err(error) => Plan::Done(Err(blame.on(error))),
    }
}

/// A request after which only its success matters.
pub open spec fn ask_nothing<O>(request: RequestView, blame: Blame, then: Plan<O>) -> Plan<O> {
    Plan::Ask(
        request,
        |reply: Reply|
            match reply {
                Reply::Nothing(answer) => settle(answer, blame, |_done: ()| then),
                _ => Plan::Stuck,
            },
    )
}

/// A request whose failure is ignored.
pub open spec fn ask_anyway<O>(request: RequestView, then: Plan<O>) -> Plan<O> {
    Plan::Ask(
        request,
        |reply: Reply|
            match reply {
                Reply::Nothing(_) => then,
                _ => Plan::Stuck,
            },
    )
}

/// A request for a commit of the repository.
pub open spec fn ask_commit<O>(
    request: RequestView,
    blame: Blame,
    follow: spec_fn(CommitHash) -> Plan<O>,
) -> Plan<O> {
    Plan::Ask(
        request,
        |reply: Reply|
            match reply {
                Reply::Commit(answer) => settle(answer, blame, follow),
                _ => Plan::Stuck,
            },
    )
}

/// A request for the names of the local branches.
pub open spec fn ask_names<O>(
    request: RequestView,
    follow: spec_fn(Seq<String>) -> Plan<O>,
) -> Plan<O> {
    Plan::Ask(
        request,
        |reply: Reply|
            match reply {
                Reply::Names(answer) => settle(
                    answer,
                    Blame::Pass,
                    |names: Vec<String>| follow(names@),
                ),
                _ => Plan::Stuck,
            },
    )
}

/// A request for the local branches.
pub open spec fn ask_branches<O>(
    request: RequestView,
    follow: spec_fn(Seq<(String, CommitHash)>) -> Plan<O>,
) -> Plan<O> {
    Plan::Ask(
        request,
        |reply: Reply|
            match reply {
                Reply::Branches(answer) => settle(
                    answer,
                    Blame::Pass,
                    |branches: Vec<(String, CommitHash)>| follow(branches@),
                ),
                _ => Plan::Stuck,
            },
    )
}

/// A request for a sequence of commits.
pub open spec fn ask_commits<O>(
    request: RequestView,
    follow: spec_fn(Seq<(Commit, CommitHash)>) -> Plan<O>,
) -> Plan<O> {
    Plan::Ask(
        request,
        |reply: Reply|
            match reply {
                Reply::Commits(answer) => settle(
                    answer,
                    Blame::Pass,
                    |commits: Vec<(Commit, CommitHash)>| follow(commits@),
                ),
                _ => Plan::Stuck,
            },
    )
}

/// A request for the stored form of a commit.
pub open spec fn ask_stored<O>(
    request: RequestView,
    follow: spec_fn(SemanticCommit) -> Plan<O>,
) -> Plan<O> {
    Plan::Ask(
        request,
        |reply: Reply|
            match reply {
                Reply::SemanticCommit(answer) => settle(answer, Blame::Pass, follow),
                _ => Plan::Stuck,
            },
    )
}

/// A request for the stored form of a finalization proof, which every proof has.
pub open spec fn ask_stored_proof<O>(
    request: RequestView,
    follow: spec_fn(SemanticCommit) -> Plan<O>,
) -> Plan<O> {
    Plan::Ask(
        request,
        |reply: Reply|
            match reply {
                Reply::SemanticCommit(Ok(stored)) => follow(stored),
                _ => Plan::Stuck,
            },
    )
}

/// A request for the commit of a stored form.
pub open spec fn ask_decoded<O>(
    request: RequestView,
    follow: spec_fn(Commit) -> Plan<O>,
) -> Plan<O> {
    Plan::Ask(
        request,
        |reply: Reply|
            match reply {
                Reply::Decoded(answer) => settle(answer, Blame::Pass, follow),
                _ => Plan::Stuck,
            },
    )
}

/// A request for the finalization proof of a stored form, which must hold one.
pub open spec fn ask_decoded_proof<O>(
    request: RequestView,
    follow: spec_fn(LastFinalizationProof) -> Plan<O>,
) -> Plan<O> {
    Plan::Ask(
        request,
        |reply: Reply|
            match reply {
                Reply::DecodedProof(Ok(proof)) => follow(proof),
                _ => Plan::Stuck,
            },
    )
}

/// A request for the reserved state.
pub open spec fn ask_reserved_state<O>(follow: spec_fn(ReservedState) -> Plan<O>) -> Plan<O> {
    Plan::Ask(
        RequestView::ReadReservedState,
        |reply: Reply|
            match reply {
                Reply::ReservedState(answer) => settle(answer, Blame::Pass, follow),
                _ => Plan::Stuck,
            },
    )
}

/// A request for the validators of a reserved state, which must have some.
pub open spec fn ask_validator_set<O>(
    state: ReservedState,
    follow: spec_fn(ValidatorSet) -> Plan<O>,
) -> Plan<O> {
    Plan::Ask(
        RequestView::GetValidatorSet(state),
        |reply: Reply|
            match reply {
                Reply::ValidatorSet(Ok(validators)) => follow(validators),
                _ => Plan::Stuck,
            },
    )
}

/// A request for a hash.
pub open spec fn ask_hash<O>(request: RequestView, follow: spec_fn(Hash256) -> Plan<O>) -> Plan<O> {
    Plan::Ask(
        request,
        |reply: Reply|
            match reply {
                Reply::Hash(hash) => follow(hash),
                _ => Plan::Stuck,
            },
    )
}

/// A request for the time of day.
pub open spec fn ask_timestamp<O>(follow: spec_fn(Timestamp) -> Plan<O>) -> Plan<O> {
    Plan::Ask(
        RequestView::GetTimestamp,
        |reply: Reply|
            match reply {
                Reply::Timestamp(timestamp) => follow(timestamp),
                _ => Plan::Stuck,
            },
    )
}

/// A request for the remotes.
pub open spec fn ask_remotes<O>(follow: spec_fn(Seq<(String, String)>) -> Plan<O>) -> Plan<O> {
    Plan::Ask(
        RequestView::ListRemotes,
        |reply: Reply|
            match reply {
                Reply::Remotes(answer) => settle(
                    answer,
                    Blame::Pass,
                    |remotes: Vec<(String, String)>| follow(remotes@),
                ),
                _ => Plan::Stuck,
            },
    )
}

/// A request for the remote-tracking branches.
pub open spec fn ask_remote_branches<O>(
    follow: spec_fn(Seq<(String, String, CommitHash)>) -> Plan<O>,
) -> Plan<O> {
    Plan::Ask(
        RequestView::ListRemoteTrackingBranches,
        |reply: Reply|
            match reply {
                Reply::RemoteBranches(answer) => settle(
                    answer,
                    Blame::Pass,
                    |branches: Vec<(String, String, CommitHash)>| follow(branches@),
                ),
                _ => Plan::Stuck,
            },
    )
}

/// A request to receive a branch.
pub open spec fn ask_received<O>(
    commit: CommitHash,
    follow: spec_fn(Result<(), String>) -> Plan<O>,
) -> Plan<O> {
    Plan::Ask(
        RequestView::Receive(commit),
        |reply: Reply|
            match reply {
                Reply::Received(answer) => settle(answer, Blame::Pass, follow),
                _ => Plan::Stuck,
            },
    )
}

/// One plan after another: where the first ends with a result, the second goes on with it, and an
/// error of the first is the error of both.
pub open spec fn bind<A, B>(first: Plan<A>, second: spec_fn(A) -> Plan<B>) -> Plan<B>
    decreases first,
{
    match first {
        Plan::Done(Ok(output)) => second(output),
        Plan::Done(Err(error)) => Plan::Done(Err(error)),
        Plan::Ask(request, follow) => Plan::Ask(request, |reply: Reply| bind(follow(reply), second)),
        Plan::Stuck => Plan::Stuck,
    }
}

/// A reply to two plans in a row is a reply to the first of them. This brings a plan that holds
/// others one step further.
pub broadcast proof fn lemma_bind_after<A, B>(
    first: Plan<A>,
    second: spec_fn(A) -> Plan<B>,
    reply: Reply,
)
    requires
        first is Ask,
    ensures
        (#[trigger] bind(first, second).after(reply)) == bind(first.after(reply), second),
        bind(first, second) is Ask,
        bind(first, second).request() == first.request(),
{
}

/// What an operation does next: a request, with the operation as it waits for the reply, or the
/// end.
pub enum Next<S, T> {
    Ask(Request, S),
    Done(Result<T, Error>),
}

/// An operation that waits for the reply to its last request.
pub trait Operation: Sized {
    /// What the operation gives at its end.
    type Output;

    /// The output as the plan speaks of it.
    type Value;

    /// The output as the plan speaks of it.
    spec fn value(output: Self::Output) -> Self::Value;

    /// What the operation does from here on, the request that it waits for first.
    spec fn plan(self) -> Plan<Self::Value>;

    /// Whether a reply answers the request, and is one that the operation can take.
    fn accepts(&self, reply: &Reply) -> (res: bool)
        ensures
            res == self.plan().takes(*reply),
    ;

    /// Goes on with the reply, as the plan says.
    fn resume(self, reply: Reply) -> (next: Next<Self, Self::Output>)
        requires
            self.plan().takes(reply),
        ensures
            match next {
                Next::Ask(request, operation) => {
                    &&& self.plan().after(reply) is Ask
                    &&& self.plan().after(reply).request() == request@
                    &&& operation.plan() == self.plan().after(reply)
                },
                Next::Done(Ok(output)) => self.plan().after(reply) == done(Self::value(output)),
                Next::Done(Err(error)) => self.plan().after(reply) == Plan::<Self::Value>::Done(
                    Err(error@),
                ),
            },
    ;
}

/// Whether `next` is what a plan begins with, for operations whose plans `rest` tells and outputs
/// that `value` turns into what the plan speaks of.
pub open spec fn follows<S, T, O>(
    next: Next<S, T>,
    plan: Plan<O>,
    rest: spec_fn(S) -> Plan<O>,
    value: spec_fn(T) -> O,
) -> bool {
    match next {
        Next::Ask(request, operation) => {
            &&& plan is Ask
            &&& plan.request() == request@
            &&& rest(operation) == plan
        },
        Next::Done(Ok(output)) => plan == done(value(output)),
        Next::Done(Err(error)) => plan == Plan::<O>::Done(Err(error@)),
    }
}

/// Whether `next` is what a plan begins with.
pub open spec fn begins<S: Operation>(next: Next<S, S::Output>, plan: Plan<S::Value>) -> bool {
    match next {
        Next::Ask(request, operation) => {
            &&& plan is Ask
            &&& plan.request() == request@
            &&& operation.plan() == plan
        },
        Next::Done(Ok(output)) => plan == done(S::value(output)),
        Next::Done(Err(error)) => plan == Plan::<S::Value>::Done(Err(error@)),
    }
}

} // verus!
