# simperby_repository

The rules of a distributed repository: a git repository that holds a blockchain, with its blocks,
agendas and transactions as commits, and the branches `finalized`, `work` and `fp`.

Every operation is a state machine. It makes one request at a time to its host, which holds the git
repository and the rules of the chain, and decides on the reply. The host hands each reply back:

```rust
let mut next = repository.sync(&block_hash, &proof);
loop {
    next = match next {
        Next::Done(result) => return result,
        Next::Ask(request, operation) => {
            let reply = host.perform(request);
            assert!(operation.accepts(&reply));
            operation.resume(reply)
        }
    };
}
```

## Layout

- `src/repository.rs` holds `DistributedRepository`, where every operation starts.
- `src/host.rs` holds the requests and the replies, `src/data.rs` the chain data in them, and
  `src/error.rs` how an operation reports a failure.
- `src/plan.rs` holds the model: a plan is what an operation asks for and what follows each reply.
  An operation keeps exactly to its plan. Where one plan holds another, `lemma_bind_after` brings
  it one step further.
- `src/sync.rs`, `approve.rs`, `agenda.rs`, `block.rs`, `extra.rs`, `clean.rs`, `listing.rs`,
  `genesis.rs`, `fetch.rs`, `mark.rs` and `query.rs` hold the operations with their plans, and
  `src/steps.rs` what several of them do.
- `src/hash.rs` holds the hashes, their hexadecimal text and the names made of them. The text comes
  from the `hex` crate, by two functions whose contracts are taken from it.
- `src/laws.rs` and the files below `src/laws/` hold what is true of every run: what has been
  verified before anything is written, what is there at a good end, and which replies that answer
  a request are taken: all of them, but for the few from which there is no going on, such as a last
  block without a height after it.
- `src/laws/world.rs` models a host that answers truthfully. What holds across two operations is
  stated of it, in `recorded.rs`, `created.rs`, `moved.rs` and `listed.rs` beside it: what one
  operation wrote, the next one finds.
- `app/` runs the operations on a real repository, with the rules of the chain as a service.
