# castbox

Locks, counted references, queues, hash maps and a channel for threads that
share state, written in Verus.

Every type of the library is the state behind a handle. A method is one step on
that state: one atomic operation, or what a thread does while it holds the lock.
A call that would block returns what the caller has to wait for, and is tried
again when the caller has been woken. What a step does to the state is its
contract.

- `primitives`: backoff, the small mutex, parkers, linked chains, counted blocks
- `mutex`: the group lock, the mutex with exclusive and shared mode, the
  reader-writer word, the barrier, guards
- `atomic`: the array, the ring buffer, cells, the sharded hash map, the list,
  the block queue
- `collections`: hashing, chained tables, the hash map, the slot queue
- `channels`: the channel with many senders and receivers
- `arw`, `anyref`, `any_ref`: strong and weak references

`law_` functions state what holds across calls: that a writer is alone, that a
value lives while strong references do, that queues are first in, first out.

`app/` holds the handles that threads share: atomic words, sleeping and waking
around the decisions of the library.
