# unbounded_spsc

An unbounded channel between one sender and one receiver, verified with Verus.

Messages travel through a row of bounded queues, each of twice the capacity of the one
before. The receiver can look for a message, wait for one, wait for one until a deadline, or
wait together with other receivers in a set.

- `src/` is the library. What each end of a channel does is a state machine over accesses to
  shared memory (`sending`, `polling`, `arming`, `receiving`, `blocking`). `coherence` and
  `system` prove an invariant for every interleaving of the two ends, and `laws` states what
  follows: messages arrive once and in order, no wake-up is lost, no check of either end can
  fail. `progress` bounds the moves that a call takes. `link` is a memory owned by one
  thread; `channel`, `sender`, `receiver`, `selection`, `departure` and `iter` are the calls on
  it, each with an exact contract; `turns` relates them, and `rows` speaks of any row of them.
  `select` is the set of receivers, and `assembly` a selection while the senders run.
- `tests/` runs the calls, and the machines in many interleavings.
- `app/` runs the machines on atomics, parked threads and the queues of `bounded_spsc_queue`,
  which needs a nightly compiler.
