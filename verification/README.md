# feeder

A feeder takes items from any number of producers and delivers them to any number of receivers,
each of which gets only what it has asked for.

- A receiver keeps a number of items requested: as many as its high water mark when it is created,
  and what it lacks to it whenever fewer than its low water mark are left.
- Scheduler workers take the requests and deliver items. What was taken back from a dropped receiver
  goes before what was newly sent.
- A graceful shutdown seals ingress and ends when everything that was accepted has been consumed.
  Cancelling stops everything at once.
- A status sink is told of what happens to the feeder and to its receivers.

The library is verified with [Verus](https://github.com/verus-lang/verus). Its operations do not
block: where others have to act first, they say so. `app/` adds the threads and the waiting.

| Module | |
|---|---|
| `model` | the state of a feeder as a mathematical value, and what each operation makes of it |
| `integrity` | what holds in every state |
| `preserve`, `preserve_worker` | that every operation keeps it so |
| `shared`, `consumer`, `worker` | the operations on the shared state |
| `handles` | the handles that threads hold, each operation behind a lock |
| `history` | sequences of operations |
| `laws`, `history_laws`, `conserve`, `order`, `ledger`, `reports` | what holds of the library as a whole |
| `channel`, `status` | the boundary to `crossbeam-channel` |
| `stats`, `types`, `nonzero`, `tally` | counters, errors and results, words that are not zero, sums |
