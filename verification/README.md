# coalesce_worker

A coalescing background worker with generation-counter stale-result
rejection, verified with Verus.

- `src/coalescer.rs`: the dispatcher. `submit` numbers requests 1, 2, 3, …;
  `poll` keeps only the newest response that has arrived; `flush_pending`
  discards what has arrived; dropping the dispatcher tells the worker to stop.
  `sent()` and `taken()` are the records kept by the channel ends.
- `src/output.rs`: `Output` and `newest`, which picks the response with the
  highest generation (the earliest on a tie).
- `src/worker.rs`: the `Worker` trait and `worker_loop`, the worker thread's
  decisions as a transition function from state and event to next state and
  action.
- `src/round.rs`: the coalescing laws: over a whole round of queued
  messages the worker processes only the newest request, or stops on a
  `Shutdown` without processing any; over consecutive rounds it processes
  exactly one request per round that holds one, with rising generations.
- `src/channel.rs`: the two ends of a `std::sync::mpsc` channel, each with a
  ghost record of what passed through it and the channel it belongs to; the
  trusted wrappers (`open_channel`, `send`, `drain`) state how they change.
- `app/lib.rs`: spawning the worker thread and running its loop with
  blocking channel operations (`Coalescer::new` and `spawn_named` through
  the `Spawn` trait).
