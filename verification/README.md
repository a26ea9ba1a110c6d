# scx_simulator

Preemptive interleaving of scheduler callbacks, with the parts that decide and
compute verified by Verus.

Worker threads run scheduler code one at a time and hand an execution token to
each other: at kfunc boundaries, when a PMU timer fires after a random number of
retired conditional branches, or when a software branch counter expires. Who runs
next and for how long follows from a seed, so that a run can be repeated, recorded
and compared.

- `src/` is the verified library. State that belongs to a thread, or that threads
  share, is a value that the caller keeps and passes in.
  - `preempt`: preemption records and traces, determinism checkpoints, the token
    ring, structop counters and the yield protocol. `preempt::trace_laws` proves
    that a written trace reads back, also at another load address.
    `preempt::deferred` holds the yields of the software counter.
  - `backend`: what each preemption backend decides, and the lifecycle of workers.
    `backend::round` proves in what order the steps of a round of workers fall.
  - `perf`: which PMU events a CPU offers, how counters are described to the
    kernel, and what raw readings mean.
  - `stalker`: conditional branches in machine code and the software counter.
  - `maps`: the scheduler library in `/proc/self/maps`.
  - `fmt`: timestamps, numbers and events in trace output.
  - `order`, `text`, `types`: stable sorting, characters, identifiers.
- `app/` is the side that does I/O: threads and futexes, signals, performance
  counters, the tracing subscriber.
- `tests/` runs the library.
