# rustfiber

A fiber-based job system in the style of Naughty Dog's engine work: worker
threads run jobs on lightweight coroutines, steal work from each other, and
track completion with counters.

## Layout

- `src/` is the verified library (Verus). It holds what the runtime decides
  and computes:
  - `layout`, `allocator::linear`, `allocator::paged`: the bump allocators
    that hold per-frame job data, with their placement and reuse laws;
  - `job_system`: the fiber configuration and the cutting of parallel loops
    into batches (every index in exactly one batch; about four batches per
    worker when batching automatically);
  - `worker`: where workers are pinned under each strategy, the order in
    which a worker steals, where jobs are queued and taken from, and what a
    worker does after resuming a fiber or when idle;
  - `fiber`, `job`: yield reasons, counter signalling, priorities;
  - `topology`: the NUMA estimate from the number of CPUs;
  - `metrics`, `metrics_depth`, `tracing`, `bench`: counters, the trace
    file format, and the computations of the benchmark programs.
- `app/` is the runtime around it (threads, coroutines, atomics and raw
  pointers, I/O, the benchmark programs), written in ordinary Rust.
- `tests/` exercise the library on concrete values.
