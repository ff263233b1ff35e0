# cvdbench

A benchmark of file systems that several workers run together. A master keeps
the jobs: it checks what a client asks for, hands places in a job to workers in
the order in which jobs came, starts all workers of a job at one moment, gives
out the files to read, gathers progress and results, and tells watchers of every
change. A client creates, watches, queries, lists and cancels jobs and writes
reports on them.

- `src/` is the library, verified with Verus: parsing and checking of job
  descriptions, the state of the master and every request on it, the readers of
  file lists, the merging of results, and what the client shows and writes.
  `lifecycle.rs`, `holding.rs`, `ending.rs` and `watching.rs` hold what is kept by
  all requests together.
- `tests/` runs it.
- `app/` is the program around it: the daemon, the transport, the terminal, the
  file system, and everything in floating point. Messages travel over gRPC as
  JSON text.

Numbers that are shown in floating point are exact in the library: a fraction, a
statistic of a histogram, or the bits that came in.
