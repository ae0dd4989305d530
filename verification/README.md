# mini-lmk

An event-driven memory manager for Android that runs without root. It follows the event log of the
system, learns which apps are in the foreground and how long others have been idle, and evicts the
heaviest of the idle ones when an app is switched, when a process is started in the background, or when
the device dozes.

- `src/` is the library, verified with Verus: the parsers of the event log, of the configuration and of
  the files under `/proc`; the state of the daemon and how events change it; the reaping pass; the
  records of telemetry; and the decisions of the reactor, of the log file and of the measuring harness.
  What holds of the daemon as a whole is proved in `src/laws.rs` and in the `law_` functions beside the
  specifications that they speak of.
- `tests/` runs the library on concrete values.
- `app/` is ordinary Rust around it: the epoll reactor, the processes that are started, the files that
  are read and written, and the diagnostic programs.
