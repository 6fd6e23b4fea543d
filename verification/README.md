# pai_harness

The verified core of an agent harness: the append-only session log and what the model sees of
it, process confinement for shell commands, the shell tools and their background jobs, and a
document library that reads files, cuts them into citable chunks and decides how to search them.

- `src/` is the library, written in Verus. Every function carries a contract and is proved
  against it; laws that relate several functions are public proof functions named `law_*`.
  Calls into other crates (XML and ZIP readers, legacy text decoding, SHA-1, the clock, UUIDs,
  `std::path`) sit behind small trusted wrappers whose doc comments say what is assumed.
  - `clock`: the wall clock and the job ids minted from it, refusing rather than panicking
    when the clock reads before 1970.
  - `session/`: events, the log and its surface (compaction shadows, never deletes), replay,
    forks, the pending-write window, and how a batch is laid out in stored rows.
  - `sandbox/`: policies, the Landlock and Seatbelt providers, the unconfined fallback, the
    choice for the running machine, and the Landlock helper's command line.
  - `shell/`: the argv a command runs with, the job table, and what the tools answer.
  - `rag/`: chunking, format rules, file readers, settings, embedding and vision protocol
    details, and the in-process library's decisions.
- `app/` is plain Rust around it: probing the machine, reading files and settings, spawning
  processes, and the Landlock helper's `exec`.
- `tests/` runs the library on concrete values.
