# buckyos_backup

The decision logic of a chunk-based backup suite, written in Verus and
proved against its contracts: backup plans and their policies, checkpoints
and their items, work tasks and their states, the sector format that packs
chunks, the ordering of restored chunks within their files, and the
parameters and answers of the control interface.

## Layout

- `src/` is the verified library. Each module states what its functions
  return as spec functions over `Seq`, `Map` and views of its types, and
  holds the laws that span several calls (for instance that a restore writes
  every item of a file once and in offset order, that a backup records a
  checkpoint done only after every item is completed, and that chunk paths
  are normalised idempotently). The two run laws are stated over a model of
  a run, rounds of outcomes handed in; `run_restore_file` and `run_transfer`
  execute such runs and are proved to follow the model, so the laws hold of
  them. The engine that would fetch the outcomes from a real target is not
  part of the crate. Calls into outside crates (hashing, the
  cipher, URLs, UUIDs, the clock, a lock-free queue) go through a few
  trusted wrappers that only convert values, each documented with what it claims.
- `tests/` runs the library on concrete values, with the outside crates
  linked.
- `app/` is a small command-line program around the library. It lists the
  files of a backup and queries tasks in the task database, shows, changes
  and removes backup targets, creates plans, browses and hashes local files,
  takes snapshots and watches a directory. It reads and writes the database,
  the file system and JSON, and hands the library plain values. It does not
  run backups or restores: the transfer engine is not part of it.
