# podpingd

A daemon that scans the Hive blockchain for podpings (notifications that a
podcast feed changed) and writes them to the log or to a directory tree on
disk.

- `src/` is the verified library: which operations of a block are podpings,
  how a block range is cut into batches, the rotation over RPC nodes, where a
  sync starts and when it catches up, how fast it follows the chain, the layout
  of podping files on disk, the last-block record, and which old directories a
  trim deletes.  Calls into `regex` and `chrono` stand behind small trusted
  wrappers in `src/pattern.rs` and `src/time.rs`.
- `app/` is the program around it: configuration, the JSON-RPC client, the
  async tasks and channels, and the file system.
- `tests/` runs the library on concrete values.
