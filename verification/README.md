# gallery-backend core

The verified decisions behind a photo gallery server.

- `src/prefetch.rs` builds the snapshot a prefetch request stores (the items
  its query keeps, in order) and the answer that describes it: the snapshot's
  length and where a requested hash first stands in it.
- `src/snapshot.rs` reads pages of hashes out of a snapshot and keeps the
  snapshots in memory under their timestamps.
- `src/video.rs` removes repeated hashes from a batch of queued videos and
  decides what follows the compression of each record.
- `src/watcher.rs` decides which paths of a file-system event go to the
  synchronizer.

`app/` holds the process around them: the tokio tasks, the notify watcher,
rayon's parallel per-item work and the serde form of the prefetch answer.
