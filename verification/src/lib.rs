//! Verified core of a deployment tool: it mirrors a local directory tree to a
//! remote host, snapshots the remote state into a backup before overwriting,
//! and restores from that backup on demand. The filesystem trees are modelled
//! as values; the surrounding binary performs the actual network and disk I/O
//! and hands the trees to this library, which makes every decision: counting,
//! transfer planning, progress accounting, retry policy, and sequencing.
pub mod backup_store;
pub mod connect;
pub mod orchestrate;
pub mod progress;
pub mod transfer;
pub mod tree;
