//! Proof-of-archival-storage protocol library.
//!
//! Users publish append-only byte streams ("spools") into a shared archive;
//! miners retain the archive's bytes, packed into miner-personalized form,
//! and prove retention to earn block rewards.
//!
//! The crate holds the on-ledger state machine (spool lifecycle, epoch and
//! block progression, difficulty adjustment, reward issuance, the Mine
//! challenge protocol), the two-level Merkle data model with canopy caching,
//! and the off-ledger segment store, packer and ingestion kernels.

pub mod consts;
pub mod bytesutil;
pub mod error;
pub mod hashing;
pub mod merkle;
pub mod pow;
pub mod packing;
pub mod state;
pub mod protocol;
pub mod events;
pub mod spool_ops;
pub mod reel_ops;
pub mod miner_ops;
pub mod program;
pub mod store;
pub mod canopy;
pub mod packer;
pub mod ingest;
pub mod metrics;
pub mod laws;
pub mod instructions;
