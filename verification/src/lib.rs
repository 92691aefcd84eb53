//! Offline verification of IRL proof bundles: the hash constructions, the
//! Merkle root, the three bundle checks and the report built from them.
//!
//! Verification is pure computation — no network, no database. The only
//! step that requires external tooling is tying each Merkle root to a
//! Bitcoin block, which uses the standard OpenTimestamps client against
//! the receipt embedded in the bundle.

pub mod bundle;
pub mod cli;
pub mod codec;
pub mod hashing;
pub mod text;
pub mod time;
pub mod verify;

pub use bundle::{BundleAnchor, BundleTrace, ProofBundle};
pub use hashing::{compute_final_proof, compute_merkle_root};
pub use time::Timestamp;
pub use verify::{verify_bundle, VerificationReport};
