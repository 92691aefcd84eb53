//! The proof bundle as the verifier reads it.

use crate::time::Timestamp;
use vstd::prelude::*;

verus! {

/// A JSON document carried through unread.
#[verifier::external_type_specification]
#[verifier::external_body]
pub struct ExJsonValue(serde_json::Value);

/// A whole proof bundle: its header, its traces and its anchors.
#[derive(Debug)]
pub struct ProofBundle {
    pub bundle_version: u32,
    pub generated_at: Timestamp,
    pub engine_version: String,
    pub period_from: Timestamp,
    pub period_to: Timestamp,
    pub agent_id: Option<String>,
    pub spec: serde_json::Value,
    pub traces: Vec<BundleTrace>,
    pub anchors: Vec<BundleAnchor>,
}

/// One sealed decision, bound to an exchange transaction once it has one.
#[derive(Debug)]
pub struct BundleTrace {
    pub trace_id: String,
    pub agent_id: Option<String>,
    pub reasoning_hash: String,
    pub exchange_tx_id: Option<String>,
    pub final_proof: Option<String>,
    pub verification_status: String,
    pub valid_time: Timestamp,
    pub txn_time: Timestamp,
}

/// One anchored period: its leaves and the Merkle root committed for them.
#[derive(Debug)]
pub struct BundleAnchor {
    pub period_start: Timestamp,
    pub period_end: Timestamp,
    pub leaf_count: i64,
    pub merkle_root: String,
    pub leaves: Vec<String>,
    pub ots_receipt_base64: Option<String>,
}

} // verus!
