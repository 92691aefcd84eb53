use chrono::{DateTime, TimeZone, Utc};
use irl_verify::{
    compute_final_proof, compute_merkle_root, verify_bundle, BundleAnchor, BundleTrace,
    ProofBundle, Timestamp,
};
use sha2::{Digest, Sha256};

fn hash_hex(data: &[u8]) -> String {
    hex::encode(Sha256::digest(data))
}

fn ts_utc(hour: u32) -> DateTime<Utc> {
    Utc.with_ymd_and_hms(2026, 6, 1, hour, 0, 0).unwrap()
}

fn stamp(dt: DateTime<Utc>) -> Timestamp {
    Timestamp::from_unix(dt.timestamp(), dt.timestamp_subsec_nanos()).unwrap()
}

fn ts(hour: u32) -> Timestamp {
    stamp(ts_utc(hour))
}

fn make_trace(hour: u32, tx: Option<&str>) -> BundleTrace {
    let reasoning_hash = hash_hex(format!("snapshot-{hour}").as_bytes());
    let final_proof = tx.map(|t| compute_final_proof(&reasoning_hash, t));
    BundleTrace {
        trace_id: format!("trace-{hour}"),
        agent_id: None,
        reasoning_hash,
        exchange_tx_id: tx.map(String::from),
        final_proof,
        verification_status: if tx.is_some() { "MATCHED" } else { "PENDING" }.into(),
        valid_time: stamp(ts_utc(hour) - chrono::Duration::seconds(5)),
        txn_time: ts(hour),
    }
}

fn make_bundle(traces: Vec<BundleTrace>) -> ProofBundle {
    let leaves: Vec<String> = traces.iter().map(|t| t.reasoning_hash.clone()).collect();
    let root = hex::encode(compute_merkle_root(&leaves));
    ProofBundle {
        bundle_version: 1,
        generated_at: stamp(Utc::now()),
        engine_version: "test".into(),
        period_from: ts(0),
        period_to: ts(23),
        agent_id: None,
        spec: serde_json::Value::Object(serde_json::Map::new()),
        traces,
        anchors: vec![BundleAnchor {
            period_start: ts(0),
            period_end: ts(23),
            leaf_count: leaves.len() as i64,
            merkle_root: root,
            leaves,
            ots_receipt_base64: None,
        }],
    }
}

#[test]
fn valid_bundle_passes() {
    let bundle = make_bundle(vec![
        make_trace(1, Some("exch-1")),
        make_trace(2, Some("exch-2")),
        make_trace(3, None),
    ]);
    let report = verify_bundle(&bundle);
    assert!(report.passed(), "{report:?}");
    assert_eq!(report.final_proofs_checked, 2);
    assert_eq!(report.traces_anchored, 3);
}

#[test]
fn tampered_final_proof_fails() {
    let mut bundle = make_bundle(vec![make_trace(1, Some("exch-1"))]);
    bundle.traces[0].final_proof = Some(hash_hex(b"forged"));
    assert!(!verify_bundle(&bundle).passed());
}

#[test]
fn tampered_merkle_root_fails() {
    let mut bundle = make_bundle(vec![make_trace(1, Some("exch-1"))]);
    bundle.anchors[0].merkle_root = hash_hex(b"forged-root");
    assert!(!verify_bundle(&bundle).passed());
}

#[test]
fn deleted_leaf_breaks_inclusion_and_root() {
    let mut bundle = make_bundle(vec![
        make_trace(1, Some("exch-1")),
        make_trace(2, Some("exch-2")),
    ]);
    bundle.anchors[0].leaves.remove(0);
    let report = verify_bundle(&bundle);
    assert!(!report.passed());
    assert_eq!(report.inclusion_failures.len(), 1);
    assert!(!report.anchor_root_failures.is_empty());
}

#[test]
fn single_leaf_root_is_leaf_itself() {
    let leaf = hash_hex(b"only");
    let root = compute_merkle_root(std::slice::from_ref(&leaf));
    assert_eq!(hex::encode(root), leaf);
}

#[test]
fn odd_leaf_count_duplicates_last() {
    let a = hash_hex(b"a");
    let b = hash_hex(b"b");
    let c = hash_hex(b"c");
    let root = compute_merkle_root(&[a.clone(), b.clone(), c.clone()]);

    let pair = |x: &str, y: &str| -> [u8; 32] {
        let mut h = Sha256::new();
        h.update(hex::decode(x).unwrap());
        h.update(hex::decode(y).unwrap());
        h.finalize().into()
    };
    let ab = hex::encode(pair(&a, &b));
    let cc = hex::encode(pair(&c, &c));
    let expected = pair(&ab, &cc);
    assert_eq!(root, expected);
}
