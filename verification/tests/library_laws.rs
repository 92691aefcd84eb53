use chrono::{DateTime, TimeZone, Utc};
use irl_verify::cli::{
    ots_receipt_file, parse_args, report_lines, usage, ArgsError, Command,
};
use irl_verify::text::{decimal_string, same_text, signed_decimal_string};
use irl_verify::{
    compute_final_proof, compute_merkle_root, verify_bundle, BundleAnchor, BundleTrace,
    ProofBundle, Timestamp,
};
use sha2::{Digest, Sha256};

fn hash_hex(data: &[u8]) -> String {
    hex::encode(Sha256::digest(data))
}

fn ts_utc(hour: u32) -> DateTime<Utc> {
    Utc.with_ymd_and_hms(2026, 6, 1, hour, 0, 0).unwrap()
}

fn ts(hour: u32) -> Timestamp {
    let dt = ts_utc(hour);
    Timestamp::from_unix(dt.timestamp(), dt.timestamp_subsec_nanos()).unwrap()
}

fn trace(hour: u32, tx: Option<&str>) -> BundleTrace {
    let reasoning_hash = hash_hex(format!("snapshot-{hour}").as_bytes());
    let final_proof = tx.map(|t| compute_final_proof(&reasoning_hash, t));
    BundleTrace {
        trace_id: format!("trace-{hour}"),
        agent_id: None,
        reasoning_hash,
        exchange_tx_id: tx.map(String::from),
        final_proof,
        verification_status: "MATCHED".into(),
        valid_time: ts(hour),
        txn_time: ts(hour),
    }
}

fn anchor(start: u32, end: u32, leaves: Vec<String>) -> BundleAnchor {
    let root = hex::encode(compute_merkle_root(&leaves));
    BundleAnchor {
        period_start: ts(start),
        period_end: ts(end),
        leaf_count: leaves.len() as i64,
        merkle_root: root,
        leaves,
        ots_receipt_base64: None,
    }
}

fn bundle(traces: Vec<BundleTrace>, anchors: Vec<BundleAnchor>) -> ProofBundle {
    ProofBundle {
        bundle_version: 1,
        generated_at: ts(23),
        engine_version: "test".into(),
        period_from: ts(0),
        period_to: ts(23),
        agent_id: None,
        spec: serde_json::Value::Object(serde_json::Map::new()),
        traces,
        anchors,
    }
}

fn args(list: &[&str]) -> Vec<String> {
    list.iter().map(|s| s.to_string()).collect()
}

#[test]
fn final_proof_known_vector() {
    let proof = compute_final_proof("abc", "tx-42");
    assert_eq!(proof, "d10d3dd69c47db6cc86c3997035033ee84d512a38f23fd27d3aff6ca02e7cbb1");
    assert_eq!(proof.len(), 64);
}

#[test]
fn empty_leaf_list_has_zero_root() {
    assert_eq!(compute_merkle_root(&[]), [0u8; 32]);
}

#[test]
fn non_hex_leaf_is_hashed_first() {
    let root = compute_merkle_root(&["not-hex-leaf".to_string()]);
    assert_eq!(
        hex::encode(root),
        "f9e976dad18c5a409462aae3d8548425ee58e677e9c010aea3e69558e58dcbba"
    );
}

#[test]
fn upper_case_leaf_decodes_like_lower_case() {
    let leaf = hash_hex(b"x");
    let upper = leaf.to_uppercase();
    assert_eq!(compute_merkle_root(&[upper]), compute_merkle_root(&[leaf.clone()]));
    assert_eq!(hex::encode(compute_merkle_root(&[leaf.clone()])), leaf);
}

#[test]
fn two_equal_leaves_hash_together() {
    let leaf = hash_hex(b"x");
    let root = compute_merkle_root(&[leaf.clone(), leaf]);
    assert_eq!(
        hex::encode(root),
        "51db5605b506660c95aa7275d79271fb6d4072b76be0b4036d53af9d68752233"
    );
}

#[test]
fn odd_leaves_and_duplicated_last_share_a_root() {
    let leaves: Vec<String> = (0..5).map(|i| hash_hex(format!("leaf-{i}").as_bytes())).collect();
    let mut extended = leaves.clone();
    extended.push(leaves[4].clone());
    assert_eq!(compute_merkle_root(&leaves), compute_merkle_root(&extended));
}

#[test]
fn one_leaf_and_its_duplicate_differ() {
    let leaf = hash_hex(b"x");
    assert_ne!(
        compute_merkle_root(&[leaf.clone()]),
        compute_merkle_root(&[leaf.clone(), leaf])
    );
}

#[test]
fn timestamp_renders_and_orders() {
    let one = ts(1);
    assert_eq!(one.to_text(), "2026-06-01 01:00:00 UTC");
    assert!(ts(0).is_before(&one));
    assert!(!one.is_before(&ts(0)));
    assert!(!one.is_before(&ts(1)));
    let later = Timestamp::from_unix(one.unix_seconds(), 5).unwrap();
    assert!(one.is_before(&later));
    assert!(Timestamp::from_unix(0, 2_000_000_000).is_none());
    assert!(Timestamp::from_unix(i64::MAX, 0).is_none());
}

#[test]
fn decimal_and_text_helpers() {
    assert_eq!(decimal_string(0), "0");
    assert_eq!(decimal_string(1234567890), "1234567890");
    assert_eq!(signed_decimal_string(-42), "-42");
    assert_eq!(signed_decimal_string(i64::MIN), "-9223372036854775808");
    assert!(same_text("héllo", "héllo"));
    assert!(!same_text("hello", "hellO"));
    assert!(!same_text("a", "ab"));
}

#[test]
fn period_bounds_are_exclusive_then_inclusive() {
    let at_start = trace(0, None);
    let at_end = trace(23, None);
    let leaves = vec![at_start.reasoning_hash.clone(), at_end.reasoning_hash.clone()];
    let b = bundle(vec![at_start, at_end], vec![anchor(0, 23, leaves)]);
    let report = verify_bundle(&b);
    assert_eq!(report.traces_anchored, 1);
    assert_eq!(report.traces_unanchored, vec!["trace-0".to_string()]);
    assert!(report.passed());
}

#[test]
fn first_covering_anchor_decides_inclusion() {
    let t = trace(5, None);
    let b = bundle(
        vec![trace(5, None)],
        vec![anchor(0, 10, vec![]), anchor(4, 6, vec![t.reasoning_hash.clone()])],
    );
    let report = verify_bundle(&b);
    assert_eq!(report.inclusion_failures.len(), 1);
    assert_eq!(report.traces_anchored, 0);
}

#[test]
fn every_trace_is_accounted_once() {
    let a = trace(2, Some("exch-2"));
    let b_missing = trace(3, None);
    let c_late = trace(20, None);
    let leaves = vec![a.reasoning_hash.clone()];
    let b = bundle(vec![a, b_missing, c_late], vec![anchor(0, 10, leaves)]);
    let report = verify_bundle(&b);
    assert_eq!(
        report.traces_anchored + report.inclusion_failures.len() + report.traces_unanchored.len(),
        3
    );
    assert_eq!(report.traces_anchored, 1);
    assert_eq!(report.traces_unanchored, vec!["trace-20".to_string()]);
    assert!(!report.passed());
}

#[test]
fn failure_messages_are_exact() {
    let mut t = trace(1, Some("exch-1"));
    t.final_proof = Some("bad".into());
    let recomputed = compute_final_proof(&t.reasoning_hash, "exch-1");
    let mut a = anchor(0, 23, vec![]);
    a.leaf_count = 5;
    a.merkle_root = "00".into();
    let zero_root = hex::encode([0u8; 32]);
    let b = bundle(vec![t], vec![a]);
    let report = verify_bundle(&b);
    assert_eq!(
        report.final_proof_failures,
        vec![format!("trace trace-1: claimed final_proof bad != recomputed {recomputed}")]
    );
    assert_eq!(
        report.anchor_root_failures,
        vec![
            "anchor 2026-06-01 00:00:00 UTC..2026-06-01 23:00:00 UTC: leaf_count 5 != 0 leaves supplied"
                .to_string(),
            format!(
                "anchor 2026-06-01 00:00:00 UTC..2026-06-01 23:00:00 UTC: claimed root 00 != recomputed {zero_root}"
            ),
        ]
    );
    assert_eq!(
        report.inclusion_failures,
        vec!["trace trace-1: txn_time 2026-06-01 01:00:00 UTC falls in anchor 2026-06-01 00:00:00 UTC..2026-06-01 23:00:00 UTC but reasoning_hash is absent from its leaf list".to_string()]
    );
    assert_eq!(report.final_proofs_checked, 1);
    assert_eq!(report.anchors_checked, 1);
}

#[test]
fn negative_leaf_count_fails() {
    let mut a = anchor(0, 23, vec![]);
    a.leaf_count = -1;
    let report = verify_bundle(&bundle(vec![], vec![a]));
    assert_eq!(report.anchor_root_failures.len(), 1);
    assert!(report.anchor_root_failures[0].contains("leaf_count -1 != 0"));
}

#[test]
fn receipts_are_counted() {
    let mut a = anchor(0, 23, vec![]);
    a.ots_receipt_base64 = Some("aGVsbG8=".into());
    let report = verify_bundle(&bundle(vec![], vec![a, anchor(23, 23, vec![])]));
    assert_eq!(report.anchors_with_ots_receipt, 1);
    assert_eq!(report.anchors_checked, 2);
    assert!(report.passed());
}

#[test]
fn command_line_parsing() {
    match parse_args(&args(&["irl-verify", "b.json"])).unwrap() {
        Command::Run(a) => {
            assert_eq!(a.bundle_path, "b.json");
            assert!(a.dump_ots_dir.is_none());
            assert!(!a.json_output);
        }
        Command::Help => panic!("expected a run"),
    }
    match parse_args(&args(&["irl-verify", "--json", "b.json", "--dump-ots", "out"])).unwrap() {
        Command::Run(a) => {
            assert_eq!(a.bundle_path, "b.json");
            assert_eq!(a.dump_ots_dir.as_deref(), Some("out"));
            assert!(a.json_output);
        }
        Command::Help => panic!("expected a run"),
    }
    assert!(matches!(parse_args(&args(&["irl-verify", "-h"])), Ok(Command::Help)));
    assert!(matches!(
        parse_args(&args(&["irl-verify", "b.json", "--help", "extra"])),
        Ok(Command::Help)
    ));
    let err = parse_args(&args(&["irl-verify", "b.json", "extra", "--help"])).unwrap_err();
    assert_eq!(err.message(), "unexpected argument: extra");
    let err = parse_args(&args(&["irl-verify", "b.json", "--dump-ots"])).unwrap_err();
    assert!(matches!(err, ArgsError::MissingDumpDir));
    assert_eq!(err.message(), "--dump-ots requires a directory argument");
    let err = parse_args(&args(&["irl-verify", "--json"])).unwrap_err();
    assert_eq!(err.message(), "missing bundle path (see --help)");
    assert_eq!(usage(), "Usage: irl-verify <bundle.json> [--dump-ots <dir>] [--json]");
}

#[test]
fn report_lines_of_a_passing_bundle() {
    let t = trace(1, Some("exch-1"));
    let leaves = vec![t.reasoning_hash.clone()];
    let mut a = anchor(0, 23, leaves);
    a.ots_receipt_base64 = Some("aGVsbG8=".into());
    let b = bundle(vec![t], vec![a]);
    let report = verify_bundle(&b);
    let lines = report_lines(&report, &b);
    let expected = vec![
        "IRL proof bundle verification",
        "  bundle version : 1",
        "  engine version : test",
        "  period         : 2026-06-01 00:00:00 UTC .. 2026-06-01 23:00:00 UTC",
        "  traces         : 1",
        "",
        "  final_proof    : 1 checked, 0 failed",
        "  merkle roots   : 1 recomputed, 0 failed",
        "  inclusion      : 1 anchored, 0 failed, 0 not yet anchored",
        "  OTS receipts   : 1/1 anchors carry a receipt",
        "",
        "PASS — all offline cryptographic checks succeeded.",
        "Next: verify Bitcoin anchoring with the OpenTimestamps client:",
        "  irl-verify <bundle.json> --dump-ots ./ots",
        "  ots verify ./ots/anchor-0.ots",
    ];
    assert_eq!(lines, expected);
}

#[test]
fn report_lines_of_a_failing_bundle() {
    let mut t = trace(1, Some("exch-1"));
    t.final_proof = Some("bad".into());
    let late = trace(23, None);
    let b = bundle(vec![t, late], vec![anchor(0, 10, vec![])]);
    let report = verify_bundle(&b);
    let lines = report_lines(&report, &b);
    assert!(lines.iter().any(|l| l.starts_with("  FAIL: trace trace-1: claimed final_proof bad")));
    assert!(lines.contains(&"  note: 1 trace(s) sealed after the most recent anchor cycle; re-export after the next daily anchor to cover them".to_string()));
    assert_eq!(lines.last().unwrap(), "FAIL — the bundle is inconsistent. See failures above.");
}

#[test]
fn receipt_files_decode_base64() {
    let mut a = anchor(0, 23, vec![]);
    assert!(ots_receipt_file(&a, 0, "out").is_none());
    a.ots_receipt_base64 = Some("aGVsbG8=".into());
    let file = ots_receipt_file(&a, 3, "out").unwrap().unwrap();
    assert_eq!(file.contents, b"hello".to_vec());
    assert_eq!(file.path, "out/anchor-3.ots");
    assert_eq!(
        file.line,
        format!(
            "  wrote out/anchor-3.ots  (root: {}  period: 2026-06-01 00:00:00 UTC .. 2026-06-01 23:00:00 UTC)",
            a.merkle_root
        )
    );
    a.ots_receipt_base64 = Some("!!not base64".into());
    let err = ots_receipt_file(&a, 2, "out").unwrap().unwrap_err();
    assert_eq!(err.index, 2);
    assert_eq!(err.message(), "anchor 2: invalid base64 OTS receipt");
}

#[test]
fn binding_preimage_joins_with_separator() {
    let bytes = irl_verify::hashing::binding_preimage_bytes("abc", "tx-42");
    assert_eq!(bytes, b"abc||tx-42".to_vec());
    let bytes = irl_verify::hashing::binding_preimage_bytes("", "é");
    assert_eq!(bytes, "||é".as_bytes().to_vec());
}
