//! The three offline checks of a bundle and the report they produce.

use crate::bundle::{BundleAnchor, BundleTrace, ProofBundle};
use crate::codec::{hex_encode, hex_lower};
use crate::hashing::{compute_final_proof, compute_merkle_root, final_proof_of, merkle_root_of, texts_of};
use crate::time::{instant_before, Timestamp};
use crate::text::{decimal_digits, decimal_string, signed_decimal, signed_decimal_string};
use vstd::prelude::*;
use vstd::string::StringExecFns;

verus! {

/// The outcome of running every check on a bundle.
#[derive(Debug)]
pub struct VerificationReport {
    pub final_proofs_checked: usize,
    pub final_proof_failures: Vec<String>,
    pub anchors_checked: usize,
    pub anchor_root_failures: Vec<String>,
    pub anchors_with_ots_receipt: usize,
    pub traces_anchored: usize,
    /// Trace falls inside an anchor period but its hash is absent from the
    /// leaf list — evidence of tampering. Hard failure.
    pub inclusion_failures: Vec<String>,
    /// Trace not covered by any anchor in the bundle (e.g. sealed after the
    /// most recent anchor cycle). Warning, not failure.
    pub traces_unanchored: Vec<String>,
}

impl VerificationReport {
    /// No hard failure: every list of failures is empty.
    pub open spec fn passes(self) -> bool {
        &&& self.final_proof_failures@.len() == 0
        &&& self.anchor_root_failures@.len() == 0
        &&& self.inclusion_failures@.len() == 0
    }

    /// Whether the bundle passed: no binding, root or inclusion failure.
    /// Unanchored traces are warnings and do not count.
    pub fn passed(&self) -> (ok: bool)
        ensures
            ok == self.passes(),
            ok == (self.final_proof_failures@.len() == 0 && self.anchor_root_failures@.len() == 0
                && self.inclusion_failures@.len() == 0),
    {
        self.final_proof_failures.len() == 0 && self.anchor_root_failures.len() == 0
            && self.inclusion_failures.len() == 0
    }
}

impl Default for VerificationReport {
    fn default() -> (r: Self)
        ensures
            r.final_proofs_checked == 0,
            r.final_proof_failures@.len() == 0,
            r.anchors_checked == 0,
            r.anchor_root_failures@.len() == 0,
            r.anchors_with_ots_receipt == 0,
            r.traces_anchored == 0,
            r.inclusion_failures@.len() == 0,
            r.traces_unanchored@.len() == 0,
    {
        VerificationReport {
            final_proofs_checked: 0,
            final_proof_failures: Vec::new(),
            anchors_checked: 0,
            anchor_root_failures: Vec::new(),
            anchors_with_ots_receipt: 0,
            traces_anchored: 0,
            inclusion_failures: Vec::new(),
            traces_unanchored: Vec::new(),
        }
    }
}

// ── Binding (§4.1) ──────────────────────────────────────────────────────────

/// A trace that names both an exchange transaction and a claimed proof.
pub open spec fn is_bound(t: BundleTrace) -> bool {
    t.exchange_tx_id is Some && t.final_proof is Some
}

/// The proof recomputed for a bound trace.
pub open spec fn recomputed_proof(t: BundleTrace) -> Seq<char> {
    final_proof_of(t.reasoning_hash@, t.exchange_tx_id->0@)
}

/// A bound trace whose claimed proof differs from the recomputed one.
pub open spec fn binding_broken(t: BundleTrace) -> bool {
    is_bound(t) && t.final_proof->0@ != recomputed_proof(t)
}

/// The failure line for a trace whose claimed proof was not reproduced.
pub open spec fn binding_message(trace_id: Seq<char>, claimed: Seq<char>, recomputed: Seq<char>) -> Seq<char> {
    "trace "@ + trace_id + ": claimed final_proof "@ + claimed + " != recomputed "@ + recomputed
}

/// How many traces are bound.
pub open spec fn bound_count(traces: Seq<BundleTrace>) -> nat
    decreases traces.len(),
{
    if traces.len() == 0 {
        0
    } else {
        bound_count(traces.drop_last()) + if is_bound(traces.last()) {
            1nat
        } else {
            0nat
        }
    }
}

/// The binding failure lines, one per broken trace, in trace order.
pub open spec fn binding_failures(traces: Seq<BundleTrace>) -> Seq<Seq<char>>
    decreases traces.len(),
{
    if traces.len() == 0 {
        seq![]
    } else {
        let t = traces.last();
        binding_failures(traces.drop_last()) + if binding_broken(t) {
            seq![binding_message(t.trace_id@, t.final_proof->0@, recomputed_proof(t))]
        } else {
            seq![]
        }
    }
}

fn binding_failure_message(trace_id: &String, claimed: &String, recomputed: &String) -> (m: String)
    ensures
        m@ == binding_message(trace_id@, claimed@, recomputed@),
{
    let mut m = String::new();
    m.append("trace ");
    m.append(trace_id.as_str());
    m.append(": claimed final_proof ");
    m.append(claimed.as_str());
    m.append(" != recomputed ");
    m.append(recomputed.as_str());
    assert(m@ =~= binding_message(trace_id@, claimed@, recomputed@));
    m
}

fn check_bindings(traces: &Vec<BundleTrace>) -> (r: (usize, Vec<String>))
    ensures
        r.0 == bound_count(traces@),
        texts_of(r.1@) == binding_failures(traces@),
{
    let mut checked: usize = 0;
    let mut failures: Vec<String> = Vec::new();
    let n = traces.len();
    for i in 0..n
        invariant
            n == traces@.len(),
            checked <= i,
            checked == bound_count(traces@.subrange(0, i as int)),
            texts_of(failures@) == binding_failures(traces@.subrange(0, i as int)),
    {
        let ghost prefix = traces@.subrange(0, i + 1);
        assert(prefix.drop_last() =~= traces@.subrange(0, i as int));
        assert(prefix.last() == traces@[i as int]);
        let t = &traces[i];
        match (&t.exchange_tx_id, &t.final_proof) {
            (Some(tx_id), Some(claimed)) => {
                checked = checked + 1;
                let recomputed = compute_final_proof(t.reasoning_hash.as_str(), tx_id.as_str());
                if !(recomputed == *claimed) {
                    let m = binding_failure_message(&t.trace_id, claimed, &recomputed);
                    let ghost before = failures@;
                    failures.push(m);
                    assert(texts_of(failures@) =~= texts_of(before).push(m@));
                }
            },
            _ => {},
        }
    }
    assert(traces@.subrange(0, n as int) =~= traces@);
    (checked, failures)
}

// ── Anchor roots (§4.2) ─────────────────────────────────────────────────────

/// The anchor's claimed leaf count equals the number of leaves it lists.
pub open spec fn leaf_count_matches(a: BundleAnchor) -> bool {
    a.leaves@.len() == a.leaf_count
}

/// The lower-case hex of the root recomputed from the anchor's leaves.
pub open spec fn recomputed_root(a: BundleAnchor) -> Seq<char> {
    hex_lower(merkle_root_of(texts_of(a.leaves@)))
}

/// The anchor's claimed root equals the recomputed one.
pub open spec fn root_matches(a: BundleAnchor) -> bool {
    a.merkle_root@ == recomputed_root(a)
}

/// `anchor <start>..<end>`, the head of every anchor failure line.
pub open spec fn anchor_label(a: BundleAnchor) -> Seq<char> {
    "anchor "@ + a.period_start.rendered() + ".."@ + a.period_end.rendered()
}

/// The failure line for an anchor whose leaf count is wrong.
pub open spec fn leaf_count_message(a: BundleAnchor) -> Seq<char> {
    anchor_label(a) + ": leaf_count "@ + signed_decimal(a.leaf_count as int) + " != "@
        + decimal_digits(a.leaves@.len()) + " leaves supplied"@
}

/// The failure line for an anchor whose root is not reproduced.
pub open spec fn root_message(a: BundleAnchor) -> Seq<char> {
    anchor_label(a) + ": claimed root "@ + a.merkle_root@ + " != recomputed "@ + recomputed_root(a)
}

/// The failure lines of one anchor: leaf count first, then root.
pub open spec fn anchor_failures(a: BundleAnchor) -> Seq<Seq<char>> {
    (if leaf_count_matches(a) {
        seq![]
    } else {
        seq![leaf_count_message(a)]
    }) + (if root_matches(a) {
        seq![]
    } else {
        seq![root_message(a)]
    })
}

/// The failure lines of all anchors, in anchor order.
pub open spec fn root_failures(anchors: Seq<BundleAnchor>) -> Seq<Seq<char>>
    decreases anchors.len(),
{
    if anchors.len() == 0 {
        seq![]
    } else {
        root_failures(anchors.drop_last()) + anchor_failures(anchors.last())
    }
}

/// How many anchors carry an OpenTimestamps receipt.
pub open spec fn receipt_count(anchors: Seq<BundleAnchor>) -> nat
    decreases anchors.len(),
{
    if anchors.len() == 0 {
        0
    } else {
        receipt_count(anchors.drop_last()) + if anchors.last().ots_receipt_base64 is Some {
            1nat
        } else {
            0nat
        }
    }
}

fn anchor_label_text(a: &BundleAnchor) -> (m: String)
    ensures
        m@ == anchor_label(*a),
{
    let mut m = String::new();
    m.append("anchor ");
    let start = a.period_start.to_text();
    m.append(start.as_str());
    m.append("..");
    let end = a.period_end.to_text();
    m.append(end.as_str());
    assert(m@ =~= anchor_label(*a));
    m
}

fn leaf_count_failure_message(a: &BundleAnchor) -> (m: String)
    ensures
        m@ == leaf_count_message(*a),
{
    let mut m = anchor_label_text(a);
    m.append(": leaf_count ");
    let claimed = signed_decimal_string(a.leaf_count);
    m.append(claimed.as_str());
    m.append(" != ");
    let supplied = decimal_string(a.leaves.len() as u64);
    m.append(supplied.as_str());
    m.append(" leaves supplied");
    assert(m@ =~= leaf_count_message(*a));
    m
}

fn root_failure_message(a: &BundleAnchor, recomputed: &String) -> (m: String)
    requires
        recomputed@ == recomputed_root(*a),
    ensures
        m@ == root_message(*a),
{
    let mut m = anchor_label_text(a);
    m.append(": claimed root ");
    m.append(a.merkle_root.as_str());
    m.append(" != recomputed ");
    m.append(recomputed.as_str());
    assert(m@ =~= root_message(*a));
    m
}

fn check_anchors(anchors: &Vec<BundleAnchor>) -> (r: (usize, usize, Vec<String>))
    ensures
        r.0 == anchors@.len(),
        r.1 == receipt_count(anchors@),
        texts_of(r.2@) == root_failures(anchors@),
{
    let mut checked: usize = 0;
    let mut receipts: usize = 0;
    let mut failures: Vec<String> = Vec::new();
    let n = anchors.len();
    for i in 0..n
        invariant
            n == anchors@.len(),
            checked == i,
            receipts <= i,
            receipts == receipt_count(anchors@.subrange(0, i as int)),
            texts_of(failures@) == root_failures(anchors@.subrange(0, i as int)),
    {
        let ghost prefix = anchors@.subrange(0, i + 1);
        assert(prefix.drop_last() =~= anchors@.subrange(0, i as int));
        assert(prefix.last() == anchors@[i as int]);
        let ghost before = texts_of(failures@);
        let a = &anchors[i];
        checked = checked + 1;
        if a.ots_receipt_base64.is_some() {
            receipts = receipts + 1;
        }
        let count_ok = a.leaf_count >= 0 && a.leaves.len() as u64 == a.leaf_count as u64;
        let ghost after_count = if count_ok {
            before
        } else {
            before.push(leaf_count_message(*a))
        };
        if !count_ok {
            let m = leaf_count_failure_message(a);
            failures.push(m);
        }
        assert(texts_of(failures@) =~= after_count);
        let root = compute_merkle_root(a.leaves.as_slice());
        let recomputed = hex_encode(root.as_slice());
        if !(recomputed == a.merkle_root) {
            let m = root_failure_message(a, &recomputed);
            failures.push(m);
        }
        assert(texts_of(failures@) =~= before + anchor_failures(*a));
    }
    assert(anchors@.subrange(0, n as int) =~= anchors@);
    (checked, receipts, failures)
}

// ── Inclusion (§4.3) ────────────────────────────────────────────────────────

/// The anchor's period covers the instant: `period_start < t <= period_end`.
pub open spec fn covers(a: BundleAnchor, t: Timestamp) -> bool {
    instant_before(a.period_start, t) && !instant_before(a.period_end, t)
}

/// `i` is the first anchor whose period covers `t`.
pub open spec fn first_covering(anchors: Seq<BundleAnchor>, t: Timestamp, i: int) -> bool {
    &&& 0 <= i < anchors.len()
    &&& covers(anchors[i], t)
    &&& forall|j: int| 0 <= j < i ==> !covers(#[trigger] anchors[j], t)
}

/// Some anchor's period covers `t`.
pub open spec fn is_covered(anchors: Seq<BundleAnchor>, t: Timestamp) -> bool {
    exists|i: int| 0 <= i < anchors.len() && covers(#[trigger] anchors[i], t)
}

/// The index of the first anchor covering `t` (meaningful when covered).
pub open spec fn covering_anchor(anchors: Seq<BundleAnchor>, t: Timestamp) -> int {
    choose|i: int| first_covering(anchors, t, i)
}

/// The anchor lists `hash` among its leaves.
pub open spec fn leaf_listed(a: BundleAnchor, hash: Seq<char>) -> bool {
    texts_of(a.leaves@).contains(hash)
}

/// The trace's covering anchor lists its reasoning hash.
pub open spec fn trace_anchored(anchors: Seq<BundleAnchor>, t: BundleTrace) -> bool {
    is_covered(anchors, t.txn_time) && leaf_listed(
        anchors[covering_anchor(anchors, t.txn_time)],
        t.reasoning_hash@,
    )
}

/// The trace falls in an anchor's period but that anchor does not list it.
pub open spec fn trace_missing(anchors: Seq<BundleAnchor>, t: BundleTrace) -> bool {
    is_covered(anchors, t.txn_time) && !leaf_listed(
        anchors[covering_anchor(anchors, t.txn_time)],
        t.reasoning_hash@,
    )
}

/// The failure line for a trace missing from the anchor that covers it.
pub open spec fn inclusion_message(t: BundleTrace, a: BundleAnchor) -> Seq<char> {
    "trace "@ + t.trace_id@ + ": txn_time "@ + t.txn_time.rendered() + " falls in "@
        + anchor_label(a) + " but reasoning_hash is absent from its leaf list"@
}

/// How many traces are anchored.
pub open spec fn anchored_count(traces: Seq<BundleTrace>, anchors: Seq<BundleAnchor>) -> nat
    decreases traces.len(),
{
    if traces.len() == 0 {
        0
    } else {
        anchored_count(traces.drop_last(), anchors) + if trace_anchored(anchors, traces.last()) {
            1nat
        } else {
            0nat
        }
    }
}

/// The inclusion failure lines, one per missing trace, in trace order.
pub open spec fn inclusion_failures(traces: Seq<BundleTrace>, anchors: Seq<BundleAnchor>) -> Seq<
    Seq<char>,
>
    decreases traces.len(),
{
    if traces.len() == 0 {
        seq![]
    } else {
        let t = traces.last();
        inclusion_failures(traces.drop_last(), anchors) + if trace_missing(anchors, t) {
            seq![inclusion_message(t, anchors[covering_anchor(anchors, t.txn_time)])]
        } else {
            seq![]
        }
    }
}

/// The ids of the traces that no anchor covers, in trace order.
pub open spec fn unanchored_ids(traces: Seq<BundleTrace>, anchors: Seq<BundleAnchor>) -> Seq<
    Seq<char>,
>
    decreases traces.len(),
{
    if traces.len() == 0 {
        seq![]
    } else {
        let t = traces.last();
        unanchored_ids(traces.drop_last(), anchors) + if is_covered(anchors, t.txn_time) {
            seq![]
        } else {
            seq![t.trace_id@]
        }
    }
}

proof fn lemma_first_covering_unique(anchors: Seq<BundleAnchor>, t: Timestamp, i: int)
    requires
        first_covering(anchors, t, i),
    ensures
        is_covered(anchors, t),
        covering_anchor(anchors, t) == i,
{
    assert(covers(anchors[i], t));
    let j = covering_anchor(anchors, t);
    assert(first_covering(anchors, t, j));
    if j < i {
        assert(!covers(anchors[j], t));
    } else if i < j {
        assert(!covers(anchors[i], t));
    }
}

fn covering_index(anchors: &Vec<BundleAnchor>, t: &Timestamp) -> (r: Option<usize>)
    ensures
        match r {
            Some(i) => first_covering(anchors@, *t, i as int),
            None => !is_covered(anchors@, *t),
        },
{
    let n = anchors.len();
    for i in 0..n
        invariant
            n == anchors@.len(),
            forall|j: int| 0 <= j < i ==> !covers(#[trigger] anchors@[j], *t),
    {
        let a = &anchors[i];
        if a.period_start.is_before(t) && !a.period_end.is_before(t) {
            return Some(i);
        }
    }
    None
}

fn leaves_contain(leaves: &Vec<String>, hash: &String) -> (r: bool)
    ensures
        r == texts_of(leaves@).contains(hash@),
{
    let n = leaves.len();
    for i in 0..n
        invariant
            n == leaves@.len(),
            forall|j: int| 0 <= j < i ==> leaves@[j]@ != hash@,
    {
        if leaves[i] == *hash {
            assert(texts_of(leaves@)[i as int] == hash@);
            return true;
        }
    }
    assert forall|j: int| 0 <= j < texts_of(leaves@).len() implies texts_of(leaves@)[j] != hash@ by {
        assert(texts_of(leaves@)[j] == leaves@[j]@);
    }
    false
}

fn inclusion_failure_message(t: &BundleTrace, a: &BundleAnchor) -> (m: String)
    ensures
        m@ == inclusion_message(*t, *a),
{
    let mut m = String::new();
    m.append("trace ");
    m.append(t.trace_id.as_str());
    m.append(": txn_time ");
    let when = t.txn_time.to_text();
    m.append(when.as_str());
    m.append(" falls in ");
    let label = anchor_label_text(a);
    m.append(label.as_str());
    m.append(" but reasoning_hash is absent from its leaf list");
    assert(m@ =~= inclusion_message(*t, *a));
    m
}

fn check_inclusion(traces: &Vec<BundleTrace>, anchors: &Vec<BundleAnchor>) -> (r: (
    usize,
    Vec<String>,
    Vec<String>,
))
    ensures
        r.0 == anchored_count(traces@, anchors@),
        texts_of(r.1@) == inclusion_failures(traces@, anchors@),
        texts_of(r.2@) == unanchored_ids(traces@, anchors@),
{
    let mut anchored: usize = 0;
    let mut failures: Vec<String> = Vec::new();
    let mut unanchored: Vec<String> = Vec::new();
    let n = traces.len();
    for i in 0..n
        invariant
            n == traces@.len(),
            anchored <= i,
            anchored == anchored_count(traces@.subrange(0, i as int), anchors@),
            texts_of(failures@) == inclusion_failures(traces@.subrange(0, i as int), anchors@),
            texts_of(unanchored@) == unanchored_ids(traces@.subrange(0, i as int), anchors@),
    {
        let ghost prefix = traces@.subrange(0, i + 1);
        assert(prefix.drop_last() =~= traces@.subrange(0, i as int));
        assert(prefix.last() == traces@[i as int]);
        let ghost failures_before = texts_of(failures@);
        let ghost unanchored_before = texts_of(unanchored@);
        let t = &traces[i];
        match covering_index(anchors, &t.txn_time) {
            Some(idx) => {
                proof {
                    lemma_first_covering_unique(anchors@, t.txn_time, idx as int);
                }
                let a = &anchors[idx];
                if leaves_contain(&a.leaves, &t.reasoning_hash) {
                    anchored = anchored + 1;
                } else {
                    let m = inclusion_failure_message(t, a);
                    failures.push(m);
                    assert(texts_of(failures@) =~= failures_before.push(m@));
                }
            },
            None => {
                let id = t.trace_id.clone();
                unanchored.push(id);
                assert(texts_of(unanchored@) =~= unanchored_before.push(id@));
            },
        }
    }
    assert(traces@.subrange(0, n as int) =~= traces@);
    (anchored, failures, unanchored)
}

// ── The whole run (§4) ──────────────────────────────────────────────────────

impl VerificationReport {
    /// The report records exactly what the three checks find on `b`.
    pub open spec fn describes(self, b: ProofBundle) -> bool {
        &&& self.final_proofs_checked == bound_count(b.traces@)
        &&& texts_of(self.final_proof_failures@) == binding_failures(b.traces@)
        &&& self.anchors_checked == b.anchors@.len()
        &&& texts_of(self.anchor_root_failures@) == root_failures(b.anchors@)
        &&& self.anchors_with_ots_receipt == receipt_count(b.anchors@)
        &&& self.traces_anchored == anchored_count(b.traces@, b.anchors@)
        &&& texts_of(self.inclusion_failures@) == inclusion_failures(b.traces@, b.anchors@)
        &&& texts_of(self.traces_unanchored@) == unanchored_ids(b.traces@, b.anchors@)
    }
}

/// Run all offline checks against a bundle.
pub fn verify_bundle(bundle: &ProofBundle) -> (report: VerificationReport)
    ensures
        report.final_proofs_checked == bound_count(bundle.traces@),
        texts_of(report.final_proof_failures@) == binding_failures(bundle.traces@),
        report.anchors_checked == bundle.anchors@.len(),
        texts_of(report.anchor_root_failures@) == root_failures(bundle.anchors@),
        report.anchors_with_ots_receipt == receipt_count(bundle.anchors@),
        report.traces_anchored == anchored_count(bundle.traces@, bundle.anchors@),
        texts_of(report.inclusion_failures@) == inclusion_failures(bundle.traces@, bundle.anchors@),
        texts_of(report.traces_unanchored@) == unanchored_ids(bundle.traces@, bundle.anchors@),
        report.describes(*bundle),
{
    let (final_proofs_checked, final_proof_failures) = check_bindings(&bundle.traces);
    let (anchors_checked, anchors_with_ots_receipt, anchor_root_failures) = check_anchors(
        &bundle.anchors,
    );
    let (traces_anchored, inclusion_failures, traces_unanchored) = check_inclusion(
        &bundle.traces,
        &bundle.anchors,
    );
    VerificationReport {
        final_proofs_checked,
        final_proof_failures,
        anchors_checked,
        anchor_root_failures,
        anchors_with_ots_receipt,
        traces_anchored,
        inclusion_failures,
        traces_unanchored,
    }
}

// ── Laws of the checks ──────────────────────────────────────────────────────

/// Every check of §4 holds on the bundle: each bound trace's claimed proof
/// is reproduced, each anchor's leaf count and root are right, and no trace
/// is missing from the anchor that covers it.
pub open spec fn bundle_consistent(b: ProofBundle) -> bool {
    &&& forall|i: int| 0 <= i < b.traces@.len() ==> !binding_broken(#[trigger] b.traces@[i])
    &&& forall|k: int|
        0 <= k < b.anchors@.len() ==> leaf_count_matches(#[trigger] b.anchors@[k]) && root_matches(
            b.anchors@[k],
        )
    &&& forall|i: int|
        0 <= i < b.traces@.len() ==> !trace_missing(b.anchors@, #[trigger] b.traces@[i])
}

proof fn lemma_binding_failures_empty(traces: Seq<BundleTrace>)
    ensures
        binding_failures(traces).len() == 0 <==> forall|i: int|
            0 <= i < traces.len() ==> !binding_broken(#[trigger] traces[i]),
    decreases traces.len(),
{
    if traces.len() > 0 {
        let rest = traces.drop_last();
        lemma_binding_failures_empty(rest);
        assert forall|i: int| 0 <= i < rest.len() implies rest[i] == traces[i] by {}
        if binding_failures(traces).len() == 0 {
            assert forall|i: int| 0 <= i < traces.len() implies !binding_broken(
                #[trigger] traces[i],
            ) by {
                if i < rest.len() {
                    assert(rest[i] == traces[i]);
                }
            }
        } else {
            if binding_failures(rest).len() == 0 {
                assert(binding_broken(traces[traces.len() - 1]));
            } else {
                let j = choose|j: int| 0 <= j < rest.len() && binding_broken(#[trigger] rest[j]);
                assert(binding_broken(traces[j]));
            }
        }
    }
}

proof fn lemma_root_failures_empty(anchors: Seq<BundleAnchor>)
    ensures
        root_failures(anchors).len() == 0 <==> forall|k: int|
            0 <= k < anchors.len() ==> leaf_count_matches(#[trigger] anchors[k]) && root_matches(
                anchors[k],
            ),
    decreases anchors.len(),
{
    if anchors.len() > 0 {
        let rest = anchors.drop_last();
        lemma_root_failures_empty(rest);
        if root_failures(anchors).len() == 0 {
            assert forall|k: int| 0 <= k < anchors.len() implies leaf_count_matches(
                #[trigger] anchors[k],
            ) && root_matches(anchors[k]) by {
                if k < rest.len() {
                    assert(rest[k] == anchors[k]);
                }
            }
        } else {
            if root_failures(rest).len() == 0 {
                let a = anchors[anchors.len() - 1];
                assert(!(leaf_count_matches(a) && root_matches(a)));
            } else {
                let j = choose|j: int|
                    0 <= j < rest.len() && !(leaf_count_matches(#[trigger] rest[j])
                        && root_matches(rest[j]));
                assert(rest[j] == anchors[j]);
            }
        }
    }
}

proof fn lemma_inclusion_failures_empty(traces: Seq<BundleTrace>, anchors: Seq<BundleAnchor>)
    ensures
        inclusion_failures(traces, anchors).len() == 0 <==> forall|i: int|
            0 <= i < traces.len() ==> !trace_missing(anchors, #[trigger] traces[i]),
    decreases traces.len(),
{
    if traces.len() > 0 {
        let rest = traces.drop_last();
        lemma_inclusion_failures_empty(rest, anchors);
        if inclusion_failures(traces, anchors).len() == 0 {
            assert forall|i: int| 0 <= i < traces.len() implies !trace_missing(
                anchors,
                #[trigger] traces[i],
            ) by {
                if i < rest.len() {
                    assert(rest[i] == traces[i]);
                }
            }
        } else {
            if inclusion_failures(rest, anchors).len() == 0 {
                assert(trace_missing(anchors, traces[traces.len() - 1]));
            } else {
                let j = choose|j: int|
                    0 <= j < rest.len() && trace_missing(anchors, #[trigger] rest[j]);
                assert(rest[j] == traces[j]);
            }
        }
    }
}

/// A report of the checks passes exactly when every check of §4 holds on
/// the bundle: a passing bundle has every bound trace's proof reproduced,
/// every anchor root and leaf count right, and no trace missing from the
/// anchor that covers it; any single failure makes it fail.
pub proof fn lemma_report_passes_iff_consistent(b: ProofBundle, report: VerificationReport)
    requires
        report.describes(b),
    ensures
        report.passes() <==> bundle_consistent(b),
{
    lemma_binding_failures_empty(b.traces@);
    lemma_root_failures_empty(b.anchors@);
    lemma_inclusion_failures_empty(b.traces@, b.anchors@);
    assert(report.final_proof_failures@.len() == binding_failures(b.traces@).len());
    assert(report.anchor_root_failures@.len() == root_failures(b.anchors@).len());
    assert(report.inclusion_failures@.len() == inclusion_failures(b.traces@, b.anchors@).len());
}

/// Every trace is accounted for exactly once by the inclusion check: it is
/// anchored, missing from its covering anchor, or covered by no anchor.
pub proof fn lemma_inclusion_accounts_every_trace(
    traces: Seq<BundleTrace>,
    anchors: Seq<BundleAnchor>,
)
    ensures
        anchored_count(traces, anchors) + inclusion_failures(traces, anchors).len()
            + unanchored_ids(traces, anchors).len() == traces.len(),
    decreases traces.len(),
{
    if traces.len() > 0 {
        lemma_inclusion_accounts_every_trace(traces.drop_last(), anchors);
    }
}

/// At most the bound traces are checked for binding, and at most the
/// checked ones fail.
pub proof fn lemma_binding_counts(traces: Seq<BundleTrace>)
    ensures
        binding_failures(traces).len() <= bound_count(traces) <= traces.len(),
    decreases traces.len(),
{
    if traces.len() > 0 {
        lemma_binding_counts(traces.drop_last());
    }
}

/// An anchor contributes at most two failure lines, so the root check
/// reports at most twice as many failures as there are anchors, and no
/// more receipts than anchors.
pub proof fn lemma_anchor_counts(anchors: Seq<BundleAnchor>)
    ensures
        root_failures(anchors).len() <= 2 * anchors.len(),
        receipt_count(anchors) <= anchors.len(),
    decreases anchors.len(),
{
    if anchors.len() > 0 {
        lemma_anchor_counts(anchors.drop_last());
    }
}

/// A trace that no anchor covers is a warning only: it is neither anchored
/// nor missing, so it never makes a bundle fail.
pub proof fn lemma_uncovered_trace_never_fails(anchors: Seq<BundleAnchor>, t: BundleTrace)
    requires
        !is_covered(anchors, t.txn_time),
    ensures
        !trace_missing(anchors, t),
        !trace_anchored(anchors, t),
{
}

/// The instant as one number on the time line: seconds scaled past every
/// possible sub-second part, plus that part.
pub open spec fn time_line(t: Timestamp) -> int {
    t.seconds() as int * 0x1_0000_0000 + t.subsec() as int
}

/// An anchor covers a trace exactly when the trace's time lies after the
/// period's start and no later than its end on the time line, whatever the
/// sub-second parts of the three instants.
pub proof fn lemma_covers_chronological(a: BundleAnchor, t: Timestamp)
    ensures
        covers(a, t) <==> (time_line(a.period_start) < time_line(t) && time_line(t) <= time_line(
            a.period_end,
        )),
{
    crate::time::lemma_instant_order_chronological(a.period_start, t);
    crate::time::lemma_instant_order_chronological(a.period_end, t);
}

/// The anchor that decides a trace's inclusion is the earliest in the
/// bundle whose period holds the trace's time: if anchor `i` covers `t`,
/// then `t` is covered, the deciding anchor comes no later than `i`, it
/// covers `t` on the time line, and no earlier anchor does.
pub proof fn lemma_covering_anchor_is_first(anchors: Seq<BundleAnchor>, t: Timestamp, i: int)
    requires
        0 <= i < anchors.len(),
        time_line(anchors[i].period_start) < time_line(t) <= time_line(anchors[i].period_end),
    ensures
        is_covered(anchors, t),
        0 <= covering_anchor(anchors, t) <= i,
        time_line(anchors[covering_anchor(anchors, t)].period_start) < time_line(t) <= time_line(
            anchors[covering_anchor(anchors, t)].period_end,
        ),
        forall|j: int|
            0 <= j < covering_anchor(anchors, t) ==> !(time_line(
                (#[trigger] anchors[j]).period_start,
            ) < time_line(t) <= time_line(anchors[j].period_end)),
    decreases i,
{
    lemma_covers_chronological(anchors[i], t);
    let first = choose|k: int| 0 <= k <= i && covers(anchors[k], t) && forall|j: int|
        0 <= j < k ==> !covers(#[trigger] anchors[j], t);
    if exists|k: int| 0 <= k <= i && covers(anchors[k], t) && forall|j: int|
        0 <= j < k ==> !covers(#[trigger] anchors[j], t) {
        assert(first_covering(anchors, t, first));
        lemma_first_covering_unique(anchors, t, first);
        lemma_covers_chronological(anchors[first], t);
        assert forall|j: int| 0 <= j < first implies !(time_line(
            (#[trigger] anchors[j]).period_start,
        ) < time_line(t) <= time_line(anchors[j].period_end)) by {
            lemma_covers_chronological(anchors[j], t);
        }
    } else {
        lemma_some_first_covering(anchors, t, i);
    }
}

proof fn lemma_some_first_covering(anchors: Seq<BundleAnchor>, t: Timestamp, i: int)
    requires
        0 <= i < anchors.len(),
        covers(anchors[i], t),
    ensures
        exists|k: int| 0 <= k <= i && covers(anchors[k], t) && forall|j: int|
            0 <= j < k ==> !covers(#[trigger] anchors[j], t),
    decreases i,
{
    if exists|j: int| 0 <= j < i && covers(#[trigger] anchors[j], t) {
        let j = choose|j: int| 0 <= j < i && covers(#[trigger] anchors[j], t);
        lemma_some_first_covering(anchors, t, j);
    } else {
        assert(forall|j: int| 0 <= j < i ==> !covers(#[trigger] anchors[j], t));
    }
}

} // verus!
