//! The command line of the verifier, as plain values: the arguments it
//! accepts, the text of its report and the receipt files it can write out.
//! Reading files, printing and writing stay with the caller.

use crate::bundle::{BundleAnchor, ProofBundle};
use crate::codec::{base64_decode, base64_standard_decoded};
use crate::hashing::texts_of;
use crate::text::{decimal_digits, decimal_string, same_text};
use crate::verify::VerificationReport;
use vstd::prelude::*;
use vstd::string::StringExecFns;

verus! {

/// What a run was asked to do.
#[derive(Debug)]
pub struct Args {
    pub bundle_path: String,
    pub dump_ots_dir: Option<String>,
    pub json_output: bool,
}

/// The outcome of reading the command line: a run, or a request for usage.
#[derive(Debug)]
pub enum Command {
    Run(Args),
    Help,
}

/// A command line that cannot be run.
#[derive(Debug)]
pub enum ArgsError {
    /// `--dump-ots` came last, without its directory.
    MissingDumpDir,
    /// A second positional argument.
    UnexpectedArgument(String),
    /// No bundle path was given.
    MissingBundlePath,
}

/// The meaning of a command line, over the texts of its arguments.
pub enum ParsedArgs {
    Run { path: Seq<char>, dump: Option<Seq<char>>, json: bool },
    Help,
    MissingDumpDir,
    Unexpected { arg: Seq<char> },
    MissingPath,
}

/// Reads `argv` from position `i` on, having already seen the bundle path
/// `path`, the receipt directory `dump` and the JSON flag `json`.
pub open spec fn parse_from(
    argv: Seq<Seq<char>>,
    i: int,
    path: Option<Seq<char>>,
    dump: Option<Seq<char>>,
    json: bool,
) -> ParsedArgs
    decreases argv.len() - i,
{
    if i < 0 || i >= argv.len() {
        match path {
            Some(p) => ParsedArgs::Run { path: p, dump, json },
            None => ParsedArgs::MissingPath,
        }
    } else if argv[i] == "--dump-ots"@ {
        if i + 1 < argv.len() {
            parse_from(argv, i + 2, path, Some(argv[i + 1]), json)
        } else {
            ParsedArgs::MissingDumpDir
        }
    } else if argv[i] == "--json"@ {
        parse_from(argv, i + 1, path, dump, true)
    } else if argv[i] == "--help"@ || argv[i] == "-h"@ {
        ParsedArgs::Help
    } else if path is None {
        parse_from(argv, i + 1, Some(argv[i]), dump, json)
    } else {
        ParsedArgs::Unexpected { arg: argv[i] }
    }
}

/// The meaning of a whole command line; its first entry is the program name.
pub open spec fn parse_command_line(argv: Seq<Seq<char>>) -> ParsedArgs {
    parse_from(argv, 1, None, None, false)
}

/// The texts of optional text.
pub open spec fn opt_text(s: Option<String>) -> Option<Seq<char>> {
    match s {
        Some(t) => Some(t@),
        None => None,
    }
}

/// What a result of `parse_args` means.
pub open spec fn parsed_outcome(r: Result<Command, ArgsError>) -> ParsedArgs {
    match r {
        Ok(Command::Run(a)) => ParsedArgs::Run {
            path: a.bundle_path@,
            dump: opt_text(a.dump_ots_dir),
            json: a.json_output,
        },
        Ok(Command::Help) => ParsedArgs::Help,
        Err(ArgsError::MissingDumpDir) => ParsedArgs::MissingDumpDir,
        Err(ArgsError::UnexpectedArgument(a)) => ParsedArgs::Unexpected { arg: a@ },
        Err(ArgsError::MissingBundlePath) => ParsedArgs::MissingPath,
    }
}

proof fn lemma_flag_texts_differ()
    ensures
        "--json"@ != "--dump-ots"@,
        "--json"@ != "--help"@,
        "--json"@ != "-h"@,
{
    reveal_strlit("--json");
    reveal_strlit("--dump-ots");
    reveal_strlit("--help");
    reveal_strlit("-h");
    assert("--json"@.len() != "--dump-ots"@.len());
    assert("--json"@[2] != "--help"@[2]);
    assert("--json"@.len() != "-h"@.len());
}

proof fn lemma_parse_json_set(
    argv: Seq<Seq<char>>,
    i: int,
    path: Option<Seq<char>>,
    dump: Option<Seq<char>>,
    json: bool,
)
    requires
        0 <= i <= argv.len(),
    ensures
        parse_from(argv, i, path, dump, json) matches ParsedArgs::Run { path: p, dump: d, json: _ }
            ==> parse_from(argv, i, path, dump, true) == (ParsedArgs::Run { path: p, dump: d, json: true }),
    decreases argv.len() - i,
{
    if i < argv.len() {
        if argv[i] == "--dump-ots"@ {
            if i + 1 < argv.len() {
                lemma_parse_json_set(argv, i + 2, path, Some(argv[i + 1]), json);
            }
        } else if argv[i] == "--json"@ {
            lemma_parse_json_set(argv, i + 1, path, dump, true);
        } else if argv[i] == "--help"@ || argv[i] == "-h"@ {
        } else if path is None {
            lemma_parse_json_set(argv, i + 1, Some(argv[i]), dump, json);
        }
    }
}

proof fn lemma_parse_append_json(
    argv: Seq<Seq<char>>,
    i: int,
    path: Option<Seq<char>>,
    dump: Option<Seq<char>>,
    json: bool,
)
    requires
        0 <= i <= argv.len(),
    ensures
        parse_from(argv, i, path, dump, json) matches ParsedArgs::Run { path: p, dump: d, json: _ }
            ==> parse_from(argv.push("--json"@), i, path, dump, json) == (ParsedArgs::Run {
            path: p,
            dump: d,
            json: true,
        }),
    decreases argv.len() - i,
{
    let longer = argv.push("--json"@);
    lemma_flag_texts_differ();
    if i == argv.len() {
        assert(longer[i] == "--json"@);
        assert(parse_from(longer, i, path, dump, json) == parse_from(longer, i + 1, path, dump, true));
    } else {
        assert(longer[i] == argv[i]);
        if argv[i] == "--dump-ots"@ {
            if i + 1 < argv.len() {
                assert(longer[i + 1] == argv[i + 1]);
                lemma_parse_append_json(argv, i + 2, path, Some(argv[i + 1]), json);
            }
        } else if argv[i] == "--json"@ {
            lemma_parse_append_json(argv, i + 1, path, dump, true);
        } else if argv[i] == "--help"@ || argv[i] == "-h"@ {
        } else if path is None {
            lemma_parse_append_json(argv, i + 1, Some(argv[i]), dump, json);
        }
    }
}

proof fn lemma_parse_depends_on_rest(
    a: Seq<Seq<char>>,
    i: int,
    b: Seq<Seq<char>>,
    k: int,
    path: Option<Seq<char>>,
    dump: Option<Seq<char>>,
    json: bool,
)
    requires
        0 <= i <= a.len(),
        0 <= k <= b.len(),
        a.skip(i) == b.skip(k),
    ensures
        parse_from(a, i, path, dump, json) == parse_from(b, k, path, dump, json),
    decreases a.len() - i,
{
    assert(a.skip(i).len() == a.len() - i);
    assert(b.skip(k).len() == b.len() - k);
    assert(a.len() - i == b.len() - k);
    if i < a.len() {
        assert(a[i] == a.skip(i)[0] && b[k] == b.skip(k)[0]);
        if i + 1 < a.len() {
            assert(a[i + 1] == a.skip(i)[1] && b[k + 1] == b.skip(k)[1]);
        }
        if i + 1 <= a.len() {
            assert(a.skip(i + 1) =~= a.skip(i).skip(1));
            assert(b.skip(k + 1) =~= b.skip(k).skip(1));
        }
        if i + 2 <= a.len() {
            assert(a.skip(i + 2) =~= a.skip(i).skip(2));
            assert(b.skip(k + 2) =~= b.skip(k).skip(2));
        }
        if a[i] == "--dump-ots"@ {
            if i + 1 < a.len() {
                lemma_parse_depends_on_rest(a, i + 2, b, k + 2, path, Some(a[i + 1]), json);
            }
        } else if a[i] == "--json"@ {
            lemma_parse_depends_on_rest(a, i + 1, b, k + 1, path, dump, true);
        } else if a[i] == "--help"@ || a[i] == "-h"@ {
        } else if path is None {
            lemma_parse_depends_on_rest(a, i + 1, b, k + 1, Some(a[i]), dump, json);
        }
    }
}

/// `--json` is honoured after the other arguments: appending it to any
/// command line that reads as a run gives the same run with JSON output.
pub proof fn lemma_json_flag_appended(argv: Seq<Seq<char>>)
    ensures
        parse_command_line(argv) matches ParsedArgs::Run { path: p, dump: d, json: _ }
            ==> parse_command_line(argv.push("--json"@)) == (ParsedArgs::Run {
            path: p,
            dump: d,
            json: true,
        }),
{
    if argv.len() >= 1 {
        lemma_parse_append_json(argv, 1, None, None, false);
    } else {
        assert(parse_command_line(argv) == ParsedArgs::MissingPath);
    }
}

/// `--json` is honoured before the other arguments too: putting it right
/// after the program name of any command line that reads as a run gives the
/// same run with JSON output.
pub proof fn lemma_json_flag_first(argv: Seq<Seq<char>>)
    requires
        argv.len() >= 1,
    ensures
        parse_command_line(argv) matches ParsedArgs::Run { path: p, dump: d, json: _ }
            ==> parse_command_line(argv.insert(1, "--json"@)) == (ParsedArgs::Run {
            path: p,
            dump: d,
            json: true,
        }),
{
    let longer = argv.insert(1, "--json"@);
    lemma_flag_texts_differ();
    assert(longer[1] == "--json"@);
    assert(parse_command_line(longer) == parse_from(longer, 2, None, None, true));
    assert(longer.skip(2) =~= argv.skip(1));
    lemma_parse_depends_on_rest(longer, 2, argv, 1, None, None, true);
    lemma_parse_json_set(argv, 1, None, None, false);
}

/// A command line of a path followed by `--json` is a run on that path with
/// JSON output and no receipt directory, whatever the path (other than a
/// flag) is.
pub proof fn lemma_path_then_json(prog: Seq<char>, path: Seq<char>)
    requires
        path != "--dump-ots"@,
        path != "--json"@,
        path != "--help"@,
        path != "-h"@,
    ensures
        parse_command_line(seq![prog, path, "--json"@]) == (ParsedArgs::Run {
            path,
            dump: None,
            json: true,
        }),
{
    lemma_flag_texts_differ();
    let argv = seq![prog, path, "--json"@];
    assert(argv[1] == path && argv[2] == "--json"@);
    assert(parse_from(argv, 1, None, None, false) == parse_from(argv, 2, Some(path), None, false));
    assert(parse_from(argv, 2, Some(path), None, false) == parse_from(argv, 3, Some(path), None, true));
}

/// The usage line printed for `--help`.
pub fn usage() -> (s: String)
    ensures
        s@ == "Usage: irl-verify <bundle.json> [--dump-ots <dir>] [--json]"@,
{
    String::from_str("Usage: irl-verify <bundle.json> [--dump-ots <dir>] [--json]")
}

impl ArgsError {
    /// The error text shown for this command line.
    pub open spec fn message_text(self) -> Seq<char> {
        match self {
            ArgsError::MissingDumpDir => "--dump-ots requires a directory argument"@,
            ArgsError::UnexpectedArgument(a) => "unexpected argument: "@ + a@,
            ArgsError::MissingBundlePath => "missing bundle path (see --help)"@,
        }
    }

    /// The error text shown for this command line.
    pub fn message(&self) -> (s: String)
        ensures
            s@ == self.message_text(),
    {
        match self {
            ArgsError::MissingDumpDir => String::from_str("--dump-ots requires a directory argument"),
            ArgsError::UnexpectedArgument(a) => {
                let mut s = String::from_str("unexpected argument: ");
                s.append(a.as_str());
                s
            },
            ArgsError::MissingBundlePath => String::from_str("missing bundle path (see --help)"),
        }
    }
}

/// Reads the command line `argv` (program name first): a bundle path,
/// `--dump-ots <dir>`, `--json`, and `--help`/`-h`, which asks for usage at
/// once.
pub fn parse_args(argv: &Vec<String>) -> (r: Result<Command, ArgsError>)
    ensures
        parsed_outcome(r) == parse_command_line(argv@.map_values(|s: String| s@)),
{
    let ghost texts = argv@.map_values(|s: String| s@);
    let mut bundle_path: Option<String> = None;
    let mut dump_ots_dir: Option<String> = None;
    let mut json_output = false;
    let n = argv.len();
    let mut i: usize = 1;
    while i < n
        invariant
            n == argv@.len(),
            texts == argv@.map_values(|s: String| s@),
            1 <= i,
            parse_from(texts, i as int, opt_text(bundle_path), opt_text(dump_ots_dir), json_output)
                == parse_command_line(texts),
        decreases n - i,
    {
        let arg = argv[i].as_str();
        assert(texts[i as int] == arg@);
        if same_text(arg, "--dump-ots") {
            if i + 1 < n {
                assert(texts[i + 1] == argv@[i + 1]@);
                dump_ots_dir = Some(argv[i + 1].clone());
                i = i + 2;
            } else {
                return Err(ArgsError::MissingDumpDir);
            }
        } else if same_text(arg, "--json") {
            json_output = true;
            i = i + 1;
        } else if same_text(arg, "--help") || same_text(arg, "-h") {
            return Ok(Command::Help);
        } else if bundle_path.is_none() {
            bundle_path = Some(argv[i].clone());
            i = i + 1;
        } else {
            return Err(ArgsError::UnexpectedArgument(argv[i].clone()));
        }
    }
    match bundle_path {
        Some(p) => Ok(Command::Run(Args { bundle_path: p, dump_ots_dir, json_output })),
        None => Err(ArgsError::MissingBundlePath),
    }
}

// ── The human-readable report ───────────────────────────────────────────────

/// Decimal text of a count.
pub open spec fn dec(n: nat) -> Seq<char> {
    decimal_digits(n)
}

/// The header lines: the bundle's identity and the counts of each check.
pub open spec fn report_summary(r: VerificationReport, b: ProofBundle) -> Seq<Seq<char>> {
    seq![
        "IRL proof bundle verification"@,
        "  bundle version : "@ + dec(b.bundle_version as nat),
        "  engine version : "@ + b.engine_version@,
        "  period         : "@ + b.period_from.rendered() + " .. "@ + b.period_to.rendered(),
        "  traces         : "@ + dec(b.traces@.len()),
        Seq::empty(),
        "  final_proof    : "@ + dec(r.final_proofs_checked as nat) + " checked, "@ + dec(
            r.final_proof_failures@.len(),
        ) + " failed"@,
        "  merkle roots   : "@ + dec(r.anchors_checked as nat) + " recomputed, "@ + dec(
            r.anchor_root_failures@.len(),
        ) + " failed"@,
        "  inclusion      : "@ + dec(r.traces_anchored as nat) + " anchored, "@ + dec(
            r.inclusion_failures@.len(),
        ) + " failed, "@ + dec(r.traces_unanchored@.len()) + " not yet anchored"@,
        "  OTS receipts   : "@ + dec(r.anchors_with_ots_receipt as nat) + "/"@ + dec(
            r.anchors_checked as nat,
        ) + " anchors carry a receipt"@,
    ]
}

/// One `FAIL` line per failure: binding, then root, then inclusion.
pub open spec fn report_failure_lines(r: VerificationReport) -> Seq<Seq<char>> {
    (texts_of(r.final_proof_failures@) + texts_of(r.anchor_root_failures@) + texts_of(
        r.inclusion_failures@,
    )).map_values(|f: Seq<char>| "  FAIL: "@ + f)
}

/// The note on traces sealed after the last anchor, when there are any.
pub open spec fn report_note_lines(r: VerificationReport) -> Seq<Seq<char>> {
    if r.traces_unanchored@.len() == 0 {
        seq![]
    } else {
        seq![
            "  note: "@ + dec(r.traces_unanchored@.len())
                + " trace(s) sealed after the most recent anchor cycle; re-export after the next daily anchor to cover them"@,
        ]
    }
}

/// The verdict lines: PASS (with the next step when receipts are present)
/// or FAIL.
pub open spec fn report_verdict_lines(r: VerificationReport) -> Seq<Seq<char>> {
    if r.passes() {
        seq!["PASS — all offline cryptographic checks succeeded."@] + if r.anchors_with_ots_receipt
            > 0 {
            seq![
                "Next: verify Bitcoin anchoring with the OpenTimestamps client:"@,
                "  irl-verify <bundle.json> --dump-ots ./ots"@,
                "  ots verify ./ots/anchor-0.ots"@,
            ]
        } else {
            seq![]
        }
    } else {
        seq!["FAIL — the bundle is inconsistent. See failures above."@]
    }
}

/// Every line of the human-readable report, in order.
pub open spec fn report_text(r: VerificationReport, b: ProofBundle) -> Seq<Seq<char>> {
    report_summary(r, b) + report_failure_lines(r) + report_note_lines(r) + seq![Seq::empty()]
        + report_verdict_lines(r)
}

fn push_line(lines: &mut Vec<String>, line: String)
    ensures
        texts_of(final(lines)@) == texts_of(old(lines)@).push(line@),
{
    lines.push(line);
    assert(texts_of(lines@) =~= texts_of(old(lines)@).push(line@));
}

fn append_failures(lines: &mut Vec<String>, failures: &Vec<String>)
    ensures
        texts_of(final(lines)@) == texts_of(old(lines)@) + texts_of(failures@).map_values(
            |f: Seq<char>| "  FAIL: "@ + f,
        ),
{
    let n = failures.len();
    for i in 0..n
        invariant
            n == failures@.len(),
            texts_of(lines@) == texts_of(old(lines)@) + texts_of(failures@).subrange(
                0,
                i as int,
            ).map_values(|f: Seq<char>| "  FAIL: "@ + f),
    {
        let mut line = String::from_str("  FAIL: ");
        line.append(failures[i].as_str());
        push_line(lines, line);
        assert(texts_of(failures@).subrange(0, i + 1).map_values(|f: Seq<char>| "  FAIL: "@ + f)
            =~= texts_of(failures@).subrange(0, i as int).map_values(
            |f: Seq<char>| "  FAIL: "@ + f,
        ).push("  FAIL: "@ + failures@[i as int]@));
    }
    assert(texts_of(failures@).subrange(0, n as int) =~= texts_of(failures@));
}

fn labelled_count(label: &str, n: u64) -> (s: String)
    ensures
        s@ == label@ + dec(n as nat),
{
    let mut s = String::from_str(label);
    let digits = decimal_string(n);
    s.append(digits.as_str());
    s
}

/// The lines of the human-readable report on `bundle`, in the order they
/// are printed.
pub fn report_lines(report: &VerificationReport, bundle: &ProofBundle) -> (lines: Vec<String>)
    ensures
        texts_of(lines@) == report_text(*report, *bundle),
{
    let r = report;
    let mut lines: Vec<String> = Vec::new();
    push_line(&mut lines, String::from_str("IRL proof bundle verification"));
    push_line(
        &mut lines,
        labelled_count("  bundle version : ", bundle.bundle_version as u64),
    );
    let mut engine = String::from_str("  engine version : ");
    engine.append(bundle.engine_version.as_str());
    push_line(&mut lines, engine);
    let mut period = String::from_str("  period         : ");
    let from = bundle.period_from.to_text();
    period.append(from.as_str());
    period.append(" .. ");
    let to = bundle.period_to.to_text();
    period.append(to.as_str());
    push_line(&mut lines, period);
    push_line(&mut lines, labelled_count("  traces         : ", bundle.traces.len() as u64));
    push_line(&mut lines, String::new());
    let mut proofs = labelled_count("  final_proof    : ", r.final_proofs_checked as u64);
    proofs.append(" checked, ");
    let failed = decimal_string(r.final_proof_failures.len() as u64);
    proofs.append(failed.as_str());
    proofs.append(" failed");
    push_line(&mut lines, proofs);
    let mut roots = labelled_count("  merkle roots   : ", r.anchors_checked as u64);
    roots.append(" recomputed, ");
    let failed = decimal_string(r.anchor_root_failures.len() as u64);
    roots.append(failed.as_str());
    roots.append(" failed");
    push_line(&mut lines, roots);
    let mut inclusion = labelled_count("  inclusion      : ", r.traces_anchored as u64);
    inclusion.append(" anchored, ");
    let failed = decimal_string(r.inclusion_failures.len() as u64);
    inclusion.append(failed.as_str());
    inclusion.append(" failed, ");
    let pending = decimal_string(r.traces_unanchored.len() as u64);
    inclusion.append(pending.as_str());
    inclusion.append(" not yet anchored");
    push_line(&mut lines, inclusion);
    let mut receipts = labelled_count("  OTS receipts   : ", r.anchors_with_ots_receipt as u64);
    receipts.append("/");
    let anchors = decimal_string(r.anchors_checked as u64);
    receipts.append(anchors.as_str());
    receipts.append(" anchors carry a receipt");
    push_line(&mut lines, receipts);
    assert(texts_of(lines@) =~= report_summary(*r, *bundle));
    append_failures(&mut lines, &r.final_proof_failures);
    append_failures(&mut lines, &r.anchor_root_failures);
    append_failures(&mut lines, &r.inclusion_failures);
    assert(texts_of(lines@) =~= report_summary(*r, *bundle) + report_failure_lines(*r));
    if r.traces_unanchored.len() > 0 {
        let mut note = labelled_count("  note: ", r.traces_unanchored.len() as u64);
        note.append(
            " trace(s) sealed after the most recent anchor cycle; re-export after the next daily anchor to cover them",
        );
        push_line(&mut lines, note);
    }
    assert(texts_of(lines@) =~= report_summary(*r, *bundle) + report_failure_lines(*r)
        + report_note_lines(*r));
    push_line(&mut lines, String::new());
    let ghost head = texts_of(lines@);
    if r.passed() {
        push_line(&mut lines, String::from_str("PASS — all offline cryptographic checks succeeded."));
        if r.anchors_with_ots_receipt > 0 {
            push_line(
                &mut lines,
                String::from_str("Next: verify Bitcoin anchoring with the OpenTimestamps client:"),
            );
            push_line(&mut lines, String::from_str("  irl-verify <bundle.json> --dump-ots ./ots"));
            push_line(&mut lines, String::from_str("  ots verify ./ots/anchor-0.ots"));
        }
    } else {
        push_line(
            &mut lines,
            String::from_str("FAIL — the bundle is inconsistent. See failures above."),
        );
    }
    assert(texts_of(lines@) =~= head + report_verdict_lines(*r));
    lines
}

/// The verdict of the printed report comes right after the summary, the
/// `FAIL` lines, the note (if any) and a blank line. It is the PASS line
/// exactly when there is no binding, root or inclusion failure, and
/// otherwise the FAIL line, which then ends the report.
pub proof fn lemma_verdict_line(r: VerificationReport, b: ProofBundle)
    ensures
        ({
            let failures = r.final_proof_failures@.len() + r.anchor_root_failures@.len()
                + r.inclusion_failures@.len();
            let k = 11 + failures + if r.traces_unanchored@.len() > 0 {
                1int
            } else {
                0int
            };
            let text = report_text(r, b);
            &&& text.len() > k
            &&& text[k - 1] == Seq::<char>::empty()
            &&& (r.final_proof_failures@.len() == 0 && r.anchor_root_failures@.len() == 0
                && r.inclusion_failures@.len() == 0) ==> text[k]
                == "PASS — all offline cryptographic checks succeeded."@
            &&& !(r.final_proof_failures@.len() == 0 && r.anchor_root_failures@.len() == 0
                && r.inclusion_failures@.len() == 0) ==> text[k]
                == "FAIL — the bundle is inconsistent. See failures above."@ && text.len() == k + 1
        }),
{
    let failures = texts_of(r.final_proof_failures@) + texts_of(r.anchor_root_failures@)
        + texts_of(r.inclusion_failures@);
    assert(failures.len() == r.final_proof_failures@.len() + r.anchor_root_failures@.len()
        + r.inclusion_failures@.len());
    assert(report_failure_lines(r).len() == failures.len());
    assert(report_summary(r, b).len() == 10);
}

// ── OpenTimestamps receipts ─────────────────────────────────────────────────

/// A decoded receipt ready to be written: its file, its bytes and the line
/// that announces it.
#[derive(Debug)]
pub struct OtsReceiptFile {
    pub path: String,
    pub contents: Vec<u8>,
    pub line: String,
}

/// An anchor whose receipt is not valid base64.
#[derive(Debug)]
pub struct OtsReceiptError {
    pub index: usize,
    pub cause: base64::DecodeError,
}

/// `<dir>/anchor-<index>.ots`
pub open spec fn receipt_path(dir: Seq<char>, index: nat) -> Seq<char> {
    dir + "/anchor-"@ + dec(index) + ".ots"@
}

/// The line printed after a receipt is written.
pub open spec fn receipt_line(path: Seq<char>, a: BundleAnchor) -> Seq<char> {
    "  wrote "@ + path + "  (root: "@ + a.merkle_root@ + "  period: "@ + a.period_start.rendered()
        + " .. "@ + a.period_end.rendered() + ")"@
}

impl OtsReceiptError {
    /// The error text shown for this anchor.
    pub open spec fn message_text(self) -> Seq<char> {
        "anchor "@ + dec(self.index as nat) + ": invalid base64 OTS receipt"@
    }

    /// The error text shown for this anchor.
    pub fn message(&self) -> (s: String)
        ensures
            s@ == self.message_text(),
    {
        let mut s = String::from_str("anchor ");
        let digits = decimal_string(self.index as u64);
        s.append(digits.as_str());
        s.append(": invalid base64 OTS receipt");
        s
    }
}

/// The receipt file of anchor `index`, given what decoding its base64
/// receipt gave.
pub fn receipt_file(
    anchor: &BundleAnchor,
    index: usize,
    dir: &str,
    decoded: Result<Vec<u8>, base64::DecodeError>,
) -> (r: Result<OtsReceiptFile, OtsReceiptError>)
    ensures
        match decoded {
            Ok(bytes) => r matches Ok(f) && f.contents@ == bytes@ && f.path@ == receipt_path(
                dir@,
                index as nat,
            ) && f.line@ == receipt_line(f.path@, *anchor),
            Err(_) => r matches Err(e) && e.index == index,
        },
{
    match decoded {
        Ok(contents) => {
            let mut path = String::from_str(dir);
            path.append("/anchor-");
            let digits = decimal_string(index as u64);
            path.append(digits.as_str());
            path.append(".ots");
            let mut line = String::from_str("  wrote ");
            line.append(path.as_str());
            line.append("  (root: ");
            line.append(anchor.merkle_root.as_str());
            line.append("  period: ");
            let start = anchor.period_start.to_text();
            line.append(start.as_str());
            line.append(" .. ");
            let end = anchor.period_end.to_text();
            line.append(end.as_str());
            line.append(")");
            assert(line@ =~= receipt_line(path@, *anchor));
            Ok(OtsReceiptFile { path, contents, line })
        },
        Err(cause) => Err(OtsReceiptError { index, cause }),
    }
}

/// The receipt file of anchor `index` under `dir`: `None` when the anchor
/// carries no receipt, an error when its receipt is not valid base64.
pub fn ots_receipt_file(anchor: &BundleAnchor, index: usize, dir: &str) -> (r: Option<
    Result<OtsReceiptFile, OtsReceiptError>,
>)
    ensures
        anchor.ots_receipt_base64 is None ==> r is None,
        anchor.ots_receipt_base64 matches Some(b64) ==> match base64_standard_decoded(
            vstd::utf8::encode_utf8(b64@),
        ) {
            Some(bytes) => r matches Some(Ok(f)) && f.contents@ == bytes && f.path@
                == receipt_path(dir@, index as nat) && f.line@ == receipt_line(f.path@, *anchor),
            None => r matches Some(Err(e)) && e.index == index,
        },
{
    match &anchor.ots_receipt_base64 {
        Some(b64) => {
            let decoded = base64_decode(b64.as_str().as_bytes());
            Some(receipt_file(anchor, index, dir, decoded))
        },
        None => None,
    }
}

} // verus!
