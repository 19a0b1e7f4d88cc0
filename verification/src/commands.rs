//! What the subcommands print and how they exit, given what they found.
use vstd::prelude::*;
use crate::cert::{SelectedCert, SelectedView, selected_views};
use crate::cli::{ChainTarget, Cli, GlobalOpts, target_name};
use crate::error::JcmError;
use crate::jvm::JvmInfo;
use crate::keystore::{EntryView, KeystoreEntry, entry_views};
use crate::logging::{LogMode, string_views};
use crate::ops::{AddPlan, MutationKind, RemovePlan};
use crate::text::{chars_of, decimal, decimal_chars, push_chars, push_str, string_of};

verus! {

/// What every subcommand that touches the keystore runs with.
pub struct RunContext {
    pub opts: GlobalOpts,
    pub log: LogMode,
    pub jvm: JvmInfo,
}

/// Quiet wins over verbose.
pub open spec fn log_mode_spec(quiet: bool, verbose: bool) -> LogMode {
    if quiet {
        LogMode::Quiet
    } else if verbose {
        LogMode::Verbose
    } else {
        LogMode::Normal
    }
}

pub fn log_mode(quiet: bool, verbose: bool) -> (r: LogMode)
    ensures
        r == log_mode_spec(quiet, verbose),
{
    if quiet {
        LogMode::Quiet
    } else if verbose {
        LogMode::Verbose
    } else {
        LogMode::Normal
    }
}

impl RunContext {
    /// The context for a command line, once the JVM is known.
    pub fn build(cli: &Cli, jvm: JvmInfo) -> (r: RunContext)
        ensures
            r.opts == cli.global,
            r.log == log_mode_spec(cli.global.quiet, cli.global.verbose),
            r.jvm == jvm,
    {
        let log = log_mode(cli.global.quiet, cli.global.verbose);
        RunContext { opts: cli.global.clone(), log, jvm }
    }
}

/// The line `list` prints for an entry: the alias, then a tab and the fingerprint if known.
pub open spec fn entry_line(e: EntryView) -> Seq<char> {
    match e.fingerprint {
        Some(fp) => e.alias + "\t"@ + fp,
        None => e.alias,
    }
}

/// The lines `list` prints: every entry with `all`, else the managed ones, or
/// a note when there are no managed ones.
pub open spec fn list_report(es: Seq<EntryView>, all: bool) -> Seq<Seq<char>> {
    let shown = if all {
        es
    } else {
        es.filter(|e: EntryView| e.managed)
    };
    if shown.len() == 0 {
        if all {
            seq![]
        } else {
            seq!["(no jcm-* entries in cacerts)"@]
        }
    } else {
        shown.map_values(|e: EntryView| entry_line(e))
    }
}

pub fn list_lines(entries: &[KeystoreEntry], all: bool) -> (r: Vec<String>)
    ensures
        string_views(r@) == list_report(entry_views(entries@), all),
{
    let ghost es = entry_views(entries@);
    let ghost pred = |e: EntryView| e.managed;
    let mut lines: Vec<String> = Vec::new();
    let mut i: usize = 0;
    proof {
        reveal(Seq::filter);
        assert(es.take(0).filter(pred) =~= Seq::<EntryView>::empty());
    }
    assert(string_views(lines@) =~= Seq::<Seq<char>>::empty());
    while i < entries.len()
        invariant
            i <= entries.len(),
            es == entry_views(entries@),
            pred == (|e: EntryView| e.managed),
            all ==> string_views(lines@) == es.take(i as int).map_values(|e: EntryView| entry_line(e)),
            !all ==> string_views(lines@) == es.take(i as int).filter(pred).map_values(|e: EntryView| entry_line(e)),
        decreases entries.len() - i,
    {
        let e = &entries[i];
        assert(es[i as int] == e@);
        assert(es.take(i + 1) =~= es.take(i as int).push(e@));
        proof {
            es.take(i as int).lemma_filter_push(e@, pred);
        }
        let ghost before = string_views(lines@);
        if all || e.managed {
            let mut line = e.alias.clone();
            match &e.fingerprint_sha256 {
                Some(fp) => {
                    push_str(&mut line, "\t");
                    push_str(&mut line, fp.as_str());
                },
                None => {},
            }
            assert(line@ == entry_line(e@));
            lines.push(line);
            assert(string_views(lines@) =~= before.push(entry_line(e@)));
        }
        if all {
            assert(string_views(lines@) =~= es.take(i + 1).map_values(|e: EntryView| entry_line(e)));
        } else {
            assert(string_views(lines@) =~= es.take(i + 1).filter(pred).map_values(|e: EntryView| entry_line(e)));
        }
        i = i + 1;
    }
    assert(es.take(entries.len() as int) =~= es);
    if lines.len() == 0 && !all {
        lines.push("(no jcm-* entries in cacerts)".to_owned());
        assert(string_views(lines@) =~= seq!["(no jcm-* entries in cacerts)"@]);
    }
    proof {
        let shown = if all { es } else { es.filter(pred) };
        assert(shown.map_values(|e: EntryView| entry_line(e)).len() == shown.len());
    }
    lines
}

/// What `show` prints: the keystore alias, then keytool's details; no
/// details means the alias is not in cacerts.
pub fn show_lines(keystore_alias: &str, detail: &str) -> (r: Result<Vec<String>, JcmError>)
    ensures
        detail@.len() == 0 ==> (r matches Err(e) && (e matches JcmError::ShowAliasNotFound { keystore_alias: k } && k@ == keystore_alias@)),
        detail@.len() > 0 ==> (r matches Ok(v) && string_views(v@) == seq!["alias: "@ + keystore_alias@, detail@]),
{
    if detail.is_empty() {
        return Err(JcmError::ShowAliasNotFound { keystore_alias: keystore_alias.to_owned() });
    }
    let mut first = "alias: ".to_owned();
    push_str(&mut first, keystore_alias);
    let mut v: Vec<String> = Vec::new();
    v.push(first);
    v.push(detail.to_owned());
    assert(string_views(v@) =~= seq!["alias: "@ + keystore_alias@, detail@]);
    Ok(v)
}

/// The chain positions of the selected certificates.
pub fn selected_positions(selected: &[SelectedCert]) -> (r: Vec<usize>)
    ensures
        r@.len() == selected.len(),
        forall|k: int| 0 <= k < selected.len() ==> r@[k] == selected@[k].cert.index,
{
    let mut r: Vec<usize> = Vec::new();
    let mut i: usize = 0;
    while i < selected.len()
        invariant
            i <= selected.len(),
            r@.len() == i,
            forall|k: int| 0 <= k < i ==> r@[k] == selected@[k].cert.index,
        decreases selected.len() - i,
    {
        r.push(selected[i].cert.index);
        i = i + 1;
    }
    r
}

/// The lines `inspect` prints for one selected certificate.
pub open spec fn inspect_block(target: ChainTarget, s: SelectedView) -> Seq<Seq<char>> {
    seq![
        "selected (chain="@ + target_name(target) + "):"@,
        "  position: "@ + decimal(s.cert.index),
        "  subject: "@ + s.cert.subject,
        "  issuer: "@ + s.cert.issuer,
        "  valid: "@ + s.cert.not_before + " .. "@ + s.cert.not_after,
        "  sha256: "@ + s.cert.fingerprint,
        "  self_signed: "@ + (if s.cert.self_signed { "true"@ } else { "false"@ }),
    ]
}

pub open spec fn inspect_blocks(target: ChainTarget, ss: Seq<SelectedView>) -> Seq<Seq<char>>
    decreases ss.len(),
{
    if ss.len() == 0 {
        seq![]
    } else {
        inspect_blocks(target, ss.drop_last()) + inspect_block(target, ss.last())
    }
}

/// What `inspect` prints without `--graph`.
pub open spec fn inspect_report(url: Seq<char>, chain_len: nat, target: ChainTarget, ss: Seq<SelectedView>) -> Seq<Seq<char>> {
    seq!["url: "@ + url, "chain: "@ + decimal(chain_len) + " certificates"@] + inspect_blocks(target, ss)
}

fn join2(a: &str, b: &[char]) -> (r: String)
    ensures
        r@ == a@ + b@,
{
    let mut v = chars_of(a);
    push_chars(&mut v, b);
    string_of(&v)
}

pub fn inspect_lines(url: &str, chain_len: usize, target: ChainTarget, selected: &[SelectedCert]) -> (r: Vec<String>)
    ensures
        string_views(r@) == inspect_report(url@, chain_len as nat, target, selected_views(selected@)),
{
    let ghost ss = selected_views(selected@);
    let mut out: Vec<String> = Vec::new();
    out.push(join2("url: ", &chars_of(url)));
    let mut second = join2("chain: ", &decimal_chars(chain_len));
    push_str(&mut second, " certificates");
    out.push(second);
    let ghost head = string_views(out@);
    assert(head =~= seq!["url: "@ + url@, "chain: "@ + decimal(chain_len as nat) + " certificates"@]);
    let mut i: usize = 0;
    while i < selected.len()
        invariant
            i <= selected.len(),
            ss == selected_views(selected@),
            string_views(out@) == head + inspect_blocks(target, ss.take(i as int)),
        decreases selected.len() - i,
    {
        let c = &selected[i].cert;
        assert(ss[i as int] == selected@[i as int]@);
        assert(ss.take(i + 1).drop_last() =~= ss.take(i as int));
        let ghost before = string_views(out@);
        let mut l0 = "selected (chain=".to_owned();
        push_str(&mut l0, target.as_str());
        push_str(&mut l0, "):");
        out.push(l0);
        out.push(join2("  position: ", &decimal_chars(c.index)));
        out.push(join2("  subject: ", &chars_of(c.subject.as_str())));
        out.push(join2("  issuer: ", &chars_of(c.issuer.as_str())));
        let mut l4 = join2("  valid: ", &chars_of(c.not_before.as_str()));
        push_str(&mut l4, " .. ");
        push_str(&mut l4, c.not_after.as_str());
        out.push(l4);
        out.push(join2("  sha256: ", &chars_of(c.fingerprint_sha256.as_str())));
        out.push(join2("  self_signed: ", &chars_of(if c.is_self_signed { "true" } else { "false" })));
        assert(string_views(out@) =~= before + inspect_block(target, ss[i as int]));
        i = i + 1;
        assert(string_views(out@) =~= head + inspect_blocks(target, ss.take(i as int)));
    }
    assert(ss.take(selected.len() as int) =~= ss);
    out
}

/// The hints added to a keystore access error.
pub open spec fn access_report(cacerts: Seq<char>, exists: bool, writable: bool, keytool_exists: bool) -> Seq<Seq<char>> {
    let first = seq!["cacerts: "@ + cacerts];
    let second = if !exists {
        seq!["hint: cacerts file does not exist; set --cacerts or --java-home"@]
    } else if !writable {
        seq!["hint: cacerts is read-only for writes; use --elevate auto on add/remove"@]
    } else {
        seq![]
    };
    let third = if !keytool_exists {
        seq!["hint: keytool not found; set --java-home or JAVA_HOME"@]
    } else {
        seq![]
    };
    first + second + third
}

/// The hint lines joined with newlines.
pub open spec fn newline_joined(ls: Seq<Seq<char>>) -> Seq<char>
    decreases ls.len(),
{
    if ls.len() == 0 {
        seq![]
    } else if ls.len() == 1 {
        ls[0]
    } else {
        newline_joined(ls.drop_last()) + "\n"@ + ls.last()
    }
}

/// Context for a failed keystore access: where cacerts is and what may be wrong.
pub fn diagnose_keystore_access(cacerts: &str, exists: bool, writable: bool, keytool_exists: bool) -> (r: String)
    ensures
        r@ == newline_joined(access_report(cacerts@, exists, writable, keytool_exists)),
{
    let ghost ls = access_report(cacerts@, exists, writable, keytool_exists);
    let mut out = "cacerts: ".to_owned();
    push_str(&mut out, cacerts);
    let ghost first = out@;
    let mut n: usize = 1;
    if !exists {
        push_str(&mut out, "\n");
        push_str(&mut out, "hint: cacerts file does not exist; set --cacerts or --java-home");
        n = 2;
    } else if !writable {
        push_str(&mut out, "\n");
        push_str(&mut out, "hint: cacerts is read-only for writes; use --elevate auto on add/remove");
        n = 2;
    }
    let ghost mid = out@;
    assert(mid == newline_joined(ls.take(n as int))) by {
        if n == 2 {
            assert(ls.take(2).drop_last() =~= seq![first]);
            assert(newline_joined(seq![first]) == first);
            assert(mid =~= first + "\n"@ + ls[1]);
        } else {
            assert(ls.take(1) =~= seq![first]);
        }
    }
    if !keytool_exists {
        push_str(&mut out, "\n");
        push_str(&mut out, "hint: keytool not found; set --java-home or JAVA_HOME");
        assert(ls.take(n + 1).drop_last() =~= ls.take(n as int));
        assert(ls =~= ls.take(n + 1));
        assert(out@ =~= mid + "\n"@ + ls[n as int]);
    } else {
        assert(ls =~= ls.take(n as int));
    }
    out
}

/// The exit code of `add`: pending changes under a dry run that would change cacerts.
pub fn add_exit_code(plan: &AddPlan, dry_run: bool) -> (r: i32)
    ensures
        r == (if dry_run && plan.kind != MutationKind::Skip { crate::exit::PENDING_CHANGES } else { crate::exit::SUCCESS }),
{
    if dry_run && crate::ops::plan_would_mutate_add(plan) {
        crate::exit::PENDING_CHANGES
    } else {
        crate::exit::SUCCESS
    }
}

/// The exit code of `remove`: a dry run always has pending changes.
pub fn remove_exit_code(plan: &RemovePlan, dry_run: bool) -> (r: i32)
    ensures
        r == (if dry_run { crate::exit::PENDING_CHANGES } else { crate::exit::SUCCESS }),
{
    if dry_run && crate::ops::plan_would_mutate_remove(plan) {
        crate::exit::PENDING_CHANGES
    } else {
        crate::exit::SUCCESS
    }
}

proof fn lemma_inspect_blocks(target: ChainTarget, ss: Seq<SelectedView>)
    ensures
        inspect_blocks(target, ss).len() == 7 * ss.len(),
        forall|k: int, j: int| 0 <= k < ss.len() && 0 <= j < 7
            ==> #[trigger] inspect_blocks(target, ss)[7 * k + j] == inspect_block(target, ss[k])[j],
    decreases ss.len(),
{
    if ss.len() > 0 {
        let d = ss.drop_last();
        lemma_inspect_blocks(target, d);
        let bl = inspect_blocks(target, ss);
        assert(bl == inspect_blocks(target, d) + inspect_block(target, ss.last()));
        assert(inspect_block(target, ss.last()).len() == 7);
        assert forall|k: int, j: int| 0 <= k < ss.len() && 0 <= j < 7
            implies #[trigger] bl[7 * k + j] == inspect_block(target, ss[k])[j] by {
            if k < ss.len() - 1 {
                assert(d[k] == ss[k]);
                assert(inspect_blocks(target, d)[7 * k + j] == inspect_block(target, d[k])[j]);
            } else {
                assert(7 * k + j - 7 * d.len() == j);
            }
        }
    }
}

/// `inspect` prints the URL and the chain size, then seven lines for each
/// selected certificate, in order: the target, the certificate's own chain
/// position, subject, issuer, validity, fingerprint and whether it is self-signed.
pub proof fn law_inspect_lines(url: Seq<char>, chain_len: nat, target: ChainTarget, ss: Seq<SelectedView>)
    ensures
        inspect_report(url, chain_len, target, ss).len() == 2 + 7 * ss.len(),
        inspect_report(url, chain_len, target, ss)[0] == "url: "@ + url,
        inspect_report(url, chain_len, target, ss)[1] == "chain: "@ + decimal(chain_len) + " certificates"@,
        forall|k: int| 0 <= k < ss.len() ==> #[trigger] inspect_report(url, chain_len, target, ss)[2 + 7 * k]
            == "selected (chain="@ + target_name(target) + "):"@,
        forall|k: int| 0 <= k < ss.len() ==> #[trigger] inspect_report(url, chain_len, target, ss)[3 + 7 * k]
            == "  position: "@ + decimal(ss[k].cert.index),
        forall|k: int| 0 <= k < ss.len() ==> #[trigger] inspect_report(url, chain_len, target, ss)[4 + 7 * k]
            == "  subject: "@ + ss[k].cert.subject,
        forall|k: int| 0 <= k < ss.len() ==> #[trigger] inspect_report(url, chain_len, target, ss)[5 + 7 * k]
            == "  issuer: "@ + ss[k].cert.issuer,
        forall|k: int| 0 <= k < ss.len() ==> #[trigger] inspect_report(url, chain_len, target, ss)[6 + 7 * k]
            == "  valid: "@ + ss[k].cert.not_before + " .. "@ + ss[k].cert.not_after,
        forall|k: int| 0 <= k < ss.len() ==> #[trigger] inspect_report(url, chain_len, target, ss)[7 + 7 * k]
            == "  sha256: "@ + ss[k].cert.fingerprint,
        forall|k: int| 0 <= k < ss.len() ==> #[trigger] inspect_report(url, chain_len, target, ss)[8 + 7 * k]
            == "  self_signed: "@ + (if ss[k].cert.self_signed { "true"@ } else { "false"@ }),
{
    lemma_inspect_blocks(target, ss);
    let r = inspect_report(url, chain_len, target, ss);
    let bl = inspect_blocks(target, ss);
    let head = seq!["url: "@ + url, "chain: "@ + decimal(chain_len) + " certificates"@];
    assert(r == head + bl);
    assert forall|i: int| 2 <= i < r.len() implies r[i] == bl[i - 2] by {}
    assert forall|k: int, j: int| 0 <= k < ss.len() && 0 <= j < 7 implies r[2 + 7 * k + j] == #[trigger] inspect_block(target, ss[k])[j] by {
        assert(r[2 + 7 * k + j] == bl[7 * k + j]);
    }
    assert forall|k: int| 0 <= k < ss.len() implies #[trigger] r[2 + 7 * k] == "selected (chain="@ + target_name(target) + "):"@ by {
        assert(r[2 + 7 * k + 0] == inspect_block(target, ss[k])[0]);
    }
    assert forall|k: int| 0 <= k < ss.len() implies #[trigger] r[3 + 7 * k] == "  position: "@ + decimal(ss[k].cert.index) by {
        assert(r[2 + 7 * k + 1] == inspect_block(target, ss[k])[1]);
    }
    assert forall|k: int| 0 <= k < ss.len() implies #[trigger] r[4 + 7 * k] == "  subject: "@ + ss[k].cert.subject by {
        assert(r[2 + 7 * k + 2] == inspect_block(target, ss[k])[2]);
    }
    assert forall|k: int| 0 <= k < ss.len() implies #[trigger] r[5 + 7 * k] == "  issuer: "@ + ss[k].cert.issuer by {
        assert(r[2 + 7 * k + 3] == inspect_block(target, ss[k])[3]);
    }
    assert forall|k: int| 0 <= k < ss.len() implies #[trigger] r[6 + 7 * k]
        == "  valid: "@ + ss[k].cert.not_before + " .. "@ + ss[k].cert.not_after by {
        assert(r[2 + 7 * k + 4] == inspect_block(target, ss[k])[4]);
    }
    assert forall|k: int| 0 <= k < ss.len() implies #[trigger] r[7 + 7 * k] == "  sha256: "@ + ss[k].cert.fingerprint by {
        assert(r[2 + 7 * k + 5] == inspect_block(target, ss[k])[5]);
    }
    assert forall|k: int| 0 <= k < ss.len() implies #[trigger] r[8 + 7 * k]
        == "  self_signed: "@ + (if ss[k].cert.self_signed { "true"@ } else { "false"@ }) by {
        assert(r[2 + 7 * k + 6] == inspect_block(target, ss[k])[6]);
    }
}

/// `list --all` prints one line per entry, in order: its alias, then a tab
/// and its fingerprint when it has one.
pub proof fn law_list_all_lines(es: Seq<EntryView>)
    requires
        es.len() > 0,
    ensures
        list_report(es, true).len() == es.len(),
        forall|i: int| 0 <= i < es.len() ==> #[trigger] list_report(es, true)[i] == (match es[i].fingerprint {
            Some(f) => es[i].alias + "\t"@ + f,
            None => es[i].alias,
        }),
{
}

/// `list` prints one line per managed entry, in order, or a note when there
/// is none.
pub proof fn law_list_managed_lines(es: Seq<EntryView>)
    ensures
        ({
            let m = es.filter(|e: EntryView| e.managed);
            &&& m.len() == 0 ==> list_report(es, false) == seq!["(no jcm-* entries in cacerts)"@]
            &&& m.len() > 0 ==> list_report(es, false).len() == m.len()
                && forall|i: int| 0 <= i < m.len() ==> #[trigger] list_report(es, false)[i] == (match m[i].fingerprint {
                    Some(f) => m[i].alias + "\t"@ + f,
                    None => m[i].alias,
                }) && m[i].managed
        }),
{
    let pred = |e: EntryView| e.managed;
    let m = es.filter(pred);
    assert forall|i: int| 0 <= i < m.len() implies #[trigger] m[i].managed by {
        es.lemma_filter_pred(pred, i);
    }
}

} // verus!
