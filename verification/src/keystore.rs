//! The keystore as `keytool` reports it: parsing its listings, the
//! arguments it is run with, and the checks made on what it returns.
use vstd::prelude::*;
use crate::elevation::ElevationPlan;
use crate::error::JcmError;
use crate::jvm::JvmInfo;
use crate::logging::string_views;
use crate::text::{
    push_str,
    ascii_lower, ascii_lower_chars, lines, lines_chars, views, utf8_len, utf8_len_at_most, before_char, before_char_chars, chars_of, contains,
    contains_chars, starts_with, starts_with_chars, string_of, strip_prefix_chars, trim, trim_chars,
};

verus! {

/// An alias in the keystore, with the SHA-256 fingerprint keytool printed for it.
#[derive(Debug)]
pub struct KeystoreEntry {
    pub alias: String,
    pub fingerprint_sha256: Option<String>,
    pub managed: bool,
}

/// What a `KeystoreEntry` holds, as character sequences.
pub struct EntryView {
    pub alias: Seq<char>,
    pub fingerprint: Option<Seq<char>>,
    pub managed: bool,
}

pub open spec fn opt_view(o: Option<String>) -> Option<Seq<char>> {
    match o {
        Some(s) => Some(s@),
        None => None,
    }
}

impl View for KeystoreEntry {
    type V = EntryView;

    open spec fn view(&self) -> EntryView {
        EntryView {
            alias: self.alias@,
            fingerprint: opt_view(self.fingerprint_sha256),
            managed: self.managed,
        }
    }
}

pub open spec fn entry_views(s: Seq<KeystoreEntry>) -> Seq<EntryView> {
    s.map_values(|e: KeystoreEntry| e@)
}

/// `str::to_uppercase`: Unicode upper-casing of every character.
pub uninterp spec fn str_to_uppercase(s: Seq<char>) -> Seq<char>;

/// Calls `str::to_uppercase`; its result is named `str_to_uppercase` of the input.
#[verifier::external_body]
fn to_uppercase(s: &str) -> (r: String)
    ensures
        r@ == str_to_uppercase(s@),
{
    s.to_uppercase()
}

pub open spec fn has_entry_type(line: Seq<char>) -> bool {
    contains(line, "trustedCertEntry"@) || contains(line, "PrivateKeyEntry"@) || contains(
        line,
        "SecretKeyEntry"@,
    )
}

/// keytool entry types stay in English regardless of JVM locale.
pub fn line_contains_entry_type(line: &[char]) -> (b: bool)
    ensures
        b == has_entry_type(line@),
{
    contains_chars(line, &chars_of("trustedCertEntry")) || contains_chars(
        line,
        &chars_of("PrivateKeyEntry"),
    ) || contains_chars(line, &chars_of("SecretKeyEntry"))
}

/// An alias name that is not a localized keytool summary line; at most 120 bytes of UTF-8.
pub open spec fn plausible_alias(alias: Seq<char>) -> bool {
    let lower = ascii_lower(alias);
    &&& alias.len() != 0
    &&& utf8_len(alias) <= 120
    &&& !contains(lower, "keystore"@)
    &&& !contains(lower, "contains"@)
    &&& !contains(lower, "entrad"@)
    &&& !contains(lower, "armazenamento"@)
    &&& !contains(lower, "contém"@)
    &&& !contains(lower, "contem"@)
}

pub fn is_plausible_alias_name(alias: &str) -> (b: bool)
    ensures
        b == plausible_alias(alias@),
{
    let cs = chars_of(alias);
    if cs.len() == 0 || !utf8_len_at_most(&cs, 120) {
        return false;
    }
    let lower = ascii_lower_chars(&cs);
    !(contains_chars(&lower, &chars_of("keystore")) || contains_chars(
        &lower,
        &chars_of("contains"),
    ) || contains_chars(&lower, &chars_of("entrad")) || contains_chars(
        &lower,
        &chars_of("armazenamento"),
    ) || contains_chars(&lower, &chars_of("contém")) || contains_chars(
        &lower,
        &chars_of("contem"),
    ))
}

/// The fingerprint on a `SHA256:` or `Certificate fingerprint (SHA-256):` line, upper-cased.
pub open spec fn sha256_line(line: Seq<char>) -> Option<Seq<char>> {
    if starts_with(line, "SHA256:"@) {
        Some(str_to_uppercase(trim(line.skip("SHA256:"@.len() as int))))
    } else if starts_with(line, "Certificate fingerprint (SHA-256):"@) {
        Some(
            str_to_uppercase(
                trim(line.skip("Certificate fingerprint (SHA-256):"@.len() as int)),
            ),
        )
    } else {
        None
    }
}

pub fn parse_sha256_fingerprint(line: &[char]) -> (r: Option<String>)
    ensures
        opt_view(r) == sha256_line(line@),
{
    let rest = match strip_prefix_chars(line, &chars_of("SHA256:")) {
        Some(rest) => rest,
        None => match strip_prefix_chars(line, &chars_of("Certificate fingerprint (SHA-256):")) {
            Some(rest) => rest,
            None => return None,
        },
    };
    let trimmed = string_of(&trim_chars(&rest));
    Some(to_uppercase(trimmed.as_str()))
}

/// The alias on a compact listing line (`alias, date, entryType,`).
pub open spec fn compact_alias(line: Seq<char>) -> Option<Seq<char>> {
    if line.len() == 0 || starts_with(line, "Keystore "@) || starts_with(line, "Your keystore"@)
        || starts_with(line, "Certificate "@) || starts_with(line, "*"@) || !has_entry_type(line) {
        None
    } else {
        let head = trim(before_char(line, ','));
        if head.len() == 0 || contains(head, "fingerprint"@) || !plausible_alias(head) {
            None
        } else {
            Some(head)
        }
    }
}

pub fn parse_compact_alias_line(line: &[char]) -> (r: Option<String>)
    ensures
        opt_view(r) == compact_alias(line@),
{
    if line.len() == 0 || starts_with_chars(line, &chars_of("Keystore ")) || starts_with_chars(
        line,
        &chars_of("Your keystore"),
    ) || starts_with_chars(line, &chars_of("Certificate ")) || starts_with_chars(
        line,
        &chars_of("*"),
    ) || !line_contains_entry_type(line) {
        return None;
    }
    let head = trim_chars(&before_char_chars(line, ','));
    let head_str = string_of(&head);
    if head.len() == 0 || contains_chars(&head, &chars_of("fingerprint"))
        || !is_plausible_alias_name(head_str.as_str()) {
        return None;
    }
    Some(head_str)
}

/// The alias on a verbose listing line (`Alias name: ...`).
pub open spec fn alias_name_line(line: Seq<char>) -> Option<Seq<char>> {
    if starts_with(line, "Alias name:"@) {
        Some(trim(line.skip("Alias name:"@.len() as int)))
    } else {
        None
    }
}

/// What has been read of a listing: the finished entries and the open one.
pub struct ListState {
    pub entries: Seq<EntryView>,
    pub alias: Option<Seq<char>>,
    pub fingerprint: Option<Seq<char>>,
}

/// `entries` with the open entry, if there is one, closed.
pub open spec fn flushed(entries: Seq<EntryView>, alias: Option<Seq<char>>, fp: Option<Seq<char>>) -> Seq<EntryView> {
    match alias {
        Some(a) => entries.push(EntryView { alias: a, fingerprint: fp, managed: false }),
        None => entries,
    }
}

/// One listing line read: an alias line opens a new entry, a fingerprint line
/// sets the open entry's fingerprint, any other line changes nothing.
pub open spec fn list_step(st: ListState, raw: Seq<char>) -> ListState {
    let line = trim(raw);
    if let Some(a) = alias_name_line(line) {
        ListState { entries: flushed(st.entries, st.alias, st.fingerprint), alias: Some(a), fingerprint: None }
    } else if let Some(f) = sha256_line(line) {
        ListState { fingerprint: Some(f), ..st }
    } else if let Some(a) = compact_alias(line) {
        ListState { entries: flushed(st.entries, st.alias, st.fingerprint), alias: Some(a), fingerprint: None }
    } else {
        st
    }
}

/// The state after reading `ls` in order.
pub open spec fn list_run(ls: Seq<Seq<char>>) -> ListState
    decreases ls.len(),
{
    if ls.len() == 0 {
        ListState { entries: seq![], alias: None, fingerprint: None }
    } else {
        list_step(list_run(ls.drop_last()), ls.last())
    }
}

/// Each entry marked managed exactly when its alias starts with `prefix`.
pub open spec fn mark_managed(es: Seq<EntryView>, prefix: Seq<char>) -> Seq<EntryView> {
    es.map_values(|e: EntryView| EntryView { managed: starts_with(e.alias, prefix), ..e })
}

/// The entries of a `keytool -list` output, in order.
pub open spec fn keytool_list(text: Seq<char>, prefix: Seq<char>) -> Seq<EntryView> {
    let st = list_run(lines(text));
    mark_managed(flushed(st.entries, st.alias, st.fingerprint), prefix)
}

/// Closes the open entry, if there is one.
pub fn push_entry(entries: &mut Vec<KeystoreEntry>, alias: Option<String>, fingerprint_sha256: Option<String>)
    ensures
        entry_views(final(entries)@) == flushed(entry_views(old(entries)@), opt_view(alias), opt_view(fingerprint_sha256)),
{
    if let Some(alias) = alias {
        let e = KeystoreEntry { alias, fingerprint_sha256, managed: false };
        entries.push(e);
        assert(entry_views(entries@) =~= entry_views(old(entries)@).push(e@));
    }
}

/// Parses the output of `keytool -list`, compact (JDK 25) or verbose.
pub fn parse_keytool_list(text: &str, prefix: &str) -> (r: Vec<KeystoreEntry>)
    ensures
        entry_views(r@) == keytool_list(text@, prefix@),
{
    let tc = chars_of(text);
    let ls = lines_chars(&tc);
    let mut entries: Vec<KeystoreEntry> = Vec::new();
    let mut current_alias: Option<String> = None;
    let mut current_fp: Option<String> = None;
    let mut i: usize = 0;
    assert(views(ls@).take(0) =~= seq![]);
    assert(entry_views(entries@) =~= seq![]);
    while i < ls.len()
        invariant
            i <= ls.len(),
            views(ls@) == lines(text@),
            list_run(views(ls@).take(i as int)) == (ListState {
                entries: entry_views(entries@),
                alias: opt_view(current_alias),
                fingerprint: opt_view(current_fp),
            }),
        decreases ls.len() - i,
    {
        assert(views(ls@).take(i + 1).drop_last() =~= views(ls@).take(i as int));
        assert(views(ls@).take(i + 1).last() == ls@[i as int]@);
        let line = trim_chars(&ls[i]);
        if let Some(alias) = strip_prefix_chars(&line, &chars_of("Alias name:")) {
            push_entry(&mut entries, current_alias, current_fp);
            current_alias = Some(string_of(&trim_chars(&alias)));
            current_fp = None;
        } else if let Some(fp) = parse_sha256_fingerprint(&line) {
            current_fp = Some(fp);
        } else if let Some(alias) = parse_compact_alias_line(&line) {
            push_entry(&mut entries, current_alias, current_fp);
            current_alias = Some(alias);
            current_fp = None;
        }
        i = i + 1;
    }
    assert(views(ls@).take(ls.len() as int) =~= views(ls@));
    push_entry(&mut entries, current_alias, current_fp);
    let ghost unmarked = entry_views(entries@);
    let mut k: usize = 0;
    while k < entries.len()
        invariant
            k <= entries.len(),
            entry_views(entries@).len() == unmarked.len(),
            forall|m: int| 0 <= m < k ==> #[trigger] entry_views(entries@)[m] == mark_managed(unmarked, prefix@)[m],
            forall|m: int| k <= m < entries.len() ==> #[trigger] entry_views(entries@)[m] == unmarked[m],
        decreases entries.len() - k,
    {
        let alias_chars = chars_of(entries[k].alias.as_str());
        let managed = starts_with_chars(&alias_chars, &chars_of(prefix));
        let ghost before = entries@;
        assert(entry_views(before)[k as int] == unmarked[k as int]);
        entries[k].managed = managed;
        assert(entries@[k as int].alias == before[k as int].alias);
        assert(entries@[k as int].fingerprint_sha256 == before[k as int].fingerprint_sha256);
        assert(forall|m: int| 0 <= m < entries.len() && m != k ==> entries@[m] == before[m]);
        assert(entry_views(entries@)[k as int] == mark_managed(unmarked, prefix@)[k as int]);
        assert forall|m: int| 0 <= m < k + 1 implies #[trigger] entry_views(entries@)[m]
            == mark_managed(unmarked, prefix@)[m] by {
            if m < k {
                assert(entry_views(before)[m] == mark_managed(unmarked, prefix@)[m]);
            }
        }
        assert forall|m: int| k + 1 <= m < entries.len() implies #[trigger] entry_views(entries@)[m]
            == unmarked[m] by {
            assert(entry_views(before)[m] == unmarked[m]);
        }
        k = k + 1;
    }
    assert(entry_views(entries@) =~= mark_managed(unmarked, prefix@));
    entries
}

/// What a finished keytool run left: whether it succeeded, its exit status as
/// text, and its output decoded as UTF-8.
#[derive(Debug)]
pub struct ProcessOutput {
    pub success: bool,
    pub status: String,
    pub stdout: String,
    pub stderr: String,
}

/// At most the first `n` characters of `s`.
pub open spec fn first_chars(s: Seq<char>, n: nat) -> Seq<char> {
    if s.len() <= n {
        s
    } else {
        s.take(n as int)
    }
}

/// The message for a failed keytool run: the label, the exit status, the
/// trimmed error output and at most 500 characters of the output.
pub open spec fn keytool_failure(label: Seq<char>, status: Seq<char>, stdout: Seq<char>, stderr: Seq<char>) -> Seq<char> {
    let base = label + " (exit "@ + status + ")"@;
    let with_err = if trim(stderr).len() > 0 {
        base + "\nstderr: "@ + trim(stderr)
    } else {
        base
    };
    let with_out = if trim(stdout).len() > 0 {
        with_err + "\nstdout: "@ + first_chars(stdout, 500) + (if utf8_len(stdout) > 500 {
            "..."@
        } else {
            seq![]
        })
    } else {
        with_err
    };
    if trim(stderr).len() == 0 && trim(stdout).len() == 0 {
        with_out + "\n(no output captured)"@
    } else {
        with_out
    }
}

pub fn format_keytool_failure(label: &str, output: &ProcessOutput) -> (r: String)
    ensures
        r@ == keytool_failure(label@, output.status@, output.stdout@, output.stderr@),
{
    let err = trim_chars(&chars_of(output.stderr.as_str()));
    let outc = chars_of(output.stdout.as_str());
    let out_trim = trim_chars(&outc);
    let mut msg = label.to_owned();
    push_str(&mut msg, " (exit ");
    push_str(&mut msg, output.status.as_str());
    push_str(&mut msg, ")");
    if err.len() > 0 {
        push_str(&mut msg, "\nstderr: ");
        push_str(&mut msg, string_of(&err).as_str());
    }
    if out_trim.len() > 0 {
        push_str(&mut msg, "\nstdout: ");
        let mut k: usize = 0;
        let ghost before = msg@;
        while k < outc.len() && k < 500
            invariant
                k <= outc.len(),
                k <= 500,
                msg@ == before + outc@.take(k as int),
            decreases outc.len() - k,
        {
            msg.push(outc[k]);
            k = k + 1;
            assert(msg@ =~= before + outc@.take(k as int));
        }
        assert(outc@.take(k as int) =~= first_chars(outc@, 500));
        if !utf8_len_at_most(&outc, 500) {
            push_str(&mut msg, "...");
        } else {
            assert(msg@ =~= msg@ + Seq::<char>::empty());
        }
    }
    if err.len() == 0 && out_trim.len() == 0 {
        push_str(&mut msg, "\n(no output captured)");
    }
    msg
}

/// A keytool failure error whose message is `m`.
pub open spec fn keytool_error(e: JcmError, m: Seq<char>) -> bool {
    e matches JcmError::KeytoolFailed { message } && message@ == m
}

/// Whether a failed keytool run on the system trust store is retried with `-keystore <path>`.
pub fn keytool_fallback_needed(jvm: &JvmInfo, primary: &ProcessOutput) -> (b: bool)
    ensures
        b == (!primary.success && jvm.use_system_cacerts),
{
    !primary.success && jvm.use_system_cacerts
}

/// The outcome of running keytool: the first successful run, else an error
/// that describes the first run.
pub fn run_keytool(jvm: &JvmInfo, primary: ProcessOutput, fallback: Option<ProcessOutput>) -> (r: Result<ProcessOutput, JcmError>)
    requires
        !primary.success && jvm.use_system_cacerts ==> fallback is Some,
    ensures
        primary.success ==> r == Ok::<ProcessOutput, JcmError>(primary),
        !primary.success && jvm.use_system_cacerts && fallback.unwrap().success ==> r == Ok::<ProcessOutput, JcmError>(fallback.unwrap()),
        !primary.success && jvm.use_system_cacerts && !fallback.unwrap().success ==> (r matches Err(e) && keytool_error(e, keytool_failure(
            "keytool failed (tried -cacerts and -keystore)"@, primary.status@, primary.stdout@, primary.stderr@))),
        !primary.success && !jvm.use_system_cacerts ==> (r matches Err(e) && keytool_error(e, keytool_failure(
            "keytool failed"@, primary.status@, primary.stdout@, primary.stderr@))),
{
    if primary.success {
        return Ok(primary);
    }
    if jvm.use_system_cacerts {
        match fallback {
            Some(f) => {
                if f.success {
                    return Ok(f);
                }
            }
            None => {}
        }
        let m = format_keytool_failure("keytool failed (tried -cacerts and -keystore)", &primary);
        return Err(JcmError::KeytoolFailed { message: m });
    }
    let m = format_keytool_failure("keytool failed", &primary);
    Err(JcmError::KeytoolFailed { message: m })
}

/// The arguments that point keytool at the trust store: `-cacerts` or
/// `-keystore <path>`, then `-storepass <password>`.
pub open spec fn target_args(jvm: JvmInfo, use_cacerts_flag: bool) -> Seq<Seq<char>> {
    if use_cacerts_flag {
        seq!["-cacerts"@, "-storepass"@, jvm.store_pass@]
    } else {
        seq!["-keystore"@, jvm.cacerts@, "-storepass"@, jvm.store_pass@]
    }
}

pub fn push_keystore_target_args(jvm: &JvmInfo, args: &mut Vec<String>, use_cacerts_flag: bool)
    ensures
        string_views(final(args)@) == string_views(old(args)@) + target_args(*jvm, use_cacerts_flag),
{
    let ghost start = string_views(args@);
    if use_cacerts_flag {
        args.push("-cacerts".to_owned());
    } else {
        args.push("-keystore".to_owned());
        args.push(jvm.cacerts.clone());
    }
    args.push("-storepass".to_owned());
    args.push(jvm.store_pass.clone());
    assert(string_views(args@) =~= start + target_args(*jvm, use_cacerts_flag));
}

/// The full keytool argument list for a command run against the trust store.
pub fn keytool_args(jvm: &JvmInfo, command_args: &[&str], use_cacerts_flag: bool) -> (r: Vec<String>)
    ensures
        string_views(r@) == crate::logging::str_views(command_args@) + target_args(*jvm, use_cacerts_flag),
{
    let mut args: Vec<String> = Vec::new();
    let mut i: usize = 0;
    while i < command_args.len()
        invariant
            i <= command_args.len(),
            args.len() == i,
            string_views(args@) == crate::logging::str_views(command_args@).take(i as int),
        decreases command_args.len() - i,
    {
        args.push(command_args[i].to_owned());
        i = i + 1;
        assert(string_views(args@) =~= crate::logging::str_views(command_args@).take(i as int));
    }
    assert(crate::logging::str_views(command_args@).take(command_args.len() as int) =~= crate::logging::str_views(command_args@));
    push_keystore_target_args(jvm, &mut args, use_cacerts_flag);
    args
}

/// The entries of a `keytool -list` run, or the failure it reports.
pub fn list_entries(output: &ProcessOutput, prefix: &str) -> (r: Result<Vec<KeystoreEntry>, JcmError>)
    ensures
        output.success ==> (r matches Ok(es) && entry_views(es@) == keytool_list(output.stdout@, prefix@)),
        !output.success ==> (r matches Err(e) && keytool_error(e, keytool_failure(
            "keytool list failed"@, output.status@, output.stdout@, output.stderr@))),
{
    if !output.success {
        return Err(JcmError::KeytoolFailed { message: format_keytool_failure("keytool list failed", output) });
    }
    Ok(parse_keytool_list(output.stdout.as_str(), prefix))
}

/// The outcome of `keytool -importcert` for `alias`.
pub fn import_cert(alias: &str, output: &ProcessOutput) -> (r: Result<(), JcmError>)
    ensures
        r is Ok <==> output.success,
        !output.success ==> (r matches Err(e) && keytool_error(e, keytool_failure(
            "keytool import failed for "@ + alias@, output.status@, output.stdout@, output.stderr@))),
{
    if !output.success {
        let mut label = "keytool import failed for ".to_owned();
        push_str(&mut label, alias);
        return Err(JcmError::KeytoolFailed { message: format_keytool_failure(label.as_str(), output) });
    }
    Ok(())
}

/// The outcome of `keytool -delete` for `alias`: an alias that does not exist counts as deleted.
pub fn delete_alias(alias: &str, output: &ProcessOutput) -> (r: Result<(), JcmError>)
    ensures
        ({
            let detail = keytool_failure("keytool delete failed"@, output.status@, output.stdout@, output.stderr@);
            &&& r is Ok <==> (output.success || contains(detail, "does not exist"@))
            &&& r matches Err(e) ==> keytool_error(e, detail + " (alias: "@ + alias@ + ")"@)
        }),
{
    if !output.success {
        let detail = format_keytool_failure("keytool delete failed", output);
        if contains_chars(&chars_of(detail.as_str()), &chars_of("does not exist")) {
            return Ok(());
        }
        let mut m = detail;
        push_str(&mut m, " (alias: ");
        push_str(&mut m, alias);
        push_str(&mut m, ")");
        return Err(JcmError::KeytoolFailed { message: m });
    }
    Ok(())
}

/// The details keytool printed for `alias`, trimmed.
pub fn show_alias(alias: &str, output: &ProcessOutput) -> (r: Result<String, JcmError>)
    ensures
        output.success ==> (r matches Ok(s) && s@ == trim(output.stdout@)),
        !output.success ==> (r matches Err(e) && keytool_error(e, keytool_failure(
            "keytool show failed for "@ + alias@, output.status@, output.stdout@, output.stderr@))),
{
    if !output.success {
        let mut label = "keytool show failed for ".to_owned();
        push_str(&mut label, alias);
        return Err(JcmError::KeytoolFailed { message: format_keytool_failure(label.as_str(), output) });
    }
    Ok(string_of(&trim_chars(&chars_of(output.stdout.as_str()))))
}

/// The aliases of `es`, in order.
pub open spec fn aliases(es: Seq<EntryView>) -> Seq<Seq<char>> {
    es.map_values(|e: EntryView| e.alias)
}

/// `e` is a built-in (non-managed, plausible) alias that `after` lacks.
pub open spec fn builtin_missing(e: EntryView, after: Seq<EntryView>, prefix: Seq<char>) -> bool {
    !starts_with(e.alias, prefix) && plausible_alias(e.alias) && !aliases(after).contains(e.alias)
}

/// Whether `set` holds a string equal to `s`.
pub fn contains_string(set: &Vec<String>, s: &str) -> (b: bool)
    ensures
        b == string_views(set@).contains(s@),
{
    let mut i: usize = 0;
    while i < set.len()
        invariant
            i <= set.len(),
            forall|k: int| 0 <= k < i ==> string_views(set@)[k] != s@,
        decreases set.len() - i,
    {
        if crate::text::str_eq(set[i].as_str(), s) {
            assert(string_views(set@)[i as int] == s@);
            return true;
        }
        i = i + 1;
    }
    false
}

/// The distinct aliases of `entries`.
pub fn alias_set(entries: &[KeystoreEntry]) -> (r: Vec<String>)
    ensures
        forall|s: Seq<char>| #[trigger] string_views(r@).contains(s) <==> aliases(entry_views(entries@)).contains(s),
        string_views(r@).no_duplicates(),
{
    let mut out: Vec<String> = Vec::new();
    let mut i: usize = 0;
    while i < entries.len()
        invariant
            i <= entries.len(),
            forall|s: Seq<char>| #[trigger] string_views(out@).contains(s) <==> aliases(entry_views(entries@)).take(i as int).contains(s),
            string_views(out@).no_duplicates(),
        decreases entries.len() - i,
    {
        let ghost prev = string_views(out@);
        let ghost all = aliases(entry_views(entries@));
        assert(all.take(i + 1) =~= all.take(i as int).push(entries@[i as int].alias@));
        let ghost x = entries@[i as int].alias@;
        assert(all.take(i + 1)[i as int] == x);
        if !contains_string(&out, entries[i].alias.as_str()) {
            out.push(entries[i].alias.clone());
            assert(string_views(out@) =~= prev.push(x));
            assert(string_views(out@)[prev.len() as int] == x);
        }
        assert(string_views(out@).contains(x));
        assert forall|t: Seq<char>| #[trigger] string_views(out@).contains(t) <==> all.take(i + 1).contains(t) by {
            if all.take(i + 1).contains(t) {
                let k = choose|k: int| 0 <= k < i + 1 && #[trigger] all.take(i + 1)[k] == t;
                if k < i {
                    assert(all.take(i as int)[k] == t);
                    assert(prev.contains(t));
                    let m = choose|m: int| 0 <= m < prev.len() && #[trigger] prev[m] == t;
                    assert(string_views(out@)[m] == t);
                }
            }
            if string_views(out@).contains(t) && t != x {
                let m = choose|m: int| 0 <= m < string_views(out@).len() && #[trigger] string_views(out@)[m] == t;
                assert(prev[m] == t);
                assert(prev.contains(t));
                let k = choose|k: int| 0 <= k < i && #[trigger] all.take(i as int)[k] == t;
                assert(all.take(i + 1)[k] == t);
            }
        }
        i = i + 1;
    }
    assert(aliases(entry_views(entries@)).take(entries.len() as int) =~= aliases(entry_views(entries@)));
    out
}

/// No built-in alias of `before` is missing from `after`.
pub open spec fn builtin_intact(before: Seq<EntryView>, after: Seq<EntryView>, prefix: Seq<char>) -> bool {
    forall|i: int| 0 <= i < before.len() ==> !builtin_missing(#[trigger] before[i], after, prefix)
}

/// `e` reports the first built-in alias of `before` that `after` lacks.
pub open spec fn builtin_report(e: JcmError, before: Seq<EntryView>, after: Seq<EntryView>, prefix: Seq<char>) -> bool {
    exists|i: int| 0 <= i < before.len()
        && builtin_missing(#[trigger] before[i], after, prefix)
        && (forall|j: int| 0 <= j < i ==> !builtin_missing(#[trigger] before[j], after, prefix))
        && (e matches JcmError::BuiltinAliasMissing { alias } && alias@ == before[i].alias)
}

/// After an operation, every built-in alias that was in the keystore before is still there.
pub fn verify_builtin_aliases_unchanged(before: &[KeystoreEntry], after: &[KeystoreEntry], managed_prefix: &str) -> (r: Result<(), JcmError>)
    ensures
        r is Ok <==> builtin_intact(entry_views(before@), entry_views(after@), managed_prefix@),
        r matches Err(e) ==> builtin_report(e, entry_views(before@), entry_views(after@), managed_prefix@),
{
    let after_set = alias_set(after);
    let prefix = chars_of(managed_prefix);
    let mut i: usize = 0;
    while i < before.len()
        invariant
            i <= before.len(),
            prefix@ == managed_prefix@,
            forall|s: Seq<char>| #[trigger] string_views(after_set@).contains(s) <==> aliases(entry_views(after@)).contains(s),
            forall|j: int| 0 <= j < i ==> !builtin_missing(#[trigger] entry_views(before@)[j], entry_views(after@), managed_prefix@),
        decreases before.len() - i,
    {
        let alias = before[i].alias.as_str();
        assert(entry_views(before@)[i as int].alias == alias@);
        if starts_with_chars(&chars_of(alias), &prefix) {
            i = i + 1;
            continue;
        }
        if !is_plausible_alias_name(alias) {
            i = i + 1;
            continue;
        }
        if !contains_string(&after_set, alias) {
            return Err(JcmError::BuiltinAliasMissing { alias: before[i].alias.clone() });
        }
        i = i + 1;
    }
    Ok(())
}

/// An unchanged keystore always passes the built-in alias check.
pub proof fn law_unchanged_keystore_passes(entries: Seq<EntryView>, prefix: Seq<char>)
    ensures
        builtin_intact(entries, entries, prefix),
{
    assert forall|i: int| 0 <= i < entries.len() implies !builtin_missing(#[trigger] entries[i], entries, prefix) by {
        assert(aliases(entries)[i] == entries[i].alias);
    }
}

/// The fingerprint recorded for each alias; a later entry of an alias wins.
pub open spec fn fingerprints(es: Seq<EntryView>) -> Map<Seq<char>, Seq<char>>
    decreases es.len(),
{
    if es.len() == 0 {
        Map::empty()
    } else {
        let m = fingerprints(es.drop_last());
        match es.last().fingerprint {
            Some(f) => m.insert(es.last().alias, f),
            None => m,
        }
    }
}

/// Alias and fingerprint pairs, as character sequences.
pub open spec fn pair_views(ps: Seq<(String, String)>) -> Seq<(Seq<char>, Seq<char>)> {
    ps.map_values(|p: (String, String)| (p.0@, p.1@))
}

/// The position of the pair whose key is `alias`.
fn find_key(ps: &Vec<(String, String)>, alias: &str) -> (r: Option<usize>)
    ensures
        r matches Some(j) ==> j < ps.len() && pair_views(ps@)[j as int].0 == alias@,
        r is None ==> forall|k: int| 0 <= k < ps.len() ==> pair_views(ps@)[k].0 != alias@,
{
    let mut j: usize = 0;
    while j < ps.len()
        invariant
            j <= ps.len(),
            forall|k: int| 0 <= k < j ==> pair_views(ps@)[k].0 != alias@,
        decreases ps.len() - j,
    {
        if crate::text::str_eq(ps[j].0.as_str(), alias) {
            return Some(j);
        }
        j = j + 1;
    }
    None
}

/// The alias to fingerprint map of `entries`, as distinct-keyed pairs.
#[verifier::spinoff_prover]
pub fn fingerprint_map(entries: &[KeystoreEntry]) -> (r: Vec<(String, String)>)
    ensures
        forall|k: int, m: int| 0 <= k < m < r.len() ==> pair_views(r@)[k].0 != pair_views(r@)[m].0,
        forall|k: int| 0 <= k < r.len() ==> #[trigger] fingerprints(entry_views(entries@)).contains_key(pair_views(r@)[k].0)
            && fingerprints(entry_views(entries@))[pair_views(r@)[k].0] == pair_views(r@)[k].1,
        forall|a: Seq<char>| #[trigger] fingerprints(entry_views(entries@)).contains_key(a) ==> exists|k: int| 0 <= k < r.len() && pair_views(r@)[k].0 == a,
{
    let mut out: Vec<(String, String)> = Vec::new();
    let mut i: usize = 0;
    while i < entries.len()
        invariant
            i <= entries.len(),
            forall|k: int, m: int| 0 <= k < m < out.len() ==> pair_views(out@)[k].0 != pair_views(out@)[m].0,
            forall|k: int| 0 <= k < out.len() ==> #[trigger] fingerprints(entry_views(entries@).take(i as int)).contains_key(pair_views(out@)[k].0)
                && fingerprints(entry_views(entries@).take(i as int))[pair_views(out@)[k].0] == pair_views(out@)[k].1,
            forall|a: Seq<char>| #[trigger] fingerprints(entry_views(entries@).take(i as int)).contains_key(a) ==> exists|k: int| 0 <= k < out.len() && pair_views(out@)[k].0 == a,
        decreases entries.len() - i,
    {
        let ghost es = entry_views(entries@);
        assert(es.take(i + 1).drop_last() =~= es.take(i as int));
        assert(es.take(i + 1).last() == entries@[i as int]@);
        match &entries[i].fingerprint_sha256 {
            None => {
                assert(fingerprints(es.take(i + 1)) == fingerprints(es.take(i as int)));
                assert forall|k: int| 0 <= k < out.len() implies #[trigger] fingerprints(es.take(i + 1)).contains_key(pair_views(out@)[k].0)
                    && fingerprints(es.take(i + 1))[pair_views(out@)[k].0] == pair_views(out@)[k].1 by {
                    assert(fingerprints(es.take(i as int)).contains_key(pair_views(out@)[k].0));
                }
            },
            Some(fp) => {
                let alias = entries[i].alias.as_str();
                let found = find_key(&out, alias);
                let ghost old_out = pair_views(out@);
                let ghost old_m = fingerprints(es.take(i as int));
                let j = match found {
                    Some(j) => {
                        out[j] = (entries[i].alias.clone(), fp.clone());
                        assert(pair_views(out@) =~= old_out.update(j as int, (alias@, fp@)));
                        j
                    },
                    None => {
                        out.push((entries[i].alias.clone(), fp.clone()));
                        assert(pair_views(out@) =~= old_out.push((alias@, fp@)));
                        out.len() - 1
                    },
                };
                let ghost m = fingerprints(es.take(i + 1));
                assert(m == old_m.insert(alias@, fp@));
                assert(pair_views(out@)[j as int] == (alias@, fp@));
                assert forall|k: int| 0 <= k < out.len() && k != j implies pair_views(out@)[k] == old_out[k] && old_out[k].0 != alias@ by {}
                assert forall|k: int| 0 <= k < out.len() implies #[trigger] m.contains_key(pair_views(out@)[k].0)
                    && m[pair_views(out@)[k].0] == pair_views(out@)[k].1 by {
                    if k != j {
                        assert(old_m.contains_key(old_out[k].0));
                    }
                }
                assert forall|a: Seq<char>| m.contains_key(a) implies exists|k: int| 0 <= k < out.len() && pair_views(out@)[k].0 == a by {
                    if a == alias@ {
                        assert(pair_views(out@)[j as int].0 == a);
                    } else {
                        let k = choose|k: int| 0 <= k < old_out.len() && #[trigger] old_out[k].0 == a;
                        assert(pair_views(out@)[k].0 == a);
                    }
                }
            },
        }
        i = i + 1;
    }
    assert(entry_views(entries@).take(entries.len() as int) =~= entry_views(entries@));
    assert(fingerprints(entry_views(entries@).take(entries.len() as int)) == fingerprints(entry_views(entries@)));
    assert forall|k: int| 0 <= k < out.len() implies #[trigger] fingerprints(entry_views(entries@)).contains_key(pair_views(out@)[k].0)
        && fingerprints(entry_views(entries@))[pair_views(out@)[k].0] == pair_views(out@)[k].1 by {
        assert(fingerprints(entry_views(entries@).take(entries.len() as int)).contains_key(pair_views(out@)[k].0));
    }
    out
}

/// The keystore alias for an alias of a trust list: the prefix, then the alias.
pub fn keystore_alias_for(config_alias: &str, opts: &crate::cli::GlobalOpts) -> (r: String)
    ensures
        r@ == opts.alias_prefix@ + config_alias@,
{
    let mut r = opts.alias_prefix.clone();
    push_str(&mut r, config_alias);
    r
}

/// In a parsed listing, an entry is managed exactly when its alias carries the prefix.
pub proof fn law_listing_managed_iff_prefixed(text: Seq<char>, prefix: Seq<char>)
    ensures
        forall|i: int| 0 <= i < keytool_list(text, prefix).len() ==> (#[trigger] keytool_list(text, prefix)[i]).managed
            == starts_with(keytool_list(text, prefix)[i].alias, prefix),
{
}

/// A keytool operation on the trust store.
#[derive(Debug)]
pub enum KeytoolOp {
    /// List every entry.
    List,
    /// Print the details of one alias.
    Show { alias: String },
    /// Import the certificate in `file` under `alias`.
    Import { alias: String, file: String },
    /// Delete `alias`.
    Delete { alias: String },
}

/// Listing and showing only read the trust store.
pub open spec fn read_only(op: KeytoolOp) -> bool {
    op is List || op is Show
}

/// The keytool arguments of `op`, before the trust-store arguments.
pub open spec fn op_args_spec(op: KeytoolOp) -> Seq<Seq<char>> {
    match op {
        KeytoolOp::List => seq!["-list"@],
        KeytoolOp::Show { alias } => seq!["-list"@, "-v"@, "-alias"@, alias@],
        KeytoolOp::Import { alias, file } => seq!["-importcert"@, "-noprompt"@, "-alias"@, alias@, "-file"@, file@],
        KeytoolOp::Delete { alias } => seq!["-delete"@, "-alias"@, alias@],
    }
}

/// The keytool arguments of `op`.
pub fn op_args(op: &KeytoolOp) -> (r: Vec<String>)
    ensures
        string_views(r@) == op_args_spec(*op),
{
    let mut r: Vec<String> = Vec::new();
    match op {
        KeytoolOp::List => {
            r.push("-list".to_owned());
        },
        KeytoolOp::Show { alias } => {
            r.push("-list".to_owned());
            r.push("-v".to_owned());
            r.push("-alias".to_owned());
            r.push(alias.clone());
        },
        KeytoolOp::Import { alias, file } => {
            r.push("-importcert".to_owned());
            r.push("-noprompt".to_owned());
            r.push("-alias".to_owned());
            r.push(alias.clone());
            r.push("-file".to_owned());
            r.push(file.clone());
        },
        KeytoolOp::Delete { alias } => {
            r.push("-delete".to_owned());
            r.push("-alias".to_owned());
            r.push(alias.clone());
        },
    }
    assert(string_views(r@) =~= op_args_spec(*op));
    r
}

/// How `op` is run: read-only operations never ask for elevation; a change
/// runs as `plan` says.
pub fn op_elevation(op: &KeytoolOp, plan: ElevationPlan) -> (r: ElevationPlan)
    ensures
        read_only(*op) ==> r == ElevationPlan::Direct,
        !read_only(*op) ==> r == plan,
{
    match op {
        KeytoolOp::List | KeytoolOp::Show { .. } => ElevationPlan::Direct,
        _ => plan,
    }
}

/// `es[k]` carries a fingerprint for alias `a`.
pub open spec fn fingerprinted(es: Seq<EntryView>, k: int, a: Seq<char>) -> bool {
    es[k].alias == a && es[k].fingerprint is Some
}

/// An alias has a fingerprint exactly when some entry gives it one, and the
/// fingerprint kept is that of the last such entry.
pub proof fn law_fingerprint_is_last(es: Seq<EntryView>, a: Seq<char>)
    ensures
        fingerprints(es).contains_key(a) <==> exists|k: int| 0 <= k < es.len() && #[trigger] fingerprinted(es, k, a),
        fingerprints(es).contains_key(a) ==> exists|k: int| 0 <= k < es.len() && #[trigger] fingerprinted(es, k, a)
            && es[k].fingerprint == Some(fingerprints(es)[a])
            && forall|j: int| k < j < es.len() ==> !fingerprinted(es, j, a),
    decreases es.len(),
{
    if es.len() > 0 {
        let d = es.drop_last();
        let n = es.len() - 1;
        law_fingerprint_is_last(d, a);
        assert forall|k: int| 0 <= k < n implies #[trigger] fingerprinted(es, k, a) == fingerprinted(d, k, a) by {
            assert(es[k] == d[k]);
        }
        if fingerprinted(es, n, a) {
            assert(fingerprints(es)[a] == es[n].fingerprint.unwrap());
            assert(fingerprinted(es, n, a) && es[n].fingerprint == Some(fingerprints(es)[a])
                && forall|j: int| n < j < es.len() ==> !fingerprinted(es, j, a));
        } else {
            assert(fingerprints(es).contains_key(a) == fingerprints(d).contains_key(a));
            if fingerprints(d).contains_key(a) {
                assert(fingerprints(es)[a] == fingerprints(d)[a]);
                let k = choose|k: int| 0 <= k < d.len() && #[trigger] fingerprinted(d, k, a)
                    && d[k].fingerprint == Some(fingerprints(d)[a])
                    && forall|j: int| k < j < d.len() ==> !fingerprinted(d, j, a);
                assert(fingerprinted(es, k, a));
                assert(es[k] == d[k]);
                assert forall|j: int| k < j < es.len() implies !fingerprinted(es, j, a) by {
                    if j < n {
                        assert(fingerprinted(es, j, a) == fingerprinted(d, j, a));
                    }
                }
            }
            if exists|k: int| 0 <= k < es.len() && #[trigger] fingerprinted(es, k, a) {
                let k = choose|k: int| 0 <= k < es.len() && #[trigger] fingerprinted(es, k, a);
                assert(k < n);
                assert(fingerprinted(d, k, a));
            }
        }
    }
}

/// The built-in alias check looks at aliases only: it passes exactly when
/// every alias of `before` that lacks the prefix and is plausible is the
/// alias of some entry of `after`, whatever the fingerprints.
pub proof fn law_builtin_check_by_alias(before: Seq<EntryView>, after: Seq<EntryView>, prefix: Seq<char>)
    ensures
        builtin_intact(before, after, prefix) <==> forall|i: int| 0 <= i < before.len()
            && !starts_with(#[trigger] before[i].alias, prefix) && plausible_alias(before[i].alias)
            ==> exists|j: int| 0 <= j < after.len() && after[j].alias == before[i].alias,
{
    assert forall|a: Seq<char>| #[trigger] aliases(after).contains(a) <==> exists|j: int| 0 <= j < after.len() && after[j].alias == a by {
        if aliases(after).contains(a) {
            let j = choose|j: int| 0 <= j < aliases(after).len() && aliases(after)[j] == a;
            assert(after[j].alias == a);
        }
        if exists|j: int| 0 <= j < after.len() && after[j].alias == a {
            let j = choose|j: int| 0 <= j < after.len() && after[j].alias == a;
            assert(aliases(after)[j] == a);
        }
    }
    if builtin_intact(before, after, prefix) {
        assert forall|i: int| 0 <= i < before.len()
            && !starts_with(#[trigger] before[i].alias, prefix) && plausible_alias(before[i].alias)
            implies exists|j: int| 0 <= j < after.len() && after[j].alias == before[i].alias by {
            assert(!builtin_missing(before[i], after, prefix));
            assert(aliases(after).contains(before[i].alias));
        }
    }
}

} // verus!
