//! Verbosity levels and the display of external commands, with secrets redacted.
use vstd::prelude::*;
use crate::text::{chars_of, is_ascii_alnum, is_ascii_alnum_exec, push_chars, push_str, string_of};

verus! {

/// How much the tool prints.
#[derive(Clone, Copy, Debug, PartialEq, Eq, Structural)]
pub enum LogMode {
    Normal,
    Quiet,
    Verbose,
}

impl Default for LogMode {
    fn default() -> (r: Self)
        ensures
            r == LogMode::Normal,
    {
        LogMode::Normal
    }
}

pub fn info_enabled(mode: LogMode) -> (b: bool)
    ensures
        b == (mode == LogMode::Normal || mode == LogMode::Verbose),
{
    match mode {
        LogMode::Normal | LogMode::Verbose => true,
        LogMode::Quiet => false,
    }
}

pub fn debug_enabled(mode: LogMode) -> (b: bool)
    ensures
        b == (mode == LogMode::Verbose),
{
    match mode {
        LogMode::Verbose => true,
        _ => false,
    }
}

/// A character that needs no quoting in a shell word.
pub open spec fn shell_safe(c: char) -> bool {
    is_ascii_alnum(c) || c == '.' || c == '/' || c == '_' || c == ':' || c == '-' || c == '@'
}

/// `s` with every `'` written as `'\''`.
pub open spec fn escape_quotes(s: Seq<char>) -> Seq<char>
    decreases s.len(),
{
    if s.len() == 0 {
        seq![]
    } else {
        escape_quotes(s.drop_last()) + (if s.last() == '\'' {
            seq!['\'', '\\', '\'', '\'']
        } else {
            seq![s.last()]
        })
    }
}

/// `s` as one shell word: `''` when empty, as it is when every character is
/// safe, else in single quotes.
pub open spec fn shell_word(s: Seq<char>) -> Seq<char> {
    if s.len() == 0 {
        "''"@
    } else if forall|i: int| 0 <= i < s.len() ==> shell_safe(#[trigger] s[i]) {
        s
    } else {
        seq!['\''] + escape_quotes(s) + seq!['\'']
    }
}

pub fn shell_quote(arg: &str) -> (r: String)
    ensures
        r@ == shell_word(arg@),
{
    let cs = chars_of(arg);
    if cs.len() == 0 {
        return "''".to_owned();
    }
    let mut safe = true;
    let mut i: usize = 0;
    while i < cs.len()
        invariant
            i <= cs.len(),
            safe == (forall|k: int| 0 <= k < i ==> shell_safe(#[trigger] cs@[k])),
        decreases cs.len() - i,
    {
        let c = cs[i];
        if !(is_ascii_alnum_exec(c) || c == '.' || c == '/' || c == '_' || c == ':' || c == '-'
            || c == '@') {
            safe = false;
        }
        i = i + 1;
    }
    if safe {
        return arg.to_owned();
    }
    let mut out: Vec<char> = Vec::new();
    out.push('\'');
    let mut j: usize = 0;
    while j < cs.len()
        invariant
            j <= cs.len(),
            out@ == seq!['\''] + escape_quotes(cs@.take(j as int)),
        decreases cs.len() - j,
    {
        assert(cs@.take(j + 1).drop_last() =~= cs@.take(j as int));
        if cs[j] == '\'' {
            out.push('\'');
            out.push('\\');
            out.push('\'');
            out.push('\'');
        } else {
            out.push(cs[j]);
        }
        j = j + 1;
        assert(out@ =~= seq!['\''] + escape_quotes(cs@.take(j as int)));
    }
    out.push('\'');
    assert(cs@.take(cs.len() as int) =~= cs@);
    string_of(&out)
}

/// A flag whose value is a password.
pub open spec fn secret_flag(a: Seq<char>) -> bool {
    a == "-storepass"@ || a == "-deststorepass"@ || a == "-srcstorepass"@ || a == "-keypass"@
}

/// `args` with the value after each password flag replaced by `***`; `hide`
/// says whether the first argument is such a value.
pub open spec fn redacted_from(args: Seq<Seq<char>>, hide: bool) -> Seq<Seq<char>>
    decreases args.len(),
{
    if args.len() == 0 {
        seq![]
    } else if hide {
        seq!["***"@] + redacted_from(args.drop_first(), false)
    } else {
        seq![args[0]] + redacted_from(args.drop_first(), secret_flag(args[0]))
    }
}

pub open spec fn redacted(args: Seq<Seq<char>>) -> Seq<Seq<char>> {
    redacted_from(args, false)
}

pub open spec fn str_views(s: Seq<&str>) -> Seq<Seq<char>> {
    s.map_values(|a: &str| a@)
}

pub open spec fn string_views(s: Seq<String>) -> Seq<Seq<char>> {
    s.map_values(|a: String| a@)
}

fn is_secret_flag(a: &str) -> (b: bool)
    ensures
        b == secret_flag(a@),
{
    let cs = chars_of(a);
    crate::text::eq_chars(&cs, &chars_of("-storepass")) || crate::text::eq_chars(
        &cs,
        &chars_of("-deststorepass"),
    ) || crate::text::eq_chars(&cs, &chars_of("-srcstorepass")) || crate::text::eq_chars(
        &cs,
        &chars_of("-keypass"),
    )
}

pub fn redact_sensitive_args(args: &[&str]) -> (r: Vec<String>)
    ensures
        string_views(r@) == redacted(str_views(args@)),
{
    let mut out: Vec<String> = Vec::new();
    let mut redact_next = false;
    let mut i: usize = 0;
    let ghost all = str_views(args@);
    assert(all.skip(0) =~= all);
    while i < args.len()
        invariant
            i <= args.len(),
            all == str_views(args@),
            out.len() == i,
            redacted(all) == string_views(out@) + redacted_from(all.skip(i as int), redact_next),
        decreases args.len() - i,
    {
        assert(all.skip(i as int).drop_first() =~= all.skip(i + 1));
        assert(all.skip(i as int)[0] == args@[i as int]@);
        let ghost prev = string_views(out@);
        if redact_next {
            out.push("***".to_owned());
            redact_next = false;
        } else if is_secret_flag(args[i]) {
            out.push(args[i].to_owned());
            redact_next = true;
        } else {
            out.push(args[i].to_owned());
        }
        assert(string_views(out@) =~= prev.push(out@[i as int]@));
        assert(string_views(out@) + redacted_from(all.skip(i + 1), redact_next) =~= prev + (seq![
            out@[i as int]@] + redacted_from(all.skip(i + 1), redact_next)));
        i = i + 1;
    }
    assert(string_views(out@) =~= redacted(all));
    out
}

/// `parts` joined with one space between neighbours.
pub open spec fn join_spaces(parts: Seq<Seq<char>>) -> Seq<char>
    decreases parts.len(),
{
    if parts.len() == 0 {
        seq![]
    } else if parts.len() == 1 {
        parts[0]
    } else {
        join_spaces(parts.drop_last()) + seq![' '] + parts.last()
    }
}

/// The command line shown for `program args`, preceded by `wrapper` (such as `sudo -E`).
pub open spec fn command_display(program: Seq<char>, args: Seq<Seq<char>>, wrapper: Seq<Seq<char>>) -> Seq<char> {
    join_spaces(
        wrapper + seq![shell_word(program)] + redacted(args).map_values(|a: Seq<char>| shell_word(a)),
    )
}

/// Format an external command for verbose logging. Redacts values after `-storepass`.
pub fn format_external_command(program: &str, args: &[&str], wrapper: &[&str]) -> (r: String)
    ensures
        r@ == command_display(program@, str_views(args@), str_views(wrapper@)),
{
    let mut parts: Vec<String> = Vec::new();
    let mut i: usize = 0;
    while i < wrapper.len()
        invariant
            i <= wrapper.len(),
            parts.len() == i,
            string_views(parts@) == str_views(wrapper@).take(i as int),
        decreases wrapper.len() - i,
    {
        parts.push(wrapper[i].to_owned());
        i = i + 1;
        assert(string_views(parts@) =~= str_views(wrapper@).take(i as int));
    }
    assert(str_views(wrapper@).take(wrapper.len() as int) =~= str_views(wrapper@));
    parts.push(shell_quote(program));
    let red = redact_sensitive_args(args);
    let ghost base = string_views(parts@);
    assert(base =~= str_views(wrapper@) + seq![shell_word(program@)]);
    let ghost quoted = redacted(str_views(args@)).map_values(|a: Seq<char>| shell_word(a));
    let mut j: usize = 0;
    while j < red.len()
        invariant
            j <= red.len(),
            string_views(red@) == redacted(str_views(args@)),
            quoted == redacted(str_views(args@)).map_values(|a: Seq<char>| shell_word(a)),
            parts.len() == base.len() + j,
            quoted.len() == red.len(),
            string_views(parts@) == base + quoted.take(j as int),
        decreases red.len() - j,
    {
        assert(string_views(red@)[j as int] == red@[j as int]@);
        assert(quoted[j as int] == shell_word(red@[j as int]@));
        let ghost before = string_views(parts@);
        parts.push(shell_quote(red[j].as_str()));
        assert(string_views(parts@) =~= before.push(quoted[j as int]));
        j = j + 1;
        assert(string_views(parts@) =~= base + quoted.take(j as int));
    }
    assert(quoted.take(red.len() as int) =~= quoted);
    join_with_spaces(&parts)
}

/// `parts` joined with single spaces (`[String]::join(" ")`).
pub fn join_with_spaces(parts: &Vec<String>) -> (r: String)
    ensures
        r@ == join_spaces(string_views(parts@)),
{
    let mut out: Vec<char> = Vec::new();
    let mut i: usize = 0;
    while i < parts.len()
        invariant
            i <= parts.len(),
            out@ == join_spaces(string_views(parts@).take(i as int)),
        decreases parts.len() - i,
    {
        let ghost pv = string_views(parts@);
        assert(pv.take(i + 1).drop_last() =~= pv.take(i as int));
        assert(pv.take(i + 1).last() == parts@[i as int]@);
        if i > 0 {
            out.push(' ');
        }
        let cs = chars_of(parts[i].as_str());
        push_chars(&mut out, &cs);
        i = i + 1;
        assert(i == 1 ==> pv.take(i as int) =~= seq![pv[0]]);
    }
    assert(string_views(parts@).take(parts.len() as int) =~= string_views(parts@));
    string_of(&out)
}

/// Redaction keeps the number of arguments, changes nothing but the values
/// after password flags, and always hides the value that follows a password
/// flag that is itself shown.
pub proof fn law_redaction(args: Seq<Seq<char>>, hide: bool)
    ensures
        redacted_from(args, hide).len() == args.len(),
        forall|i: int|
            0 <= i < args.len() ==> (#[trigger] redacted_from(args, hide)[i] == args[i]
                || redacted_from(args, hide)[i] == "***"@),
        forall|i: int|
            0 <= i < args.len() - 1 && redacted_from(args, hide)[i] == args[i] && secret_flag(args[i])
                ==> #[trigger] redacted_from(args, hide)[i + 1] == "***"@,
    decreases args.len(),
{
    reveal_strlit("***");
    reveal_strlit("-storepass");
    reveal_strlit("-deststorepass");
    reveal_strlit("-srcstorepass");
    reveal_strlit("-keypass");
    assert("***"@.len() == 3);
    assert("-storepass"@.len() == 10);
    assert("-deststorepass"@.len() == 14);
    assert("-srcstorepass"@.len() == 13);
    assert("-keypass"@.len() == 8);
    if args.len() > 0 {
        let next = if hide { false } else { secret_flag(args[0]) };
        law_redaction(args.drop_first(), next);
        let r = redacted_from(args, hide);
        let rest = redacted_from(args.drop_first(), next);
        assert(r == seq![if hide { "***"@ } else { args[0] }] + rest);
        assert forall|i: int| 1 <= i < args.len() implies #[trigger] r[i] == rest[i - 1] by {}
        assert forall|i: int|
            0 <= i < args.len() - 1 && r[i] == args[i] && secret_flag(args[i])
            implies #[trigger] r[i + 1] == "***"@ by {
            if i == 0 {
                assert(!hide);
                assert(next);
                assert(rest[0] == "***"@);
            } else {
                assert(rest[i - 1] == args.drop_first()[i - 1]);
            }
        }
    }
}

/// Each argument is shown as it is, except the one right after a password
/// flag that is itself shown, which becomes `***`.
pub proof fn law_redaction_exact(args: Seq<Seq<char>>, hide: bool, i: int)
    requires
        0 <= i < args.len(),
    ensures
        redacted_from(args, hide)[i] == (if (i == 0 && hide) || (i > 0 && redacted_from(args, hide)[i - 1] == args[i - 1]
            && secret_flag(args[i - 1])) {
            "***"@
        } else {
            args[i]
        }),
    decreases args.len(),
{
    reveal_strlit("***");
    reveal_strlit("-storepass");
    reveal_strlit("-deststorepass");
    reveal_strlit("-srcstorepass");
    reveal_strlit("-keypass");
    assert("***"@.len() == 3);
    assert("-storepass"@.len() == 10);
    assert("-deststorepass"@.len() == 14);
    assert("-srcstorepass"@.len() == 13);
    assert("-keypass"@.len() == 8);
    assert(!secret_flag("***"@));
    let r = redacted_from(args, hide);
    let next = if hide { false } else { secret_flag(args[0]) };
    let tail = args.drop_first();
    let rest = redacted_from(tail, next);
    law_redaction(tail, next);
    assert(r == seq![if hide { "***"@ } else { args[0] }] + rest);
    if i >= 1 {
        assert(r[i] == rest[i - 1]);
        law_redaction_exact(tail, next, i - 1);
        assert(tail[i - 1] == args[i]);
        if i >= 2 {
            assert(r[i - 1] == rest[i - 2]);
            assert(tail[i - 2] == args[i - 1]);
        }
    }
}

} // verus!
