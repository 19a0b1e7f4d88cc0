//! The command line's model: subcommands, global options, and the chain
//! selection and elevation modes.
use vstd::prelude::*;
use crate::text::{ascii_lower, ascii_lower_chars, chars_of, eq_chars};

verus! {

/// Which certificates of a fetched chain are imported.
#[derive(Clone, Copy, Debug, PartialEq, Eq, Structural)]
pub enum ChainTarget {
    Root,
    Leaf,
    Intermediate,
    Full,
    Index0,
    Index1,
    Index2,
    Index3,
    Index4,
}

/// When to ask for elevated privileges to write cacerts.
#[derive(Clone, Copy, Debug, PartialEq, Eq, Structural)]
pub enum ElevateMode {
    Auto,
    Always,
    Never,
}

impl Default for ElevateMode {
    fn default() -> (r: Self)
        ensures
            r == ElevateMode::Auto,
    {
        ElevateMode::Auto
    }
}

impl Default for ChainTarget {
    fn default() -> (r: Self)
        ensures
            r == ChainTarget::Root,
    {
        ChainTarget::Root
    }
}

/// The option value that names each target (`--chain`).
pub open spec fn target_name(t: ChainTarget) -> Seq<char> {
    match t {
        ChainTarget::Root => "root"@,
        ChainTarget::Leaf => "leaf"@,
        ChainTarget::Intermediate => "intermediate"@,
        ChainTarget::Full => "full"@,
        ChainTarget::Index0 => "0"@,
        ChainTarget::Index1 => "1"@,
        ChainTarget::Index2 => "2"@,
        ChainTarget::Index3 => "3"@,
        ChainTarget::Index4 => "4"@,
    }
}

/// The target for a chain position; positions past 4 select position 4.
pub open spec fn target_for_index(n: nat) -> ChainTarget {
    if n == 0 {
        ChainTarget::Index0
    } else if n == 1 {
        ChainTarget::Index1
    } else if n == 2 {
        ChainTarget::Index2
    } else if n == 3 {
        ChainTarget::Index3
    } else {
        ChainTarget::Index4
    }
}

/// The chain position a target selects, if it selects a single position.
pub open spec fn target_index(t: ChainTarget) -> Option<nat> {
    match t {
        ChainTarget::Index0 => Some(0),
        ChainTarget::Index1 => Some(1),
        ChainTarget::Index2 => Some(2),
        ChainTarget::Index3 => Some(3),
        ChainTarget::Index4 => Some(4),
        _ => None,
    }
}

pub open spec fn is_digit(c: char) -> bool {
    '0' <= c <= '9'
}

/// The number that the decimal digits `s` denote.
pub open spec fn digits_value(s: Seq<char>) -> nat
    decreases s.len(),
{
    if s.len() == 0 {
        0
    } else {
        digits_value(s.drop_last()) * 10 + ((s.last() as nat) - ('0' as nat)) as nat
    }
}

/// `s` without one leading `+`.
pub open spec fn unsigned_digits(s: Seq<char>) -> Seq<char> {
    if s.len() > 0 && s[0] == '+' {
        s.drop_first()
    } else {
        s
    }
}

pub open spec fn all_digits(d: Seq<char>) -> bool {
    forall|i: int| 0 <= i < d.len() ==> is_digit(#[trigger] d[i])
}

/// `usize::from_str`: an optional `+`, then one or more decimal digits whose
/// value fits in a `usize`.
pub open spec fn parse_usize(s: Seq<char>) -> Option<nat> {
    let d = unsigned_digits(s);
    if d.len() > 0 && all_digits(d) && digits_value(d) <= usize::MAX {
        Some(digits_value(d))
    } else {
        None
    }
}

/// `ChainTarget::from_str_loose`: a target name in any ASCII case, else any
/// number (positions past 4 select position 4).
pub open spec fn loose_target(s: Seq<char>) -> Option<ChainTarget> {
    let l = ascii_lower(s);
    if l == "root"@ {
        Some(ChainTarget::Root)
    } else if l == "leaf"@ {
        Some(ChainTarget::Leaf)
    } else if l == "intermediate"@ {
        Some(ChainTarget::Intermediate)
    } else if l == "full"@ {
        Some(ChainTarget::Full)
    } else if l == "0"@ {
        Some(ChainTarget::Index0)
    } else if l == "1"@ {
        Some(ChainTarget::Index1)
    } else if l == "2"@ {
        Some(ChainTarget::Index2)
    } else if l == "3"@ {
        Some(ChainTarget::Index3)
    } else if l == "4"@ {
        Some(ChainTarget::Index4)
    } else {
        match parse_usize(s) {
            Some(n) => Some(target_for_index(n)),
            None => None,
        }
    }
}

proof fn lemma_digits_value_prefix(s: Seq<char>, i: int)
    requires
        0 <= i <= s.len(),
        forall|k: int| 0 <= k < s.len() ==> is_digit(#[trigger] s[k]),
    ensures
        digits_value(s.take(i)) <= digits_value(s),
    decreases s.len() - i,
{
    if i < s.len() {
        lemma_digits_value_prefix(s, i + 1);
        assert(s.take(i + 1).drop_last() =~= s.take(i));
    } else {
        assert(s.take(i) =~= s);
    }
}

/// `usize::from_str` on characters.
pub fn parse_usize_chars(s: &[char]) -> (r: Option<usize>)
    ensures
        match r {
            Some(n) => parse_usize(s@) == Some(n as nat),
            None => parse_usize(s@) is None,
        },
{
    let start: usize = if s.len() > 0 && s[0] == '+' {
        1
    } else {
        0
    };
    let ghost d = s@.skip(start as int);
    assert(d == unsigned_digits(s@)) by {
        assert(s@.skip(0) =~= s@);
        if s@.len() > 0 {
            assert(s@.skip(1) =~= s@.drop_first());
        }
    }
    if start >= s.len() {
        return None;
    }
    let mut value: usize = 0;
    let mut i: usize = start;
    while i < s.len()
        invariant
            start <= i <= s.len(),
            d == s@.skip(start as int),
            d == unsigned_digits(s@),
            d.len() > 0,
            value == digits_value(d.take(i - start)),
            forall|k: int| 0 <= k < i - start ==> is_digit(#[trigger] d[k]),
        decreases s.len() - i,
    {
        let c = s[i];
        if !('0' <= c && c <= '9') {
            assert(!is_digit(d[i - start]));
            assert(!all_digits(d));
            return None;
        }
        let digit = (c as u32 - '0' as u32) as usize;
        assert(d.take(i - start + 1).drop_last() =~= d.take(i - start));
        assert(d.take(i - start + 1).last() == c);
        if value > (usize::MAX - digit) / 10 {
            let rest_digits = forall_digits_rest(s, i + 1);
            proof {
                if rest_digits {
                    assert forall|k: int| 0 <= k < d.len() implies is_digit(#[trigger] d[k]) by {
                        assert(d[k] == s@[k + start]);
                    }
                    lemma_digits_value_prefix(d, i - start + 1);
                } else {
                    let k = choose|k: int| i + 1 <= k < s.len() && !is_digit(#[trigger] s@[k]);
                    assert(d[k - start] == s@[k]);
                }
            }
            return None;
        }
        value = value * 10 + digit;
        i = i + 1;
    }
    assert(d.take(s.len() - start) =~= d);
    Some(value)
}

/// Whether every character of `s` from position `from` on is a decimal digit.
fn forall_digits_rest(s: &[char], from: usize) -> (b: bool)
    requires
        from <= s.len(),
    ensures
        b == (forall|k: int| from <= k < s.len() ==> is_digit(#[trigger] s@[k])),
{
    let mut i = from;
    while i < s.len()
        invariant
            from <= i <= s.len(),
            forall|k: int| from <= k < i ==> is_digit(#[trigger] s@[k]),
        decreases s.len() - i,
    {
        if !('0' <= s[i] && s[i] <= '9') {
            return false;
        }
        i = i + 1;
    }
    true
}

impl ChainTarget {
    pub fn from_str_loose(s: &str) -> (r: Option<ChainTarget>)
        ensures
            r == loose_target(s@),
    {
        let cs = chars_of(s);
        let l = ascii_lower_chars(&cs);
        if eq_chars(&l, &chars_of("root")) {
            Some(ChainTarget::Root)
        } else if eq_chars(&l, &chars_of("leaf")) {
            Some(ChainTarget::Leaf)
        } else if eq_chars(&l, &chars_of("intermediate")) {
            Some(ChainTarget::Intermediate)
        } else if eq_chars(&l, &chars_of("full")) {
            Some(ChainTarget::Full)
        } else if eq_chars(&l, &chars_of("0")) {
            Some(ChainTarget::Index0)
        } else if eq_chars(&l, &chars_of("1")) {
            Some(ChainTarget::Index1)
        } else if eq_chars(&l, &chars_of("2")) {
            Some(ChainTarget::Index2)
        } else if eq_chars(&l, &chars_of("3")) {
            Some(ChainTarget::Index3)
        } else if eq_chars(&l, &chars_of("4")) {
            Some(ChainTarget::Index4)
        } else {
            match parse_usize_chars(&cs) {
                Some(n) => Some(ChainTarget::from_index(n)),
                None => None,
            }
        }
    }

    pub fn from_index(n: usize) -> (r: ChainTarget)
        ensures
            r == target_for_index(n as nat),
    {
        match n {
            0 => ChainTarget::Index0,
            1 => ChainTarget::Index1,
            2 => ChainTarget::Index2,
            3 => ChainTarget::Index3,
            4 => ChainTarget::Index4,
            _ => ChainTarget::Index4,
        }
    }

    pub fn index(self) -> (r: Option<usize>)
        ensures
            match r {
                Some(n) => target_index(self) == Some(n as nat),
                None => target_index(self) is None,
            },
    {
        match self {
            ChainTarget::Index0 => Some(0),
            ChainTarget::Index1 => Some(1),
            ChainTarget::Index2 => Some(2),
            ChainTarget::Index3 => Some(3),
            ChainTarget::Index4 => Some(4),
            _ => None,
        }
    }

    pub fn as_str(self) -> (r: &'static str)
        ensures
            r@ == target_name(self),
    {
        match self {
            ChainTarget::Root => "root",
            ChainTarget::Leaf => "leaf",
            ChainTarget::Intermediate => "intermediate",
            ChainTarget::Full => "full",
            ChainTarget::Index0 => "0",
            ChainTarget::Index1 => "1",
            ChainTarget::Index2 => "2",
            ChainTarget::Index3 => "3",
            ChainTarget::Index4 => "4",
        }
    }
}

/// The options that every subcommand takes.
pub struct GlobalOpts {
    pub quiet: bool,
    pub verbose: bool,
    pub java_home: Option<String>,
    pub cacerts: Option<String>,
    pub store_pass: Option<String>,
    pub chain: ChainTarget,
    pub alias_prefix: String,
    pub elevate: ElevateMode,
}

fn clone_opt_string(o: &Option<String>) -> (r: Option<String>)
    ensures
        r == *o,
{
    match o {
        Some(s) => Some(s.clone()),
        None => None,
    }
}

impl Clone for GlobalOpts {
    fn clone(&self) -> (r: Self)
        ensures
            r == *self,
    {
        GlobalOpts {
            quiet: self.quiet,
            verbose: self.verbose,
            java_home: clone_opt_string(&self.java_home),
            cacerts: clone_opt_string(&self.cacerts),
            store_pass: clone_opt_string(&self.store_pass),
            chain: self.chain,
            alias_prefix: self.alias_prefix.clone(),
            elevate: self.elevate,
        }
    }
}

/// The subcommands.
pub enum Commands {
    /// Fetch a URL's TLS chain and import it into cacerts as `<prefix><alias>`.
    Add { alias: String, url: String, dry_run: bool },
    /// Remove `<prefix><alias>` from cacerts.
    Remove { alias: String, dry_run: bool },
    /// List entries in cacerts (managed ones unless `all`).
    List { all: bool },
    /// Show certificate details for a managed alias.
    Show { alias: String },
    /// Inspect the TLS certificates of a URL without touching cacerts.
    Inspect { url: String, graph: bool },
}

/// A parsed command line.
pub struct Cli {
    pub global: GlobalOpts,
    pub command: Option<Commands>,
}

/// Parsing a target's own name gives the target back, in any ASCII case.
pub proof fn law_target_name_roundtrip(t: ChainTarget, s: Seq<char>)
    ensures
        loose_target(target_name(t)) == Some(t),
        ascii_lower(s) == target_name(t) ==> loose_target(s) == Some(t),
{
    reveal_strlit("root");
    reveal_strlit("leaf");
    reveal_strlit("intermediate");
    reveal_strlit("full");
    reveal_strlit("0");
    reveal_strlit("1");
    reveal_strlit("2");
    reveal_strlit("3");
    reveal_strlit("4");
    let n = target_name(t);
    assert(ascii_lower(n) =~= n);
    assert("root"@.len() == 4);
    assert("root"@[0] == 'r');
    assert("leaf"@.len() == 4);
    assert("leaf"@[0] == 'l');
    assert("intermediate"@.len() == 12);
    assert("intermediate"@[0] == 'i');
    assert("full"@.len() == 4);
    assert("full"@[0] == 'f');
    assert("0"@.len() == 1);
    assert("0"@[0] == '0');
    assert("1"@.len() == 1);
    assert("1"@[0] == '1');
    assert("2"@.len() == 1);
    assert("2"@[0] == '2');
    assert("3"@.len() == 1);
    assert("3"@[0] == '3');
    assert("4"@.len() == 1);
    assert("4"@[0] == '4');
}

/// The position selected by `from_index(n)` is `n`, or 4 for larger `n`.
pub proof fn law_index_of_from_index(n: nat)
    ensures
        target_index(target_for_index(n)) == Some(if n <= 4 { n } else { 4 }),
{
}

} // verus!
