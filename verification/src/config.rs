//! Trust lists: which URLs to trust under which aliases, read from text or
//! JSON configuration, and merged across files.
use vstd::prelude::*;
use crate::cli::{ChainTarget, loose_target, target_for_index};
use crate::error::JcmError;
use crate::text::{
    chars_lt, chars_lt_exec, lemma_chars_lt_irreflexive, lemma_chars_lt_total, lemma_chars_lt_transitive,
    chars_of, lines, lines_chars, starts_with, starts_with_chars, string_of, trim, trim_chars,
    views, words, words_chars,
};
use crate::urls::{url_accepted, url_rejection, validate_url};

verus! {

/// How a configuration file is written.
#[derive(Clone, Copy, Debug, PartialEq, Eq, Structural)]
pub enum ConfigFormat {
    Auto,
    Txt,
    Json,
}

impl Default for ConfigFormat {
    fn default() -> (r: Self)
        ensures
            r == ConfigFormat::Auto,
    {
        ConfigFormat::Auto
    }
}

/// One URL to trust, under an alias, with the chain target to import.
#[derive(Debug)]
pub struct TrustEntry {
    pub alias: String,
    pub url: String,
    pub chain: ChainTarget,
    pub source: String,
}

/// What a `TrustEntry` holds.
pub struct TrustView {
    pub alias: Seq<char>,
    pub url: Seq<char>,
    pub chain: ChainTarget,
    pub source: Seq<char>,
}

impl View for TrustEntry {
    type V = TrustView;

    open spec fn view(&self) -> TrustView {
        TrustView { alias: self.alias@, url: self.url@, chain: self.chain, source: self.source@ }
    }
}

pub open spec fn trust_views(s: Seq<TrustEntry>) -> Seq<TrustView> {
    s.map_values(|e: TrustEntry| e@)
}

/// The format a file is read in: `Auto` means JSON for a `.json` extension, else text.
pub open spec fn effective_format(format: ConfigFormat, extension: Option<Seq<char>>) -> ConfigFormat {
    match format {
        ConfigFormat::Auto => if extension == Some("json"@) {
            ConfigFormat::Json
        } else {
            ConfigFormat::Txt
        },
        other => other,
    }
}

/// The format a file is read in, given the extension of its path.
pub fn resolve_format(format: ConfigFormat, extension: Option<&str>) -> (r: ConfigFormat)
    ensures
        r == effective_format(format, match extension {
            Some(e) => Some(e@),
            None => None,
        }),
{
    match format {
        ConfigFormat::Auto => {
            let is_json = match extension {
                Some(e) => crate::text::eq_chars(&chars_of(e), &chars_of("json")),
                None => false,
            };
            if is_json {
                ConfigFormat::Json
            } else {
                ConfigFormat::Txt
            }
        },
        other => other,
    }
}

/// What is wrong with a configuration, as found while reading it.
pub enum ConfigFault {
    /// A text line (numbered from 1) with fewer than two fields.
    MissingFields { line: nat },
    /// A URL that is not accepted.
    BadUrl { url: Seq<char> },
}

/// The chain target of a text line: its third field read loosely, else the default.
pub open spec fn txt_chain(parts: Seq<Seq<char>>, default_chain: ChainTarget) -> ChainTarget {
    if parts.len() > 2 && loose_target(parts[2]) is Some {
        loose_target(parts[2]).unwrap()
    } else {
        default_chain
    }
}

/// The (alias, url, chain) entries of text lines `ls`, the first numbered
/// `start + 1`; blank lines and `#` comments are skipped.
pub open spec fn txt_run(ls: Seq<Seq<char>>, start: nat, default_chain: ChainTarget) -> Result<Seq<(Seq<char>, Seq<char>, ChainTarget)>, ConfigFault>
    decreases ls.len(),
{
    if ls.len() == 0 {
        Ok(seq![])
    } else {
        let line = trim(ls[0]);
        if line.len() == 0 || starts_with(line, "#"@) {
            txt_run(ls.drop_first(), start + 1, default_chain)
        } else {
            let parts = words(line);
            if parts.len() < 2 {
                Err(ConfigFault::MissingFields { line: start + 1 })
            } else if !url_accepted(parts[1]) {
                Err(ConfigFault::BadUrl { url: parts[1] })
            } else {
                match txt_run(ls.drop_first(), start + 1, default_chain) {
                    Ok(es) => Ok(seq![(parts[0], parts[1], txt_chain(parts, default_chain))] + es),
                    Err(f) => Err(f),
                }
            }
        }
    }
}

/// Entries found before reading on, put in front of what reading on gives.
pub open spec fn prepend(done: Seq<(Seq<char>, Seq<char>, ChainTarget)>, rest: Result<Seq<(Seq<char>, Seq<char>, ChainTarget)>, ConfigFault>) -> Result<Seq<(Seq<char>, Seq<char>, ChainTarget)>, ConfigFault> {
    match rest {
        Ok(es) => Ok(done + es),
        Err(f) => Err(f),
    }
}

/// Entries with their source file attached.
pub open spec fn with_source(es: Seq<(Seq<char>, Seq<char>, ChainTarget)>, source: Seq<char>) -> Seq<TrustView> {
    es.map_values(|e: (Seq<char>, Seq<char>, ChainTarget)| TrustView { alias: e.0, url: e.1, chain: e.2, source })
}

/// `e` is the error that reports `fault` for the file `source`.
pub open spec fn reports_fault(e: JcmError, fault: ConfigFault, source: Seq<char>) -> bool {
    match fault {
        ConfigFault::MissingFields { line } => e matches JcmError::ConfigLine { source: s, line: l } && s@ == source && l == line,
        ConfigFault::BadUrl { url } => url_rejection(e, url),
    }
}

/// Parses a text trust list: `<alias> <url> [chain]` per line.
pub fn parse_txt(content: &str, source: &str, default_chain: ChainTarget) -> (r: Result<Vec<TrustEntry>, JcmError>)
    ensures
        match txt_run(lines(content@), 0, default_chain) {
            Ok(es) => r matches Ok(v) && trust_views(v@) == with_source(es, source@),
            Err(f) => r matches Err(e) && reports_fault(e, f, source@),
        },
{
    let cs = chars_of(content);
    let ls = lines_chars(&cs);
    let ghost all = views(ls@);
    let mut out: Vec<TrustEntry> = Vec::new();
    let mut i: usize = 0;
    assert(all.skip(0) =~= all);
    assert(out@.map_values(|e: TrustEntry| (e.alias@, e.url@, e.chain)) =~= Seq::<(Seq<char>, Seq<char>, ChainTarget)>::empty());
    while i < ls.len()
        invariant
            i <= ls.len(),
            all == views(ls@),
            all == lines(content@),
            txt_run(all, 0, default_chain) == prepend(
                out@.map_values(|e: TrustEntry| (e.alias@, e.url@, e.chain)),
                txt_run(all.skip(i as int), i as nat, default_chain),
            ),
            forall|k: int| 0 <= k < out.len() ==> (#[trigger] out@[k]).source@ == source@,
        decreases ls.len() - i,
    {
        let ghost rest = all.skip(i as int);
        assert(rest[0] == ls@[i as int]@);
        assert(rest.drop_first() =~= all.skip(i + 1));
        let ghost done = out@.map_values(|e: TrustEntry| (e.alias@, e.url@, e.chain));
        let line = trim_chars(&ls[i]);
        if line.len() == 0 || starts_with_chars(&line, &chars_of("#")) {
            i = i + 1;
            continue;
        }
        let parts = words_chars(&line);
        if parts.len() < 2 {
            return Err(JcmError::ConfigLine { source: source.to_owned(), line: i + 1 });
        }
        let url = string_of(&parts[1]);
        match validate_url(url.as_str()) {
            Ok(()) => {},
            Err(e) => {
                return Err(e);
            },
        }
        let chain = if parts.len() > 2 {
            match ChainTarget::from_str_loose(string_of(&parts[2]).as_str()) {
                Some(t) => t,
                None => default_chain,
            }
        } else {
            default_chain
        };
        assert(chain == txt_chain(views(parts@), default_chain));
        let ghost item = (parts@[0]@, parts@[1]@, chain);
        out.push(TrustEntry { alias: string_of(&parts[0]), url, chain, source: source.to_owned() });
        assert(out@.map_values(|e: TrustEntry| (e.alias@, e.url@, e.chain)) =~= done.push(item));
        assert(prepend(done, txt_run(rest, i as nat, default_chain)) == prepend(done.push(item), txt_run(all.skip(i + 1), i as nat + 1, default_chain))) by {
            match txt_run(all.skip(i + 1), i as nat + 1, default_chain) {
                Ok(es) => {
                    assert(done + (seq![item] + es) =~= done.push(item) + es);
                },
                Err(f) => {},
            }
        }
        i = i + 1;
    }
    assert(all.skip(ls.len() as int) =~= Seq::<Seq<char>>::empty());
    assert(trust_views(out@) =~= with_source(out@.map_values(|e: TrustEntry| (e.alias@, e.url@, e.chain)), source@));
    Ok(out)
}

/// A chain setting in JSON: a name or a position.
#[derive(Debug)]
pub enum JsonChain {
    Named(String),
    Index(usize),
}

/// One entry of a JSON trust list.
#[derive(Debug)]
pub struct JsonEntry {
    pub alias: String,
    pub url: String,
    pub chain: Option<JsonChain>,
}

/// A JSON trust list: `{"entries": [...]}`, a bare list, or an alias to URL map.
#[derive(Debug)]
pub enum JsonRoot {
    Wrapped { entries: Vec<JsonEntry> },
    List(Vec<JsonEntry>),
    Table(Vec<(String, String)>),
}

/// The chain target a JSON chain setting names; an unknown name means the root.
pub open spec fn json_target(chain: JsonChain) -> ChainTarget {
    match chain {
        JsonChain::Index(n) => target_for_index(n as nat),
        JsonChain::Named(s) => match loose_target(s@) {
            Some(t) => t,
            None => ChainTarget::Root,
        },
    }
}

pub fn json_chain_to_target(chain: JsonChain) -> (r: ChainTarget)
    ensures
        r == json_target(chain),
{
    match chain {
        JsonChain::Index(n) => ChainTarget::from_index(n),
        JsonChain::Named(s) => match ChainTarget::from_str_loose(s.as_str()) {
            Some(t) => t,
            None => ChainTarget::Root,
        },
    }
}

/// The (alias, url, chain) of each item of a JSON list.
pub open spec fn json_items(items: Seq<JsonEntry>, default_chain: ChainTarget) -> Seq<(Seq<char>, Seq<char>, ChainTarget)> {
    items.map_values(|e: JsonEntry| (e.alias@, e.url@, match e.chain {
        Some(c) => json_target(c),
        None => default_chain,
    }))
}

/// The (alias, url, chain) of each pair of a JSON map.
pub open spec fn json_pairs(pairs: Seq<(String, String)>, default_chain: ChainTarget) -> Seq<(Seq<char>, Seq<char>, ChainTarget)> {
    pairs.map_values(|p: (String, String)| (p.0@, p.1@, default_chain))
}

/// The entries of a JSON trust list, before URLs are checked.
pub open spec fn json_entries(root: JsonRoot, default_chain: ChainTarget) -> Seq<(Seq<char>, Seq<char>, ChainTarget)> {
    match root {
        JsonRoot::Wrapped { entries } => json_items(entries@, default_chain),
        JsonRoot::List(entries) => json_items(entries@, default_chain),
        JsonRoot::Table(pairs) => json_pairs(pairs@, default_chain),
    }
}

/// Every entry's URL is accepted, or `r` rejects the first one that is not.
pub open spec fn checked_entries(es: Seq<(Seq<char>, Seq<char>, ChainTarget)>, source: Seq<char>, r: Result<Vec<TrustEntry>, JcmError>) -> bool {
    &&& r is Ok <==> forall|k: int| 0 <= k < es.len() ==> url_accepted(#[trigger] es[k].1)
    &&& r matches Ok(v) ==> trust_views(v@) == with_source(es, source)
    &&& r matches Err(e) ==> exists|k: int|
        0 <= k < es.len() && !url_accepted(#[trigger] es[k].1) && (forall|m: int| 0 <= m < k ==> url_accepted(#[trigger] es[m].1))
            && url_rejection(e, es[k].1)
}

fn push_checked(out: &mut Vec<TrustEntry>, alias: &str, url: &str, chain: ChainTarget, source: &str) -> (r: Result<(), JcmError>)
    ensures
        r is Ok <==> url_accepted(url@),
        r matches Err(e) ==> url_rejection(e, url@),
        r is Ok ==> trust_views(final(out)@) == trust_views(old(out)@).push(TrustView { alias: alias@, url: url@, chain, source: source@ }),
        r is Err ==> final(out)@ == old(out)@,
{
    validate_url(url)?;
    let ghost before = trust_views(out@);
    out.push(TrustEntry { alias: alias.to_owned(), url: url.to_owned(), chain, source: source.to_owned() });
    assert(trust_views(out@) =~= before.push(TrustView { alias: alias@, url: url@, chain, source: source@ }));
    Ok(())
}

/// Reads a parsed JSON trust list.
pub fn parse_json(root: JsonRoot, source: &str, default_chain: ChainTarget) -> (r: Result<Vec<TrustEntry>, JcmError>)
    ensures
        checked_entries(json_entries(root, default_chain), source@, r),
{
    let ghost es = json_entries(root, default_chain);
    let mut out: Vec<TrustEntry> = Vec::new();
    match &root {
        JsonRoot::Wrapped { entries: list } | JsonRoot::List(list) => {
            let ghost items = list@;
            let mut i: usize = 0;
            while i < list.len()
                invariant
                    i <= list.len(),
                    list@ == items,
                    es == json_items(items, default_chain),
                    es == json_entries(root, default_chain),
                    trust_views(out@) == with_source(es.take(i as int), source@),
                    forall|m: int| 0 <= m < i ==> url_accepted(#[trigger] es[m].1),
                decreases list.len() - i,
            {
                let item = &list[i];
                let chain = match &item.chain {
                    Some(JsonChain::Index(n)) => ChainTarget::from_index(*n),
                    Some(JsonChain::Named(s)) => match ChainTarget::from_str_loose(s.as_str()) {
                        Some(t) => t,
                        None => ChainTarget::Root,
                    },
                    None => default_chain,
                };
                assert(es[i as int] == (item.alias@, item.url@, chain));
                match push_checked(&mut out, item.alias.as_str(), item.url.as_str(), chain, source) {
                    Ok(()) => {},
                    Err(e) => {
                        assert(!url_accepted(es[i as int].1));
                        assert(url_rejection(e, es[i as int].1));
                        return Err(e);
                    },
                }
                i = i + 1;
                assert(trust_views(out@) =~= with_source(es.take(i as int), source@));
            }
            assert(es.take(list.len() as int) =~= es);
        },
        JsonRoot::Table(map) => {
            let ghost pairs = map@;
            let mut i: usize = 0;
            while i < map.len()
                invariant
                    i <= map.len(),
                    map@ == pairs,
                    es == json_pairs(pairs, default_chain),
                    es == json_entries(root, default_chain),
                    trust_views(out@) == with_source(es.take(i as int), source@),
                    forall|m: int| 0 <= m < i ==> url_accepted(#[trigger] es[m].1),
                decreases map.len() - i,
            {
                assert(es[i as int] == (map@[i as int].0@, map@[i as int].1@, default_chain));
                match push_checked(&mut out, map[i].0.as_str(), map[i].1.as_str(), default_chain, source) {
                    Ok(()) => {},
                    Err(e) => {
                        assert(!url_accepted(es[i as int].1));
                        assert(url_rejection(e, es[i as int].1));
                        return Err(e);
                    },
                }
                i = i + 1;
                assert(trust_views(out@) =~= with_source(es.take(i as int), source@));
            }
            assert(es.take(map.len() as int) =~= es);
        },
    }
    Ok(out)
}

impl Clone for TrustEntry {
    fn clone(&self) -> (r: Self)
        ensures
            r@ == self@,
    {
        TrustEntry {
            alias: self.alias.clone(),
            url: self.url.clone(),
            chain: self.chain,
            source: self.source.clone(),
        }
    }
}

/// The definitions in force after reading `es` on top of `m`: each entry
/// replaces any earlier definition of its alias.
pub open spec fn fold_into(m: Map<Seq<char>, TrustView>, es: Seq<TrustView>) -> Map<Seq<char>, TrustView>
    decreases es.len(),
{
    if es.len() == 0 {
        m
    } else {
        fold_into(m.insert(es[0].alias, es[0]), es.drop_first())
    }
}

/// The first redefinition met when reading `es` on top of `m`: the alias,
/// the source of the definition in force, and the source of the new one.
pub open spec fn repeat_in(m: Map<Seq<char>, TrustView>, es: Seq<TrustView>) -> Option<(Seq<char>, Seq<char>, Seq<char>)>
    decreases es.len(),
{
    if es.len() == 0 {
        None
    } else if m.contains_key(es[0].alias) {
        Some((es[0].alias, m[es[0].alias].source, es[0].source))
    } else {
        repeat_in(m.insert(es[0].alias, es[0]), es.drop_first())
    }
}

/// The definitions of a sequence of entries.
pub open spec fn defs(es: Seq<TrustView>) -> Map<Seq<char>, TrustView> {
    fold_into(Map::empty(), es)
}

/// The entries of all files, in file order.
pub open spec fn concat_files(files: Seq<Seq<TrustView>>) -> Seq<TrustView>
    decreases files.len(),
{
    if files.len() == 0 {
        seq![]
    } else {
        concat_files(files.drop_last()) + files.last()
    }
}

pub open spec fn distinct_aliases(v: Seq<TrustView>) -> bool {
    forall|i: int, j: int| 0 <= i < j < v.len() ==> v[i].alias != v[j].alias
}

pub open spec fn sorted_by_alias(v: Seq<TrustView>) -> bool {
    forall|i: int, j: int| 0 <= i < j < v.len() ==> chars_lt(v[i].alias, v[j].alias)
}

/// `e` reports the redefinition `d` (alias, first source, second source).
pub open spec fn reports_duplicate(e: JcmError, d: (Seq<char>, Seq<char>, Seq<char>)) -> bool {
    e matches JcmError::DuplicateAlias { alias, first, second } && alias@ == d.0 && first@ == d.1 && second@ == d.2
}

proof fn lemma_fold_concat(m: Map<Seq<char>, TrustView>, a: Seq<TrustView>, b: Seq<TrustView>)
    ensures
        fold_into(m, a + b) == fold_into(fold_into(m, a), b),
        repeat_in(m, a + b) == (if repeat_in(m, a) is Some {
            repeat_in(m, a)
        } else {
            repeat_in(fold_into(m, a), b)
        }),
    decreases a.len(),
{
    if a.len() == 0 {
        assert(a + b =~= b);
    } else {
        assert((a + b).drop_first() =~= a.drop_first() + b);
        assert((a + b)[0] == a[0]);
        lemma_fold_concat(m.insert(a[0].alias, a[0]), a.drop_first(), b);
    }
}

proof fn lemma_fold_distinct(m: Map<Seq<char>, TrustView>, v: Seq<TrustView>)
    requires
        distinct_aliases(v),
    ensures
        forall|k: int| 0 <= k < v.len() ==> fold_into(m, v).contains_key(#[trigger] v[k].alias) && fold_into(m, v)[v[k].alias] == v[k],
        forall|a: Seq<char>| #[trigger] fold_into(m, v).contains_key(a) ==> m.contains_key(a) || exists|k: int| 0 <= k < v.len() && v[k].alias == a,
        forall|a: Seq<char>| m.contains_key(a) && (forall|k: int| 0 <= k < v.len() ==> v[k].alias != a) ==> #[trigger] fold_into(m, v).contains_key(a) && fold_into(m, v)[a] == m[a],
    decreases v.len(),
{
    if v.len() > 0 {
        let m2 = m.insert(v[0].alias, v[0]);
        let rest = v.drop_first();
        lemma_fold_distinct(m2, rest);
        assert(fold_into(m, v) == fold_into(m2, rest));
        assert forall|j: int| 0 <= j < rest.len() implies #[trigger] rest[j] == v[j + 1] && rest[j].alias != v[0].alias by {}
        assert forall|k: int| 0 <= k < v.len() implies fold_into(m, v).contains_key(#[trigger] v[k].alias) && fold_into(m, v)[v[k].alias] == v[k] by {
            if k > 0 {
                assert(rest[k - 1] == v[k]);
            } else {
                assert(fold_into(m2, rest).contains_key(v[0].alias));
            }
        }
        assert forall|a: Seq<char>| #[trigger] fold_into(m, v).contains_key(a) implies m.contains_key(a) || exists|k: int| 0 <= k < v.len() && v[k].alias == a by {
            if !m2.contains_key(a) {
                let j = choose|j: int| 0 <= j < rest.len() && rest[j].alias == a;
                assert(rest[j] == v[j + 1]);
                assert(v[j + 1].alias == a);
            } else if a == v[0].alias {
                assert(v[0].alias == a);
            }
        }
        assert forall|a: Seq<char>| m.contains_key(a) && (forall|k: int| 0 <= k < v.len() ==> v[k].alias != a) implies #[trigger] fold_into(m, v).contains_key(a) && fold_into(m, v)[a] == m[a] by {
            assert(v[0].alias != a);
            assert forall|j: int| 0 <= j < rest.len() implies rest[j].alias != a by {
                assert(rest[j] == v[j + 1]);
            }
            assert(fold_into(m2, rest).contains_key(a));
        }
    }
}

proof fn lemma_fold_single(m: Map<Seq<char>, TrustView>, x: TrustView)
    ensures
        fold_into(m, seq![x]) == m.insert(x.alias, x),
        repeat_in(m, seq![x]) == (if m.contains_key(x.alias) {
            Some((x.alias, m[x.alias].source, x.source))
        } else {
            None
        }),
{
    let e = seq![x].drop_first();
    assert(e =~= Seq::<TrustView>::empty());
    assert(seq![x][0] == x);
    assert(fold_into(m.insert(x.alias, x), e) == m.insert(x.alias, x));
    assert(fold_into(m, seq![x]) == fold_into(m.insert(x.alias, x), e));
    assert(repeat_in(m.insert(x.alias, x), e) is None);
}

proof fn lemma_defs_same_elements(a: Seq<TrustView>, b: Seq<TrustView>)
    requires
        distinct_aliases(a),
        distinct_aliases(b),
        forall|x: TrustView| a.contains(x) <==> b.contains(x),
    ensures
        defs(a) == defs(b),
{
    let e = Map::<Seq<char>, TrustView>::empty();
    lemma_fold_distinct(e, a);
    lemma_fold_distinct(e, b);
    assert forall|k: Seq<char>| defs(a).contains_key(k) <==> defs(b).contains_key(k) by {
        if defs(a).contains_key(k) {
            let i = choose|i: int| 0 <= i < a.len() && a[i].alias == k;
            assert(a.contains(a[i]));
            let j = choose|j: int| 0 <= j < b.len() && b[j] == a[i];
            assert(defs(b).contains_key(b[j].alias));
        }
        if defs(b).contains_key(k) {
            let j = choose|j: int| 0 <= j < b.len() && b[j].alias == k;
            assert(b.contains(b[j]));
            let i = choose|i: int| 0 <= i < a.len() && a[i] == b[j];
            assert(defs(a).contains_key(a[i].alias));
        }
    }
    assert forall|k: Seq<char>| #[trigger] defs(a).contains_key(k) implies defs(a)[k] == defs(b)[k] by {
        let i = choose|i: int| 0 <= i < a.len() && a[i].alias == k;
        assert(a.contains(a[i]));
        let j = choose|j: int| 0 <= j < b.len() && b[j] == a[i];
        assert(defs(b)[b[j].alias] == b[j]);
    }
    assert(defs(a) =~= defs(b));
}

proof fn lemma_defs_update(v: Seq<TrustView>, k: int, x: TrustView)
    requires
        distinct_aliases(v),
        0 <= k < v.len(),
        v[k].alias == x.alias,
    ensures
        distinct_aliases(v.update(k, x)),
        defs(v.update(k, x)) == defs(v).insert(x.alias, x),
{
    let u = v.update(k, x);
    assert(distinct_aliases(u)) by {
        assert forall|i: int, j: int| 0 <= i < j < u.len() implies u[i].alias != u[j].alias by {
            assert(u[i].alias == v[i].alias);
            assert(u[j].alias == v[j].alias);
        }
    }
    let e = Map::<Seq<char>, TrustView>::empty();
    lemma_fold_distinct(e, v);
    lemma_fold_distinct(e, u);
    let r = defs(v).insert(x.alias, x);
    assert forall|a: Seq<char>| defs(u).contains_key(a) <==> r.contains_key(a) by {
        if defs(u).contains_key(a) {
            let i = choose|i: int| 0 <= i < u.len() && u[i].alias == a;
            assert(v[i].alias == a);
        }
        if r.contains_key(a) && a != x.alias {
            let i = choose|i: int| 0 <= i < v.len() && v[i].alias == a;
            assert(u[i].alias == a);
        }
        if a == x.alias {
            assert(u[k].alias == a);
        }
    }
    assert forall|a: Seq<char>| #[trigger] defs(u).contains_key(a) implies defs(u)[a] == r[a] by {
        let i = choose|i: int| 0 <= i < u.len() && u[i].alias == a;
        if i != k {
            assert(u[i] == v[i]);
        }
    }
    assert(defs(u) =~= r);
}

proof fn lemma_defs_push(v: Seq<TrustView>, x: TrustView)
    requires
        distinct_aliases(v),
        !defs(v).contains_key(x.alias),
    ensures
        distinct_aliases(v.push(x)),
        defs(v.push(x)) == defs(v).insert(x.alias, x),
{
    lemma_fold_distinct(Map::empty(), v);
    lemma_fold_concat(Map::empty(), v, seq![x]);
    lemma_fold_single(defs(v), x);
    assert(v + seq![x] =~= v.push(x));
    assert forall|i: int, j: int| 0 <= i < j < v.push(x).len() implies v.push(x)[i].alias != v.push(x)[j].alias by {
        if j == v.len() {
            assert(defs(v).contains_key(v[i].alias));
        }
    }
}

/// The position of the entry whose alias is `alias`.
fn find_alias(v: &Vec<TrustEntry>, alias: &str) -> (r: Option<usize>)
    ensures
        r matches Some(k) ==> k < v.len() && v@[k as int].alias@ == alias@,
        r is None ==> forall|k: int| 0 <= k < v.len() ==> v@[k].alias@ != alias@,
{
    let mut k: usize = 0;
    while k < v.len()
        invariant
            k <= v.len(),
            forall|j: int| 0 <= j < k ==> v@[j].alias@ != alias@,
        decreases v.len() - k,
    {
        if crate::text::str_eq(v[k].alias.as_str(), alias) {
            return Some(k);
        }
        k = k + 1;
    }
    None
}

/// Merges the entries of one more file into `merged`: a later definition of an
/// alias replaces the earlier one; under `strict` a redefinition is an error.
pub fn merge_config_file(merged: &mut Vec<TrustEntry>, entries: &Vec<TrustEntry>, strict: bool) -> (r: Result<(), JcmError>)
    requires
        distinct_aliases(trust_views(old(merged)@)),
    ensures
        strict && repeat_in(defs(trust_views(old(merged)@)), trust_views(entries@)) is Some
            ==> (r matches Err(e) && reports_duplicate(e, repeat_in(defs(trust_views(old(merged)@)), trust_views(entries@)).unwrap())),
        !(strict && repeat_in(defs(trust_views(old(merged)@)), trust_views(entries@)) is Some) ==> r is Ok,
        r is Ok ==> distinct_aliases(trust_views(final(merged)@)),
        r is Ok ==> defs(trust_views(final(merged)@)) == fold_into(defs(trust_views(old(merged)@)), trust_views(entries@)),
{
    let ghost m0 = defs(trust_views(merged@));
    let ghost es = trust_views(entries@);
    let mut i: usize = 0;
    assert(es.take(0) =~= Seq::<TrustView>::empty());
    while i < entries.len()
        invariant
            i <= entries.len(),
            es == trust_views(entries@),
            m0 == defs(trust_views(old(merged)@)),
            distinct_aliases(trust_views(merged@)),
            defs(trust_views(merged@)) == fold_into(m0, es.take(i as int)),
            strict ==> repeat_in(m0, es.take(i as int)) is None,
        decreases entries.len() - i,
    {
        let e = &entries[i];
        let ghost x = e@;
        assert(es[i as int] == x);
        let ghost cur = fold_into(m0, es.take(i as int));
        proof {
            lemma_fold_concat(m0, es.take(i as int), seq![x]);
            assert(es.take(i as int) + seq![x] =~= es.take(i + 1));
            lemma_fold_single(cur, x);
        }
        let ghost v = trust_views(merged@);
        proof {
            lemma_fold_distinct(Map::empty(), v);
        }
        match find_alias(merged, e.alias.as_str()) {
            Some(k) => {
                assert(v[k as int].alias == x.alias);
                assert(cur.contains_key(x.alias));
                if strict {
                    proof {
                        lemma_fold_concat(m0, es.take(i as int), es.skip(i as int));
                        assert(es.take(i as int) + es.skip(i as int) =~= es);
                        assert(es.skip(i as int)[0] == x);
                        assert(cur[x.alias] == v[k as int]);
                        assert(repeat_in(cur, es.skip(i as int)) == Some((x.alias, v[k as int].source, x.source)));
                    }
                    return Err(JcmError::DuplicateAlias {
                        alias: e.alias.clone(),
                        first: merged[k].source.clone(),
                        second: e.source.clone(),
                    });
                }
                proof {
                    lemma_defs_update(v, k as int, x);
                }
                merged[k] = e.clone();
                assert(trust_views(merged@) =~= v.update(k as int, x));
            },
            None => {
                assert forall|a: Seq<char>| a == x.alias implies !cur.contains_key(a) by {
                    if cur.contains_key(a) {
                        let j = choose|j: int| 0 <= j < v.len() && v[j].alias == a;
                        assert(merged@[j].alias@ == a);
                    }
                }
                proof {
                    lemma_defs_push(v, x);
                }
                merged.push(e.clone());
                assert(trust_views(merged@) =~= v.push(x));
            },
        }
        i = i + 1;
    }
    assert(es.take(entries.len() as int) =~= es);
    Ok(())
}

/// The entries of each file.
pub open spec fn file_views(files: Seq<Vec<TrustEntry>>) -> Seq<Seq<TrustView>> {
    files.map_values(|f: Vec<TrustEntry>| trust_views(f@))
}

proof fn lemma_concat_files_append(a: Seq<Seq<TrustView>>, b: Seq<Seq<TrustView>>)
    ensures
        concat_files(a + b) == concat_files(a) + concat_files(b),
    decreases b.len(),
{
    if b.len() == 0 {
        assert(a + b =~= a);
        assert(concat_files(a) + concat_files(b) =~= concat_files(a));
    } else {
        lemma_concat_files_append(a, b.drop_last());
        assert((a + b).drop_last() =~= a + b.drop_last());
        assert((a + b).last() == b.last());
        assert(concat_files(a) + concat_files(b) =~= concat_files(a) + concat_files(b.drop_last()) + b.last());
    }
}

/// `v` sorted by alias, strictly ascending.
pub fn sort_by_alias(v: &Vec<TrustEntry>) -> (r: Vec<TrustEntry>)
    requires
        distinct_aliases(trust_views(v@)),
    ensures
        sorted_by_alias(trust_views(r@)),
        distinct_aliases(trust_views(r@)),
        forall|x: TrustView| trust_views(r@).contains(x) <==> trust_views(v@).contains(x),
{
    let ghost vs = trust_views(v@);
    let mut out: Vec<TrustEntry> = Vec::new();
    let mut i: usize = 0;
    while i < v.len()
        invariant
            i <= v.len(),
            vs == trust_views(v@),
            distinct_aliases(vs),
            sorted_by_alias(trust_views(out@)),
            forall|y: TrustView| trust_views(out@).contains(y) <==> vs.take(i as int).contains(y),
        decreases v.len() - i,
    {
        let x = v[i].clone();
        let ghost xv = x@;
        assert(vs[i as int] == xv);
        let ghost os = trust_views(out@);
        assert(forall|y: TrustView| os.contains(y) <==> vs.take(i as int).contains(y));
        let xa = chars_of(x.alias.as_str());
        let mut pos: usize = 0;
        while pos < out.len() && chars_lt_exec(&chars_of(out[pos].alias.as_str()), &xa)
            invariant
                pos <= out.len(),
                os == trust_views(out@),
                xa@ == xv.alias,
                forall|k: int| 0 <= k < pos ==> chars_lt(#[trigger] os[k].alias, xv.alias),
            decreases out.len() - pos,
        {
            pos = pos + 1;
        }
        assert forall|k: int| 0 <= k < os.len() implies #[trigger] os[k].alias != xv.alias by {
            assert(os.contains(os[k]));
            let j = choose|j: int| 0 <= j < i && #[trigger] vs.take(i as int)[j] == os[k];
            assert(vs[j] == os[k]);
        }
        assert forall|k: int| pos <= k < os.len() implies chars_lt(xv.alias, #[trigger] os[k].alias) by {
            lemma_chars_lt_total(os[pos as int].alias, xv.alias);
            if k > pos {
                lemma_chars_lt_transitive(xv.alias, os[pos as int].alias, os[k].alias);
            }
        }
        out.insert(pos, x);
        let ghost ns = trust_views(out@);
        assert(ns =~= os.insert(pos as int, xv));
        assert forall|a: int, b: int| 0 <= a < b < ns.len() implies chars_lt(ns[a].alias, ns[b].alias) by {
            if b < pos {
            } else if b == pos {
            } else if a < pos {
                lemma_chars_lt_transitive(ns[a].alias, xv.alias, ns[b].alias);
            } else if a == pos {
            } else {
            }
        }
        assert(vs.take(i + 1) =~= vs.take(i as int).push(xv));
        assert forall|y: TrustView| ns.contains(y) <==> vs.take(i + 1).contains(y) by {
            if ns.contains(y) {
                let k = choose|k: int| 0 <= k < ns.len() && ns[k] == y;
                if k < pos {
                    assert(os[k] == y);
                    assert(os.contains(y));
                } else if k > pos {
                    assert(os[k - 1] == y);
                    assert(os.contains(y));
                }
                if y != xv {
                    let j = choose|j: int| 0 <= j < i && vs.take(i as int)[j] == y;
                    assert(vs.take(i + 1)[j] == y);
                } else {
                    assert(vs.take(i + 1)[i as int] == y);
                }
            }
            if vs.take(i + 1).contains(y) {
                let j = choose|j: int| 0 <= j <= i && #[trigger] vs.take(i + 1)[j] == y;
                if j < i {
                    assert(vs.take(i as int)[j] == y);
                    assert(vs.take(i as int).contains(y));
                    assert(os.contains(y));
                    let k = choose|k: int| 0 <= k < os.len() && os[k] == y;
                    if k < pos {
                        assert(ns[k] == y);
                    } else {
                        assert(ns[k + 1] == y);
                    }
                } else {
                    assert(ns[pos as int] == y);
                }
            }
        }
        i = i + 1;
    }
    assert(vs.take(v.len() as int) =~= vs);
    assert forall|a: int, b: int| 0 <= a < b < out.len() implies trust_views(out@)[a].alias != trust_views(out@)[b].alias by {
        lemma_chars_lt_irreflexive(trust_views(out@)[a].alias);
    }
    out
}

/// Merges the trust lists of several files: a later definition of an alias
/// replaces an earlier one (under `strict` a redefinition is an error), and
/// the result is sorted by alias.
pub fn load_merged_configs(files: &Vec<Vec<TrustEntry>>, strict: bool) -> (r: Result<Vec<TrustEntry>, JcmError>)
    ensures
        strict && repeat_in(Map::empty(), concat_files(file_views(files@))) is Some
            ==> (r matches Err(e) && reports_duplicate(e, repeat_in(Map::empty(), concat_files(file_views(files@))).unwrap())),
        !(strict && repeat_in(Map::empty(), concat_files(file_views(files@))) is Some) ==> (r matches Ok(v)
            && sorted_by_alias(trust_views(v@)) && defs(trust_views(v@)) == defs(concat_files(file_views(files@)))),
{
    let ghost fs = file_views(files@);
    let mut merged: Vec<TrustEntry> = Vec::new();
    let mut i: usize = 0;
    assert(fs.take(0) =~= Seq::<Seq<TrustView>>::empty());
    assert(trust_views(merged@) =~= Seq::<TrustView>::empty());
    assert(defs(Seq::<TrustView>::empty()) == Map::<Seq<char>, TrustView>::empty());
    while i < files.len()
        invariant
            i <= files.len(),
            fs == file_views(files@),
            distinct_aliases(trust_views(merged@)),
            defs(trust_views(merged@)) == defs(concat_files(fs.take(i as int))),
            strict ==> repeat_in(Map::empty(), concat_files(fs.take(i as int))) is None,
        decreases files.len() - i,
    {
        let ghost before = concat_files(fs.take(i as int));
        let ghost fi = trust_views(files@[i as int]@);
        assert(fs[i as int] == fi);
        assert(fs.take(i + 1).drop_last() =~= fs.take(i as int));
        assert(concat_files(fs.take(i + 1)) == before + fi);
        proof {
            lemma_fold_concat(Map::empty(), before, fi);
        }
        let res = merge_config_file(&mut merged, &files[i], strict);
        if res.is_err() {
            proof {
                lemma_concat_files_append(fs.take(i + 1), fs.skip(i + 1));
                assert(fs.take(i + 1) + fs.skip(i + 1) =~= fs);
                lemma_fold_concat(Map::empty(), concat_files(fs.take(i + 1)), concat_files(fs.skip(i + 1)));
            }
            return match res {
                Err(e) => Err(e),
                Ok(()) => Err(JcmError::EmptyChain),
            };
        }
        i = i + 1;
    }
    assert(fs.take(files.len() as int) =~= fs);
    let sorted = sort_by_alias(&merged);
    proof {
        lemma_defs_same_elements(trust_views(sorted@), trust_views(merged@));
    }
    Ok(sorted)
}

proof fn lemma_fold_untouched(m: Map<Seq<char>, TrustView>, es: Seq<TrustView>, a: Seq<char>)
    requires
        forall|j: int| 0 <= j < es.len() ==> (#[trigger] es[j]).alias != a,
    ensures
        fold_into(m, es).contains_key(a) == m.contains_key(a),
        m.contains_key(a) ==> fold_into(m, es)[a] == m[a],
    decreases es.len(),
{
    if es.len() > 0 {
        assert(es[0].alias != a);
        assert forall|j: int| 0 <= j < es.drop_first().len() implies (#[trigger] es.drop_first()[j]).alias != a by {
            assert(es.drop_first()[j] == es[j + 1]);
        }
        lemma_fold_untouched(m.insert(es[0].alias, es[0]), es.drop_first(), a);
    }
}

/// The definition in force for an alias is its last definition, and an alias
/// is defined exactly when some entry names it.
pub proof fn law_last_definition_wins(m: Map<Seq<char>, TrustView>, es: Seq<TrustView>)
    ensures
        forall|k: int| 0 <= k < es.len() && (forall|j: int| k < j < es.len() ==> es[j].alias != es[k].alias)
            ==> fold_into(m, es).contains_key(#[trigger] es[k].alias) && fold_into(m, es)[es[k].alias] == es[k],
        forall|a: Seq<char>| #[trigger] fold_into(m, es).contains_key(a) <==> (m.contains_key(a) || exists|k: int| 0 <= k < es.len() && es[k].alias == a),
    decreases es.len(),
{
    if es.len() > 0 {
        let m2 = m.insert(es[0].alias, es[0]);
        let rest = es.drop_first();
        law_last_definition_wins(m2, rest);
        assert forall|j: int| 0 <= j < rest.len() implies #[trigger] rest[j] == es[j + 1] by {}
        assert forall|k: int| 0 <= k < es.len() && (forall|j: int| k < j < es.len() ==> es[j].alias != es[k].alias)
            implies fold_into(m, es).contains_key(#[trigger] es[k].alias) && fold_into(m, es)[es[k].alias] == es[k] by {
            if k == 0 {
                assert forall|j: int| 0 <= j < rest.len() implies (#[trigger] rest[j]).alias != es[0].alias by {
                    assert(rest[j] == es[j + 1]);
                }
                lemma_fold_untouched(m2, rest, es[0].alias);
            } else {
                assert(rest[k - 1] == es[k]);
                assert forall|j: int| k - 1 < j < rest.len() implies (#[trigger] rest[j]).alias != rest[k - 1].alias by {
                    assert(rest[j] == es[j + 1]);
                }
            }
        }
        assert(fold_into(m, es) == fold_into(m2, rest));
        assert forall|a: Seq<char>| #[trigger] fold_into(m, es).contains_key(a) <==> (m.contains_key(a) || exists|k: int| 0 <= k < es.len() && es[k].alias == a) by {
            if a == es[0].alias {
                assert(es[0].alias == a);
            }
            if exists|k: int| 0 <= k < rest.len() && rest[k].alias == a {
                let k = choose|k: int| 0 <= k < rest.len() && rest[k].alias == a;
                assert(es[k + 1].alias == a);
            }
            if exists|k: int| 0 <= k < es.len() && es[k].alias == a {
                let k = choose|k: int| 0 <= k < es.len() && es[k].alias == a;
                if k > 0 {
                    assert(rest[k - 1].alias == a);
                }
            }
        }
    }
}

/// The redefinitions met when reading `es` on top of `m`: for each entry
/// whose alias `m` or an earlier entry already defines, its alias and source.
pub open spec fn redefinitions(m: Map<Seq<char>, TrustView>, es: Seq<TrustView>) -> Seq<(Seq<char>, Seq<char>)>
    decreases es.len(),
{
    if es.len() == 0 {
        seq![]
    } else {
        let head = if m.contains_key(es[0].alias) {
            seq![(es[0].alias, es[0].source)]
        } else {
            seq![]
        };
        head + redefinitions(m.insert(es[0].alias, es[0]), es.drop_first())
    }
}

proof fn lemma_redefinitions_push(m: Map<Seq<char>, TrustView>, es: Seq<TrustView>, e: TrustView)
    ensures
        redefinitions(m, es.push(e)) == redefinitions(m, es) + (if fold_into(m, es).contains_key(e.alias) {
            seq![(e.alias, e.source)]
        } else {
            seq![]
        }),
    decreases es.len(),
{
    let tail: Seq<(Seq<char>, Seq<char>)> = if fold_into(m, es).contains_key(e.alias) {
        seq![(e.alias, e.source)]
    } else {
        seq![]
    };
    if es.len() == 0 {
        assert(es.push(e).drop_first() =~= Seq::<TrustView>::empty());
        assert(es.push(e)[0] == e);
        assert(fold_into(m, es) == m);
        assert(redefinitions(m, es) == Seq::<(Seq<char>, Seq<char>)>::empty());
        assert(redefinitions(m.insert(e.alias, e), Seq::<TrustView>::empty()) == Seq::<(Seq<char>, Seq<char>)>::empty());
        assert(redefinitions(m, es.push(e)) =~= redefinitions(m, es) + tail);
    } else {
        let m2 = m.insert(es[0].alias, es[0]);
        assert(es.push(e).drop_first() =~= es.drop_first().push(e));
        assert(es.push(e)[0] == es[0]);
        lemma_redefinitions_push(m2, es.drop_first(), e);
        let head: Seq<(Seq<char>, Seq<char>)> = if m.contains_key(es[0].alias) {
            seq![(es[0].alias, es[0].source)]
        } else {
            seq![]
        };
        assert(redefinitions(m, es.push(e)) == head + redefinitions(m2, es.drop_first().push(e)));
        assert(redefinitions(m, es) == head + redefinitions(m2, es.drop_first()));
        assert(redefinitions(m, es.push(e)) =~= redefinitions(m, es) + tail);
    }
}

/// The alias and source of each pair.
pub open spec fn redefinition_views(v: Seq<(String, String)>) -> Seq<(Seq<char>, Seq<char>)> {
    v.map_values(|p: (String, String)| (p.0@, p.1@))
}

/// Whether `es` holds an entry with alias `a` among its first `n` entries.
fn defines_within(es: &Vec<TrustEntry>, n: usize, a: &str) -> (b: bool)
    requires
        n <= es.len(),
    ensures
        b == exists|k: int| 0 <= k < n && #[trigger] es@[k]@.alias == a@,
{
    let mut k: usize = 0;
    while k < n
        invariant
            k <= n <= es.len(),
            forall|j: int| 0 <= j < k ==> #[trigger] es@[j]@.alias != a@,
        decreases n - k,
    {
        if crate::text::str_eq(es[k].alias.as_str(), a) {
            assert(es@[k as int]@.alias == a@);
            return true;
        }
        k = k + 1;
    }
    false
}

/// The redefinitions that merging `entries` into `merged` meets, in order:
/// each entry whose alias is already defined, with its source. A lenient
/// merge warns about each of them.
pub fn redefined_aliases(merged: &Vec<TrustEntry>, entries: &Vec<TrustEntry>) -> (r: Vec<(String, String)>)
    ensures
        redefinition_views(r@) == redefinitions(defs(trust_views(merged@)), trust_views(entries@)),
{
    let ghost m = defs(trust_views(merged@));
    let ghost es = trust_views(entries@);
    proof {
        law_last_definition_wins(Map::empty(), trust_views(merged@));
        assert(es.take(0) =~= Seq::<TrustView>::empty());
    }
    let mut out: Vec<(String, String)> = Vec::new();
    let mut i: usize = 0;
    assert(redefinition_views(out@) =~= Seq::<(Seq<char>, Seq<char>)>::empty());
    while i < entries.len()
        invariant
            i <= entries.len(),
            m == defs(trust_views(merged@)),
            es == trust_views(entries@),
            forall|a: Seq<char>| #[trigger] m.contains_key(a) <==> exists|k: int| 0 <= k < merged.len() && trust_views(merged@)[k].alias == a,
            redefinition_views(out@) == redefinitions(m, es.take(i as int)),
        decreases entries.len() - i,
    {
        let e = &entries[i];
        assert(es[i as int] == e@);
        assert(es.take(i + 1) =~= es.take(i as int).push(e@));
        proof {
            lemma_redefinitions_push(m, es.take(i as int), e@);
            law_last_definition_wins(m, es.take(i as int));
        }
        let in_merged = defines_within(merged, merged.len(), e.alias.as_str());
        let earlier = defines_within(entries, i, e.alias.as_str());
        proof {
            if in_merged {
                let k = choose|k: int| 0 <= k < merged.len() && #[trigger] merged@[k]@.alias == e@.alias;
                assert(trust_views(merged@)[k].alias == e@.alias);
            }
            if m.contains_key(e@.alias) {
                let k = choose|k: int| 0 <= k < merged.len() && trust_views(merged@)[k].alias == e@.alias;
                assert(merged@[k]@.alias == e@.alias);
            }
            if earlier {
                let k = choose|k: int| 0 <= k < i && #[trigger] entries@[k]@.alias == e@.alias;
                assert(es.take(i as int)[k].alias == e@.alias);
            }
            if exists|k: int| 0 <= k < es.take(i as int).len() && es.take(i as int)[k].alias == e@.alias {
                let k = choose|k: int| 0 <= k < es.take(i as int).len() && es.take(i as int)[k].alias == e@.alias;
                assert(entries@[k]@.alias == e@.alias);
            }
        }
        assert((in_merged || earlier) == fold_into(m, es.take(i as int)).contains_key(e@.alias));
        let ghost before = redefinition_views(out@);
        if in_merged || earlier {
            out.push((e.alias.clone(), e.source.clone()));
            assert(redefinition_views(out@) =~= before + seq![(e@.alias, e@.source)]);
        } else {
            assert(redefinition_views(out@) =~= before + Seq::<(Seq<char>, Seq<char>)>::empty());
        }
        i = i + 1;
    }
    assert(es.take(entries.len() as int) =~= es);
    out
}

/// Whether no two entries of `v` share an alias.
pub fn has_distinct_aliases(v: &Vec<TrustEntry>) -> (b: bool)
    ensures
        b == distinct_aliases(trust_views(v@)),
{
    let ghost tv = trust_views(v@);
    let mut j: usize = 0;
    while j < v.len()
        invariant
            j <= v.len(),
            tv == trust_views(v@),
            forall|a: int, b: int| 0 <= a < b < j ==> tv[a].alias != tv[b].alias,
        decreases v.len() - j,
    {
        if defines_within(v, j, v[j].alias.as_str()) {
            proof {
                let k = choose|k: int| 0 <= k < j && #[trigger] v@[k]@.alias == v@[j as int]@.alias;
                assert(tv[k].alias == tv[j as int].alias);
            }
            return false;
        }
        proof {
            assert forall|a: int, b: int| 0 <= a < b < j + 1 implies tv[a].alias != tv[b].alias by {
                if b == j {
                    assert(v@[a]@.alias == tv[a].alias);
                }
            }
        }
        j = j + 1;
    }
    true
}

proof fn lemma_repeat_iff(m: Map<Seq<char>, TrustView>, es: Seq<TrustView>)
    ensures
        repeat_in(m, es) is Some <==> exists|j: int| 0 <= j < es.len() && (m.contains_key(#[trigger] es[j].alias)
            || exists|i: int| 0 <= i < j && es[i].alias == es[j].alias),
    decreases es.len(),
{
    if es.len() > 0 && !m.contains_key(es[0].alias) {
        let m2 = m.insert(es[0].alias, es[0]);
        let rest = es.drop_first();
        lemma_repeat_iff(m2, rest);
        if repeat_in(m, es) is Some {
            let j2 = choose|j: int| 0 <= j < rest.len() && (m2.contains_key(#[trigger] rest[j].alias)
                || exists|i: int| 0 <= i < j && rest[i].alias == rest[j].alias);
            assert(rest[j2] == es[j2 + 1]);
            if m2.contains_key(rest[j2].alias) && !m.contains_key(es[j2 + 1].alias) {
                assert(es[0].alias == es[j2 + 1].alias);
            } else if !m.contains_key(es[j2 + 1].alias) {
                let i2 = choose|i: int| 0 <= i < j2 && rest[i].alias == rest[j2].alias;
                assert(es[i2 + 1].alias == es[j2 + 1].alias);
            }
            assert(m.contains_key(es[j2 + 1].alias) || exists|i: int| #![trigger es[i]] 0 <= i < j2 + 1 && es[i].alias == es[j2 + 1].alias);
        }
        if exists|j: int| 0 <= j < es.len() && (m.contains_key(#[trigger] es[j].alias)
            || exists|i: int| 0 <= i < j && es[i].alias == es[j].alias) {
            let j = choose|j: int| 0 <= j < es.len() && (m.contains_key(#[trigger] es[j].alias)
                || exists|i: int| 0 <= i < j && es[i].alias == es[j].alias);
            assert(j > 0);
            assert(rest[j - 1] == es[j]);
            if m.contains_key(es[j].alias) {
                assert(m2.contains_key(rest[j - 1].alias));
            } else {
                let i = choose|i: int| 0 <= i < j && es[i].alias == es[j].alias;
                if i == 0 {
                    assert(m2.contains_key(rest[j - 1].alias));
                } else {
                    assert(rest[i - 1].alias == rest[j - 1].alias);
                }
            }
        }
    }
}

/// Strict merging fails exactly when some alias is defined twice in the
/// files' entries taken together, in one file or across files.
pub proof fn law_strict_merge_fails_iff_alias_repeats(files: Seq<Seq<TrustView>>)
    ensures
        repeat_in(Map::empty(), concat_files(files)) is Some <==> exists|i: int, j: int|
            0 <= i < j < concat_files(files).len() && concat_files(files)[i].alias == concat_files(files)[j].alias,
{
    let all = concat_files(files);
    lemma_repeat_iff(Map::empty(), all);
    if repeat_in(Map::empty(), all) is Some {
        let j = choose|j: int| 0 <= j < all.len() && (Map::<Seq<char>, TrustView>::empty().contains_key(#[trigger] all[j].alias)
            || exists|i: int| 0 <= i < j && all[i].alias == all[j].alias);
        let i = choose|i: int| 0 <= i < j && all[i].alias == all[j].alias;
        assert(0 <= i < j < all.len() && all[i].alias == all[j].alias);
    }
    if exists|i: int, j: int| 0 <= i < j < all.len() && all[i].alias == all[j].alias {
        let (i, j) = choose|i: int, j: int| 0 <= i < j < all.len() && all[i].alias == all[j].alias;
        assert(exists|i2: int| 0 <= i2 < j && all[i2].alias == all[j].alias);
        assert(Map::<Seq<char>, TrustView>::empty().contains_key(all[j].alias)
            || exists|i2: int| 0 <= i2 < j && all[i2].alias == all[j].alias);
    }
}

proof fn lemma_last_occurrence(s: Seq<TrustView>, a: Seq<char>)
    requires
        exists|k: int| 0 <= k < s.len() && s[k].alias == a,
    ensures
        exists|k: int| 0 <= k < s.len() && s[k].alias == a && forall|j: int| k < j < s.len() ==> s[j].alias != a,
    decreases s.len(),
{
    let n = s.len() - 1;
    if s[n].alias != a {
        let d = s.drop_last();
        let k0 = choose|k: int| 0 <= k < s.len() && s[k].alias == a;
        assert(d[k0] == s[k0]);
        lemma_last_occurrence(d, a);
        let k = choose|k: int| 0 <= k < d.len() && d[k].alias == a && forall|j: int| k < j < d.len() ==> d[j].alias != a;
        assert(s[k] == d[k]);
        assert forall|j: int| k < j < s.len() implies s[j].alias != a by {
            if j < n {
                assert(s[j] == d[j]);
            }
        }
    }
}

/// A merged list whose definitions are those of all the files' entries
/// holds, for each alias defined there, exactly the last definition of it.
pub proof fn law_merged_entries_are_last_definitions(out: Seq<TrustView>, all: Seq<TrustView>)
    requires
        distinct_aliases(out),
        defs(out) == defs(all),
    ensures
        forall|i: int| 0 <= i < out.len() ==> exists|k: int| 0 <= k < all.len() && all[k] == #[trigger] out[i]
            && forall|j: int| k < j < all.len() ==> all[j].alias != out[i].alias,
        forall|k: int| 0 <= k < all.len() ==> exists|i: int| 0 <= i < out.len() && out[i].alias == #[trigger] all[k].alias,
{
    law_last_definition_wins(Map::empty(), out);
    law_last_definition_wins(Map::empty(), all);
    assert forall|i: int| 0 <= i < out.len() implies exists|k: int| 0 <= k < all.len() && all[k] == #[trigger] out[i]
        && forall|j: int| k < j < all.len() ==> all[j].alias != out[i].alias by {
        let a = out[i].alias;
        assert(forall|j: int| i < j < out.len() ==> out[j].alias != out[i].alias);
        assert(defs(out).contains_key(a) && defs(out)[a] == out[i]);
        assert(fold_into(Map::empty(), all).contains_key(a));
        lemma_last_occurrence(all, a);
        let k = choose|k: int| 0 <= k < all.len() && all[k].alias == a && forall|j: int| k < j < all.len() ==> all[j].alias != a;
        assert(fold_into(Map::empty(), all)[all[k].alias] == all[k]);
    }
    assert forall|k: int| 0 <= k < all.len() implies exists|i: int| 0 <= i < out.len() && out[i].alias == #[trigger] all[k].alias by {
        assert(fold_into(Map::empty(), all).contains_key(all[k].alias));
        assert(fold_into(Map::empty(), out).contains_key(all[k].alias));
    }
}

/// A text line that defines an entry: not blank and not a `#` comment.
pub open spec fn entry_line(l: Seq<char>) -> bool {
    trim(l).len() > 0 && !starts_with(trim(l), "#"@)
}

/// An entry line with an alias and an accepted URL.
pub open spec fn line_valid(l: Seq<char>) -> bool {
    words(trim(l)).len() >= 2 && url_accepted(words(trim(l))[1])
}

/// The entry that a valid line defines: alias, URL and chain target.
pub open spec fn line_entry(l: Seq<char>, default_chain: ChainTarget) -> (Seq<char>, Seq<char>, ChainTarget) {
    let p = words(trim(l));
    (p[0], p[1], txt_chain(p, default_chain))
}

/// A text trust list reads without error exactly when every entry line has
/// an alias and an accepted URL, and then gives one entry per entry line, in
/// line order.
pub proof fn law_txt_lines(ls: Seq<Seq<char>>, start: nat, default_chain: ChainTarget)
    ensures
        txt_run(ls, start, default_chain) is Ok <==> forall|i: int| 0 <= i < ls.len() && entry_line(ls[i]) ==> #[trigger] line_valid(ls[i]),
        txt_run(ls, start, default_chain) matches Ok(es) ==> es
            == ls.filter(|l: Seq<char>| entry_line(l)).map_values(|l: Seq<char>| line_entry(l, default_chain)),
    decreases ls.len(),
{
    let pred = |l: Seq<char>| entry_line(l);
    let f = |l: Seq<char>| line_entry(l, default_chain);
    reveal_strlit("#");
    if ls.len() == 0 {
        reveal(Seq::filter);
        assert(ls.filter(pred) =~= Seq::<Seq<char>>::empty());
        assert(ls.filter(pred).map_values(f) =~= Seq::<(Seq<char>, Seq<char>, ChainTarget)>::empty());
    } else {
        let rest = ls.drop_first();
        law_txt_lines(rest, start + 1, default_chain);
        assert(ls =~= seq![ls[0]] + rest);
        Seq::filter_distributes_over_add(seq![ls[0]], rest, pred);
        reveal(Seq::filter);
        assert(seq![ls[0]].drop_last() =~= Seq::<Seq<char>>::empty());
        assert(Seq::<Seq<char>>::empty().filter(pred) =~= Seq::<Seq<char>>::empty());
        assert(seq![ls[0]].filter(pred) == Seq::<Seq<char>>::empty().filter(pred) + (if pred(ls[0]) { seq![ls[0]] } else { Seq::<Seq<char>>::empty() }));
        assert forall|i: int| 0 <= i < rest.len() implies #[trigger] rest[i] == ls[i + 1] by {}
        if entry_line(ls[0]) {
            assert(seq![ls[0]].filter(pred) =~= seq![ls[0]]);
            if line_valid(ls[0]) && txt_run(rest, start + 1, default_chain) is Ok {
                assert(ls.filter(pred) =~= seq![ls[0]] + rest.filter(pred));
                assert((seq![ls[0]] + rest.filter(pred)).map_values(f) =~= seq![f(ls[0])] + rest.filter(pred).map_values(f));
            }
            if !(forall|i: int| 0 <= i < rest.len() && entry_line(rest[i]) ==> #[trigger] line_valid(rest[i])) {
                let i = choose|i: int| 0 <= i < rest.len() && entry_line(rest[i]) && !line_valid(rest[i]);
                assert(entry_line(ls[i + 1]) && !line_valid(ls[i + 1]));
            }
        } else {
            assert(seq![ls[0]].filter(pred) =~= Seq::<Seq<char>>::empty());
            assert(ls.filter(pred) =~= rest.filter(pred));
            if !(forall|i: int| 0 <= i < rest.len() && entry_line(rest[i]) ==> #[trigger] line_valid(rest[i])) {
                let i = choose|i: int| 0 <= i < rest.len() && entry_line(rest[i]) && !line_valid(rest[i]);
                assert(entry_line(ls[i + 1]) && !line_valid(ls[i + 1]));
            }
        }
        if forall|i: int| 0 <= i < rest.len() && entry_line(rest[i]) ==> #[trigger] line_valid(rest[i]) {
            if entry_line(ls[0]) ==> line_valid(ls[0]) {
                assert forall|i: int| 0 <= i < ls.len() && entry_line(ls[i]) implies #[trigger] line_valid(ls[i]) by {
                    if i > 0 {
                        assert(ls[i] == rest[i - 1]);
                    }
                }
            }
        }
    }
}

} // verus!
