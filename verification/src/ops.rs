//! Planning `add` and `remove`: which keystore aliases an operation touches
//! and how its plan is reported.
use vstd::prelude::*;
use crate::cert::{CertView, FetchedCert, SelectedCert, SelectedView, cert_views, picked, select_certs, selection, index_unavailable};
use crate::cli::{ChainTarget, GlobalOpts, all_digits, digits_value, is_digit, target_index, target_name};
use crate::elevation::ElevationPlan;
use crate::error::JcmError;
use crate::keystore::{EntryView, KeystoreEntry, aliases, builtin_intact, builtin_report, contains_string, entry_views, verify_builtin_aliases_unchanged};
use crate::logging::string_views;
use crate::paths::{keystore_alias, resolve_keystore_alias, valid_alias, validate_alias};
use crate::text::{
    chars_le, chars_lt, chars_lt_exec, chars_of, lemma_chars_lt_irreflexive, lemma_chars_lt_total,
    decimal, lemma_chars_lt_transitive, push_str, sorted_strings, starts_with, starts_with_chars,
};

verus! {

/// What an `add` does to the keystore.
#[derive(Clone, Copy, Debug, PartialEq, Eq, Structural)]
pub enum MutationKind {
    Add,
    Update,
    Skip,
}

/// A certificate that an `add` imports.
#[derive(Debug)]
pub struct PlannedCert {
    pub keystore_alias: String,
    pub subject: String,
    pub fingerprint_sha256: String,
}

/// The plan of an `add`.
#[derive(Debug)]
pub struct AddPlan {
    pub kind: MutationKind,
    pub alias: String,
    pub url: String,
    pub chain: ChainTarget,
    pub certs: Vec<PlannedCert>,
}

/// The plan of a `remove`.
#[derive(Debug)]
pub struct RemovePlan {
    pub alias: String,
    pub keystore_aliases: Vec<String>,
}

/// The plan of a `remove` in view form.
pub struct RemovePlanView {
    pub alias: Seq<char>,
    pub keystore_aliases: Seq<Seq<char>>,
}

impl View for RemovePlan {
    type V = RemovePlanView;

    open spec fn view(&self) -> RemovePlanView {
        RemovePlanView { alias: self.alias@, keystore_aliases: string_views(self.keystore_aliases@) }
    }
}

/// `s` is a chain position written in decimal: digits, with no leading
/// zero unless the position is 0 (exactly the texts `decimal(n)`, see
/// `law_index_text_is_decimal`).
pub open spec fn index_text(s: Seq<char>) -> bool {
    s.len() > 0 && all_digits(s) && (s[0] == '0' ==> s.len() == 1)
}

/// `a` is `<stem><n>` or `<stem>int-<n>` for a chain position `n`.
pub open spec fn variant_of(a: Seq<char>, stem: Seq<char>) -> bool {
    &&& starts_with(a, stem)
    &&& {
        let rest = a.skip(stem.len() as int);
        index_text(rest) || (starts_with(rest, seq!['i', 'n', 't', '-']) && index_text(rest.skip(4)))
    }
}

/// The keystore aliases that `alias` owns under `prefix` by the naming
/// convention, other than its primary one: `<prefix><alias>-<n>` and
/// `<prefix><alias>-int-<n>`.
pub open spec fn owned_variants(store: Seq<Seq<char>>, alias: Seq<char>, prefix: Seq<char>) -> Seq<Seq<char>> {
    store.filter(|a: Seq<char>| variant_of(a, prefix + alias + "-"@))
}

/// Whether `s` from position `from` on is a chain position in decimal.
fn index_text_from(s: &[char], from: usize) -> (b: bool)
    requires
        from <= s.len(),
    ensures
        b == index_text(s@.skip(from as int)),
{
    if from >= s.len() {
        return false;
    }
    if s[from] == '0' && s.len() - from != 1 {
        assert(s@.skip(from as int)[0] == '0');
        return false;
    }
    let mut i = from;
    while i < s.len()
        invariant
            from <= i <= s.len(),
            forall|k: int| from <= k < i ==> is_digit(#[trigger] s@[k]),
        decreases s.len() - i,
    {
        if !('0' <= s[i] && s[i] <= '9') {
            assert(s@.skip(from as int)[i - from] == s@[i as int]);
            return false;
        }
        i = i + 1;
    }
    assert(all_digits(s@.skip(from as int)));
    true
}

/// Whether `a` is `<stem><n>` or `<stem>int-<n>` for a chain position `n`.
pub fn is_variant_of(a: &[char], stem: &[char]) -> (b: bool)
    ensures
        b == variant_of(a@, stem@),
{
    if !starts_with_chars(a, stem) {
        return false;
    }
    let n = stem.len();
    let ghost rest = a@.skip(n as int);
    if index_text_from(a, n) {
        return true;
    }
    let int_tag: Vec<char> = vec!['i', 'n', 't', '-'];
    let tagged = a.len() - n >= 4 && a[n] == int_tag[0] && a[n + 1] == int_tag[1] && a[n + 2] == int_tag[2] && a[n + 3] == int_tag[3];
    assert(tagged == starts_with(rest, seq!['i', 'n', 't', '-'])) by {
        if tagged {
            assert(rest.subrange(0, 4) =~= seq!['i', 'n', 't', '-']);
        }
        if starts_with(rest, seq!['i', 'n', 't', '-']) {
            assert(rest.subrange(0, 4)[0] == 'i');
            assert(rest.subrange(0, 4)[1] == 'n');
            assert(rest.subrange(0, 4)[2] == 't');
            assert(rest.subrange(0, 4)[3] == '-');
        }
    }
    if !tagged {
        return false;
    }
    assert(rest.skip(4) =~= a@.skip(n + 4));
    index_text_from(a, n + 4)
}

/// Sorts strings in ascending order.
pub fn sort_strings(v: Vec<String>) -> (r: Vec<String>)
    ensures
        sorted_strings(string_views(r@)),
        string_views(r@).to_multiset() == string_views(v@).to_multiset(),
{
    broadcast use vstd::seq_lib::to_multiset_build, vstd::seq_lib::to_multiset_insert;

    let ghost vs = string_views(v@);
    let mut out: Vec<String> = Vec::new();
    let mut i: usize = 0;
    assert(vs.take(0) =~= Seq::<Seq<char>>::empty());
    assert(string_views(out@) =~= Seq::<Seq<char>>::empty());
    while i < v.len()
        invariant
            i <= v.len(),
            vs == string_views(v@),
            sorted_strings(string_views(out@)),
            string_views(out@).to_multiset() == vs.take(i as int).to_multiset(),
        decreases v.len() - i,
    {
        let x = v[i].clone();
        let xa = chars_of(x.as_str());
        let ghost os = string_views(out@);
        let ghost xv = vs[i as int];
        assert(xv == x@);
        let mut pos: usize = 0;
        while pos < out.len() && !chars_lt_exec(&xa, &chars_of(out[pos].as_str()))
            invariant
                pos <= out.len(),
                os == string_views(out@),
                xa@ == xv,
                forall|k: int| 0 <= k < pos ==> !chars_lt(xv, #[trigger] os[k]),
            decreases out.len() - pos,
        {
            pos = pos + 1;
        }
        out.insert(pos, x);
        let ghost ns = string_views(out@);
        assert(ns =~= os.insert(pos as int, xv));
        proof {
            vstd::seq_lib::to_multiset_insert(os, pos as int, xv);
        }
        assert forall|a: int, b: int| 0 <= a < b < ns.len() implies chars_le(ns[a], ns[b]) by {
            if a < pos && b == pos {
                if os[a] != xv {
                    lemma_chars_lt_total(os[a], xv);
                }
            } else if a == pos && b > pos {
                assert(chars_lt(xv, os[pos as int]));
                if b - 1 > pos {
                    assert(chars_le(os[pos as int], os[b - 1]));
                    if os[pos as int] != os[b - 1] {
                        lemma_chars_lt_transitive(xv, os[pos as int], os[b - 1]);
                    }
                }
            } else if a < pos && b > pos {
                assert(chars_le(os[a], os[b - 1]));
            } else if b < pos {
            } else {
                assert(chars_le(os[a - 1], os[b - 1]));
            }
        }
        assert(vs.take(i + 1) =~= vs.take(i as int).push(xv));
        proof {
            vstd::seq_lib::to_multiset_build(vs.take(i as int), xv);
        }
        i = i + 1;
    }
    assert(vs.take(v.len() as int) =~= vs);
    out
}

/// The keystore aliases that a `remove` of `alias` deletes: the primary alias
/// if the store has it, else every `<prefix><alias>-...` alias, sorted.
/// `ks` are the keystore aliases that a removal of `alias` picks from `store`:
/// the primary alias if present, else every owned variant, sorted.
pub open spec fn removal_targets(ks: Seq<Seq<char>>, store: Seq<Seq<char>>, alias: Seq<char>, prefix: Seq<char>) -> bool {
    if store.contains(keystore_alias(alias, prefix)) {
        ks == seq![keystore_alias(alias, prefix)]
    } else {
        sorted_strings(ks) && ks.to_multiset() == owned_variants(store, alias, prefix).to_multiset()
    }
}

pub fn resolve_remove_aliases(store: &[KeystoreEntry], alias: &str, prefix: &str) -> (r: Vec<String>)
    ensures
        removal_targets(string_views(r@), aliases(entry_views(store@)), alias@, prefix@),
        forall|k: int| 0 <= k < r.len() ==> starts_with(#[trigger] r@[k]@, prefix@),
{
    let ghost all = aliases(entry_views(store@));
    let primary = resolve_keystore_alias(alias, prefix);
    let mut k: usize = 0;
    while k < store.len()
        invariant
            k <= store.len(),
            all == aliases(entry_views(store@)),
            primary@ == keystore_alias(alias@, prefix@),
            forall|m: int| 0 <= m < k ==> all[m] != primary@,
        decreases store.len() - k,
    {
        if crate::text::str_eq(store[k].alias.as_str(), primary.as_str()) {
            assert(all[k as int] == primary@);
            assert(all.contains(primary@));
            let ghost pv = primary@;
            let mut r: Vec<String> = Vec::new();
            r.push(primary);
            assert(r@[0]@ == pv);
            assert(string_views(r@).len() == 1);
            assert(string_views(r@)[0] == r@[0]@);
            assert(string_views(r@) =~= seq![keystore_alias(alias@, prefix@)]);
            proof {
                crate::paths::law_keystore_alias_idempotent(alias@, prefix@);
            }
            return r;
        }
        k = k + 1;
    }
    assert(!all.contains(primary@));
    let mut stem = chars_of(prefix);
    crate::text::push_chars(&mut stem, &chars_of(alias));
    crate::text::push_chars(&mut stem, &chars_of("-"));
    let mut matches: Vec<String> = Vec::new();
    let mut i: usize = 0;
    let ghost pred = |a: Seq<char>| variant_of(a, prefix@ + alias@ + "-"@);
    proof {
        reveal(Seq::filter);
        assert(all.take(0).filter(pred) =~= Seq::<Seq<char>>::empty());
    }
    while i < store.len()
        invariant
            i <= store.len(),
            all == aliases(entry_views(store@)),
            stem@ == prefix@ + alias@ + "-"@,
            pred == (|a: Seq<char>| variant_of(a, prefix@ + alias@ + "-"@)),
            string_views(matches@) == all.take(i as int).filter(pred),
        decreases store.len() - i,
    {
        assert(all.take(i + 1) =~= all.take(i as int).push(store@[i as int].alias@));
        proof {
            all.take(i as int).lemma_filter_push(store@[i as int].alias@, pred);
        }
        let ghost before = string_views(matches@);
        if is_variant_of(&chars_of(store[i].alias.as_str()), &stem) {
            matches.push(store[i].alias.clone());
            assert(string_views(matches@) =~= before.push(store@[i as int].alias@));
        }
        i = i + 1;
    }
    assert(all.take(store.len() as int) =~= all);
    let sorted = sort_strings(matches);
    proof {
        let ov = all.filter(pred);
        assert forall|k: int| 0 <= k < sorted.len() implies starts_with(#[trigger] sorted@[k]@, prefix@) by {
            let a = sorted@[k]@;
            assert(string_views(sorted@)[k] == a);
            vstd::seq_lib::to_multiset_contains(string_views(sorted@), a);
            assert(ov.to_multiset().count(a) > 0);
            vstd::seq_lib::to_multiset_contains(ov, a);
            let j = choose|j: int| 0 <= j < ov.len() && ov[j] == a;
            lemma_owned_variant_prefixed(all, alias@, prefix@, j);
        }
    }
    sorted
}

proof fn lemma_owned_variant_prefixed(store: Seq<Seq<char>>, alias: Seq<char>, prefix: Seq<char>, j: int)
    requires
        0 <= j < owned_variants(store, alias, prefix).len(),
    ensures
        starts_with(owned_variants(store, alias, prefix)[j], prefix),
{
    let ov = owned_variants(store, alias, prefix);
    let stem = prefix + alias + "-"@;
    let pred = |a: Seq<char>| variant_of(a, prefix + alias + "-"@);
    let a = ov[j];
    store.lemma_filter_pred(pred, j);
    assert(starts_with(a, stem));
    assert(a.subrange(0, prefix.len() as int) =~= stem.subrange(0, prefix.len() as int));
    assert(stem.subrange(0, prefix.len() as int) =~= prefix);
}

/// `remove` and the replacement step of `add` only delete managed aliases:
/// every alias that a removal can pick carries the prefix.
pub proof fn law_removals_are_managed(store: Seq<Seq<char>>, alias: Seq<char>, prefix: Seq<char>)
    ensures
        starts_with(keystore_alias(alias, prefix), prefix),
        forall|k: int| 0 <= k < owned_variants(store, alias, prefix).len()
            ==> starts_with(#[trigger] owned_variants(store, alias, prefix)[k], prefix),
{
    crate::paths::law_keystore_alias_idempotent(alias, prefix);
    assert forall|k: int| 0 <= k < owned_variants(store, alias, prefix).len()
        implies starts_with(#[trigger] owned_variants(store, alias, prefix)[k], prefix) by {
        lemma_owned_variant_prefixed(store, alias, prefix, k);
    }
}

/// The plan of an `add` in view form.
pub struct AddPlanView {
    pub kind: MutationKind,
    pub alias: Seq<char>,
    pub url: Seq<char>,
    pub chain: ChainTarget,
    pub certs: Seq<(Seq<char>, Seq<char>, Seq<char>)>,
}

pub open spec fn planned_views(s: Seq<PlannedCert>) -> Seq<(Seq<char>, Seq<char>, Seq<char>)> {
    s.map_values(|c: PlannedCert| (c.keystore_alias@, c.subject@, c.fingerprint_sha256@))
}

impl View for AddPlan {
    type V = AddPlanView;

    open spec fn view(&self) -> AddPlanView {
        AddPlanView { kind: self.kind, alias: self.alias@, url: self.url@, chain: self.chain, certs: planned_views(self.certs@) }
    }
}

/// The certificates planned for a selection: alias, subject and fingerprint.
pub open spec fn planned_from(sel: Seq<SelectedView>) -> Seq<(Seq<char>, Seq<char>, Seq<char>)> {
    sel.map_values(|s: SelectedView| (s.alias, s.cert.subject, s.cert.fingerprint))
}

/// Skip when the store has every planned alias, else Add when `alias` owns
/// no keystore alias yet, else Update.
pub open spec fn add_kind(store: Seq<Seq<char>>, planned: Seq<(Seq<char>, Seq<char>, Seq<char>)>, alias: Seq<char>, prefix: Seq<char>) -> MutationKind {
    if forall|k: int| 0 <= k < planned.len() ==> store.contains(#[trigger] planned[k].0) {
        MutationKind::Skip
    } else if !store.contains(keystore_alias(alias, prefix)) && owned_variants(store, alias, prefix).len() == 0 {
        MutationKind::Add
    } else {
        MutationKind::Update
    }
}

/// A certificate selection can be made from `chain` for `target`.
pub open spec fn add_plannable(chain: Seq<CertView>, target: ChainTarget) -> bool {
    chain.len() > 0 && !index_unavailable(target, chain.len() as nat)
}

/// `e` is why no selection can be made from `chain` for `target`.
pub open spec fn selection_failure(e: JcmError, chain: Seq<CertView>, target: ChainTarget) -> bool {
    if chain.len() == 0 {
        e is EmptyChain
    } else {
        e matches JcmError::ChainIndexUnavailable { index } && target_index(target) == Some(index as nat)
    }
}

/// The plan of an `add` of `alias` from `chain`, given the store's entries.
pub open spec fn add_plan_view(store: Seq<EntryView>, chain: Seq<CertView>, prefix: Seq<char>, alias: Seq<char>, url: Seq<char>, target: ChainTarget) -> AddPlanView {
    let planned = planned_from(picked(chain, selection(chain, target, alias, prefix)));
    AddPlanView {
        kind: add_kind(aliases(store), planned, alias, prefix),
        alias,
        url,
        chain: target,
        certs: planned,
    }
}

/// Plans an `add` of `alias` from the fetched `chain`, given the store's entries.
pub fn plan_add(store: &[KeystoreEntry], chain: &[FetchedCert], opts: &GlobalOpts, alias: &str, url: &str, target: ChainTarget) -> (r: Result<AddPlan, JcmError>)
    ensures
        !valid_alias(alias@) ==> (r matches Err(e) && (e matches JcmError::InvalidAlias { alias: a } && a@ == alias@)),
        valid_alias(alias@) && !add_plannable(cert_views(chain@), target) ==> (r matches Err(e) && selection_failure(e, cert_views(chain@), target)),
        valid_alias(alias@) && add_plannable(cert_views(chain@), target) ==> (r matches Ok(p)
            && p@ == add_plan_view(entry_views(store@), cert_views(chain@), opts.alias_prefix@, alias@, url@, target)),
{
    validate_alias(alias)?;
    let selected = select_certs(chain, target, alias, opts.alias_prefix.as_str())?;
    let ghost sel = crate::cert::selected_views(selected@);
    let mut certs: Vec<PlannedCert> = Vec::new();
    let mut i: usize = 0;
    while i < selected.len()
        invariant
            i <= selected.len(),
            sel == crate::cert::selected_views(selected@),
            certs.len() == i,
            planned_views(certs@) == planned_from(sel).take(i as int),
        decreases selected.len() - i,
    {
        let s = &selected[i];
        assert(sel[i as int] == s@);
        assert(planned_from(sel)[i as int] == (s.keystore_alias@, s.cert.subject@, s.cert.fingerprint_sha256@));
        certs.push(PlannedCert {
            keystore_alias: s.keystore_alias.clone(),
            subject: s.cert.subject.clone(),
            fingerprint_sha256: s.cert.fingerprint_sha256.clone(),
        });
        i = i + 1;
        assert(planned_views(certs@) =~= planned_from(sel).take(i as int));
    }
    assert(planned_from(sel).take(selected.len() as int) =~= planned_from(sel));
    let ghost planned = planned_from(sel);
    let ghost store_aliases = aliases(entry_views(store@));
    let set = crate::keystore::alias_set(store);
    let mut all_present = true;
    let mut k: usize = 0;
    while k < certs.len()
        invariant
            k <= certs.len(),
            planned_views(certs@) == planned,
            forall|s: Seq<char>| #[trigger] string_views(set@).contains(s) <==> store_aliases.contains(s),
            all_present == (forall|m: int| 0 <= m < k ==> store_aliases.contains(#[trigger] planned[m].0)),
        decreases certs.len() - k,
    {
        assert(planned[k as int].0 == certs@[k as int].keystore_alias@);
        if !contains_string(&set, certs[k].keystore_alias.as_str()) {
            all_present = false;
        }
        k = k + 1;
    }
    let kind = if all_present {
        MutationKind::Skip
    } else {
        let owned = resolve_remove_aliases(store, alias, opts.alias_prefix.as_str());
        proof {
            let pa = keystore_alias(alias@, opts.alias_prefix@);
            let ov = owned_variants(store_aliases, alias@, opts.alias_prefix@);
            if !store_aliases.contains(pa) {
                vstd::seq_lib::to_multiset_len(string_views(owned@));
                vstd::seq_lib::to_multiset_len(ov);
            }
        }
        let ghost pa = keystore_alias(alias@, opts.alias_prefix@);
        let ghost ov = owned_variants(store_aliases, alias@, opts.alias_prefix@);
        assert((owned.len() == 0) == (!store_aliases.contains(pa) && ov.len() == 0)) by {
            if store_aliases.contains(pa) {
                assert(string_views(owned@).len() == 1);
            } else {
                assert(string_views(owned@).len() == owned.len());
            }
        }
        if owned.len() == 0 {
            MutationKind::Add
        } else {
            MutationKind::Update
        }
    };
    assert(kind == add_kind(store_aliases, planned, alias@, opts.alias_prefix@));
    Ok(AddPlan { kind, alias: alias.to_owned(), url: url.to_owned(), chain: target, certs })
}

/// The store holds a keystore alias that a removal of `alias` would pick.
pub open spec fn removable(store: Seq<Seq<char>>, alias: Seq<char>, prefix: Seq<char>) -> bool {
    store.contains(keystore_alias(alias, prefix)) || owned_variants(store, alias, prefix).len() > 0
}

/// `e` reports that nothing in the store belongs to `alias`.
pub open spec fn removal_missing(e: JcmError, alias: Seq<char>, prefix: Seq<char>) -> bool {
    e matches JcmError::AliasNotFound { alias: a, keystore_alias: k } && a@ == alias && k@ == keystore_alias(alias, prefix)
}

/// Plans a `remove` of `alias`, given the store's entries.
pub fn plan_remove(store: &[KeystoreEntry], opts: &GlobalOpts, alias: &str) -> (r: Result<RemovePlan, JcmError>)
    ensures
        !valid_alias(alias@) ==> (r matches Err(e) && (e matches JcmError::InvalidAlias { alias: a } && a@ == alias@)),
        valid_alias(alias@) && !removable(aliases(entry_views(store@)), alias@, opts.alias_prefix@) ==> (r matches Err(e)
            && removal_missing(e, alias@, opts.alias_prefix@)),
        valid_alias(alias@) && removable(aliases(entry_views(store@)), alias@, opts.alias_prefix@) ==> (r matches Ok(p)
            && p@.alias == alias@ && removal_targets(p@.keystore_aliases, aliases(entry_views(store@)), alias@, opts.alias_prefix@)),
        r matches Ok(p) ==> forall|k: int| 0 <= k < p.keystore_aliases.len()
            ==> starts_with(#[trigger] p.keystore_aliases@[k]@, opts.alias_prefix@),
{
    validate_alias(alias)?;
    let ks_aliases = resolve_remove_aliases(store, alias, opts.alias_prefix.as_str());
    proof {
        vstd::seq_lib::to_multiset_len(string_views(ks_aliases@));
        vstd::seq_lib::to_multiset_len(owned_variants(aliases(entry_views(store@)), alias@, opts.alias_prefix@));
    }
    if ks_aliases.len() == 0 {
        return Err(JcmError::AliasNotFound {
            alias: alias.to_owned(),
            keystore_alias: resolve_keystore_alias(alias, opts.alias_prefix.as_str()),
        });
    }
    Ok(RemovePlan { alias: alias.to_owned(), keystore_aliases: ks_aliases })
}

/// Whether an `add` with this plan changes the keystore.
pub fn plan_would_mutate_add(plan: &AddPlan) -> (b: bool)
    ensures
        b == (plan.kind != MutationKind::Skip),
{
    match plan.kind {
        MutationKind::Skip => false,
        _ => true,
    }
}

/// A `remove` plan always deletes something.
pub fn plan_would_mutate_remove(plan: &RemovePlan) -> (b: bool)
    ensures
        b,
{
    true
}

/// Whether `run_add` goes on to change the keystore for this plan.
pub fn add_needs_mutation(plan: &AddPlan, dry_run: bool) -> (b: bool)
    ensures
        b == (!dry_run && plan.kind != MutationKind::Skip),
{
    !dry_run && plan_would_mutate_add(plan)
}

pub open spec fn kind_name(k: MutationKind) -> Seq<char> {
    match k {
        MutationKind::Add => "add"@,
        MutationKind::Update => "update"@,
        MutationKind::Skip => "skip"@,
    }
}

/// The report of an `add` plan.
pub open spec fn add_report(p: AddPlanView, dry_run: bool) -> Seq<char> {
    let head = (if dry_run { "would"@ } else { "did"@ }) + " "@ + kind_name(p.kind) + " "@ + p.alias + " from "@ + p.url + " (chain="@ + target_name(p.chain) + ")"@;
    head + cert_lines(p.certs)
}

/// One `\n  alias | subject | fingerprint` line per certificate.
pub open spec fn cert_lines(cs: Seq<(Seq<char>, Seq<char>, Seq<char>)>) -> Seq<char>
    decreases cs.len(),
{
    if cs.len() == 0 {
        seq![]
    } else {
        cert_lines(cs.drop_last()) + "\n  "@ + cs.last().0 + " | "@ + cs.last().1 + " | "@ + cs.last().2
    }
}

pub fn format_add_plan(plan: &AddPlan, dry_run: bool) -> (r: String)
    ensures
        r@ == add_report(plan@, dry_run),
{
    let mut out = if dry_run { "would".to_owned() } else { "did".to_owned() };
    push_str(&mut out, " ");
    push_str(&mut out, match plan.kind {
        MutationKind::Add => "add",
        MutationKind::Update => "update",
        MutationKind::Skip => "skip",
    });
    push_str(&mut out, " ");
    push_str(&mut out, plan.alias.as_str());
    push_str(&mut out, " from ");
    push_str(&mut out, plan.url.as_str());
    push_str(&mut out, " (chain=");
    push_str(&mut out, plan.chain.as_str());
    push_str(&mut out, ")");
    let ghost head = out@;
    let ghost cs = planned_views(plan.certs@);
    let mut i: usize = 0;
    while i < plan.certs.len()
        invariant
            i <= plan.certs.len(),
            cs == planned_views(plan.certs@),
            out@ == head + cert_lines(cs.take(i as int)),
        decreases plan.certs.len() - i,
    {
        let c = &plan.certs[i];
        assert(cs.take(i + 1).drop_last() =~= cs.take(i as int));
        assert(cs.take(i + 1).last() == (c.keystore_alias@, c.subject@, c.fingerprint_sha256@));
        push_str(&mut out, "\n  ");
        push_str(&mut out, c.keystore_alias.as_str());
        push_str(&mut out, " | ");
        push_str(&mut out, c.subject.as_str());
        push_str(&mut out, " | ");
        push_str(&mut out, c.fingerprint_sha256.as_str());
        i = i + 1;
        assert(out@ =~= head + cert_lines(cs.take(i as int)));
    }
    assert(cs.take(plan.certs.len() as int) =~= cs);
    assert(out@ =~= add_report(plan@, dry_run));
    out
}

/// One `\n  alias` line per keystore alias.
pub open spec fn alias_lines(ks: Seq<Seq<char>>) -> Seq<char>
    decreases ks.len(),
{
    if ks.len() == 0 {
        seq![]
    } else {
        alias_lines(ks.drop_last()) + "\n  "@ + ks.last()
    }
}

/// The report of a `remove` plan.
pub open spec fn remove_report(alias: Seq<char>, ks: Seq<Seq<char>>, dry_run: bool) -> Seq<char> {
    (if dry_run { "would remove"@ } else { "removed"@ }) + " "@ + alias + alias_lines(ks)
}

pub fn format_remove_plan(plan: &RemovePlan, dry_run: bool) -> (r: String)
    ensures
        r@ == remove_report(plan.alias@, string_views(plan.keystore_aliases@), dry_run),
{
    let mut out = if dry_run { "would remove".to_owned() } else { "removed".to_owned() };
    push_str(&mut out, " ");
    push_str(&mut out, plan.alias.as_str());
    let ghost head = out@;
    let ghost ks = string_views(plan.keystore_aliases@);
    let mut i: usize = 0;
    while i < plan.keystore_aliases.len()
        invariant
            i <= plan.keystore_aliases.len(),
            ks == string_views(plan.keystore_aliases@),
            out@ == head + alias_lines(ks.take(i as int)),
        decreases plan.keystore_aliases.len() - i,
    {
        assert(ks.take(i + 1).drop_last() =~= ks.take(i as int));
        assert(ks.take(i + 1).last() == plan.keystore_aliases@[i as int]@);
        push_str(&mut out, "\n  ");
        push_str(&mut out, plan.keystore_aliases[i].as_str());
        i = i + 1;
        assert(out@ =~= head + alias_lines(ks.take(i as int)));
    }
    assert(ks.take(plan.keystore_aliases.len() as int) =~= ks);
    out
}

/// Where an `add` run stands.
#[derive(Clone, Copy, Debug, PartialEq, Eq, Structural)]
pub enum AddPhase {
    /// Waiting for the store listing that planning needs.
    ListForPlan,
    /// Waiting for the server's chain that planning needs.
    FetchForPlan,
    /// Waiting for the elevation decision.
    Prepare,
    /// Waiting for the listing taken before any change.
    ListBefore,
    /// Waiting for the listing that decides which old aliases go.
    ListCurrent,
    /// Deleting old aliases.
    Deleting,
    /// Waiting for the chain to import.
    FetchForImport,
    /// Importing the selected certificates.
    Importing,
    /// Waiting for the listing taken after the change.
    ListAfter,
    /// Over.
    Done,
}

/// What an `add` run reports back after an action.
#[derive(Debug)]
pub enum AddEvent {
    /// The store's entries.
    Listed(Vec<KeystoreEntry>),
    /// The server's chain.
    Fetched(Vec<FetchedCert>),
    /// How cacerts will be changed.
    Prepared(ElevationPlan),
    /// A delete or import went through.
    Applied,
}

/// What an `add` run asks for next.
#[derive(Debug)]
pub enum AddAction {
    /// List the trust store; answer `Listed`.
    ListStore,
    /// Fetch the server's chain; answer `Fetched`.
    FetchChain,
    /// Decide how cacerts is changed; answer `Prepared`.
    PrepareMutation,
    /// Delete a keystore alias; answer `Applied`.
    Delete { keystore_alias: String, elevation: ElevationPlan },
    /// Import a PEM certificate under a keystore alias; answer `Applied`.
    Import { keystore_alias: String, pem: String, elevation: ElevationPlan },
    /// The run is over with this plan.
    Report(AddPlan),
    /// The run failed.
    Fail(JcmError),
}

/// An `add` in progress.
pub struct AddRun {
    phase: AddPhase,
    opts: GlobalOpts,
    alias: String,
    url: String,
    target: ChainTarget,
    dry_run: bool,
    store: Vec<KeystoreEntry>,
    plan: Option<AddPlan>,
    elevation: ElevationPlan,
    before: Vec<KeystoreEntry>,
    deletes: Vec<String>,
    selected: Vec<SelectedCert>,
    next: usize,
}

/// An `add` in progress, in view form.
pub struct AddRunView {
    pub phase: AddPhase,
    pub opts: GlobalOpts,
    pub alias: Seq<char>,
    pub url: Seq<char>,
    pub target: ChainTarget,
    pub dry_run: bool,
    pub store: Seq<EntryView>,
    pub plan: Option<AddPlanView>,
    pub elevation: ElevationPlan,
    pub before: Seq<EntryView>,
    pub deletes: Seq<Seq<char>>,
    pub selected: Seq<SelectedView>,
    pub next: nat,
}

pub open spec fn plan_view(p: Option<AddPlan>) -> Option<AddPlanView> {
    match p {
        Some(q) => Some(q@),
        None => None,
    }
}

impl View for AddRun {
    type V = AddRunView;

    closed spec fn view(&self) -> AddRunView {
        AddRunView {
            phase: self.phase,
            opts: self.opts,
            alias: self.alias@,
            url: self.url@,
            target: self.target,
            dry_run: self.dry_run,
            store: entry_views(self.store@),
            plan: plan_view(self.plan),
            elevation: self.elevation,
            before: entry_views(self.before@),
            deletes: string_views(self.deletes@),
            selected: crate::cert::selected_views(self.selected@),
            next: self.next as nat,
        }
    }
}

/// The phases in which an `add` changes, or is about to change, the keystore.
pub open spec fn add_changing(phase: AddPhase) -> bool {
    phase != AddPhase::ListForPlan && phase != AddPhase::FetchForPlan && phase != AddPhase::Done
}

/// What holds of every `add` run: it only changes the keystore when it is
/// no dry run and its plan is no skip, and every alias it deletes or imports
/// carries the prefix.
pub open spec fn add_run_wf(v: AddRunView) -> bool {
    &&& v.phase != AddPhase::Done ==> valid_alias(v.alias)
    &&& add_changing(v.phase) ==> !v.dry_run && v.plan is Some && v.plan.unwrap().kind != MutationKind::Skip
    &&& v.phase == AddPhase::Deleting ==> v.next < v.deletes.len()
    &&& v.phase == AddPhase::Importing ==> v.next < v.selected.len()
    &&& forall|k: int| 0 <= k < v.deletes.len() ==> starts_with(#[trigger] v.deletes[k], v.opts.alias_prefix@)
    &&& forall|k: int| 0 <= k < v.selected.len() ==> starts_with(#[trigger] v.selected[k].alias, v.opts.alias_prefix@)
}

impl AddRun {
    #[verifier::type_invariant]
    spec fn wf(self) -> bool {
        add_run_wf(self@)
    }
}

/// The events that an `add` run accepts in `phase`.
pub open spec fn add_accepts(phase: AddPhase, e: AddEvent) -> bool {
    match e {
        AddEvent::Listed(_) => phase == AddPhase::ListForPlan || phase == AddPhase::ListBefore
            || phase == AddPhase::ListCurrent || phase == AddPhase::ListAfter,
        AddEvent::Fetched(_) => phase == AddPhase::FetchForPlan || phase == AddPhase::FetchForImport,
        AddEvent::Prepared(_) => phase == AddPhase::Prepare,
        AddEvent::Applied => phase == AddPhase::Deleting || phase == AddPhase::Importing,
    }
}

/// `a` deletes keystore alias `ka` with elevation `el`.
pub open spec fn delete_action(a: AddAction, ka: Seq<char>, el: ElevationPlan) -> bool {
    a matches AddAction::Delete { keystore_alias, elevation } && keystore_alias@ == ka && elevation == el
}

/// `a` imports the certificate of selection `s` with elevation `el`.
pub open spec fn import_action(a: AddAction, s: SelectedView, el: ElevationPlan) -> bool {
    a matches AddAction::Import { keystore_alias, pem, elevation } && keystore_alias@ == s.alias && pem@ == s.cert.pem && elevation == el
}

/// `w` keeps the request of `v`: options, alias, URL, target and dry run.
pub open spec fn same_add_request(v: AddRunView, w: AddRunView) -> bool {
    w.opts == v.opts && w.alias == v.alias && w.url == v.url && w.target == v.target && w.dry_run == v.dry_run
}

/// The next deletion, or the fetch of the chain to import once none is left.
pub open spec fn after_deletion(v: AddRunView, n: nat, w: AddRunView, a: AddAction) -> bool {
    if n < v.deletes.len() {
        w == AddRunView { phase: AddPhase::Deleting, next: n, ..v } && delete_action(a, v.deletes[n as int], v.elevation)
    } else {
        w == AddRunView { phase: AddPhase::FetchForImport, next: n, ..v } && a is FetchChain
    }
}

/// The next import, or the final listing once none is left.
pub open spec fn after_import(v: AddRunView, n: nat, w: AddRunView, a: AddAction) -> bool {
    if n < v.selected.len() {
        w == AddRunView { phase: AddPhase::Importing, next: n, ..v } && import_action(a, v.selected[n as int], v.elevation)
    } else {
        w == AddRunView { phase: AddPhase::ListAfter, next: n, ..v } && a is ListStore
    }
}

/// One step of an `add`: from run `v` and event `e` to run `w` and action `a`.
pub open spec fn add_step(v: AddRunView, e: AddEvent, w: AddRunView, a: AddAction) -> bool {
    let prefix = v.opts.alias_prefix@;
    match e {
        AddEvent::Listed(s) => {
            let es = entry_views(s@);
            if v.phase == AddPhase::ListForPlan {
                w == AddRunView { phase: AddPhase::FetchForPlan, store: es, ..v } && a is FetchChain
            } else if v.phase == AddPhase::ListBefore {
                w == AddRunView { phase: AddPhase::ListCurrent, before: es, ..v } && a is ListStore
            } else if v.phase == AddPhase::ListCurrent {
                &&& removal_targets(w.deletes, aliases(es), v.alias, prefix)
                &&& after_deletion(AddRunView { deletes: w.deletes, ..v }, 0, w, a)
            } else {
                &&& w.phase == AddPhase::Done
                &&& same_add_request(v, w)
                &&& if builtin_intact(v.before, es, prefix) {
                    a matches AddAction::Report(p) && Some(p@) == v.plan
                } else {
                    a matches AddAction::Fail(err) && builtin_report(err, v.before, es, prefix)
                }
            }
        },
        AddEvent::Fetched(c) => {
            let cv = cert_views(c@);
            if !add_plannable(cv, v.target) {
                w.phase == AddPhase::Done && same_add_request(v, w) && (a matches AddAction::Fail(err) && selection_failure(err, cv, v.target))
            } else if v.phase == AddPhase::FetchForPlan {
                let p = add_plan_view(v.store, cv, prefix, v.alias, v.url, v.target);
                if !v.dry_run && p.kind != MutationKind::Skip {
                    w == AddRunView { phase: AddPhase::Prepare, plan: Some(p), ..v } && a is PrepareMutation
                } else {
                    w.phase == AddPhase::Done && same_add_request(v, w) && (a matches AddAction::Report(q) && q@ == p)
                }
            } else {
                let sel = picked(cv, selection(cv, v.target, v.alias, prefix));
                after_import(AddRunView { selected: sel, ..v }, 0, w, a)
            }
        },
        AddEvent::Prepared(el) => w == AddRunView { phase: AddPhase::ListBefore, elevation: el, ..v } && a is ListStore,
        AddEvent::Applied => if v.phase == AddPhase::Deleting {
            after_deletion(v, v.next + 1, w, a)
        } else {
            after_import(v, v.next + 1, w, a)
        },
    }
}

impl AddRun {
    /// Starts an `add`: an invalid alias fails at once; otherwise the store is listed first.
    pub fn new(opts: &GlobalOpts, alias: &str, url: &str, target: ChainTarget, dry_run: bool) -> (r: (AddRun, AddAction))
        ensures
            valid_alias(alias@) ==> r.0@ == (AddRunView {
                phase: AddPhase::ListForPlan,
                opts: *opts,
                alias: alias@,
                url: url@,
                target,
                dry_run,
                store: seq![],
                plan: None,
                elevation: ElevationPlan::Direct,
                before: seq![],
                deletes: seq![],
                selected: seq![],
                next: 0,
            }) && r.1 is ListStore,
            !valid_alias(alias@) ==> r.0@.phase == AddPhase::Done && (r.1 matches AddAction::Fail(e)
                && (e matches JcmError::InvalidAlias { alias: a } && a@ == alias@)),
    {
        let checked = validate_alias(alias);
        let run = AddRun {
            phase: if checked.is_ok() { AddPhase::ListForPlan } else { AddPhase::Done },
            opts: opts.clone(),
            alias: alias.to_owned(),
            url: url.to_owned(),
            target,
            dry_run,
            store: Vec::new(),
            plan: None,
            elevation: ElevationPlan::Direct,
            before: Vec::new(),
            deletes: Vec::new(),
            selected: Vec::new(),
            next: 0,
        };
        proof {
            assert(entry_views(Seq::<KeystoreEntry>::empty()) =~= Seq::<EntryView>::empty());
            assert(string_views(Seq::<String>::empty()) =~= Seq::<Seq<char>>::empty());
            assert(crate::cert::selected_views(Seq::<SelectedCert>::empty()) =~= Seq::<SelectedView>::empty());
        }
        match checked {
            Ok(()) => (run, AddAction::ListStore),
            Err(e) => (run, AddAction::Fail(e)),
        }
    }

    /// Whether this run accepts `e` now.
    pub fn accepts(&self, e: &AddEvent) -> (b: bool)
        ensures
            b == add_accepts(self@.phase, *e),
    {
        match e {
            AddEvent::Listed(_) => self.phase == AddPhase::ListForPlan || self.phase == AddPhase::ListBefore
                || self.phase == AddPhase::ListCurrent || self.phase == AddPhase::ListAfter,
            AddEvent::Fetched(_) => self.phase == AddPhase::FetchForPlan || self.phase == AddPhase::FetchForImport,
            AddEvent::Prepared(_) => self.phase == AddPhase::Prepare,
            AddEvent::Applied => self.phase == AddPhase::Deleting || self.phase == AddPhase::Importing,
        }
    }
}

/// One step of an `add`: the run and what the last action produced give the
/// next run and the next action. A dry run, or a plan that skips, ends after
/// planning; otherwise old aliases are deleted, the selection is imported and
/// the built-in aliases are checked.
pub fn run_add(run: AddRun, event: AddEvent) -> (r: (AddRun, AddAction))
    requires
        add_accepts(run@.phase, event),
    ensures
        add_step(run@, event, r.0@, r.1),
        r.1 matches AddAction::Delete { keystore_alias, .. } ==> !run@.dry_run && starts_with(keystore_alias@, run@.opts.alias_prefix@),
        r.1 matches AddAction::Import { keystore_alias, .. } ==> !run@.dry_run && starts_with(keystore_alias@, run@.opts.alias_prefix@),
        r.1 is PrepareMutation ==> !run@.dry_run,
{
    proof {
        use_type_invariant(&run);
    }
    let ghost v = run@;
    assert(add_run_wf(v));
    let AddRun { phase, opts, alias, url, target, dry_run, store, plan, elevation, before, deletes, selected, next } = run;
    assert(v.phase == phase && v.next == next && v.deletes == string_views(deletes@) && v.alias == alias@
        && v.selected == crate::cert::selected_views(selected@) && v.dry_run == dry_run && v.opts == opts);
    match event {
        AddEvent::Listed(s) => {
            if phase == AddPhase::ListForPlan {
                let w = AddRun { phase: AddPhase::FetchForPlan, opts, alias, url, target, dry_run, store: s, plan, elevation, before, deletes, selected, next };
                (w, AddAction::FetchChain)
            } else if phase == AddPhase::ListBefore {
                let w = AddRun { phase: AddPhase::ListCurrent, opts, alias, url, target, dry_run, store, plan, elevation, before: s, deletes, selected, next };
                (w, AddAction::ListStore)
            } else if phase == AddPhase::ListCurrent {
                let ks = resolve_remove_aliases(&s, alias.as_str(), opts.alias_prefix.as_str());
                if 0 < ks.len() {
                    assert(starts_with(ks@[0]@, opts.alias_prefix@));
                    let first = ks[0].clone();
                    let w = AddRun { phase: AddPhase::Deleting, opts, alias, url, target, dry_run, store, plan, elevation, before, deletes: ks, selected, next: 0 };
                    (w, AddAction::Delete { keystore_alias: first, elevation })
                } else {
                    let w = AddRun { phase: AddPhase::FetchForImport, opts, alias, url, target, dry_run, store, plan, elevation, before, deletes: ks, selected, next: 0 };
                    (w, AddAction::FetchChain)
                }
            } else {
                let checked = verify_builtin_aliases_unchanged(&before, &s, opts.alias_prefix.as_str());
                let w = AddRun { phase: AddPhase::Done, opts, alias, url, target, dry_run, store, plan: None, elevation, before, deletes, selected, next };
                match checked {
                    Ok(()) => match plan {
                        Some(p) => (w, AddAction::Report(p)),
                        None => {
                            proof {
                                assert(false);
                            }
                            (w, AddAction::ListStore)
                        },
                    },
                    Err(e) => (w, AddAction::Fail(e)),
                }
            }
        },
        AddEvent::Fetched(c) => {
            if phase == AddPhase::FetchForPlan {
                match plan_add(&store, &c, &opts, alias.as_str(), url.as_str(), target) {
                    Err(e) => {
                        let w = AddRun { phase: AddPhase::Done, opts, alias, url, target, dry_run, store, plan: None, elevation, before, deletes, selected, next };
                        (w, AddAction::Fail(e))
                    },
                    Ok(p) => {
                        if add_needs_mutation(&p, dry_run) {
                            let w = AddRun { phase: AddPhase::Prepare, opts, alias, url, target, dry_run, store, plan: Some(p), elevation, before, deletes, selected, next };
                            (w, AddAction::PrepareMutation)
                        } else {
                            let w = AddRun { phase: AddPhase::Done, opts, alias, url, target, dry_run, store, plan: None, elevation, before, deletes, selected, next };
                            (w, AddAction::Report(p))
                        }
                    },
                }
            } else {
                match select_certs(&c, target, alias.as_str(), opts.alias_prefix.as_str()) {
                    Err(e) => {
                        let w = AddRun { phase: AddPhase::Done, opts, alias, url, target, dry_run, store, plan, elevation, before, deletes, selected, next };
                        (w, AddAction::Fail(e))
                    },
                    Ok(sel) => {
                        proof {
                            let cv = cert_views(c@);
                            crate::cert::law_selection_prefixed(cv, target, alias@, opts.alias_prefix@);
                            assert(forall|k: int| 0 <= k < sel.len() ==> #[trigger] crate::cert::selected_views(sel@)[k] == sel@[k]@);
                        }
                        if 0 < sel.len() {
                            assert(crate::cert::selected_views(sel@)[0] == sel@[0]@);
                            assert(starts_with(sel@[0].keystore_alias@, opts.alias_prefix@));
                            let ka = sel[0].keystore_alias.clone();
                            let pem = sel[0].cert.pem.clone();
                            let w = AddRun { phase: AddPhase::Importing, opts, alias, url, target, dry_run, store, plan, elevation, before, deletes, selected: sel, next: 0 };
                            (w, AddAction::Import { keystore_alias: ka, pem, elevation })
                        } else {
                            let w = AddRun { phase: AddPhase::ListAfter, opts, alias, url, target, dry_run, store, plan, elevation, before, deletes, selected: sel, next: 0 };
                            (w, AddAction::ListStore)
                        }
                    },
                }
            }
        },
        AddEvent::Prepared(el) => {
            let w = AddRun { phase: AddPhase::ListBefore, opts, alias, url, target, dry_run, store, plan, elevation: el, before, deletes, selected, next };
            (w, AddAction::ListStore)
        },
        AddEvent::Applied => {
            proof {
                assert(string_views(deletes@).len() == deletes@.len());
                assert(crate::cert::selected_views(selected@).len() == selected@.len());
                assert(phase == AddPhase::Deleting || phase == AddPhase::Importing);
                assert(phase == AddPhase::Deleting ==> v.next < v.deletes.len());
                assert(next < deletes.len() || next < selected.len());
            }
            let n = next + 1;
            if phase == AddPhase::Deleting {
                if n < deletes.len() {
                    assert(string_views(deletes@)[n as int] == deletes@[n as int]@);
                    let ka = deletes[n].clone();
                    let w = AddRun { phase: AddPhase::Deleting, opts, alias, url, target, dry_run, store, plan, elevation, before, deletes, selected, next: n };
                    (w, AddAction::Delete { keystore_alias: ka, elevation })
                } else {
                    let w = AddRun { phase: AddPhase::FetchForImport, opts, alias, url, target, dry_run, store, plan, elevation, before, deletes, selected, next: n };
                    (w, AddAction::FetchChain)
                }
            } else {
                if n < selected.len() {
                    assert(crate::cert::selected_views(selected@)[n as int] == selected@[n as int]@);
                    assert(starts_with(v.selected[n as int].alias, v.opts.alias_prefix@));
                    let ka = selected[n].keystore_alias.clone();
                    let pem = selected[n].cert.pem.clone();
                    let w = AddRun { phase: AddPhase::Importing, opts, alias, url, target, dry_run, store, plan, elevation, before, deletes, selected, next: n };
                    (w, AddAction::Import { keystore_alias: ka, pem, elevation })
                } else {
                    let w = AddRun { phase: AddPhase::ListAfter, opts, alias, url, target, dry_run, store, plan, elevation, before, deletes, selected, next: n };
                    (w, AddAction::ListStore)
                }
            }
        },
    }
}

/// Where a `remove` run stands.
#[derive(Clone, Copy, Debug, PartialEq, Eq, Structural)]
pub enum RemovePhase {
    /// Waiting for the store listing that planning needs.
    ListForPlan,
    /// Waiting for the elevation decision.
    Prepare,
    /// Waiting for the listing taken before any change.
    ListBefore,
    /// Deleting the planned aliases.
    Deleting,
    /// Waiting for the listing taken after the change.
    ListAfter,
    /// Over.
    Done,
}

/// What a `remove` run reports back after an action.
#[derive(Debug)]
pub enum RemoveEvent {
    /// The store's entries.
    Listed(Vec<KeystoreEntry>),
    /// How cacerts will be changed.
    Prepared(ElevationPlan),
    /// A delete went through.
    Applied,
}

/// What a `remove` run asks for next.
#[derive(Debug)]
pub enum RemoveAction {
    /// List the trust store; answer `Listed`.
    ListStore,
    /// Decide how cacerts is changed; answer `Prepared`.
    PrepareMutation,
    /// Delete a keystore alias; answer `Applied`.
    Delete { keystore_alias: String, elevation: ElevationPlan },
    /// The run is over with this plan.
    Report(RemovePlan),
    /// The run failed.
    Fail(JcmError),
}

/// A `remove` in progress.
pub struct RemoveRun {
    phase: RemovePhase,
    opts: GlobalOpts,
    alias: String,
    dry_run: bool,
    plan: Option<RemovePlan>,
    elevation: ElevationPlan,
    before: Vec<KeystoreEntry>,
    next: usize,
}

/// A `remove` in progress, in view form.
pub struct RemoveRunView {
    pub phase: RemovePhase,
    pub opts: GlobalOpts,
    pub alias: Seq<char>,
    pub dry_run: bool,
    pub plan: Option<RemovePlanView>,
    pub elevation: ElevationPlan,
    pub before: Seq<EntryView>,
    pub next: nat,
}

pub open spec fn remove_plan_view(p: Option<RemovePlan>) -> Option<RemovePlanView> {
    match p {
        Some(q) => Some(q@),
        None => None,
    }
}

impl View for RemoveRun {
    type V = RemoveRunView;

    closed spec fn view(&self) -> RemoveRunView {
        RemoveRunView {
            phase: self.phase,
            opts: self.opts,
            alias: self.alias@,
            dry_run: self.dry_run,
            plan: remove_plan_view(self.plan),
            elevation: self.elevation,
            before: entry_views(self.before@),
            next: self.next as nat,
        }
    }
}

/// The phases in which a `remove` changes, or is about to change, the keystore.
pub open spec fn remove_changing(phase: RemovePhase) -> bool {
    phase != RemovePhase::ListForPlan && phase != RemovePhase::Done
}

/// What holds of every `remove` run: it only changes the keystore when it
/// is no dry run, and every alias it deletes carries the prefix.
pub open spec fn remove_run_wf(v: RemoveRunView) -> bool {
    &&& v.phase != RemovePhase::Done ==> valid_alias(v.alias)
    &&& remove_changing(v.phase) ==> !v.dry_run && v.plan is Some
    &&& v.plan matches Some(p) ==> forall|k: int| 0 <= k < p.keystore_aliases.len()
        ==> starts_with(#[trigger] p.keystore_aliases[k], v.opts.alias_prefix@)
    &&& v.phase == RemovePhase::Deleting ==> v.next < v.plan.unwrap().keystore_aliases.len()
}

impl RemoveRun {
    #[verifier::type_invariant]
    spec fn wf(self) -> bool {
        remove_run_wf(self@)
    }
}

/// The events that a `remove` run accepts in `phase`.
pub open spec fn remove_accepts(phase: RemovePhase, e: RemoveEvent) -> bool {
    match e {
        RemoveEvent::Listed(_) => phase == RemovePhase::ListForPlan || phase == RemovePhase::ListBefore
            || phase == RemovePhase::ListAfter,
        RemoveEvent::Prepared(_) => phase == RemovePhase::Prepare,
        RemoveEvent::Applied => phase == RemovePhase::Deleting,
    }
}

/// `a` deletes keystore alias `ka` with elevation `el`.
pub open spec fn remove_delete_action(a: RemoveAction, ka: Seq<char>, el: ElevationPlan) -> bool {
    a matches RemoveAction::Delete { keystore_alias, elevation } && keystore_alias@ == ka && elevation == el
}

/// `w` keeps the request of `v`: options, alias and dry run.
pub open spec fn same_remove_request(v: RemoveRunView, w: RemoveRunView) -> bool {
    w.opts == v.opts && w.alias == v.alias && w.dry_run == v.dry_run
}

/// The next deletion, or the final listing once none is left.
pub open spec fn after_removal(v: RemoveRunView, n: nat, w: RemoveRunView, a: RemoveAction) -> bool {
    let ks = v.plan.unwrap().keystore_aliases;
    if n < ks.len() {
        w == RemoveRunView { phase: RemovePhase::Deleting, next: n, ..v } && remove_delete_action(a, ks[n as int], v.elevation)
    } else {
        w == RemoveRunView { phase: RemovePhase::ListAfter, next: n, ..v } && a is ListStore
    }
}

/// One step of a `remove`: from run `v` and event `e` to run `w` and action `a`.
pub open spec fn remove_step(v: RemoveRunView, e: RemoveEvent, w: RemoveRunView, a: RemoveAction) -> bool {
    let prefix = v.opts.alias_prefix@;
    match e {
        RemoveEvent::Listed(s) => {
            let es = entry_views(s@);
            let sa = aliases(es);
            if v.phase == RemovePhase::ListForPlan {
                if !removable(sa, v.alias, prefix) {
                    w.phase == RemovePhase::Done && same_remove_request(v, w) && (a matches RemoveAction::Fail(err)
                        && removal_missing(err, v.alias, prefix))
                } else if v.dry_run {
                    w.phase == RemovePhase::Done && same_remove_request(v, w) && (a matches RemoveAction::Report(p)
                        && p@.alias == v.alias && removal_targets(p@.keystore_aliases, sa, v.alias, prefix))
                } else {
                    &&& w.plan matches Some(p) && p.alias == v.alias && removal_targets(p.keystore_aliases, sa, v.alias, prefix)
                    &&& w == RemoveRunView { phase: RemovePhase::Prepare, plan: w.plan, ..v }
                    &&& a is PrepareMutation
                }
            } else if v.phase == RemovePhase::ListBefore {
                after_removal(RemoveRunView { before: es, ..v }, 0, w, a)
            } else {
                &&& w.phase == RemovePhase::Done
                &&& same_remove_request(v, w)
                &&& if builtin_intact(v.before, es, prefix) {
                    a matches RemoveAction::Report(p) && Some(p@) == v.plan
                } else {
                    a matches RemoveAction::Fail(err) && builtin_report(err, v.before, es, prefix)
                }
            }
        },
        RemoveEvent::Prepared(el) => w == RemoveRunView { phase: RemovePhase::ListBefore, elevation: el, ..v } && a is ListStore,
        RemoveEvent::Applied => after_removal(v, v.next + 1, w, a),
    }
}

impl RemoveRun {
    /// Starts a `remove`: an invalid alias fails at once; otherwise the store is listed first.
    pub fn new(opts: &GlobalOpts, alias: &str, dry_run: bool) -> (r: (RemoveRun, RemoveAction))
        ensures
            valid_alias(alias@) ==> r.0@ == (RemoveRunView {
                phase: RemovePhase::ListForPlan,
                opts: *opts,
                alias: alias@,
                dry_run,
                plan: None,
                elevation: ElevationPlan::Direct,
                before: seq![],
                next: 0,
            }) && r.1 is ListStore,
            !valid_alias(alias@) ==> r.0@.phase == RemovePhase::Done && (r.1 matches RemoveAction::Fail(e)
                && (e matches JcmError::InvalidAlias { alias: a } && a@ == alias@)),
    {
        let checked = validate_alias(alias);
        let run = RemoveRun {
            phase: if checked.is_ok() { RemovePhase::ListForPlan } else { RemovePhase::Done },
            opts: opts.clone(),
            alias: alias.to_owned(),
            dry_run,
            plan: None,
            elevation: ElevationPlan::Direct,
            before: Vec::new(),
            next: 0,
        };
        proof {
            assert(entry_views(Seq::<KeystoreEntry>::empty()) =~= Seq::<EntryView>::empty());
        }
        match checked {
            Ok(()) => (run, RemoveAction::ListStore),
            Err(e) => (run, RemoveAction::Fail(e)),
        }
    }

    /// Whether this run accepts `e` now.
    pub fn accepts(&self, e: &RemoveEvent) -> (b: bool)
        ensures
            b == remove_accepts(self@.phase, *e),
    {
        match e {
            RemoveEvent::Listed(_) => self.phase == RemovePhase::ListForPlan || self.phase == RemovePhase::ListBefore
                || self.phase == RemovePhase::ListAfter,
            RemoveEvent::Prepared(_) => self.phase == RemovePhase::Prepare,
            RemoveEvent::Applied => self.phase == RemovePhase::Deleting,
        }
    }
}

/// One step of a `remove`: the run and what the last action produced give
/// the next run and the next action. A dry run ends after planning;
/// otherwise the planned aliases are deleted and the built-in aliases are checked.
pub fn run_remove(run: RemoveRun, event: RemoveEvent) -> (r: (RemoveRun, RemoveAction))
    requires
        remove_accepts(run@.phase, event),
    ensures
        remove_step(run@, event, r.0@, r.1),
        r.1 matches RemoveAction::Delete { keystore_alias, .. } ==> !run@.dry_run && starts_with(keystore_alias@, run@.opts.alias_prefix@),
        r.1 is PrepareMutation ==> !run@.dry_run,
{
    proof {
        use_type_invariant(&run);
    }
    let ghost v = run@;
    assert(remove_run_wf(v));
    let RemoveRun { phase, opts, alias, dry_run, plan, elevation, before, next } = run;
    assert(v.phase == phase && v.next == next && v.alias == alias@ && v.dry_run == dry_run && v.opts == opts
        && v.plan == remove_plan_view(plan));
    match event {
        RemoveEvent::Listed(s) => {
            if phase == RemovePhase::ListForPlan {
                match plan_remove(&s, &opts, alias.as_str()) {
                    Err(e) => {
                        let w = RemoveRun { phase: RemovePhase::Done, opts, alias, dry_run, plan: None, elevation, before, next };
                        (w, RemoveAction::Fail(e))
                    },
                    Ok(p) => {
                        if dry_run {
                            let w = RemoveRun { phase: RemovePhase::Done, opts, alias, dry_run, plan: None, elevation, before, next };
                            (w, RemoveAction::Report(p))
                        } else {
                            let w = RemoveRun { phase: RemovePhase::Prepare, opts, alias, dry_run, plan: Some(p), elevation, before, next };
                            (w, RemoveAction::PrepareMutation)
                        }
                    },
                }
            } else if phase == RemovePhase::ListBefore {
                match plan {
                    Some(p) => {
                        proof {
                            assert(string_views(p.keystore_aliases@).len() == p.keystore_aliases@.len());
                        }
                        if 0 < p.keystore_aliases.len() {
                            assert(string_views(p.keystore_aliases@)[0] == p.keystore_aliases@[0]@);
                            let ka = p.keystore_aliases[0].clone();
                            let w = RemoveRun { phase: RemovePhase::Deleting, opts, alias, dry_run, plan: Some(p), elevation, before: s, next: 0 };
                            (w, RemoveAction::Delete { keystore_alias: ka, elevation })
                        } else {
                            let w = RemoveRun { phase: RemovePhase::ListAfter, opts, alias, dry_run, plan: Some(p), elevation, before: s, next: 0 };
                            (w, RemoveAction::ListStore)
                        }
                    },
                    None => {
                        proof {
                            assert(false);
                        }
                        let w = RemoveRun { phase: RemovePhase::Done, opts, alias, dry_run, plan: None, elevation, before, next };
                        (w, RemoveAction::ListStore)
                    },
                }
            } else {
                let checked = verify_builtin_aliases_unchanged(&before, &s, opts.alias_prefix.as_str());
                let w = RemoveRun { phase: RemovePhase::Done, opts, alias, dry_run, plan: None, elevation, before, next };
                match checked {
                    Ok(()) => match plan {
                        Some(p) => (w, RemoveAction::Report(p)),
                        None => {
                            proof {
                                assert(false);
                            }
                            (w, RemoveAction::ListStore)
                        },
                    },
                    Err(e) => (w, RemoveAction::Fail(e)),
                }
            }
        },
        RemoveEvent::Prepared(el) => {
            let w = RemoveRun { phase: RemovePhase::ListBefore, opts, alias, dry_run, plan, elevation: el, before, next };
            (w, RemoveAction::ListStore)
        },
        RemoveEvent::Applied => {
            match plan {
                Some(p) => {
                    proof {
                        assert(string_views(p.keystore_aliases@).len() == p.keystore_aliases@.len());
                        assert(v.plan == Some(p@));
                        assert(next < p.keystore_aliases.len());
                    }
                    let n = next + 1;
                    if n < p.keystore_aliases.len() {
                        assert(string_views(p.keystore_aliases@)[n as int] == p.keystore_aliases@[n as int]@);
                        let ka = p.keystore_aliases[n].clone();
                        let w = RemoveRun { phase: RemovePhase::Deleting, opts, alias, dry_run, plan: Some(p), elevation, before, next: n };
                        (w, RemoveAction::Delete { keystore_alias: ka, elevation })
                    } else {
                        let w = RemoveRun { phase: RemovePhase::ListAfter, opts, alias, dry_run, plan: Some(p), elevation, before, next: n };
                        (w, RemoveAction::ListStore)
                    }
                },
                None => {
                    proof {
                        assert(false);
                    }
                    let w = RemoveRun { phase: RemovePhase::Done, opts, alias, dry_run, plan: None, elevation, before, next };
                    (w, RemoveAction::ListStore)
                },
            }
        },
    }
}

/// A dry run of `add` never changes the keystore: no step of it asks for
/// elevation, a delete or an import.
pub proof fn law_add_dry_run_changes_nothing(v: AddRunView, e: AddEvent, w: AddRunView, a: AddAction)
    requires
        add_run_wf(v),
        add_accepts(v.phase, e),
        add_step(v, e, w, a),
        v.dry_run,
    ensures
        !(a is PrepareMutation || a is Delete || a is Import),
{
}

/// A dry run of `remove` never changes the keystore: no step of it asks for
/// elevation or a delete.
pub proof fn law_remove_dry_run_changes_nothing(v: RemoveRunView, e: RemoveEvent, w: RemoveRunView, a: RemoveAction)
    requires
        remove_run_wf(v),
        remove_accepts(v.phase, e),
        remove_step(v, e, w, a),
        v.dry_run,
    ensures
        !(a is PrepareMutation || a is Delete),
{
}

/// An `add` whose plan skips ends with its report and changes nothing.
pub proof fn law_add_skip_changes_nothing(v: AddRunView, c: Vec<FetchedCert>, w: AddRunView, a: AddAction)
    requires
        v.phase == AddPhase::FetchForPlan,
        add_plannable(cert_views(c@), v.target),
        add_plan_view(v.store, cert_views(c@), v.opts.alias_prefix@, v.alias, v.url, v.target).kind == MutationKind::Skip,
        add_step(v, AddEvent::Fetched(c), w, a),
    ensures
        w.phase == AddPhase::Done,
        a matches AddAction::Report(p) && p@.kind == MutationKind::Skip,
{
}

proof fn lemma_decimal_shape(n: nat)
    ensures
        decimal(n).len() > 0,
        all_digits(decimal(n)),
        n >= 1 ==> decimal(n)[0] != '0',
    decreases n,
{
    if n >= 10 {
        lemma_decimal_shape(n / 10);
        let d = decimal(n);
        assert(d == decimal(n / 10) + seq![(('0' as nat) + n % 10) as char]);
        assert(d[0] == decimal(n / 10)[0]);
        assert forall|i: int| 0 <= i < d.len() implies is_digit(#[trigger] d[i]) by {
            if i < decimal(n / 10).len() {
                assert(d[i] == decimal(n / 10)[i]);
            }
        }
    }
}

proof fn lemma_digits_value_positive(s: Seq<char>)
    requires
        s.len() > 0,
        all_digits(s),
        s[0] != '0',
    ensures
        digits_value(s) >= 1,
    decreases s.len(),
{
    if s.len() > 1 {
        let t = s.drop_last();
        assert(t[0] == s[0]);
        assert(all_digits(t)) by {
            assert forall|i: int| 0 <= i < t.len() implies is_digit(#[trigger] t[i]) by {
                assert(t[i] == s[i]);
            }
        }
        lemma_digits_value_positive(t);
        assert(is_digit(s[s.len() - 1]));
    }
}

proof fn lemma_index_text_decimal(s: Seq<char>)
    requires
        index_text(s),
    ensures
        decimal(digits_value(s)) == s,
    decreases s.len(),
{
    let v = digits_value(s);
    assert(is_digit(s[s.len() - 1]));
    if s.len() == 1 {
        assert(s.drop_last() =~= Seq::<char>::empty());
        assert(v == (s[0] as nat) - ('0' as nat));
        assert(decimal(v) =~= s);
    } else {
        let t = s.drop_last();
        assert(t[0] == s[0]);
        assert(all_digits(t)) by {
            assert forall|i: int| 0 <= i < t.len() implies is_digit(#[trigger] t[i]) by {
                assert(t[i] == s[i]);
            }
        }
        lemma_digits_value_positive(t);
        lemma_index_text_decimal(t);
        let d = ((s.last() as nat) - ('0' as nat)) as nat;
        let w = digits_value(t);
        assert(v == w * 10 + d);
        assert(d < 10);
        assert(v / 10 == w && v % 10 == d) by (nonlinear_arith)
            requires
                v == w * 10 + d,
                d < 10,
        ;
        assert(v >= 10);
        assert(decimal(v) == decimal(v / 10) + seq![(('0' as nat) + v % 10) as char]);
        assert(decimal(v) =~= s);
    }
}

/// The chain-position texts of the naming convention are exactly the
/// decimal numerals: `decimal(n)` is one, and each one is `decimal` of its value.
pub proof fn law_index_text_is_decimal(n: nat, s: Seq<char>)
    ensures
        index_text(decimal(n)),
        index_text(s) ==> s == decimal(digits_value(s)),
{
    lemma_decimal_shape(n);
    if index_text(s) {
        lemma_index_text_decimal(s);
    }
}

/// The order of the phases of an `add`.
pub open spec fn add_rank(p: AddPhase) -> nat {
    match p {
        AddPhase::ListForPlan => 0,
        AddPhase::FetchForPlan => 1,
        AddPhase::Prepare => 2,
        AddPhase::ListBefore => 3,
        AddPhase::ListCurrent => 4,
        AddPhase::Deleting => 5,
        AddPhase::FetchForImport => 6,
        AddPhase::Importing => 7,
        AddPhase::ListAfter => 8,
        AddPhase::Done => 9,
    }
}

/// An `add` only moves forward through its phases, a delete leaves it
/// deleting and an import leaves it importing: every deletion comes before
/// the first import.
pub proof fn law_add_deletes_before_imports(v: AddRunView, e: AddEvent, w: AddRunView, a: AddAction)
    requires
        add_accepts(v.phase, e),
        add_step(v, e, w, a),
    ensures
        add_rank(v.phase) <= add_rank(w.phase),
        a is Delete ==> w.phase == AddPhase::Deleting,
        a is Import ==> w.phase == AddPhase::Importing,
{
}

/// A `remove` deletes exactly the planned aliases, in the plan's order: the
/// first delete takes the plan's first alias, each later one the next, and
/// the deleting ends after the plan's last alias.
pub proof fn law_remove_deletes_the_plan_in_order(v: RemoveRunView, e: RemoveEvent, w: RemoveRunView, a: RemoveAction)
    requires
        remove_run_wf(v),
        remove_accepts(v.phase, e),
        remove_step(v, e, w, a),
    ensures
        a is Delete ==> w.phase == RemovePhase::Deleting && w.plan == v.plan
            && w.next == (if v.phase == RemovePhase::Deleting { v.next + 1 } else { 0 })
            && remove_delete_action(a, v.plan.unwrap().keystore_aliases[w.next as int], v.elevation),
        v.phase == RemovePhase::Deleting && w.phase != RemovePhase::Deleting
            ==> v.next + 1 == v.plan.unwrap().keystore_aliases.len(),
        v.phase == RemovePhase::ListBefore && w.phase != RemovePhase::Deleting
            ==> v.plan.unwrap().keystore_aliases.len() == 0,
{
}

/// How an `add` is classed: a skip exactly when the store holds every
/// planned alias; otherwise an add exactly when the store holds neither the
/// primary alias nor any `<prefix><alias>-<n>` / `<prefix><alias>-int-<n>`
/// alias, and an update when it holds one of them (the primary alias
/// included).
pub proof fn law_add_kind(store: Seq<Seq<char>>, planned: Seq<(Seq<char>, Seq<char>, Seq<char>)>, alias: Seq<char>, prefix: Seq<char>)
    ensures
        add_kind(store, planned, alias, prefix) == MutationKind::Skip
            <==> forall|k: int| 0 <= k < planned.len() ==> store.contains(#[trigger] planned[k].0),
        add_kind(store, planned, alias, prefix) != MutationKind::Skip && store.contains(keystore_alias(alias, prefix))
            ==> add_kind(store, planned, alias, prefix) == MutationKind::Update,
        add_kind(store, planned, alias, prefix) == MutationKind::Add <==> (
            !(forall|k: int| 0 <= k < planned.len() ==> store.contains(#[trigger] planned[k].0))
            && !store.contains(keystore_alias(alias, prefix))
            && forall|m: int| 0 <= m < store.len() ==> !variant_of(#[trigger] store[m], prefix + alias + "-"@)),
{
    let pred = |a: Seq<char>| variant_of(a, prefix + alias + "-"@);
    let ov = owned_variants(store, alias, prefix);
    if ov.len() > 0 {
        store.lemma_filter_pred(pred, 0);
        store.lemma_filter_contains_rev(pred, ov[0]);
        assert(ov.contains(ov[0]));
        let m = choose|m: int| 0 <= m < store.len() && store[m] == ov[0];
        assert(variant_of(store[m], prefix + alias + "-"@));
    }
    if exists|m: int| 0 <= m < store.len() && variant_of(#[trigger] store[m], prefix + alias + "-"@) {
        let m = choose|m: int| 0 <= m < store.len() && variant_of(#[trigger] store[m], prefix + alias + "-"@);
        store.lemma_filter_contains(pred, m);
        assert(ov.contains(store[m]));
    }
}

} // verus!
