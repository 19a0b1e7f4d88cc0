//! Certificates of a fetched TLS chain: what is read from each, which of
//! them a chain target selects, and the chain drawn as a tree.
use vstd::prelude::*;
use crate::cli::{ChainTarget, target_index};
use crate::error::JcmError;
use crate::text::{
    chars_of, decimal, decimal_chars, eq_chars, indent, indent_chars, push_chars, split_chars,
    split_on, starts_with, starts_with_chars, string_of, trim, trim_chars, views,
};

verus! {

/// A certificate of a server's chain, at position `index` (0 is the leaf).
#[derive(Debug)]
pub struct FetchedCert {
    pub der: Vec<u8>,
    pub pem: String,
    pub fingerprint_sha256: String,
    pub subject: String,
    pub issuer: String,
    pub not_before: String,
    pub not_after: String,
    pub is_self_signed: bool,
    pub index: usize,
}

/// What a `FetchedCert` holds.
pub struct CertView {
    pub der: Seq<u8>,
    pub pem: Seq<char>,
    pub fingerprint: Seq<char>,
    pub subject: Seq<char>,
    pub issuer: Seq<char>,
    pub not_before: Seq<char>,
    pub not_after: Seq<char>,
    pub self_signed: bool,
    pub index: nat,
}

impl View for FetchedCert {
    type V = CertView;

    open spec fn view(&self) -> CertView {
        CertView {
            der: self.der@,
            pem: self.pem@,
            fingerprint: self.fingerprint_sha256@,
            subject: self.subject@,
            issuer: self.issuer@,
            not_before: self.not_before@,
            not_after: self.not_after@,
            self_signed: self.is_self_signed,
            index: self.index as nat,
        }
    }
}

impl Clone for FetchedCert {
    fn clone(&self) -> (r: Self)
        ensures
            r@ == self@,
    {
        let mut der: Vec<u8> = Vec::new();
        let mut i: usize = 0;
        while i < self.der.len()
            invariant
                i <= self.der.len(),
                der@ == self.der@.take(i as int),
            decreases self.der.len() - i,
        {
            der.push(self.der[i]);
            i = i + 1;
            assert(der@ =~= self.der@.take(i as int));
        }
        assert(self.der@.take(self.der.len() as int) =~= self.der@);
        FetchedCert {
            der,
            pem: self.pem.clone(),
            fingerprint_sha256: self.fingerprint_sha256.clone(),
            subject: self.subject.clone(),
            issuer: self.issuer.clone(),
            not_before: self.not_before.clone(),
            not_after: self.not_after.clone(),
            is_self_signed: self.is_self_signed,
            index: self.index,
        }
    }
}

/// A certificate chosen for import, with the keystore alias it goes under.
#[derive(Debug)]
pub struct SelectedCert {
    pub keystore_alias: String,
    pub cert: FetchedCert,
    pub pem_path: Option<String>,
}

/// What a `SelectedCert` holds.
pub struct SelectedView {
    pub alias: Seq<char>,
    pub cert: CertView,
    pub pem_path: Option<Seq<char>>,
}

impl View for SelectedCert {
    type V = SelectedView;

    open spec fn view(&self) -> SelectedView {
        SelectedView {
            alias: self.keystore_alias@,
            cert: self.cert@,
            pem_path: match self.pem_path {
                Some(p) => Some(p@),
                None => None,
            },
        }
    }
}

pub open spec fn cert_views(s: Seq<FetchedCert>) -> Seq<CertView> {
    s.map_values(|c: FetchedCert| c@)
}

pub open spec fn selected_views(s: Seq<SelectedCert>) -> Seq<SelectedView> {
    s.map_values(|c: SelectedCert| c@)
}

/// The SHA-256 digest of `data`.
pub uninterp spec fn sha256(data: Seq<u8>) -> Seq<u8>;

/// Calls `sha2::Sha256::digest`: the 32-byte digest, named `sha256` of the input.
#[verifier::external_body]
fn sha256_digest(data: &[u8]) -> (r: Vec<u8>)
    ensures
        r@ == sha256(data@),
        r@.len() == 32,
{
    <sha2::Sha256 as sha2::Digest>::digest(data).to_vec()
}

/// An upper-case hexadecimal digit.
pub open spec fn hex_digit(n: nat) -> char {
    if n < 10 {
        (('0' as nat) + n) as char
    } else {
        (('A' as nat) + n - 10) as char
    }
}

/// A byte as two upper-case hexadecimal digits (`{:02X}`).
pub open spec fn byte_hex(b: u8) -> Seq<char> {
    seq![hex_digit((b / 16) as nat), hex_digit((b % 16) as nat)]
}

/// Bytes as upper-case hexadecimal pairs joined with `:`.
pub open spec fn colon_hex(bytes: Seq<u8>) -> Seq<char>
    decreases bytes.len(),
{
    if bytes.len() == 0 {
        seq![]
    } else if bytes.len() == 1 {
        byte_hex(bytes[0])
    } else {
        colon_hex(bytes.drop_last()) + seq![':'] + byte_hex(bytes.last())
    }
}

fn hex_digit_exec(n: u8) -> (c: char)
    requires
        n < 16,
    ensures
        c == hex_digit(n as nat),
{
    if n < 10 {
        (n + 48) as char
    } else {
        (n + 55) as char
    }
}

/// The SHA-256 fingerprint of `der` as colon-separated upper-case hex.
pub fn fingerprint_hex(der: &[u8]) -> (r: String)
    ensures
        r@ == colon_hex(sha256(der@)),
        sha256(der@).len() == 32,
        r@.len() == 95,
{
    let digest = sha256_digest(der);
    let mut out: Vec<char> = Vec::new();
    let mut i: usize = 0;
    while i < digest.len()
        invariant
            i <= digest.len(),
            out@ == colon_hex(digest@.take(i as int)),
        decreases digest.len() - i,
    {
        let b = digest[i];
        assert(digest@.take(i + 1).drop_last() =~= digest@.take(i as int));
        assert(digest@.take(i + 1).last() == b);
        if i > 0 {
            out.push(':');
        }
        out.push(hex_digit_exec(b / 16));
        out.push(hex_digit_exec(b % 16));
        i = i + 1;
        assert(i == 1 ==> digest@.take(1) =~= seq![b]);
        assert(out@ =~= colon_hex(digest@.take(i as int)));
    }
    assert(digest@.take(digest.len() as int) =~= digest@);
    proof {
        law_colon_hex_length(digest@);
    }
    string_of(&out)
}

/// Colon-separated hex of `n` bytes takes `3n - 1` characters.
pub proof fn law_colon_hex_length(bytes: Seq<u8>)
    requires
        bytes.len() > 0,
    ensures
        colon_hex(bytes).len() == 3 * bytes.len() - 1,
    decreases bytes.len(),
{
    if bytes.len() > 1 {
        law_colon_hex_length(bytes.drop_last());
    }
}

/// Every fingerprint is 32 hex pairs: 95 characters.
pub proof fn law_fingerprint_length(der: Seq<u8>, fp: Seq<char>)
    requires
        sha256(der).len() == 32,
        fp == colon_hex(sha256(der)),
    ensures
        fp.len() == 95,
{
    law_colon_hex_length(sha256(der));
}

/// What x509-parser reads from DER bytes, if they parse as a certificate:
/// subject, issuer, not-before and not-after, each as its `Display` text.
pub uninterp spec fn x509_fields(der: Seq<u8>) -> Option<(Seq<char>, Seq<char>, Seq<char>, Seq<char>)>;

/// Calls `X509Certificate::from_der` and reads the subject, issuer and
/// validity times off the certificate as text; the outcome is named `x509_fields`.
#[verifier::external_body]
fn x509_summary(der: &[u8]) -> (r: Option<(String, String, String, String)>)
    ensures
        match r {
            Some((s, i, b, a)) => x509_fields(der@) == Some((s@, i@, b@, a@)),
            None => x509_fields(der@) is None,
        },
{
    let (_, cert) = <x509_parser::certificate::X509Certificate as x509_parser::prelude::FromDer<
        x509_parser::error::X509Error,
    >>::from_der(der).ok()?;
    Some(
        (
            cert.subject().to_string(),
            cert.issuer().to_string(),
            cert.validity().not_before.to_string(),
            cert.validity().not_after.to_string(),
        ),
    )
}

/// The PEM text (`CERTIFICATE` block) that the pem crate writes for `der`.
pub uninterp spec fn pem_certificate(der: Seq<u8>) -> Seq<char>;

/// Calls `pem::encode` on a `CERTIFICATE` block holding `der`; the text is named `pem_certificate`.
#[verifier::external_body]
fn pem_encode_certificate(der: &[u8]) -> (r: String)
    ensures
        r@ == pem_certificate(der@),
{
    pem::encode(&pem::Pem::new("CERTIFICATE", der.to_vec()))
}

/// Selecting the root falls back to the last certificate because the chain
/// holds no self-signed one (a case worth a warning).
pub open spec fn root_fallback(cs: Seq<CertView>, target: ChainTarget) -> bool {
    target == ChainTarget::Root && cs.len() > 0 && last_self_signed(cs) < 0
}

/// Whether selecting `target` from `chain` takes the last certificate as
/// root for want of a self-signed one.
pub fn uses_root_fallback(chain: &[FetchedCert], target: ChainTarget) -> (b: bool)
    ensures
        b == root_fallback(cert_views(chain@), target),
{
    let ghost cs = cert_views(chain@);
    proof {
        lemma_last_self_signed(cs);
    }
    if target != ChainTarget::Root || chain.len() == 0 {
        return false;
    }
    let mut i: usize = 0;
    while i < chain.len()
        invariant
            i <= chain.len(),
            cs == cert_views(chain@),
            forall|k: int| 0 <= k < i ==> !(#[trigger] cs[k]).self_signed,
        decreases chain.len() - i,
    {
        assert(cs[i as int] == chain@[i as int]@);
        if chain[i].is_self_signed {
            proof {
                lemma_last_self_signed(cs);
            }
            assert(cs[i as int].self_signed);
            return false;
        }
        i = i + 1;
    }
    true
}

/// Reads one DER certificate of a chain.
pub fn parse_der_cert(der: &[u8], index: usize) -> (r: Result<FetchedCert, JcmError>)
    ensures
        match x509_fields(der@) {
            None => r matches Err(JcmError::X509Parse),
            Some((subject, issuer, not_before, not_after)) => r matches Ok(c) && c@ == (CertView {
                der: der@,
                pem: pem_certificate(der@),
                fingerprint: colon_hex(sha256(der@)),
                subject,
                issuer,
                not_before,
                not_after,
                self_signed: subject == issuer,
                index: index as nat,
            }),
        },
{
    match x509_summary(der) {
        Some((subject, issuer, not_before, not_after)) => {
            let fingerprint = fingerprint_hex(der);
            let pem = pem_encode_certificate(der);
            Ok(cert_from_fields(der, index, subject, issuer, not_before, not_after, fingerprint, pem))
        },
        None => Err(JcmError::X509Parse),
    }
}

/// A certificate from its DER bytes, its position in the chain, the fields
/// read from it, its fingerprint and its PEM text: it is self-signed when its
/// subject and issuer are equal.
pub fn cert_from_fields(
    der: &[u8],
    index: usize,
    subject: String,
    issuer: String,
    not_before: String,
    not_after: String,
    fingerprint: String,
    pem: String,
) -> (r: FetchedCert)
    ensures
        r@ == (CertView {
            der: der@,
            pem: pem@,
            fingerprint: fingerprint@,
            subject: subject@,
            issuer: issuer@,
            not_before: not_before@,
            not_after: not_after@,
            self_signed: subject@ == issuer@,
            index: index as nat,
        }),
{
    let is_self_signed = eq_chars(&chars_of(subject.as_str()), &chars_of(issuer.as_str()));
    let mut bytes: Vec<u8> = Vec::new();
    let mut i: usize = 0;
    while i < der.len()
        invariant
            i <= der.len(),
            bytes@ == der@.take(i as int),
        decreases der.len() - i,
    {
        bytes.push(der[i]);
        i = i + 1;
        assert(bytes@ =~= der@.take(i as int));
    }
    assert(der@.take(der.len() as int) =~= der@);
    FetchedCert {
        der: bytes,
        pem,
        fingerprint_sha256: fingerprint,
        subject,
        issuer,
        not_before,
        not_after,
        is_self_signed,
        index,
    }
}

/// The certificate that `der` holds at position `index`, if it parses.
pub open spec fn parsed_cert(der: Seq<u8>, index: nat) -> Option<CertView> {
    match x509_fields(der) {
        None => None,
        Some((subject, issuer, not_before, not_after)) => Some(CertView {
            der,
            pem: pem_certificate(der),
            fingerprint: colon_hex(sha256(der)),
            subject,
            issuer,
            not_before,
            not_after,
            self_signed: subject == issuer,
            index,
        }),
    }
}

/// Reads a chain of DER certificates, leaf first: it fails at the first one
/// that does not parse; otherwise each certificate carries its position.
pub fn parse_chain(ders: &[Vec<u8>]) -> (r: Result<Vec<FetchedCert>, JcmError>)
    ensures
        (exists|k: int| 0 <= k < ders.len() && #[trigger] parsed_cert(ders@[k]@, k as nat) is None) ==> r matches Err(JcmError::X509Parse),
        (forall|k: int| 0 <= k < ders.len() ==> #[trigger] parsed_cert(ders@[k]@, k as nat) is Some) ==> (r matches Ok(v)
            && v.len() == ders.len()
            && forall|k: int| 0 <= k < ders.len() ==> Some(#[trigger] v@[k]@) == parsed_cert(ders@[k]@, k as nat)),
{
    let mut out: Vec<FetchedCert> = Vec::new();
    let mut i: usize = 0;
    while i < ders.len()
        invariant
            i <= ders.len(),
            out.len() == i,
            forall|k: int| 0 <= k < i ==> #[trigger] parsed_cert(ders@[k]@, k as nat) is Some,
            forall|k: int| 0 <= k < i ==> Some(#[trigger] out@[k]@) == parsed_cert(ders@[k]@, k as nat),
        decreases ders.len() - i,
    {
        match parse_der_cert(ders[i].as_slice(), i) {
            Ok(c) => {
                assert(Some(c@) == parsed_cert(ders@[i as int]@, i as nat));
                out.push(c);
                assert(out@[i as int] == c);
            },
            Err(e) => {
                let ghost k = i as int;
                assert(parsed_cert(ders@[k]@, k as nat) is None);
                assert(!(forall|j: int| 0 <= j < ders.len() ==> #[trigger] parsed_cert(ders@[j]@, j as nat) is Some));
                return Err(e);
            },
        }
        i = i + 1;
    }
    Ok(out)
}

/// The position of the last self-signed certificate, or -1.
pub open spec fn last_self_signed(cs: Seq<CertView>) -> int
    decreases cs.len(),
{
    if cs.len() == 0 {
        -1
    } else if cs.last().self_signed {
        cs.len() - 1
    } else {
        last_self_signed(cs.drop_last())
    }
}

/// The chain's root: the last self-signed certificate, else the last one.
pub open spec fn root_index(cs: Seq<CertView>) -> int {
    if last_self_signed(cs) >= 0 {
        last_self_signed(cs)
    } else {
        cs.len() - 1
    }
}

proof fn lemma_last_self_signed(cs: Seq<CertView>)
    ensures
        -1 <= last_self_signed(cs) < cs.len(),
        last_self_signed(cs) >= 0 ==> cs[last_self_signed(cs)].self_signed,
        forall|k: int| last_self_signed(cs) < k < cs.len() ==> !(#[trigger] cs[k]).self_signed,
    decreases cs.len(),
{
    if cs.len() > 0 && !cs.last().self_signed {
        lemma_last_self_signed(cs.drop_last());
        assert forall|k: int| last_self_signed(cs) < k < cs.len() implies !(#[trigger] cs[k]).self_signed by {
            if k < cs.len() - 1 {
                assert(cs.drop_last()[k] == cs[k]);
            }
        }
    }
}

/// `root_index` of a non-empty chain.
fn root_position(chain: &[FetchedCert]) -> (r: usize)
    requires
        chain.len() > 0,
    ensures
        r == root_index(cert_views(chain@)),
{
    let ghost cs = cert_views(chain@);
    let mut i: usize = chain.len();
    assert(cs.take(chain.len() as int) =~= cs);
    while i > 0
        invariant
            i <= chain.len(),
            cs == cert_views(chain@),
            chain.len() > 0,
            last_self_signed(cs) == last_self_signed(cs.take(i as int)),
        decreases i,
    {
        assert(cs.take(i as int).drop_last() =~= cs.take(i - 1));
        assert(cs.take(i as int).last() == chain@[i - 1]@);
        if chain[i - 1].is_self_signed {
            return i - 1;
        }
        i = i - 1;
    }
    assert(cs.take(0) =~= Seq::<CertView>::empty());
    chain.len() - 1
}

/// The keystore aliases and chain positions that `target` selects.
pub open spec fn selection(cs: Seq<CertView>, target: ChainTarget, alias: Seq<char>, prefix: Seq<char>) -> Seq<(Seq<char>, int)> {
    let base = prefix + alias;
    let root = root_index(cs);
    match target {
        ChainTarget::Root => seq![(base, root)],
        ChainTarget::Leaf => seq![(base, 0int)],
        ChainTarget::Intermediate => Seq::new(
            if root > 1 { (root - 1) as nat } else { 0 },
            |k: int| (base + "-int-"@ + decimal(k as nat), k + 1),
        ),
        ChainTarget::Full => Seq::new(cs.len(), |i: int| (base + "-"@ + decimal(i as nat), i)),
        _ => {
            let n = target_index(target).unwrap() as int;
            seq![(if n == 0 { base } else { base + "-"@ + decimal(n as nat) }, n)]
        },
    }
}

/// The selected certificates for picks of (alias, position).
pub open spec fn picked(cs: Seq<CertView>, picks: Seq<(Seq<char>, int)>) -> Seq<SelectedView> {
    picks.map_values(|p: (Seq<char>, int)| SelectedView { alias: p.0, cert: cs[p.1], pem_path: None })
}

/// `target` selects a single position that the chain does not have.
pub open spec fn index_unavailable(target: ChainTarget, len: nat) -> bool {
    match target_index(target) {
        Some(n) => n >= len,
        None => false,
    }
}

/// `prefix + alias`, then `suffix`.
fn alias_with(prefix: &str, alias: &str, suffix: &[char]) -> (r: String)
    ensures
        r@ == prefix@ + alias@ + suffix@,
{
    let mut v = chars_of(prefix);
    push_chars(&mut v, &chars_of(alias));
    push_chars(&mut v, suffix);
    string_of(&v)
}

fn select_one(chain: &[FetchedCert], i: usize, keystore_alias: String) -> (r: SelectedCert)
    requires
        i < chain.len(),
    ensures
        r@ == (SelectedView { alias: keystore_alias@, cert: chain@[i as int]@, pem_path: None }),
{
    SelectedCert { keystore_alias, cert: chain[i].clone(), pem_path: None }
}

/// Which certificates of `chain` to import for `target`, and under which aliases.
pub fn select_certs(chain: &[FetchedCert], target: ChainTarget, alias: &str, prefix: &str) -> (r: Result<Vec<SelectedCert>, JcmError>)
    ensures
        chain.len() == 0 ==> r matches Err(JcmError::EmptyChain),
        chain.len() > 0 && index_unavailable(target, chain.len() as nat) ==> (r matches Err(
            JcmError::ChainIndexUnavailable { index },
        ) && target_index(target) == Some(index as nat)),
        chain.len() > 0 && !index_unavailable(target, chain.len() as nat) ==> (r matches Ok(v)
            && selected_views(v@) == picked(
            cert_views(chain@),
            selection(cert_views(chain@), target, alias@, prefix@),
        )),
{
    if chain.len() == 0 {
        return Err(JcmError::EmptyChain);
    }
    let ghost cs = cert_views(chain@);
    let root = root_position(chain);
    proof {
        lemma_last_self_signed(cs);
    }
    let ghost picks = selection(cs, target, alias@, prefix@);
    let mut out: Vec<SelectedCert> = Vec::new();
    let empty: Vec<char> = Vec::new();
    match target {
        ChainTarget::Root => {
            out.push(select_one(chain, root, alias_with(prefix, alias, &empty)));
            assert(cs[root as int] == chain@[root as int]@);
            assert(empty@ =~= Seq::<char>::empty());
            assert(prefix@ + alias@ + empty@ =~= prefix@ + alias@);
            assert(selected_views(out@)[0] == out@[0]@);
            assert(selected_views(out@) =~= picked(cs, picks));
        },
        ChainTarget::Leaf => {
            out.push(select_one(chain, 0, alias_with(prefix, alias, &empty)));
            assert(cs[0] == chain@[0]@);
            assert(empty@ =~= Seq::<char>::empty());
            assert(prefix@ + alias@ + empty@ =~= prefix@ + alias@);
            assert(selected_views(out@)[0] == out@[0]@);
            assert(selected_views(out@) =~= picked(cs, picks));
        },
        ChainTarget::Intermediate => {
            assert(picks.len() == if root > 1 {
                (root - 1) as nat
            } else {
                0
            });
            let mut i: usize = 1;
            while i < root
                invariant
                    1 <= i,
                    i <= root || root <= 1,
                    root <= 1 ==> i == 1,
                    root < chain.len(),
                    root == root_index(cs),
                    cs == cert_views(chain@),
                    picks == selection(cs, target, alias@, prefix@),
                    target == ChainTarget::Intermediate,
                    picks.len() == if root > 1 {
                        (root - 1) as nat
                    } else {
                        0
                    },
                    out.len() == i - 1,
                    selected_views(out@) == picked(cs, picks).take(i - 1),
                decreases root - i,
            {
                let n = out.len();
                let mut suffix = chars_of("-int-");
                push_chars(&mut suffix, &decimal_chars(n));
                let ghost before = selected_views(out@);
                out.push(select_one(chain, i, alias_with(prefix, alias, &suffix)));
                assert(picks.len() == (root - 1) as nat);
                assert(picks[n as int] == (prefix@ + alias@ + "-int-"@ + decimal(n as nat), i as int));
                assert(cs[i as int] == chain@[i as int]@);
                assert(selected_views(out@)[n as int] == out@[n as int]@);
                assert(out@[n as int]@.alias =~= picks[n as int].0);
                assert(picked(cs, picks)[n as int] == selected_views(out@)[n as int]);
                assert(selected_views(out@) =~= picked(cs, picks).take(i as int));
                i = i + 1;
            }
            assert(picks.len() == out.len());
            assert(picked(cs, picks).take(out.len() as int) =~= picked(cs, picks));
        },
        ChainTarget::Full => {
            let mut i: usize = 0;
            while i < chain.len()
                invariant
                    i <= chain.len(),
                    cs == cert_views(chain@),
                    picks == selection(cs, target, alias@, prefix@),
                    target == ChainTarget::Full,
                    out.len() == i,
                    selected_views(out@) == picked(cs, picks).take(i as int),
                decreases chain.len() - i,
            {
                let mut suffix = chars_of("-");
                push_chars(&mut suffix, &decimal_chars(i));
                out.push(select_one(chain, i, alias_with(prefix, alias, &suffix)));
                assert(picks.len() == chain.len());
                assert(picks[i as int] == (prefix@ + alias@ + "-"@ + decimal(i as nat), i as int));
                assert(cs[i as int] == chain@[i as int]@);
                assert(selected_views(out@)[i as int] == out@[i as int]@);
                assert(out@[i as int]@.alias =~= picks[i as int].0);
                assert(picked(cs, picks)[i as int] == selected_views(out@)[i as int]);
                assert(selected_views(out@) =~= picked(cs, picks).take(i + 1));
                i = i + 1;
            }
            assert(picked(cs, picks).take(chain.len() as int) =~= picked(cs, picks));
        },
        _ => {
            let i = match target.index() {
                Some(i) => i,
                None => {
                    assert(false);
                    return Err(JcmError::EmptyChain);
                },
            };
            if i >= chain.len() {
                return Err(JcmError::ChainIndexUnavailable { index: i });
            }
            let ks_alias = if i == 0 {
                alias_with(prefix, alias, &empty)
            } else {
                let mut suffix = chars_of("-");
                push_chars(&mut suffix, &decimal_chars(i));
                alias_with(prefix, alias, &suffix)
            };
            out.push(select_one(chain, i, ks_alias));
            assert(out@[0]@.alias =~= picks[0].0);
            assert(cs[i as int] == chain@[i as int]@);
            assert(empty@ =~= Seq::<char>::empty());
            assert(prefix@ + alias@ + empty@ =~= prefix@ + alias@);
            assert(selected_views(out@)[0] == out@[0]@);
            assert(selected_views(out@) =~= picked(cs, picks));
        },
    }
    assert(selected_views(out@) =~= picked(cs, picks));
    Ok(out)
}

/// Every keystore alias that a selection produces carries the prefix.
pub proof fn law_selection_prefixed(cs: Seq<CertView>, target: ChainTarget, alias: Seq<char>, prefix: Seq<char>)
    ensures
        forall|k: int| 0 <= k < selection(cs, target, alias, prefix).len()
            ==> starts_with(#[trigger] selection(cs, target, alias, prefix)[k].0, prefix),
{
    let picks = selection(cs, target, alias, prefix);
    assert forall|k: int| 0 <= k < picks.len() implies starts_with(#[trigger] picks[k].0, prefix) by {
        let a = picks[k].0;
        assert(a.subrange(0, prefix.len() as int) =~= prefix);
    }
}

/// Role label for a certificate in the TLS chain order (leaf first).
pub open spec fn role_name(self_signed: bool, index: int, chain_len: int) -> Seq<char> {
    if index == 0 {
        "leaf"@
    } else if self_signed || index == chain_len - 1 {
        "root"@
    } else {
        "intermediate"@
    }
}

/// Role label for a certificate in the TLS chain order (leaf first).
pub fn cert_role(cert: &FetchedCert, index: usize, chain_len: usize) -> (r: &'static str)
    requires
        index == 0 || cert.is_self_signed || chain_len > 0,
    ensures
        r@ == role_name(cert.is_self_signed, index as int, chain_len as int),
{
    if index == 0 {
        "leaf"
    } else if cert.is_self_signed || index == chain_len - 1 {
        "root"
    } else {
        "intermediate"
    }
}

/// The value of the first `CN=` part among `parts`, each part trimmed.
pub open spec fn first_cn(parts: Seq<Seq<char>>) -> Option<Seq<char>>
    decreases parts.len(),
{
    if parts.len() == 0 {
        None
    } else if starts_with(trim(parts[0]), "CN="@) {
        Some(trim(parts[0]).skip("CN="@.len() as int))
    } else {
        first_cn(parts.drop_first())
    }
}

/// A distinguished name shortened to its common name, when it has one.
pub open spec fn short_name(dn: Seq<char>) -> Seq<char> {
    match first_cn(split_on(dn, ',')) {
        Some(cn) => cn,
        None => dn,
    }
}

fn short_dn(dn: &str) -> (r: Vec<char>)
    ensures
        r@ == short_name(dn@),
{
    let cs = chars_of(dn);
    let parts = split_chars(&cs, ',');
    let cn = chars_of("CN=");
    let mut i: usize = 0;
    assert(views(parts@).skip(0) =~= views(parts@));
    while i < parts.len()
        invariant
            i <= parts.len(),
            cn@ == "CN="@,
            cs@ == dn@,
            views(parts@) == split_on(dn@, ','),
            first_cn(views(parts@)) == first_cn(views(parts@).skip(i as int)),
        decreases parts.len() - i,
    {
        assert(views(parts@).skip(i as int)[0] == parts@[i as int]@);
        assert(views(parts@).skip(i as int).drop_first() =~= views(parts@).skip(i + 1));
        let part = trim_chars(&parts[i]);
        if starts_with_chars(&part, &cn) {
            let mut r: Vec<char> = Vec::new();
            let mut k: usize = cn.len();
            while k < part.len()
                invariant
                    cn.len() <= k <= part.len(),
                    r@ == part@.subrange(cn.len() as int, k as int),
                decreases part.len() - k,
            {
                r.push(part[k]);
                k = k + 1;
                assert(r@ =~= part@.subrange(cn.len() as int, k as int));
            }
            assert(r@ =~= part@.skip(cn.len() as int));
            return r;
        }
        i = i + 1;
    }
    cs
}

/// `h` holds position `i`.
pub open spec fn highlighted(h: Option<Seq<usize>>, i: int) -> bool {
    h matches Some(s) && s.contains(i as usize)
}

/// The link line under certificate `i`, which is not the last.
pub open spec fn link_line(cs: Seq<CertView>, i: int) -> Seq<char> {
    if trim(cs[i].issuer) != trim(cs[i + 1].subject) && i + 1 == root_index(cs) {
        "└─ issued by → (issuer not present in chain; next cert shown)\n"@
    } else {
        "└─ issued by →\n"@
    }
}

/// The title line of certificate `i`: indented `[i] role`, a ` *` when
/// highlighted, then the short subject.
pub open spec fn graph_title(cs: Seq<CertView>, i: int, h: Option<Seq<usize>>) -> Seq<char> {
    indent(i as nat) + "["@ + decimal(i as nat) + "] "@ + role_name(cs[i].self_signed, i, cs.len() as int) + (if highlighted(h, i) {
        " *"@
    } else {
        seq![]
    }) + " · "@ + short_name(cs[i].subject) + "\n"@
}

/// The lines drawn for certificate `i` of the chain.
pub open spec fn graph_block(cs: Seq<CertView>, i: int, h: Option<Seq<usize>>) -> Seq<char> {
    let c = cs[i];
    let ind = indent(i as nat);
    let fi = ind + "  "@;
    let head = graph_title(cs, i, h);
    let fields = fi + "subject: "@ + c.subject + "\n"@ + fi + "issuer:  "@ + c.issuer + "\n"@ + fi + "valid:   "@ + c.not_before + " .. "@
        + c.not_after + "\n"@ + fi + "sha256: "@ + c.fingerprint + "\n"@;
    let self_signed = if c.self_signed {
        fi + "self_signed: true\n"@
    } else {
        seq![]
    };
    let link = if i < cs.len() - 1 {
        fi + link_line(cs, i)
    } else {
        seq![]
    };
    head + fields + self_signed + link
}

/// The blocks of the first `n` certificates.
pub open spec fn graph_blocks(cs: Seq<CertView>, n: nat, h: Option<Seq<usize>>) -> Seq<char>
    decreases n,
{
    if n == 0 {
        seq![]
    } else {
        graph_blocks(cs, (n - 1) as nat, h) + graph_block(cs, n - 1, h)
    }
}

/// The chain drawn as an indented tree, leaf first.
pub open spec fn chain_graph(url: Seq<char>, cs: Seq<CertView>, h: Option<Seq<usize>>) -> Seq<char> {
    let header = "url: "@ + url + "\n"@ + "chain ("@ + decimal(cs.len()) + " certificate"@ + (if cs.len() == 1 {
        seq![]
    } else {
        "s"@
    }) + "):\n"@;
    if cs.len() == 0 {
        header + "(empty)\n"@
    } else {
        header + graph_blocks(cs, cs.len(), h) + (if h is Some {
            "\n* = selected by --chain / entry chain setting\n"@
        } else {
            seq![]
        })
    }
}

fn contains_index(h: &[usize], i: usize) -> (b: bool)
    ensures
        b == h@.contains(i),
{
    let mut k: usize = 0;
    while k < h.len()
        invariant
            k <= h.len(),
            forall|m: int| 0 <= m < k ==> h@[m] != i,
        decreases h.len() - k,
    {
        if h[k] == i {
            assert(h@[k as int] == i);
            return true;
        }
        k = k + 1;
    }
    false
}

fn push_str_chars(out: &mut Vec<char>, s: &str)
    ensures
        final(out)@ == old(out)@ + s@,
{
    push_chars(out, &chars_of(s));
}

fn graph_block_chars(chain: &[FetchedCert], i: usize, root: usize, highlight: Option<&[usize]>) -> (r: Vec<char>)
    requires
        i < chain.len(),
        root == root_index(cert_views(chain@)),
    ensures
        r@ == graph_block(cert_views(chain@), i as int, match highlight {
            Some(h) => Some(h@),
            None => None,
        }),
{
    let ghost cs = cert_views(chain@);
    let ghost h = match highlight {
        Some(h) => Some(h@),
        None => None,
    };
    let c = &chain[i];
    assert(cs[i as int] == c@);
    let ind = indent_chars(i);
    let mut fi = indent_chars(i);
    push_str_chars(&mut fi, "  ");
    let mut out: Vec<char> = Vec::new();
    push_chars(&mut out, &ind);
    push_str_chars(&mut out, "[");
    push_chars(&mut out, &decimal_chars(i));
    push_str_chars(&mut out, "] ");
    push_str_chars(&mut out, cert_role(c, i, chain.len()));
    let marked = match highlight {
        Some(hs) => contains_index(hs, i),
        None => false,
    };
    if marked {
        push_str_chars(&mut out, " *");
    }
    push_str_chars(&mut out, " · ");
    push_chars(&mut out, &short_dn(c.subject.as_str()));
    push_str_chars(&mut out, "\n");
    let ghost head = out@;
    assert(head =~= ind@ + "["@ + decimal(i as nat) + "] "@ + role_name(c.is_self_signed, i as int, cs.len() as int) + (if highlighted(h, i as int) {
        " *"@
    } else {
        seq![]
    }) + " · "@ + short_name(c.subject@) + "\n"@);
    let mut fields: Vec<char> = Vec::new();
    push_chars(&mut fields, &fi);
    push_str_chars(&mut fields, "subject: ");
    push_str_chars(&mut fields, c.subject.as_str());
    push_str_chars(&mut fields, "\n");
    push_chars(&mut fields, &fi);
    push_str_chars(&mut fields, "issuer:  ");
    push_str_chars(&mut fields, c.issuer.as_str());
    push_str_chars(&mut fields, "\n");
    push_chars(&mut fields, &fi);
    push_str_chars(&mut fields, "valid:   ");
    push_str_chars(&mut fields, c.not_before.as_str());
    push_str_chars(&mut fields, " .. ");
    push_str_chars(&mut fields, c.not_after.as_str());
    push_str_chars(&mut fields, "\n");
    push_chars(&mut fields, &fi);
    push_str_chars(&mut fields, "sha256: ");
    push_str_chars(&mut fields, c.fingerprint_sha256.as_str());
    push_str_chars(&mut fields, "\n");
    let mut tail: Vec<char> = Vec::new();
    if c.is_self_signed {
        push_chars(&mut tail, &fi);
        push_str_chars(&mut tail, "self_signed: true\n");
    }
    let ghost ss = tail@;
    if i < chain.len() - 1 {
        let next = &chain[i + 1];
        assert(cs[i + 1] == next@);
        let matches_next = eq_chars(&trim_chars(&chars_of(c.issuer.as_str())), &trim_chars(&chars_of(next.subject.as_str())));
        push_chars(&mut tail, &fi);
        if !matches_next && i + 1 == root {
            push_str_chars(&mut tail, "└─ issued by → (issuer not present in chain; next cert shown)\n");
        } else {
            push_str_chars(&mut tail, "└─ issued by →\n");
        }
        assert(tail@ =~= ss + (fi@ + link_line(cs, i as int)));
    } else {
        assert(tail@ =~= ss + Seq::<char>::empty());
    }
    push_chars(&mut out, &fields);
    push_chars(&mut out, &tail);
    assert(out@ =~= graph_block(cs, i as int, h));
    out
}

/// Format the certificate chain as an indented tree (leaf → intermediates → root).
///
/// When `highlight` is set, indices marked with `*` match the current `--chain` selection.
pub fn format_chain_graph(url: &str, chain: &[FetchedCert], highlight: Option<&[usize]>) -> (r: String)
    ensures
        r@ == chain_graph(url@, cert_views(chain@), match highlight {
            Some(h) => Some(h@),
            None => None,
        }),
{
    let ghost cs = cert_views(chain@);
    let ghost h = match highlight {
        Some(h) => Some(h@),
        None => None,
    };
    let mut out: Vec<char> = Vec::new();
    push_str_chars(&mut out, "url: ");
    push_str_chars(&mut out, url);
    push_str_chars(&mut out, "\n");
    push_str_chars(&mut out, "chain (");
    push_chars(&mut out, &decimal_chars(chain.len()));
    push_str_chars(&mut out, " certificate");
    if chain.len() != 1 {
        push_str_chars(&mut out, "s");
    }
    push_str_chars(&mut out, "):\n");
    let ghost header = out@;
    assert(header =~= "url: "@ + url@ + "\n"@ + "chain ("@ + decimal(cs.len()) + " certificate"@ + (if cs.len() == 1 {
        seq![]
    } else {
        "s"@
    }) + "):\n"@);
    if chain.len() == 0 {
        push_str_chars(&mut out, "(empty)\n");
        return string_of(&out);
    }
    let root = root_position(chain);
    let mut i: usize = 0;
    while i < chain.len()
        invariant
            i <= chain.len(),
            cs == cert_views(chain@),
            h == (match highlight {
                Some(h) => Some(h@),
                None => None::<Seq<usize>>,
            }),
            root == root_index(cs),
            out@ == header + graph_blocks(cs, i as nat, h),
        decreases chain.len() - i,
    {
        let block = graph_block_chars(chain, i, root, highlight);
        push_chars(&mut out, &block);
        i = i + 1;
        assert(out@ =~= header + graph_blocks(cs, i as nat, h));
    }
    if highlight.is_some() {
        push_str_chars(&mut out, "\n* = selected by --chain / entry chain setting\n");
    } else {
        assert(out@ =~= out@ + Seq::<char>::empty());
    }
    string_of(&out)
}

proof fn lemma_blocks_unhighlighted(cs: Seq<CertView>, n: nat)
    ensures
        graph_blocks(cs, n, Some(seq![])) == graph_blocks(cs, n, None),
    decreases n,
{
    if n > 0 {
        lemma_blocks_unhighlighted(cs, (n - 1) as nat);
        assert(!highlighted(Some(Seq::<usize>::empty()), n - 1));
        assert(graph_title(cs, n - 1, Some(seq![])) == graph_title(cs, n - 1, None));
    }
}

/// The chain graph draws one block per certificate, leaf first, each opening
/// with its title line; an empty highlight draws the same tree as none, with
/// the legend line added.
pub proof fn law_chain_graph_shape(url: Seq<char>, cs: Seq<CertView>, h: Option<Seq<usize>>, i: int)
    ensures
        0 <= i < cs.len() ==> graph_blocks(cs, (i + 1) as nat, h) == graph_blocks(cs, i as nat, h) + graph_block(cs, i, h),
        0 <= i < cs.len() ==> starts_with(graph_block(cs, i, h), graph_title(cs, i, h)),
        cs.len() > 0 ==> chain_graph(url, cs, Some(seq![])) == chain_graph(url, cs, None)
            + "\n* = selected by --chain / entry chain setting\n"@,
{
    if 0 <= i < cs.len() {
        let b = graph_block(cs, i, h);
        let t = graph_title(cs, i, h);
        assert(b.subrange(0, t.len() as int) =~= t);
    }
    if cs.len() > 0 {
        lemma_blocks_unhighlighted(cs, cs.len());
        assert(chain_graph(url, cs, Some(seq![])) =~= chain_graph(url, cs, None) + "\n* = selected by --chain / entry chain setting\n"@);
    }
}

/// `r` is the chain's root position: the last self-signed certificate, or
/// the last certificate when none is self-signed.
pub open spec fn is_chain_root(cs: Seq<CertView>, r: int) -> bool {
    &&& 0 <= r < cs.len()
    &&& (exists|i: int| 0 <= i < cs.len() && #[trigger] cs[i].self_signed) ==> cs[r].self_signed
        && forall|j: int| r < j < cs.len() ==> !(#[trigger] cs[j]).self_signed
    &&& (forall|i: int| 0 <= i < cs.len() ==> !(#[trigger] cs[i]).self_signed) ==> r == cs.len() - 1
}

proof fn lemma_root_index_is_chain_root(cs: Seq<CertView>, r: int)
    requires
        cs.len() > 0,
        is_chain_root(cs, r),
    ensures
        root_index(cs) == r,
{
    lemma_last_self_signed(cs);
    let l = last_self_signed(cs);
    if l >= 0 {
        assert(cs[l].self_signed);
        assert(exists|i: int| 0 <= i < cs.len() && #[trigger] cs[i].self_signed);
        if r < l {
            assert(!cs[l].self_signed);
        }
        if l < r {
            assert(!cs[r].self_signed);
        }
    } else {
        if exists|i: int| 0 <= i < cs.len() && #[trigger] cs[i].self_signed {
            let i = choose|i: int| 0 <= i < cs.len() && #[trigger] cs[i].self_signed;
            assert(!cs[i].self_signed);
        }
    }
}

/// What each `--chain` target selects from a non-empty chain whose root is
/// at `r`, and the keystore alias each pick gets:
/// - `root`: the root, as `<prefix><alias>`;
/// - `leaf`: position 0, as `<prefix><alias>`;
/// - `intermediate`: every position strictly between the leaf and the root,
///   in order, the k-th as `<prefix><alias>-int-<k>`;
/// - `full`: every position, in order, the i-th as `<prefix><alias>-<i>`;
/// - a position `n` in the chain: position `n`, as `<prefix><alias>` for 0
///   and `<prefix><alias>-<n>` otherwise.
pub proof fn law_selection_by_target(cs: Seq<CertView>, target: ChainTarget, alias: Seq<char>, prefix: Seq<char>, r: int)
    requires
        cs.len() > 0,
        is_chain_root(cs, r),
    ensures
        ({
            let sel = selection(cs, target, alias, prefix);
            let base = prefix + alias;
            &&& target == ChainTarget::Root ==> sel == seq![(base, r)]
            &&& target == ChainTarget::Leaf ==> sel == seq![(base, 0int)]
            &&& target == ChainTarget::Intermediate ==> sel.len() == (if r > 1 { r - 1 } else { 0 })
                && forall|k: int| 0 <= k < sel.len() ==> #[trigger] sel[k] == (base + "-int-"@ + decimal(k as nat), k + 1)
            &&& target == ChainTarget::Full ==> sel.len() == cs.len()
                && forall|i: int| 0 <= i < sel.len() ==> #[trigger] sel[i] == (base + "-"@ + decimal(i as nat), i)
            &&& target_index(target) matches Some(n) ==> sel == seq![(if n == 0 { base } else { base + "-"@ + decimal(n) }, n as int)]
        }),
{
    lemma_root_index_is_chain_root(cs, r);
}

/// The last line drawn under a certificate that is not the last: a plain
/// `└─ issued by →` link when its issuer is the next certificate's subject
/// (trimmed); the `issuer not present` note only when they differ and the
/// next certificate is the root; the plain link otherwise.
pub proof fn law_graph_link_line(cs: Seq<CertView>, i: int, h: Option<Seq<usize>>, r: int)
    requires
        0 <= i < cs.len() - 1,
        is_chain_root(cs, r),
    ensures
        ({
            let b = graph_block(cs, i, h);
            let link = if trim(cs[i].issuer) != trim(cs[i + 1].subject) && i + 1 == r {
                "└─ issued by → (issuer not present in chain; next cert shown)\n"@
            } else {
                "└─ issued by →\n"@
            };
            let tail = indent(i as nat) + "  "@ + link;
            &&& b.len() >= tail.len()
            &&& b.subrange(b.len() - tail.len(), b.len() as int) == tail
            &&& trim(cs[i].issuer) == trim(cs[i + 1].subject) ==> link == "└─ issued by →\n"@
        }),
{
    lemma_root_index_is_chain_root(cs, r);
    let b = graph_block(cs, i, h);
    let link = if trim(cs[i].issuer) != trim(cs[i + 1].subject) && i + 1 == r {
        "└─ issued by → (issuer not present in chain; next cert shown)\n"@
    } else {
        "└─ issued by →\n"@
    };
    let tail = indent(i as nat) + "  "@ + link;
    assert(link == link_line(cs, i));
    assert(b.subrange(b.len() - tail.len(), b.len() as int) =~= tail);
}

/// The title line of certificate `i`: `[i]`, its role (`leaf` at position
/// 0, `root` when self-signed or last, `intermediate` otherwise), ` *` when
/// highlighted, then the short subject.
pub proof fn law_graph_title(cs: Seq<CertView>, i: int, h: Option<Seq<usize>>)
    requires
        0 <= i < cs.len(),
    ensures
        graph_title(cs, i, h) == indent(i as nat) + "["@ + decimal(i as nat) + "] "@
            + (if i == 0 { "leaf"@ } else if cs[i].self_signed || i == cs.len() - 1 { "root"@ } else { "intermediate"@ })
            + (if h matches Some(s) && s.contains(i as usize) { " *"@ } else { seq![] })
            + " · "@ + short_name(cs[i].subject) + "\n"@,
{
}

} // verus!
