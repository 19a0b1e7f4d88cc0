use jcm::cert::{
    cert_from_fields, cert_role, fingerprint_hex, format_chain_graph, parse_chain, parse_der_cert, select_certs,
    FetchedCert,
};
use jcm::cli::ChainTarget;
use jcm::error::JcmError;

fn sample_cert(index: usize, subject: &str, issuer: &str, self_signed: bool) -> FetchedCert {
    FetchedCert {
        der: vec![],
        pem: String::new(),
        fingerprint_sha256: format!("FP{index}"),
        subject: subject.to_string(),
        issuer: issuer.to_string(),
        not_before: "Jan  1 00:00:00 2025 GMT".to_string(),
        not_after: "Jan  1 00:00:00 2026 GMT".to_string(),
        is_self_signed: self_signed,
        index,
    }
}

fn three_chain() -> Vec<FetchedCert> {
    vec![
        sample_cert(0, "CN=leaf.example.com", "CN=intermediate CA", false),
        sample_cert(1, "CN=intermediate CA", "CN=root CA", false),
        sample_cert(2, "CN=root CA", "CN=root CA", true),
    ]
}

#[test]
fn fingerprint_is_sha256_colon_separated() {
    let fp = fingerprint_hex(&[0u8; 32]);
    assert_eq!(fp.matches(':').count(), 31);
    assert_eq!(fp.len(), 32 * 3 - 1);
}

#[test]
fn fingerprint_is_the_digest() {
    assert!(fingerprint_hex(&[]).starts_with("E3:B0:C4:42:98:FC:1C:14"));
    assert!(fingerprint_hex(b"abc").starts_with("BA:78:16:BF"));
}

#[test]
fn graph_shows_indented_chain() {
    let chain = three_chain();
    let graph = format_chain_graph("https://example.com", &chain, None);
    assert!(graph.contains("url: https://example.com"));
    assert!(graph.contains("[0] leaf"));
    assert!(graph.contains("[1] intermediate"));
    assert!(graph.contains("[2] root"));
    assert!(graph.contains("issued by"));
    assert!(graph.contains("  [1]"));
    assert!(graph.contains("    subject:"));
}

#[test]
fn graph_marks_highlighted_indices() {
    let chain = vec![sample_cert(0, "CN=a", "CN=b", false), sample_cert(1, "CN=b", "CN=b", true)];
    let h = vec![1usize];
    let graph = format_chain_graph("https://x.com", &chain, Some(&h[..]));
    assert!(graph.contains("[1] root *"));
    assert!(graph.contains("* = selected"));
}

#[test]
fn graph_exact_text() {
    let chain = vec![sample_cert(0, "O=x, CN=a", "CN=z", false), sample_cert(1, "CN=b", "CN=b", true)];
    let graph = format_chain_graph("u", &chain, None);
    let expected = "url: u\nchain (2 certificates):\n".to_string() + "[0] leaf · a\n  subject: O=x, CN=a\n  issuer:  CN=z\n  valid:   Jan  1 00:00:00 2025 GMT .. Jan  1 00:00:00 2026 GMT\n  sha256: FP0\n  └─ issued by → (issuer not present in chain; next cert shown)\n" + "  [1] root · b\n    subject: CN=b\n    issuer:  CN=b\n    valid:   Jan  1 00:00:00 2025 GMT .. Jan  1 00:00:00 2026 GMT\n    sha256: FP1\n    self_signed: true\n";
    assert_eq!(graph, expected);
    assert_eq!(format_chain_graph("u", &[], None), "url: u\nchain (0 certificates):\n(empty)\n");
}

#[test]
fn selects_by_target() {
    let chain = three_chain();
    let names = |t: ChainTarget| -> Vec<(String, usize)> {
        select_certs(&chain, t, "api", "jcm-")
            .unwrap()
            .into_iter()
            .map(|s| (s.keystore_alias, s.cert.index))
            .collect()
    };
    assert_eq!(names(ChainTarget::Root), vec![("jcm-api".to_string(), 2)]);
    assert_eq!(names(ChainTarget::Leaf), vec![("jcm-api".to_string(), 0)]);
    assert_eq!(names(ChainTarget::Intermediate), vec![("jcm-api-int-0".to_string(), 1)]);
    assert_eq!(
        names(ChainTarget::Full),
        vec![("jcm-api-0".to_string(), 0), ("jcm-api-1".to_string(), 1), ("jcm-api-2".to_string(), 2)]
    );
    assert_eq!(names(ChainTarget::Index0), vec![("jcm-api".to_string(), 0)]);
    assert_eq!(names(ChainTarget::Index2), vec![("jcm-api-2".to_string(), 2)]);
    assert!(matches!(
        select_certs(&chain, ChainTarget::Index4, "api", "jcm-"),
        Err(JcmError::ChainIndexUnavailable { index: 4 })
    ));
    assert!(matches!(select_certs(&[], ChainTarget::Root, "api", "jcm-"), Err(JcmError::EmptyChain)));
}

#[test]
fn root_falls_back_to_last_certificate() {
    let chain = vec![sample_cert(0, "CN=a", "CN=b", false), sample_cert(1, "CN=b", "CN=c", false)];
    let sel = select_certs(&chain, ChainTarget::Root, "x", "p-").unwrap();
    assert_eq!(sel.len(), 1);
    assert_eq!(sel[0].cert.index, 1);
    assert!(select_certs(&chain, ChainTarget::Intermediate, "x", "p-").unwrap().is_empty());
}

#[test]
fn roles() {
    let c = sample_cert(1, "CN=a", "CN=b", false);
    assert_eq!(cert_role(&c, 0, 3), "leaf");
    assert_eq!(cert_role(&c, 1, 3), "intermediate");
    assert_eq!(cert_role(&c, 2, 3), "root");
}

#[test]
fn garbage_is_not_a_certificate() {
    assert!(matches!(parse_der_cert(&[1, 2, 3], 0), Err(JcmError::X509Parse)));
}

/// A self-signed test certificate (CN=jcm test, O=Example), DER-encoded.
fn test_cert_der() -> Vec<u8> {
    vec![
    0x30, 0x82, 0x01, 0x9f, 0x30, 0x82, 0x01, 0x45, 0xa0, 0x03, 0x02, 0x01, 0x02, 0x02, 0x14, 0x60,
    0x91, 0x85, 0x21, 0x72, 0xaa, 0xba, 0xab, 0xd5, 0x77, 0xc9, 0x68, 0xa4, 0x0d, 0x61, 0x02, 0x37,
    0xce, 0xe5, 0x00, 0x30, 0x0a, 0x06, 0x08, 0x2a, 0x86, 0x48, 0xce, 0x3d, 0x04, 0x03, 0x02, 0x30,
    0x25, 0x31, 0x11, 0x30, 0x0f, 0x06, 0x03, 0x55, 0x04, 0x03, 0x0c, 0x08, 0x6a, 0x63, 0x6d, 0x20,
    0x74, 0x65, 0x73, 0x74, 0x31, 0x10, 0x30, 0x0e, 0x06, 0x03, 0x55, 0x04, 0x0a, 0x0c, 0x07, 0x45,
    0x78, 0x61, 0x6d, 0x70, 0x6c, 0x65, 0x30, 0x1e, 0x17, 0x0d, 0x32, 0x36, 0x31, 0x31, 0x31, 0x38,
    0x30, 0x34, 0x33, 0x33, 0x32, 0x38, 0x5a, 0x17, 0x0d, 0x33, 0x36, 0x31, 0x31, 0x31, 0x35, 0x30,
    0x34, 0x33, 0x33, 0x32, 0x38, 0x5a, 0x30, 0x25, 0x31, 0x11, 0x30, 0x0f, 0x06, 0x03, 0x55, 0x04,
    0x03, 0x0c, 0x08, 0x6a, 0x63, 0x6d, 0x20, 0x74, 0x65, 0x73, 0x74, 0x31, 0x10, 0x30, 0x0e, 0x06,
    0x03, 0x55, 0x04, 0x0a, 0x0c, 0x07, 0x45, 0x78, 0x61, 0x6d, 0x70, 0x6c, 0x65, 0x30, 0x59, 0x30,
    0x13, 0x06, 0x07, 0x2a, 0x86, 0x48, 0xce, 0x3d, 0x02, 0x01, 0x06, 0x08, 0x2a, 0x86, 0x48, 0xce,
    0x3d, 0x03, 0x01, 0x07, 0x03, 0x42, 0x00, 0x04, 0xb3, 0x5e, 0xf3, 0xae, 0x9e, 0xf8, 0x21, 0x27,
    0x8b, 0xfc, 0xa2, 0x1f, 0xae, 0x71, 0x3c, 0x09, 0xac, 0x9a, 0xc0, 0xed, 0x53, 0x76, 0xe5, 0xde,
    0x8e, 0x46, 0xf8, 0x6a, 0xb7, 0xc7, 0x71, 0x97, 0xbe, 0xe2, 0x3c, 0x63, 0x99, 0x84, 0x7c, 0x80,
    0xe3, 0xda, 0x77, 0x03, 0x15, 0xec, 0x12, 0xb4, 0x94, 0xad, 0xad, 0x88, 0x97, 0x40, 0x98, 0x90,
    0xd4, 0x67, 0x21, 0xf2, 0xfb, 0xe0, 0x23, 0xd5, 0xa3, 0x53, 0x30, 0x51, 0x30, 0x1d, 0x06, 0x03,
    0x55, 0x1d, 0x0e, 0x04, 0x16, 0x04, 0x14, 0x82, 0x41, 0x2c, 0xce, 0xf6, 0xcc, 0x15, 0x6e, 0x3a,
    0x7c, 0xa6, 0xab, 0xa0, 0x67, 0xc3, 0x8d, 0xcf, 0x7f, 0xbe, 0xf4, 0x30, 0x1f, 0x06, 0x03, 0x55,
    0x1d, 0x23, 0x04, 0x18, 0x30, 0x16, 0x80, 0x14, 0x82, 0x41, 0x2c, 0xce, 0xf6, 0xcc, 0x15, 0x6e,
    0x3a, 0x7c, 0xa6, 0xab, 0xa0, 0x67, 0xc3, 0x8d, 0xcf, 0x7f, 0xbe, 0xf4, 0x30, 0x0f, 0x06, 0x03,
    0x55, 0x1d, 0x13, 0x01, 0x01, 0xff, 0x04, 0x05, 0x30, 0x03, 0x01, 0x01, 0xff, 0x30, 0x0a, 0x06,
    0x08, 0x2a, 0x86, 0x48, 0xce, 0x3d, 0x04, 0x03, 0x02, 0x03, 0x48, 0x00, 0x30, 0x45, 0x02, 0x21,
    0x00, 0xa2, 0xf1, 0xca, 0xc5, 0x1b, 0x0e, 0x2b, 0x10, 0xed, 0x28, 0x9d, 0xcd, 0xb5, 0x09, 0x2b,
    0xa1, 0xae, 0x50, 0xe4, 0x8a, 0xe8, 0x6b, 0x92, 0xf5, 0x0f, 0x73, 0x18, 0xd3, 0xd0, 0xff, 0x32,
    0x4e, 0x02, 0x20, 0x0b, 0x60, 0xae, 0x52, 0x06, 0xfb, 0x11, 0x88, 0x00, 0xdc, 0x44, 0x97, 0xd3,
    0x50, 0x1e, 0x87, 0x7f, 0x05, 0x1d, 0xf3, 0x92, 0x2e, 0xfd, 0x7c, 0x32, 0xcd, 0x7a, 0xa6, 0x4f,
    0x31, 0xa8, 0x98
    ]
}

#[test]
fn parses_a_real_certificate() {
    let der = test_cert_der();
    let cert = parse_der_cert(&der, 2).expect("valid certificate");
    assert_eq!(cert.index, 2);
    assert_eq!(cert.der, der);
    assert!(cert.subject.contains("CN=jcm test"));
    assert!(cert.subject.contains("O=Example"));
    assert_eq!(cert.subject, cert.issuer);
    assert!(cert.is_self_signed);
    assert!(!cert.not_before.is_empty());
    assert!(!cert.not_after.is_empty());
    assert_eq!(cert.fingerprint_sha256, "20:75:DF:90:EF:97:8F:A8:B9:49:CD:98:5B:C0:9A:48:C3:86:91:5D:95:F3:CB:D7:D7:AD:2C:C8:28:B8:9A:3E");
    assert!(cert.pem.starts_with("-----BEGIN CERTIFICATE-----"));
    assert!(cert.pem.trim_end().ends_with("-----END CERTIFICATE-----"));
}

#[test]
fn chain_certificates_carry_their_position() {
    let der = test_cert_der();
    let chain = parse_chain(&[der.clone(), der.clone()]).expect("valid chain");
    assert_eq!(chain.len(), 2);
    assert_eq!((chain[0].index, chain[1].index), (0, 1));
    assert_eq!(chain[1].der, der);
    assert!(matches!(parse_chain(&[der.clone(), vec![1, 2, 3], der]), Err(JcmError::X509Parse)));
    assert!(parse_chain(&[]).unwrap().is_empty());
}

#[test]
fn certificate_is_self_signed_when_subject_is_issuer() {
    let c = cert_from_fields(&[9], 3, "CN=a".into(), "CN=a".into(), "nb".into(), "na".into(), "FP".into(), "PEM".into());
    assert!(c.is_self_signed);
    assert_eq!((c.index, c.der.clone(), c.pem.as_str(), c.fingerprint_sha256.as_str()), (3, vec![9], "PEM", "FP"));
    let d = cert_from_fields(&[], 0, "CN=a".into(), "CN=b".into(), "nb".into(), "na".into(), "FP".into(), "PEM".into());
    assert!(!d.is_self_signed);
}
