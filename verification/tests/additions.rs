use jcm::cert::{fingerprint_hex, uses_root_fallback, FetchedCert};
use jcm::cli::ChainTarget;
use jcm::config::{has_distinct_aliases, redefined_aliases, TrustEntry};
use jcm::elevation::ElevationPlan;
use jcm::error::JcmError;
use jcm::keystore::{op_args, op_elevation, KeytoolOp};

fn te(alias: &str, source: &str) -> TrustEntry {
    TrustEntry {
        alias: alias.to_string(),
        url: "https://a.org".to_string(),
        chain: ChainTarget::Root,
        source: source.to_string(),
    }
}

fn cert(index: usize, self_signed: bool) -> FetchedCert {
    FetchedCert {
        der: vec![],
        pem: String::new(),
        fingerprint_sha256: String::new(),
        subject: format!("CN=c{index}"),
        issuer: "CN=r".to_string(),
        not_before: String::new(),
        not_after: String::new(),
        is_self_signed: self_signed,
        index,
    }
}

#[test]
fn redefinitions_are_reported_in_order() {
    let merged = vec![te("a", "one.txt"), te("b", "one.txt")];
    let entries = vec![te("c", "two.txt"), te("a", "two.txt"), te("c", "two.txt")];
    assert_eq!(
        redefined_aliases(&merged, &entries),
        vec![("a".to_string(), "two.txt".to_string()), ("c".to_string(), "two.txt".to_string())]
    );
    assert!(redefined_aliases(&merged, &vec![te("d", "x")]).is_empty());
}

#[test]
fn distinct_alias_check() {
    assert!(has_distinct_aliases(&vec![te("a", "s"), te("b", "s")]));
    assert!(!has_distinct_aliases(&vec![te("a", "s"), te("b", "s"), te("a", "t")]));
    assert!(has_distinct_aliases(&vec![]));
}

#[test]
fn root_fallback_only_without_self_signed_certificate() {
    let no_root = vec![cert(0, false), cert(1, false)];
    let with_root = vec![cert(0, false), cert(1, true)];
    assert!(uses_root_fallback(&no_root, ChainTarget::Root));
    assert!(!uses_root_fallback(&with_root, ChainTarget::Root));
    assert!(!uses_root_fallback(&no_root, ChainTarget::Leaf));
    assert!(!uses_root_fallback(&[], ChainTarget::Root));
}

#[test]
fn validation_errors_exit_with_two() {
    assert_eq!(JcmError::InvalidAlias { alias: "x y".into() }.exit_code(), 2);
    assert_eq!(JcmError::UrlScheme { url: "ftp://x".into() }.exit_code(), 2);
    assert_eq!(JcmError::ConfigLine { source: "t".into(), line: 1 }.exit_code(), 2);
    assert_eq!(JcmError::EmptyChain.exit_code(), 1);
    assert_eq!(JcmError::KeytoolFailed { message: "m".into() }.exit_code(), 1);
}

#[test]
fn keytool_operations_and_their_elevation() {
    assert_eq!(op_args(&KeytoolOp::List), vec!["-list"]);
    assert_eq!(op_args(&KeytoolOp::Show { alias: "jcm-a".into() }), vec!["-list", "-v", "-alias", "jcm-a"]);
    assert_eq!(
        op_args(&KeytoolOp::Import { alias: "jcm-a".into(), file: "/t/a.pem".into() }),
        vec!["-importcert", "-noprompt", "-alias", "jcm-a", "-file", "/t/a.pem"]
    );
    assert_eq!(op_args(&KeytoolOp::Delete { alias: "jcm-a".into() }), vec!["-delete", "-alias", "jcm-a"]);
    assert_eq!(op_elevation(&KeytoolOp::List, ElevationPlan::NeedElevation), ElevationPlan::Direct);
    assert_eq!(op_elevation(&KeytoolOp::Show { alias: "a".into() }, ElevationPlan::NeedElevation), ElevationPlan::Direct);
    assert_eq!(
        op_elevation(&KeytoolOp::Delete { alias: "a".into() }, ElevationPlan::NeedElevation),
        ElevationPlan::NeedElevation
    );
}

#[test]
fn fingerprint_of_any_input_has_95_characters() {
    assert_eq!(fingerprint_hex(b"").len(), 95);
    assert_eq!(fingerprint_hex(&[7u8; 1000]).len(), 95);
}

#[test]
fn empty_highlight_adds_only_the_legend() {
    let chain = vec![cert(0, false), cert(1, true)];
    let plain = jcm::cert::format_chain_graph("https://x", &chain, None);
    let marked = jcm::cert::format_chain_graph("https://x", &chain, Some(&[]));
    assert_eq!(marked, format!("{plain}\n* = selected by --chain / entry chain setting\n"));
    assert!(plain.contains("[0] leaf · c0\n"));
    assert!(plain.contains("  [1] root · c1\n"));
}

#[test]
fn target_names_parse_back_in_any_case() {
    for t in [ChainTarget::Root, ChainTarget::Leaf, ChainTarget::Intermediate, ChainTarget::Full, ChainTarget::Index2] {
        assert_eq!(ChainTarget::from_str_loose(&t.as_str().to_ascii_uppercase()), Some(t));
    }
}

#[test]
fn strict_merge_fails_on_repeat_within_one_file() {
    let files = vec![vec![te("a", "f1"), te("a", "f1")]];
    assert!(matches!(jcm::config::load_merged_configs(&files, true), Err(JcmError::DuplicateAlias { .. })));
    assert!(jcm::config::load_merged_configs(&vec![vec![te("a", "f1")], vec![te("b", "f2")]], true).is_ok());
}

#[test]
fn fingerprint_map_keeps_the_last_fingerprint() {
    let entries = vec![
        jcm::keystore::KeystoreEntry { alias: "a".into(), fingerprint_sha256: Some("1".into()), managed: false },
        jcm::keystore::KeystoreEntry { alias: "a".into(), fingerprint_sha256: Some("2".into()), managed: false },
        jcm::keystore::KeystoreEntry { alias: "a".into(), fingerprint_sha256: None, managed: false },
        jcm::keystore::KeystoreEntry { alias: "b".into(), fingerprint_sha256: None, managed: false },
    ];
    assert_eq!(jcm::keystore::fingerprint_map(&entries), vec![("a".to_string(), "2".to_string())]);
}

#[test]
fn redaction_hides_each_value_after_a_shown_password_flag() {
    let r = jcm::logging::redact_sensitive_args(&["-storepass", "-storepass", "x", "-keypass", "k"]);
    assert_eq!(r, vec!["-storepass", "***", "x", "-keypass", "***"]);
}
