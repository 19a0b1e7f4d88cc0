use jcm::cert::{FetchedCert, SelectedCert};
use jcm::cli::ChainTarget;
use jcm::commands::{add_exit_code, remove_exit_code};
use jcm::ops::{AddPlan, MutationKind, RemovePlan};
use jcm::commands::{diagnose_keystore_access, inspect_lines, list_lines, log_mode, selected_positions, show_lines};
use jcm::error::JcmError;
use jcm::keystore::KeystoreEntry;
use jcm::logging::LogMode;

#[test]
fn list_output() {
    let entries = vec![
        KeystoreEntry { alias: "jcm-a".into(), fingerprint_sha256: Some("AA".into()), managed: true },
        KeystoreEntry { alias: "b".into(), fingerprint_sha256: None, managed: false },
    ];
    assert_eq!(list_lines(&entries, false), vec!["jcm-a\tAA"]);
    assert_eq!(list_lines(&entries, true), vec!["jcm-a\tAA", "b"]);
    assert_eq!(list_lines(&entries[1..], false), vec!["(no jcm-* entries in cacerts)"]);
    assert!(list_lines(&[], true).is_empty());
}

#[test]
fn show_and_diagnostics() {
    assert_eq!(show_lines("jcm-a", "det").unwrap(), vec!["alias: jcm-a", "det"]);
    assert!(matches!(show_lines("jcm-a", ""), Err(JcmError::ShowAliasNotFound { .. })));
    assert_eq!(
        diagnose_keystore_access("/c", false, false, false),
        "cacerts: /c\nhint: cacerts file does not exist; set --cacerts or --java-home\nhint: keytool not found; set --java-home or JAVA_HOME"
    );
    assert_eq!(diagnose_keystore_access("/c", true, true, true), "cacerts: /c");
    assert_eq!(log_mode(true, true), LogMode::Quiet);
    assert_eq!(log_mode(false, true), LogMode::Verbose);
}

#[test]
fn inspect_output() {
    let c = FetchedCert {
        der: vec![],
        pem: String::new(),
        fingerprint_sha256: "FP".into(),
        subject: "CN=s".into(),
        issuer: "CN=i".into(),
        not_before: "nb".into(),
        not_after: "na".into(),
        is_self_signed: false,
        index: 0,
    };
    let sel = vec![SelectedCert { keystore_alias: "jcm-inspect".into(), cert: c, pem_path: None }];
    assert_eq!(selected_positions(&sel), vec![0]);
    assert_eq!(
        inspect_lines("https://x", 3, ChainTarget::Leaf, &sel),
        vec![
            "url: https://x",
            "chain: 3 certificates",
            "selected (chain=leaf):",
            "  position: 0",
            "  subject: CN=s",
            "  issuer: CN=i",
            "  valid: nb .. na",
            "  sha256: FP",
            "  self_signed: false",
        ]
    );
}

#[test]
fn dry_runs_with_pending_changes_exit_with_three() {
    let plan = |kind| AddPlan {
        kind,
        alias: "api".into(),
        url: "https://a.org".into(),
        chain: ChainTarget::Root,
        certs: vec![],
    };
    assert_eq!(add_exit_code(&plan(MutationKind::Add), true), jcm::exit::PENDING_CHANGES);
    assert_eq!(add_exit_code(&plan(MutationKind::Update), true), 3);
    assert_eq!(add_exit_code(&plan(MutationKind::Skip), true), jcm::exit::SUCCESS);
    assert_eq!(add_exit_code(&plan(MutationKind::Add), false), 0);
    let removal = RemovePlan { alias: "api".into(), keystore_aliases: vec!["jcm-api".into()] };
    assert_eq!(remove_exit_code(&removal, true), 3);
    assert_eq!(remove_exit_code(&removal, false), 0);
}
