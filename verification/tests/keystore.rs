use jcm::error::JcmError;
use jcm::jvm::JvmInfo;
use jcm::keystore::{
    alias_set, delete_alias, fingerprint_map, format_keytool_failure, import_cert,
    keystore_alias_for, keytool_args, keytool_fallback_needed, list_entries, parse_keytool_list,
    push_keystore_target_args, run_keytool, show_alias, verify_builtin_aliases_unchanged,
    KeystoreEntry, ProcessOutput,
};

fn test_jvm(use_system_cacerts: bool) -> JvmInfo {
    JvmInfo {
        java_home: "/opt/jdk".to_string(),
        cacerts: "/opt/jdk/lib/security/cacerts".to_string(),
        use_system_cacerts,
        store_pass: "changeit".to_string(),
        java_bin: "/opt/jdk/bin/java".to_string(),
        keytool_bin: "/opt/jdk/bin/keytool".to_string(),
    }
}

fn entry(alias: &str, managed: bool) -> KeystoreEntry {
    KeystoreEntry { alias: alias.to_string(), fingerprint_sha256: None, managed }
}

fn output(success: bool, stdout: &str, stderr: &str) -> ProcessOutput {
    ProcessOutput {
        success,
        status: if success { "0".to_string() } else { "1".to_string() },
        stdout: stdout.to_string(),
        stderr: stderr.to_string(),
    }
}

#[test]
fn system_cacerts_uses_cacerts_flag() {
    let mut args = vec!["-list".to_string()];
    push_keystore_target_args(&test_jvm(true), &mut args, true);
    assert_eq!(args, vec!["-list", "-cacerts", "-storepass", "changeit"]);
}

#[test]
fn custom_keystore_uses_keystore_flag() {
    let mut args = vec!["-list".to_string()];
    push_keystore_target_args(&test_jvm(false), &mut args, false);
    assert_eq!(
        args,
        vec!["-list", "-keystore", "/opt/jdk/lib/security/cacerts", "-storepass", "changeit"]
    );
}

#[test]
fn parses_jdk25_compact_list_output() {
    let sample = r#"Keystore type: PKCS12

actalisauthenticationrootca [jdk], 2 Jul 2026, trustedCertEntry,
Certificate fingerprint (SHA-256): aa:bb:cc:dd
jcm-example, 2 Jul 2026, trustedCertEntry,
Certificate fingerprint (SHA-256): 11:22:33:44
"#;
    let entries = parse_keytool_list(sample, "jcm-");
    assert_eq!(entries.len(), 2);
    assert_eq!(entries[0].alias, "actalisauthenticationrootca [jdk]");
    assert_eq!(entries[0].fingerprint_sha256.as_deref(), Some("AA:BB:CC:DD"));
    assert!(!entries[0].managed);
    assert_eq!(entries[1].alias, "jcm-example");
    assert!(entries[1].managed);
}

#[test]
fn ignores_localized_keystore_summary_line() {
    let sample = r#"Keystore type: PKCS12

Sua área de armazenamento de chaves contém 109 entradas

actalisauthenticationrootca [jdk], 2 Jul 2026, trustedCertEntry,
Certificate fingerprint (SHA-256): aa:bb:cc:dd
"#;
    let entries = parse_keytool_list(sample, "jcm-");
    assert_eq!(entries.len(), 1);
    assert_eq!(entries[0].alias, "actalisauthenticationrootca [jdk]");
}

#[test]
fn verify_builtin_skips_managed_aliases() {
    let before = vec![entry("actalisauthenticationrootca [jdk]", false), entry("jcm-api", true)];
    let after = vec![entry("actalisauthenticationrootca [jdk]", false)];
    assert!(verify_builtin_aliases_unchanged(&before, &after, "jcm-").is_ok(), "verify");
}

#[test]
fn verify_builtin_fails_when_ca_removed() {
    let before = vec![entry("actalisauthenticationrootca [jdk]", false)];
    let after = vec![];
    assert!(verify_builtin_aliases_unchanged(&before, &after, "jcm-").is_err());
}

#[test]
fn verify_builtin_ignores_localized_summary_line() {
    let before = vec![
        entry("Sua área de armazenamento de chaves contém 109 entradas", false),
        entry("actalisauthenticationrootca [jdk]", false),
    ];
    let after = vec![entry("actalisauthenticationrootca [jdk]", false)];
    assert!(verify_builtin_aliases_unchanged(&before, &after, "jcm-").is_ok(), "verify");
}

#[test]
fn parses_verbose_alias_output() {
    let sample = r#"Alias name: jcm-test
SHA256: AA:BB:CC
"#;
    let entries = parse_keytool_list(sample, "jcm-");
    assert_eq!(entries.len(), 1);
    assert_eq!(entries[0].alias, "jcm-test");
    assert_eq!(entries[0].fingerprint_sha256.as_deref(), Some("AA:BB:CC"));
    assert!(entries[0].managed);
}

#[test]
fn failure_message_includes_stdout_when_stderr_empty() {
    let out = output(false, "keytool error: bad password\n", "");
    let msg = format_keytool_failure("keytool list failed", &out);
    assert!(msg.contains("keytool list failed"));
    assert!(msg.contains("bad password"));
}

#[test]
fn failure_message_layout() {
    let out = output(false, "", "  boom \n");
    assert_eq!(format_keytool_failure("x", &out), "x (exit 1)\nstderr: boom");
    let empty = output(false, " ", "");
    assert_eq!(format_keytool_failure("x", &empty), "x (exit 1)\n(no output captured)");
    let long = "é".repeat(300);
    let msg = format_keytool_failure("x", &output(false, &long, ""));
    assert_eq!(msg, format!("x (exit 1)\nstdout: {}...", "é".repeat(300)));
    let longer = "a".repeat(600);
    let msg = format_keytool_failure("x", &output(false, &longer, ""));
    assert_eq!(msg, format!("x (exit 1)\nstdout: {}...", "a".repeat(500)));
}

#[test]
fn verify_fails_on_first_missing_alias() {
    let before = vec![entry("a-root", false), entry("b-root", false)];
    match verify_builtin_aliases_unchanged(&before, &[], "jcm-") {
        Err(JcmError::BuiltinAliasMissing { alias }) => assert_eq!(alias, "a-root"),
        _ => panic!("expected a missing built-in alias"),
    }
}

#[test]
fn unchanged_keystore_passes_verification() {
    let entries = vec![entry("a-root", false), entry("jcm-x", true), entry("b-root", false)];
    assert!(verify_builtin_aliases_unchanged(&entries, &entries, "jcm-").is_ok());
}

#[test]
fn listing_skips_preamble_and_fingerprint_lines() {
    let sample = "Your keystore contains 2 entries\n\n* note, trustedCertEntry\nmyca, Jan 1, PrivateKeyEntry,\nCertificate fingerprint (SHA1): 00\n";
    let entries = parse_keytool_list(sample, "jcm-");
    assert_eq!(entries.len(), 1);
    assert_eq!(entries[0].alias, "myca");
    assert_eq!(entries[0].fingerprint_sha256, None);
}

#[test]
fn listing_takes_last_fingerprint_of_an_entry() {
    let sample = "SHA256: 00\nAlias name: jcm-a\nSHA256: 11\nSHA256: 22\nAlias name: other\n";
    let entries = parse_keytool_list(sample, "jcm-");
    assert_eq!(entries.len(), 2);
    assert_eq!(entries[0].fingerprint_sha256.as_deref(), Some("22"));
    assert_eq!(entries[1].alias, "other");
    assert_eq!(entries[1].fingerprint_sha256, None);
    assert!(!entries[1].managed);
}

#[test]
fn alias_set_and_fingerprint_map() {
    let mut entries = vec![entry("a", false), entry("b", false), entry("a", false)];
    entries[0].fingerprint_sha256 = Some("F1".to_string());
    entries[2].fingerprint_sha256 = Some("F2".to_string());
    let set = alias_set(&entries);
    assert_eq!(set.len(), 2);
    assert!(set.contains(&"a".to_string()) && set.contains(&"b".to_string()));
    let map = fingerprint_map(&entries);
    assert_eq!(map, vec![("a".to_string(), "F2".to_string())]);
}

#[test]
fn keystore_alias_for_adds_prefix() {
    let opts = jcm::cli::GlobalOpts {
        quiet: false,
        verbose: false,
        java_home: None,
        cacerts: None,
        store_pass: None,
        chain: jcm::cli::ChainTarget::Root,
        alias_prefix: "jcm-".to_string(),
        elevate: jcm::cli::ElevateMode::Auto,
    };
    assert_eq!(keystore_alias_for("api", &opts), "jcm-api");
    assert_eq!(keystore_alias_for("jcm-api", &opts), "jcm-jcm-api");
}

#[test]
fn keytool_outcomes() {
    let ok = output(true, "  details \n", "");
    let failed = output(false, "", "keytool error: alias does not exist");
    assert!(list_entries(&ok, "jcm-").is_ok());
    assert!(matches!(list_entries(&failed, "jcm-"), Err(JcmError::KeytoolFailed { .. })));
    assert!(import_cert("jcm-a", &ok).is_ok());
    match import_cert("jcm-a", &failed) {
        Err(JcmError::KeytoolFailed { message }) => {
            assert!(message.starts_with("keytool import failed for jcm-a (exit 1)"))
        }
        _ => panic!("expected failure"),
    }
    assert!(delete_alias("jcm-a", &failed).is_ok());
    match delete_alias("jcm-a", &output(false, "", "denied")) {
        Err(JcmError::KeytoolFailed { message }) => assert!(message.ends_with(" (alias: jcm-a)")),
        _ => panic!("expected failure"),
    }
    assert_eq!(show_alias("jcm-a", &ok).unwrap(), "details");
}

#[test]
fn keytool_retries_with_keystore_path() {
    let jvm = test_jvm(true);
    let failed = output(false, "", "no -cacerts");
    assert!(keytool_fallback_needed(&jvm, &failed));
    let r = run_keytool(&jvm, failed, Some(output(true, "fine", ""))).unwrap();
    assert_eq!(r.stdout, "fine");
    match run_keytool(&jvm, output(false, "", "e1"), Some(output(false, "", "e2"))) {
        Err(JcmError::KeytoolFailed { message }) => {
            assert!(message.starts_with("keytool failed (tried -cacerts and -keystore)"));
            assert!(message.contains("e1"));
        }
        _ => panic!("expected failure"),
    }
    assert!(!keytool_fallback_needed(&test_jvm(false), &output(false, "", "")));
    let args = keytool_args(&test_jvm(false), &["-delete", "-alias", "jcm-a"], false);
    assert_eq!(args, vec!["-delete", "-alias", "jcm-a", "-keystore", "/opt/jdk/lib/security/cacerts", "-storepass", "changeit"]);
}
