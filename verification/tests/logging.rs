use jcm::logging::{debug_enabled, format_external_command, info_enabled, redact_sensitive_args, shell_quote, LogMode};

#[test]
fn redacts_storepass_in_command_display() {
    let cmd = format_external_command(
        "/usr/bin/keytool",
        &["-list", "-storepass", "secret", "-keystore", "/tmp/cacerts"],
        &[],
    );
    assert!(cmd.contains("-storepass"));
    assert!(cmd.contains("***"));
    assert!(!cmd.contains("secret"));
}

#[test]
fn command_display_quotes_and_wraps() {
    let cmd = format_external_command("/usr/bin/keytool", &["-alias", "my alias", "", "it's"], &["sudo", "-E"]);
    assert_eq!(cmd, "sudo -E /usr/bin/keytool -alias 'my alias' '' 'it'\\''s'");
}

#[test]
fn redaction_hides_only_values_after_password_flags() {
    let r = redact_sensitive_args(&["-keypass", "-storepass", "x", "-srcstorepass"]);
    assert_eq!(r, vec!["-keypass", "***", "x", "-srcstorepass"]);
    assert_eq!(shell_quote("a.b/c_d:e-f@g"), "a.b/c_d:e-f@g");
}

#[test]
fn log_levels() {
    assert!(info_enabled(LogMode::Normal) && info_enabled(LogMode::Verbose) && !info_enabled(LogMode::Quiet));
    assert!(debug_enabled(LogMode::Verbose) && !debug_enabled(LogMode::Normal));
}
