use jcm::error::JcmError;
use jcm::paths::validate_alias;
use jcm::urls::{fetch_target, validate_url};

#[test]
fn invalid_alias_message_names_the_alias() {
    let err = validate_alias("bad alias").unwrap_err();
    assert_eq!(err.message(), "invalid alias: bad alias");
}

#[test]
fn chain_index_message_writes_the_index_in_decimal() {
    let err = JcmError::ChainIndexUnavailable { index: 12 };
    assert_eq!(err.message(), "chain index 12 not available");
}

#[test]
fn config_line_message_gives_file_and_line() {
    let err = JcmError::ConfigLine { source: "trust.txt".to_string(), line: 3 };
    assert_eq!(err.message(), "trust.txt:3: expected '<alias> <url> [chain]'");
}

#[test]
fn alias_not_found_message_names_both_aliases() {
    let err = JcmError::AliasNotFound { alias: "api".to_string(), keystore_alias: "jcm-api".to_string() };
    assert_eq!(err.message(), "alias not found in cacerts: api (looked for jcm-api)");
}

#[test]
fn duplicate_alias_message_names_both_files() {
    let err = JcmError::DuplicateAlias {
        alias: "api".to_string(),
        first: "a.txt".to_string(),
        second: "b.txt".to_string(),
    };
    assert_eq!(err.message(), "duplicate alias 'api' between a.txt and b.txt");
}

#[test]
fn cacerts_not_writable_message_suggests_elevation() {
    let err = JcmError::CacertsNotWritable { path: "/jdk/cacerts".to_string() };
    assert_eq!(
        err.message(),
        "cacerts is not writable: /jdk/cacerts (use --elevate auto or --cacerts with a writable copy)"
    );
}

#[test]
fn keytool_failure_message_is_passed_through() {
    let err = JcmError::KeytoolFailed { message: "keytool failed (exit 1)".to_string() };
    assert_eq!(err.message(), "keytool failed (exit 1)");
}

#[test]
fn url_messages_follow_the_rejection() {
    assert_eq!(validate_url("ftp://example.com").unwrap_err().message(), "url must use http or https: ftp://example.com");
    assert_eq!(validate_url("not a url").unwrap_err().message(), "invalid url: not a url");
}

#[test]
fn fetch_target_uses_known_default_port() {
    assert_eq!(fetch_target("https://example.com/x").unwrap(), ("example.com".to_string(), 443));
    assert_eq!(fetch_target("http://example.com").unwrap(), ("example.com".to_string(), 80));
    assert_eq!(fetch_target("https://example.com:8443").unwrap(), ("example.com".to_string(), 8443));
}

#[test]
fn fetch_target_rejects_unparsable_url() {
    let err = fetch_target("::nope").unwrap_err();
    assert!(matches!(err, JcmError::UrlUnparsable { .. }));
    assert_eq!(err.message(), "parse url ::nope");
}

#[test]
fn fetch_target_rejects_url_without_host() {
    assert!(matches!(fetch_target("mailto:someone@example.com"), Err(JcmError::UrlMissingHost)));
}

fn parts(scheme: &str, host: Option<&str>, port: Option<u16>) -> jcm::urls::UrlParts {
    jcm::urls::UrlParts { scheme: scheme.to_string(), host: host.map(|h| h.to_string()), port }
}

#[test]
fn url_verdict_on_parsed_parts() {
    assert!(jcm::urls::check_url_parts("u", Some(parts("https", Some("h"), None))).is_ok());
    assert!(jcm::urls::check_url_parts("u", Some(parts("http", Some("h"), Some(8080)))).is_ok());
    assert!(matches!(jcm::urls::check_url_parts("u", Some(parts("ftp", Some("h"), None))), Err(JcmError::UrlScheme { .. })));
    assert!(matches!(jcm::urls::check_url_parts("u", Some(parts("https", None, None))), Err(JcmError::UrlHost { .. })));
    assert!(matches!(jcm::urls::check_url_parts("u", None), Err(JcmError::InvalidUrl { .. })));
    assert_eq!(jcm::urls::target_from_parts("u", Some(parts("https", Some("h"), None))).unwrap(), ("h".to_string(), 443));
    assert_eq!(jcm::urls::target_from_parts("u", Some(parts("x", Some("h"), Some(7)))).unwrap(), ("h".to_string(), 7));
    assert!(matches!(jcm::urls::target_from_parts("u", Some(parts("https", None, None))), Err(JcmError::UrlMissingHost)));
    assert!(matches!(jcm::urls::target_from_parts("u", None), Err(JcmError::UrlUnparsable { .. })));
}
