//! The errors that the library reports.
use vstd::prelude::*;
use crate::text::{decimal, decimal_chars, push_str, string_of};

verus! {

/// Why an operation was refused or failed.
#[derive(Debug)]
pub enum JcmError {
    /// An alias that is empty or holds a character other than ASCII letters, digits, `-`, `_`.
    InvalidAlias { alias: String },
    /// A non-managed alias present before an operation is gone after it.
    BuiltinAliasMissing { alias: String },
    /// keytool failed; the message describes its exit status and output.
    KeytoolFailed { message: String },
    /// The certificate chain holds no certificate.
    EmptyChain,
    /// The chain has no certificate at the requested position.
    ChainIndexUnavailable { index: usize },
    /// `remove` found no keystore alias for the given alias.
    AliasNotFound { alias: String, keystore_alias: String },
    /// `show` got no detail for the keystore alias.
    ShowAliasNotFound { keystore_alias: String },
    /// cacerts cannot be written and elevation is disabled.
    CacertsNotWritable { path: String },
    /// A text configuration line with fewer than two fields.
    ConfigLine { source: String, line: usize },
    /// A URL that does not parse.
    InvalidUrl { url: String },
    /// A URL whose scheme is neither http nor https.
    UrlScheme { url: String },
    /// A URL without a host.
    UrlHost { url: String },
    /// A URL to fetch from that does not parse.
    UrlUnparsable { url: String },
    /// The same alias defined twice under strict merging.
    DuplicateAlias { alias: String, first: String, second: String },
    /// JAVA_HOME could not be detected.
    JavaHomeNotDetected,
    /// No cacerts file at the default location under JAVA_HOME.
    CacertsNotFound { path: String },
    /// No `java` executable was found.
    JavaNotFound,
    /// No `keytool` executable was found.
    KeytoolNotFound,
    /// A certificate that is not valid X.509 DER.
    X509Parse,
    /// A URL to fetch from that names no host.
    UrlMissingHost,
    /// Elevation was needed but sudo is not available.
    SudoNotFound,
    /// Elevation was needed, sudo has no cached credentials and no terminal can ask.
    NonInteractiveElevation,
}

/// The text that reports `e` to the user.
pub open spec fn error_text(e: JcmError) -> Seq<char> {
    match e {
        JcmError::InvalidAlias { alias } => "invalid alias: "@ + alias@,
        JcmError::BuiltinAliasMissing { alias } => "built-in alias missing from cacerts after operation: "@ + alias@,
        JcmError::KeytoolFailed { message } => message@,
        JcmError::EmptyChain => "empty certificate chain"@,
        JcmError::ChainIndexUnavailable { index } => "chain index "@ + decimal(index as nat) + " not available"@,
        JcmError::AliasNotFound { alias, keystore_alias } =>
            "alias not found in cacerts: "@ + alias@ + " (looked for "@ + keystore_alias@ + ")"@,
        JcmError::ShowAliasNotFound { keystore_alias } => "alias not found in cacerts: "@ + keystore_alias@,
        JcmError::CacertsNotWritable { path } =>
            "cacerts is not writable: "@ + path@ + " (use --elevate auto or --cacerts with a writable copy)"@,
        JcmError::ConfigLine { source, line } =>
            source@ + ":"@ + decimal(line as nat) + ": expected '<alias> <url> [chain]'"@,
        JcmError::InvalidUrl { url } => "invalid url: "@ + url@,
        JcmError::UrlScheme { url } => "url must use http or https: "@ + url@,
        JcmError::UrlHost { url } => "url must include host: "@ + url@,
        JcmError::UrlUnparsable { url } => "parse url "@ + url@,
        JcmError::DuplicateAlias { alias, first, second } =>
            "duplicate alias '"@ + alias@ + "' between "@ + first@ + " and "@ + second@,
        JcmError::JavaHomeNotDetected =>
            "could not detect JAVA_HOME; set --java-home or JAVA_HOME environment variable"@,
        JcmError::CacertsNotFound { path } => "cacerts not found at "@ + path@ + "; set --cacerts or --java-home"@,
        JcmError::JavaNotFound => "java not found in PATH"@,
        JcmError::KeytoolNotFound => "keytool not found in PATH"@,
        JcmError::X509Parse => "parse x509 der"@,
        JcmError::UrlMissingHost => "url missing host"@,
        JcmError::SudoNotFound => "sudo not found; cannot elevate to modify cacerts"@,
        JcmError::NonInteractiveElevation =>
            "cacerts is not writable and no cached sudo credentials (non-interactive session)"@,
    }
}

/// `e` rejects what the user asked for (an alias, a URL, a trust list)
/// before any work is done.
pub open spec fn is_validation(e: JcmError) -> bool {
    match e {
        JcmError::InvalidAlias { .. } | JcmError::ConfigLine { .. } | JcmError::InvalidUrl { .. }
        | JcmError::UrlScheme { .. } | JcmError::UrlHost { .. } | JcmError::UrlUnparsable { .. }
        | JcmError::UrlMissingHost | JcmError::DuplicateAlias { .. } => true,
        _ => false,
    }
}

/// `prefix`, then `s`, then `suffix`.
fn framed(prefix: &str, s: &str, suffix: &str) -> (r: String)
    ensures
        r@ == prefix@ + s@ + suffix@,
{
    let mut r = prefix.to_owned();
    push_str(&mut r, s);
    push_str(&mut r, suffix);
    r
}

/// `prefix`, then `s`.
fn prefixed(prefix: &str, s: &str) -> (r: String)
    ensures
        r@ == prefix@ + s@,
{
    let mut r = prefix.to_owned();
    push_str(&mut r, s);
    r
}

impl JcmError {
    /// The exit code for this error: validation errors exit with 2, the
    /// others with 1.
    pub fn exit_code(&self) -> (r: i32)
        ensures
            r == (if is_validation(*self) { crate::exit::VALIDATION } else { crate::exit::OPERATIONAL }),
    {
        match self {
            JcmError::InvalidAlias { .. } | JcmError::ConfigLine { .. } | JcmError::InvalidUrl { .. }
            | JcmError::UrlScheme { .. } | JcmError::UrlHost { .. } | JcmError::UrlUnparsable { .. }
            | JcmError::UrlMissingHost | JcmError::DuplicateAlias { .. } => crate::exit::VALIDATION,
            _ => crate::exit::OPERATIONAL,
        }
    }

    /// The text that reports this error to the user.
    pub fn message(&self) -> (r: String)
        ensures
            r@ == error_text(*self),
    {
        match self {
            JcmError::InvalidAlias { alias } => prefixed("invalid alias: ", alias.as_str()),
            JcmError::BuiltinAliasMissing { alias } =>
                prefixed("built-in alias missing from cacerts after operation: ", alias.as_str()),
            JcmError::KeytoolFailed { message } => message.clone(),
            JcmError::EmptyChain => "empty certificate chain".to_owned(),
            JcmError::ChainIndexUnavailable { index } => {
                let digits = string_of(&decimal_chars(*index));
                framed("chain index ", digits.as_str(), " not available")
            },
            JcmError::AliasNotFound { alias, keystore_alias } => {
                let mut r = framed("alias not found in cacerts: ", alias.as_str(), " (looked for ");
                push_str(&mut r, keystore_alias.as_str());
                push_str(&mut r, ")");
                r
            },
            JcmError::ShowAliasNotFound { keystore_alias } =>
                prefixed("alias not found in cacerts: ", keystore_alias.as_str()),
            JcmError::CacertsNotWritable { path } => framed(
                "cacerts is not writable: ",
                path.as_str(),
                " (use --elevate auto or --cacerts with a writable copy)",
            ),
            JcmError::ConfigLine { source, line } => {
                let digits = string_of(&decimal_chars(*line));
                let mut r = source.clone();
                push_str(&mut r, ":");
                push_str(&mut r, digits.as_str());
                push_str(&mut r, ": expected '<alias> <url> [chain]'");
                r
            },
            JcmError::InvalidUrl { url } => prefixed("invalid url: ", url.as_str()),
            JcmError::UrlScheme { url } => prefixed("url must use http or https: ", url.as_str()),
            JcmError::UrlHost { url } => prefixed("url must include host: ", url.as_str()),
            JcmError::UrlUnparsable { url } => prefixed("parse url ", url.as_str()),
            JcmError::DuplicateAlias { alias, first, second } => {
                let mut r = framed("duplicate alias '", alias.as_str(), "' between ");
                push_str(&mut r, first.as_str());
                push_str(&mut r, " and ");
                push_str(&mut r, second.as_str());
                r
            },
            JcmError::JavaHomeNotDetected =>
                "could not detect JAVA_HOME; set --java-home or JAVA_HOME environment variable".to_owned(),
            JcmError::CacertsNotFound { path } =>
                framed("cacerts not found at ", path.as_str(), "; set --cacerts or --java-home"),
            JcmError::JavaNotFound => "java not found in PATH".to_owned(),
            JcmError::KeytoolNotFound => "keytool not found in PATH".to_owned(),
            JcmError::X509Parse => "parse x509 der".to_owned(),
            JcmError::UrlMissingHost => "url missing host".to_owned(),
            JcmError::SudoNotFound => "sudo not found; cannot elevate to modify cacerts".to_owned(),
            JcmError::NonInteractiveElevation =>
                "cacerts is not writable and no cached sudo credentials (non-interactive session)".to_owned(),
        }
    }
}

} // verus!
