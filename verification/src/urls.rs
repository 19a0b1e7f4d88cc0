//! URLs as the `url` crate parses them.
use vstd::prelude::*;
use crate::error::JcmError;
use crate::text::{chars_of, eq_chars};

verus! {

/// What `url::Url::parse` makes of `s`, if it parses: the scheme, the host
/// (`host_str`) and the port (`port_or_known_default`).
pub uninterp spec fn parsed_url(s: Seq<char>) -> Option<(Seq<char>, Option<Seq<char>>, Option<u16>)>;

/// The parts of a parsed URL.
pub struct UrlParts {
    pub scheme: String,
    pub host: Option<String>,
    pub port: Option<u16>,
}

/// Calls `url::Url::parse` and reads `scheme`, `host_str` and
/// `port_or_known_default` off the result; the outcome is named `parsed_url`.
#[verifier::external_body]
fn parse_url(s: &str) -> (r: Option<UrlParts>)
    ensures
        match r {
            Some(p) => parsed_url(s@) == Some(parts_view(p)),
            None => parsed_url(s@) is None,
        },
{
    let u = url::Url::parse(s).ok()?;
    Some(UrlParts {
        scheme: u.scheme().to_string(),
        host: u.host_str().map(|h| h.to_string()),
        port: u.port_or_known_default(),
    })
}

/// What a parsed URL holds: scheme, host and port.
pub open spec fn parts_view(p: UrlParts) -> (Seq<char>, Option<Seq<char>>, Option<u16>) {
    (p.scheme@, match p.host {
        Some(h) => Some(h@),
        None => None,
    }, p.port)
}

/// A parse outcome that names http or https and a host.
pub open spec fn parts_accepted(p: Option<(Seq<char>, Option<Seq<char>>, Option<u16>)>) -> bool {
    match p {
        None => false,
        Some((scheme, host, _)) => (scheme == "https"@ || scheme == "http"@) && host is Some,
    }
}

/// `e` is the error that rejects `url` with parse outcome `p`: it did not
/// parse, else its scheme is neither http nor https, else it has no host.
pub open spec fn parts_rejection(e: JcmError, url: Seq<char>, p: Option<(Seq<char>, Option<Seq<char>>, Option<u16>)>) -> bool {
    match p {
        None => e matches JcmError::InvalidUrl { url: u } && u@ == url,
        Some((scheme, host, _)) => if scheme != "https"@ && scheme != "http"@ {
            e matches JcmError::UrlScheme { url: u } && u@ == url
        } else if host is None {
            e matches JcmError::UrlHost { url: u } && u@ == url
        } else {
            false
        },
    }
}

/// `url` parses, uses http or https, and names a host.
pub open spec fn url_accepted(url: Seq<char>) -> bool {
    parts_accepted(parsed_url(url))
}

/// `e` is the error that rejects `url`.
pub open spec fn url_rejection(e: JcmError, url: Seq<char>) -> bool {
    parts_rejection(e, url, parsed_url(url))
}

/// The verdict on `url` given what parsing it gave.
pub fn check_url_parts(url: &str, parts: Option<UrlParts>) -> (r: Result<(), JcmError>)
    ensures
        ({
            let p = match parts {
                Some(q) => Some(parts_view(q)),
                None => None,
            };
            &&& r is Ok <==> parts_accepted(p)
            &&& r matches Err(e) ==> parts_rejection(e, url@, p)
        }),
{
    match parts {
        None => Err(JcmError::InvalidUrl { url: url.to_owned() }),
        Some(p) => {
            let scheme = chars_of(p.scheme.as_str());
            if !eq_chars(&scheme, &chars_of("https")) && !eq_chars(&scheme, &chars_of("http")) {
                return Err(JcmError::UrlScheme { url: url.to_owned() });
            }
            if p.host.is_none() {
                return Err(JcmError::UrlHost { url: url.to_owned() });
            }
            Ok(())
        },
    }
}

pub fn validate_url(url: &str) -> (r: Result<(), JcmError>)
    ensures
        r is Ok <==> url_accepted(url@),
        r matches Err(e) ==> url_rejection(e, url@),
{
    check_url_parts(url, parse_url(url))
}

/// Where to connect for a URL with parse outcome `p`: its host, and its port
/// or 443.
pub open spec fn fetch_outcome(e_or: Result<(Seq<char>, u16), JcmError>, url: Seq<char>, p: Option<(Seq<char>, Option<Seq<char>>, Option<u16>)>) -> bool {
    match p {
        None => e_or matches Err(e) && (e matches JcmError::UrlUnparsable { url: u } && u@ == url),
        Some((_, None, _)) => e_or matches Err(JcmError::UrlMissingHost),
        Some((_, Some(h), port)) => e_or == Ok::<(Seq<char>, u16), JcmError>((h, match port {
            Some(q) => q,
            None => 443u16,
        })),
    }
}

pub open spec fn target_view(r: Result<(String, u16), JcmError>) -> Result<(Seq<char>, u16), JcmError> {
    match r {
        Ok((h, p)) => Ok((h@, p)),
        Err(e) => Err(e),
    }
}

/// The host and port to connect to, given what parsing `url` gave.
pub fn target_from_parts(url: &str, parts: Option<UrlParts>) -> (r: Result<(String, u16), JcmError>)
    ensures
        fetch_outcome(target_view(r), url@, match parts {
            Some(q) => Some(parts_view(q)),
            None => None,
        }),
{
    match parts {
        None => Err(JcmError::UrlUnparsable { url: url.to_owned() }),
        Some(p) => match p.host {
            None => Err(JcmError::UrlMissingHost),
            Some(h) => Ok((h, match p.port {
                Some(q) => q,
                None => 443,
            })),
        },
    }
}

/// The host and port to connect to for `url`; the port defaults to 443.
pub fn fetch_target(url: &str) -> (r: Result<(String, u16), JcmError>)
    ensures
        fetch_outcome(target_view(r), url@, parsed_url(url@)),
{
    target_from_parts(url, parse_url(url))
}

} // verus!
