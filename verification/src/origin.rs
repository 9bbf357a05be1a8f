//! URLs that requests go to and that cookies come from.

use crate::text::ipv4_text;
use url::Url;
use vstd::prelude::*;

verus! {

/// `url::Url`, carried as an opaque value.
#[verifier::external_type_specification]
#[verifier::external_body]
pub struct ExUrl(url::Url);

/// A URL as it was parsed. There is no other way to one than `parse_url`.
pub struct Origin {
    pub(crate) url: Url,
}

/// The parts of a URL that matter to cookies.
pub struct UrlParts {
    pub scheme: Seq<char>,
    /// The host as it is written in the URL: a name or an IPv4 address, or an IPv6 address in
    /// brackets.
    pub host: Option<Seq<char>>,
    pub path: Seq<char>,
    /// No slash comes after the scheme (`Url::cannot_be_a_base`).
    pub opaque: bool,
}

/// The parts of a parsed URL (`Url::scheme`, `host_str`, `path` and `cannot_be_a_base`).
pub uninterp spec fn parts(origin: Origin) -> UrlParts;

/// What `Url::parse` makes of a text: the URL's parts, or the text of its error.
pub uninterp spec fn url_parse(text: Seq<char>) -> Result<UrlParts, Seq<char>>;

/// A URL of the scheme `http`, `https` or another that starts so.
pub open spec fn is_http(url: UrlParts) -> bool {
    "http"@.is_prefix_of(url.scheme)
}

/// A URL of the scheme `http` or `https`.
pub open spec fn is_web(url: UrlParts) -> bool {
    url.scheme == "http"@ || url.scheme == "https"@
}

/// A URL of a scheme whose hosts are read as names and addresses of the internet.
pub open spec fn is_special(url: UrlParts) -> bool {
    ||| is_web(url)
    ||| url.scheme == "ws"@
    ||| url.scheme == "wss"@
    ||| url.scheme == "ftp"@
    ||| url.scheme == "file"@
}

/// A URL that is reached over TLS, or on the machine itself.
pub open spec fn is_secure(url: UrlParts) -> bool {
    ||| url.scheme == "https"@
    ||| url.host == Some("localhost"@)
    ||| url.host == Some("[::1]"@)
    ||| is_special(url) && (url.host matches Some(host) && ipv4_text(host)
        && "127."@.is_prefix_of(host))
}

/// What every URL of the scheme `http` or `https` has: a host, and a path that starts with a slash.
pub open spec fn well_formed(url: UrlParts) -> bool {
    is_web(url) ==> {
        &&& url.host matches Some(host) && host.len() > 0
        &&& url.path.len() > 0 && url.path[0] == '/'
        &&& !url.opaque
    }
}

/// The URL that the cookies given to a new session are taken to come from.
pub open spec fn site_url() -> Seq<char> {
    "https://example.com"@
}

/// The parts of `site_url()`.
pub open spec fn site_parts() -> UrlParts {
    UrlParts { scheme: "https"@, host: Some("example.com"@), path: "/"@, opaque: false }
}

/// `Url::parse`. The result is named; stated of it is what every web URL has, and the one URL that
/// is parsed as a constant.
#[verifier::external_body]
pub(crate) fn parse_url(text: &str) -> (origin: Result<Origin, String>)
    ensures
        origin is Ok ==> url_parse(text@) is Ok && url_parse(text@)->Ok_0 == parts(origin->Ok_0),
        origin is Err ==> url_parse(text@) is Err && url_parse(text@)->Err_0 == origin->Err_0@,
        origin is Ok ==> well_formed(parts(origin->Ok_0)),
        text@ == site_url() ==> origin is Ok && parts(origin->Ok_0) == site_parts(),
{
    Url::parse(text).map(|url| Origin { url }).map_err(|e| e.to_string())
}

} // verus!
