//! The parts of a URL that the logic reads.
use vstd::prelude::*;

verus! {

/// Scheme, host, explicit port and path of a parsed URL.
#[derive(Debug)]
pub struct UrlParts {
    pub scheme: String,
    pub host: Option<String>,
    pub port: Option<u16>,
    pub path: String,
}

pub open spec fn text_opt(s: Option<String>) -> Option<Seq<char>> {
    match s {
        Some(t) => Some(t@),
        None => None,
    }
}

pub open spec fn parts_view(p: UrlParts) -> (Seq<char>, Option<Seq<char>>, Option<u16>, Seq<char>) {
    (p.scheme@, text_opt(p.host), p.port, p.path@)
}

/// What WHATWG URL parsing makes of a text: `None` when it is no absolute URL,
/// otherwise its scheme, host, non-default port and path.
pub uninterp spec fn url_parts_of(text: Seq<char>) -> Option<(Seq<char>, Option<Seq<char>>, Option<u16>, Seq<char>)>;

/// `url::Url::parse`, read through `scheme`, `host_str`, `port` and `path`.
/// The parser is not restated: its outcome is named by `url_parts_of`.
#[verifier::external_body]
pub(crate) fn parse_url(text: &str) -> (r: Option<UrlParts>)
    ensures
        match r {
            Some(p) => url_parts_of(text@) == Some(parts_view(p)),
            None => url_parts_of(text@) is None,
        },
{
    url::Url::parse(text).ok().map(|u| UrlParts {
        scheme: u.scheme().to_string(),
        host: u.host_str().map(|h| h.to_string()),
        port: u.port(),
        path: u.path().to_string(),
    })
}

} // verus!
