use crate::html::opt_str_view;
use vstd::prelude::*;

verus! {

/// What the crawler reads of a parsed URL, as plain values: its serialized
/// form, its domain (absent for an IP host or no host), its host and its path.
pub type UrlParts = (Seq<char>, Option<Seq<char>>, Option<Seq<char>>, Seq<char>);

pub open spec fn href_of(p: UrlParts) -> Seq<char> {
    p.0
}

pub open spec fn domain_of(p: UrlParts) -> Option<Seq<char>> {
    p.1
}

pub open spec fn host_of(p: UrlParts) -> Option<Seq<char>> {
    p.2
}

pub open spec fn path_of(p: UrlParts) -> Seq<char> {
    p.3
}

#[verifier::external_type_specification]
#[verifier::external_body]
pub struct ExParseError(url::ParseError);

/// An absolute URL that parsed, with the parts the crawler reads.
pub struct WebUrl {
    pub href: String,
    pub domain: Option<String>,
    pub host: Option<String>,
    pub path: String,
}

impl View for WebUrl {
    type V = UrlParts;

    open spec fn view(&self) -> UrlParts {
        (self.href@, opt_str_view(self.domain), opt_str_view(self.host), self.path@)
    }
}

/// What `url::Url::parse` makes of a string: `None` where it fails.
pub uninterp spec fn parsed_url(s: Seq<char>) -> Option<UrlParts>;

/// What `url::Url::join` makes of a reference against the base URL that
/// `url::Url::parse` makes of `base`: `None` where either fails.
pub uninterp spec fn joined_url(base: Seq<char>, reference: Seq<char>) -> Option<UrlParts>;

/// Relies on `url::Url::parse`: parses an absolute URL; the parts are read
/// with `as_str`, `domain`, `host_str` and `path`.
#[verifier::external_body]
pub(crate) fn parse_url(s: &str) -> (r: Result<WebUrl, url::ParseError>)
    ensures
        match r {
            Ok(u) => parsed_url(s@) == Some(u@),
            Err(_) => parsed_url(s@).is_none(),
        },
{
    url::Url::parse(s).map(|u| WebUrl {
        href: u.as_str().to_string(),
        domain: u.domain().map(|d| d.to_string()),
        host: u.host_str().map(|h| h.to_string()),
        path: u.path().to_string(),
    })
}

/// Relies on `url::Url::join`: resolves a possibly relative reference against
/// the base URL parsed from `base`.
#[verifier::external_body]
pub(crate) fn join_url(base: &str, reference: &str) -> (r: Result<WebUrl, url::ParseError>)
    ensures
        match r {
            Ok(u) => joined_url(base@, reference@) == Some(u@),
            Err(_) => joined_url(base@, reference@).is_none(),
        },
{
    url::Url::parse(base).and_then(|b| b.join(reference)).map(|u| WebUrl {
        href: u.as_str().to_string(),
        domain: u.domain().map(|d| d.to_string()),
        host: u.host_str().map(|h| h.to_string()),
        path: u.path().to_string(),
    })
}

} // verus!
