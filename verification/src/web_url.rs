//! URLs, as far as the fetch looks at them.

use vstd::prelude::*;

verus! {

/// An IP address, as the number that its bytes spell in network order.
#[derive(Clone, Copy, Debug, PartialEq, Eq, Structural)]
pub enum IpAddress {
    V4(u32),
    V6(u128),
}

/// The host of a URL.
#[derive(Debug, PartialEq, Eq)]
pub enum UrlHost {
    Domain(String),
    Ip(IpAddress),
}

/// A URL, taken apart.
#[derive(Debug, PartialEq, Eq)]
pub struct UrlParts {
    /// The whole URL, serialized.
    pub text: String,
    pub scheme: String,
    pub host: Option<UrlHost>,
    /// The host as it stands in the URL.
    pub host_str: Option<String>,
    /// The port, or the one that the scheme implies where the URL gives none.
    pub port: Option<u16>,
}

/// The host of a URL.
pub enum HostView {
    Domain(Seq<char>),
    Ip(IpAddress),
}

/// The texts of `UrlParts`.
pub struct UrlView {
    pub text: Seq<char>,
    pub scheme: Seq<char>,
    pub host: Option<HostView>,
    pub host_str: Option<Seq<char>>,
    pub port: Option<u16>,
}

impl UrlView {
    /// Whether the two forms of the host agree: a domain stands in the URL as it is.
    pub open spec fn is_consistent(self) -> bool {
        self.host matches Some(HostView::Domain(domain)) ==> self.host_str == Some(domain)
    }
}

impl View for UrlHost {
    type V = HostView;

    open spec fn view(&self) -> HostView {
        match self {
            UrlHost::Domain(domain) => HostView::Domain(domain@),
            UrlHost::Ip(address) => HostView::Ip(*address),
        }
    }
}

impl View for UrlParts {
    type V = UrlView;

    open spec fn view(&self) -> UrlView {
        UrlView {
            text: self.text@,
            scheme: self.scheme@,
            host: match self.host {
                Some(host) => Some(host@),
                None => None,
            },
            host_str: match self.host_str {
                Some(host) => Some(host@),
                None => None,
            },
            port: self.port,
        }
    }
}

/// What `url::Url::parse` makes of `input`: the URL, or the text of its error.
pub uninterp spec fn url_parsed(input: Seq<char>) -> Result<UrlView, Seq<char>>;

/// What `url::Url::join` makes of `location` on the URL that `base` spells: the
/// URL, or the text of its error.
pub uninterp spec fn url_joined(base: Seq<char>, location: Seq<char>) -> Result<UrlView, Seq<char>>;

/// The texts of a parse's outcome.
pub open spec fn parse_view(outcome: Result<UrlParts, String>) -> Result<UrlView, Seq<char>> {
    match outcome {
        Ok(url) => Ok(url@),
        Err(err) => Err(err@),
    }
}

/// Calls `url::Url::parse` and takes the URL apart with its accessors. The
/// outcome depends on the text alone, and where `host` gives a domain, `host_str`
/// gives the same; how URLs are written is not said here.
#[verifier::external_body]
pub(crate) fn parse_url(input: &str) -> (outcome: Result<UrlParts, String>)
    ensures
        parse_view(outcome) == url_parsed(input@),
        outcome matches Ok(url) ==> url@.is_consistent(),
{
    let url = url::Url::parse(input).map_err(|err| err.to_string())?;
    Ok(UrlParts {
        text: url.as_str().to_string(),
        scheme: url.scheme().to_string(),
        host: url.host().map(|host| match host {
            url::Host::Domain(domain) => UrlHost::Domain(domain.to_string()),
            url::Host::Ipv4(ip) => UrlHost::Ip(IpAddress::V4(u32::from(ip))),
            url::Host::Ipv6(ip) => UrlHost::Ip(IpAddress::V6(u128::from(ip))),
        }),
        host_str: url.host_str().map(str::to_string),
        port: url.port_or_known_default(),
    })
}

/// Calls `url::Url::join` on the URL that `base` spells, which is the text of a
/// parsed URL, and takes the outcome apart with the accessors of `url::Url`. The
/// outcome depends on the two texts alone, and where `host` gives a domain,
/// `host_str` gives the same; how references are resolved is not said here.
#[verifier::external_body]
pub(crate) fn join_url(base: &str, location: &str) -> (outcome: Result<UrlParts, String>)
    ensures
        parse_view(outcome) == url_joined(base@, location@),
        outcome matches Ok(url) ==> url@.is_consistent(),
{
    let joined = url::Url::parse(base).and_then(|base| base.join(location));
    let url = joined.map_err(|err| err.to_string())?;
    Ok(UrlParts {
        text: url.as_str().to_string(),
        scheme: url.scheme().to_string(),
        host: url.host().map(|host| match host {
            url::Host::Domain(domain) => UrlHost::Domain(domain.to_string()),
            url::Host::Ipv4(ip) => UrlHost::Ip(IpAddress::V4(u32::from(ip))),
            url::Host::Ipv6(ip) => UrlHost::Ip(IpAddress::V6(u128::from(ip))),
        }),
        host_str: url.host_str().map(str::to_string),
        port: url.port_or_known_default(),
    })
}

/// What is read of a URL is what its parts hold.
pub proof fn law_url_texts(url: UrlParts)
    ensures
        url@.text == url.text@,
        url@.scheme == url.scheme@,
        url@.port == url.port,
        url.host is None <==> url@.host is None,
        url.host matches Some(UrlHost::Domain(domain)) ==> url@.host == Some(
            HostView::Domain(domain@),
        ),
        url.host matches Some(UrlHost::Ip(address)) ==> url@.host == Some(HostView::Ip(address)),
        url.host_str is None <==> url@.host_str is None,
        url.host_str matches Some(host) ==> url@.host_str == Some(host@),
        parse_view(Ok(url)) == Ok::<UrlView, Seq<char>>(url@),
{
}

} // verus!
