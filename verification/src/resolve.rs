//! Which hosts the fetch may connect to.

use vstd::prelude::*;

use crate::error::{
    non_public_url_error, respond, FunctionCallError, FETCH_URL_INCOMPLETE, FETCH_URL_NON_PUBLIC,
    FETCH_URL_SCHEME, FETCH_URL_UNVERIFIED,
};
use crate::text::{
    ascii_lower, ends_with, same_text, to_ascii_lower, trim_end_of, trimmed_end_of,
};
use crate::web_url::{HostView, IpAddress, UrlView, UrlHost, UrlParts};

verus! {

/// How long a lookup may take, in seconds.
pub const FETCH_URL_DNS_TIMEOUT_SECS: u64 = 2;

/// An address to connect to.
#[derive(Clone, Copy, Debug, PartialEq, Eq, Structural)]
#[allow(inconsistent_fields)]
pub enum SocketAddress {
    V4 { ip: u32, port: u16 },
    V6 { ip: u128, port: u16, flowinfo: u32, scope_id: u32 },
}

impl SocketAddress {
    /// The IP address.
    pub open spec fn ip(self) -> IpAddress {
        match self {
            SocketAddress::V4 { ip, .. } => IpAddress::V4(ip),
            SocketAddress::V6 { ip, .. } => IpAddress::V6(ip),
        }
    }
}

/// An address that a lookup found, and whether it is non-public.
#[derive(Clone, Copy, Debug, PartialEq, Eq, Structural)]
pub struct CheckedAddress {
    pub address: SocketAddress,
    pub non_public: bool,
}

/// The addresses that a host name stands for during a request.
#[derive(Debug, Clone, PartialEq, Eq)]
pub struct PinnedDns {
    pub host: String,
    pub addrs: Vec<SocketAddress>,
}

/// Where a request may connect to: the address that the URL itself spells, or
/// the pinned addresses of its host name.
#[derive(Debug, Clone, PartialEq, Eq)]
pub struct PublicHttpTarget {
    pub pinned_dns: Option<PinnedDns>,
}

/// The contents of a `PinnedDns`.
pub struct PinnedView {
    pub host: Seq<char>,
    pub addrs: Seq<SocketAddress>,
}

/// The contents of a `PublicHttpTarget`.
pub struct TargetView {
    pub pinned_dns: Option<PinnedView>,
}

impl View for PinnedDns {
    type V = PinnedView;

    open spec fn view(&self) -> PinnedView {
        PinnedView { host: self.host@, addrs: self.addrs@ }
    }
}

impl View for PublicHttpTarget {
    type V = TargetView;

    open spec fn view(&self) -> TargetView {
        TargetView {
            pinned_dns: match self.pinned_dns {
                Some(pinned) => Some(pinned@),
                None => None,
            },
        }
    }
}

/// The contents of a resolution's outcome.
pub open spec fn target_view(outcome: Result<PublicHttpTarget, FunctionCallError>) -> Result<
    TargetView,
    Seq<char>,
> {
    match outcome {
        Ok(target) => Ok(target@),
        Err(err) => Err(err@),
    }
}

/// Whether the fetch knows the scheme.
pub open spec fn is_http(scheme: Seq<char>) -> bool {
    scheme == "http"@ || scheme == "https"@
}

/// A host name as it is compared and looked up: without trailing dots, in lower case.
pub open spec fn normalized(domain: Seq<char>) -> Seq<char> {
    trimmed_end_of(domain, '.').map_values(|c: char| ascii_lower(c))
}

/// Whether a normalized host name is one of this machine's own.
pub open spec fn is_localhost(host: Seq<char>) -> bool {
    host == "localhost"@ || ".localhost"@.is_suffix_of(host)
}

/// What a URL calls for before it may be fetched.
pub enum Plan {
    /// Refuse it with this message.
    Refuse(Seq<char>),
    /// Find out whether the address is non-public.
    Classify(IpAddress),
    /// Find out whether the host name is an IP address in another spelling.
    ParseAddress(Seq<char>),
}

/// What `url` calls for before it may be fetched.
pub open spec fn plan(url: UrlView) -> Plan {
    if !is_http(url.scheme) {
        Plan::Refuse(FETCH_URL_SCHEME@)
    } else {
        match url.host {
            None => Plan::Refuse(FETCH_URL_INCOMPLETE@),
            Some(HostView::Ip(address)) => Plan::Classify(address),
            Some(HostView::Domain(domain)) => if is_localhost(normalized(domain)) {
                Plan::Refuse(FETCH_URL_NON_PUBLIC@)
            } else {
                Plan::ParseAddress(normalized(domain))
            },
        }
    }
}

/// The domain of a URL whose host is one.
pub open spec fn domain_of(url: UrlView) -> Seq<char> {
    match url.host {
        Some(HostView::Domain(domain)) => domain,
        _ => Seq::empty(),
    }
}

/// The port that a lookup for `url` asks with.
pub open spec fn lookup_port(url: UrlView) -> u16 {
    match url.port {
        Some(port) => port,
        None => 80,
    }
}

/// The host name that the addresses of `url`, whose host is `domain`, are pinned to.
pub open spec fn pinned_host(url: UrlView, domain: Seq<char>) -> Seq<char> {
    match url.host_str {
        Some(host) => host,
        None => domain,
    }
}

/// What becomes of an address that is non-public or not.
pub open spec fn class_outcome(non_public: bool) -> Result<TargetView, Seq<char>> {
    if non_public {
        Err(FETCH_URL_NON_PUBLIC@)
    } else {
        Ok(TargetView { pinned_dns: None })
    }
}

/// The addresses of a lookup's answer.
pub open spec fn addresses(answer: Seq<CheckedAddress>) -> Seq<SocketAddress> {
    answer.map_values(|checked: CheckedAddress| checked.address)
}

/// What becomes of a lookup's answer for `url`, whose host is `domain`. It is
/// `None` where the lookup failed or took too long.
pub open spec fn lookup_outcome(
    url: UrlView,
    domain: Seq<char>,
    answer: Option<Seq<CheckedAddress>>,
) -> Result<TargetView, Seq<char>> {
    match answer {
        None => Err(FETCH_URL_UNVERIFIED@),
        Some(found) => if found.len() == 0 {
            Err(FETCH_URL_UNVERIFIED@)
        } else if exists|i: int| 0 <= i < found.len() && (#[trigger] found[i]).non_public {
            Err(FETCH_URL_NON_PUBLIC@)
        } else {
            Ok(
                TargetView {
                    pinned_dns: Some(
                        PinnedView { host: pinned_host(url, domain), addrs: addresses(found) },
                    ),
                },
            )
        },
    }
}

/// What a URL calls for before it may be fetched.
#[derive(Debug, PartialEq, Eq)]
pub enum ResolvePlan {
    Refuse(FunctionCallError),
    Classify(IpAddress),
    ParseAddress(String),
}

impl View for ResolvePlan {
    type V = Plan;

    open spec fn view(&self) -> Plan {
        match self {
            ResolvePlan::Refuse(err) => Plan::Refuse(err@),
            ResolvePlan::Classify(address) => Plan::Classify(*address),
            ResolvePlan::ParseAddress(host) => Plan::ParseAddress(host@),
        }
    }
}

/// Decides what `url` calls for before it may be fetched.
pub fn plan_resolution(url: &UrlParts) -> (out: ResolvePlan)
    ensures
        out@ == plan(url@),
{
    if !same_text(url.scheme.as_str(), "http") && !same_text(url.scheme.as_str(), "https") {
        return ResolvePlan::Refuse(respond(FETCH_URL_SCHEME));
    }
    match &url.host {
        None => ResolvePlan::Refuse(respond(FETCH_URL_INCOMPLETE)),
        Some(UrlHost::Ip(address)) => ResolvePlan::Classify(*address),
        Some(UrlHost::Domain(domain)) => {
            let trimmed = trim_end_of(domain.as_str(), '.');
            let host = to_ascii_lower(trimmed.as_str());
            if same_text(host.as_str(), "localhost") || ends_with(host.as_str(), ".localhost") {
                ResolvePlan::Refuse(non_public_url_error())
            } else {
                ResolvePlan::ParseAddress(host)
            }
        },
    }
}

/// Refuses an address that is non-public.
pub fn reject_non_public_ip(non_public: bool) -> (outcome: Result<(), FunctionCallError>)
    ensures
        match outcome {
            Ok(_) => !non_public,
            Err(err) => non_public && err@ == FETCH_URL_NON_PUBLIC@,
        },
{
    if non_public {
        Err(non_public_url_error())
    } else {
        Ok(())
    }
}

/// Accepts an address for a request unless it is non-public.
pub fn accept_address(non_public: bool) -> (outcome: Result<
    PublicHttpTarget,
    FunctionCallError,
>)
    ensures
        target_view(outcome) == class_outcome(non_public),
{
    match reject_non_public_ip(non_public) {
        Ok(_) => Ok(PublicHttpTarget { pinned_dns: None }),
        Err(err) => Err(err),
    }
}

/// Pins the addresses of a lookup's answer, unless one is non-public.
pub fn accept_lookup(
    url: &UrlParts,
    domain: &str,
    answer: Option<Vec<CheckedAddress>>,
) -> (outcome: Result<PublicHttpTarget, FunctionCallError>)
    ensures
        target_view(outcome) == lookup_outcome(
            url@,
            domain@,
            match answer {
                Some(found) => Some(found@),
                None => None,
            },
        ),
{
    let found = match answer {
        Some(found) => found,
        None => {
            return Err(respond(FETCH_URL_UNVERIFIED));
        },
    };
    if found.len() == 0 {
        return Err(respond(FETCH_URL_UNVERIFIED));
    }
    let n: usize = found.len();
    let mut addrs: Vec<SocketAddress> = Vec::new();
    for i in 0..n
        invariant
            n == found@.len() > 0,
            answer == Some(found),
            addrs@ == addresses(found@.take(i as int)),
            forall|j: int| 0 <= j < i ==> !(#[trigger] found@[j]).non_public,
    {
        if found[i].non_public {
            assert(found@[i as int].non_public);
            return Err(non_public_url_error());
        }
        assert(found@.take(i + 1) == found@.take(i as int).push(found@[i as int]));
        addrs.push(found[i].address);
    }
    assert(found@.take(n as int) == found@);
    let host = match &url.host_str {
        Some(host) => host.clone(),
        None => domain.to_string(),
    };
    Ok(PublicHttpTarget { pinned_dns: Some(PinnedDns { host, addrs }) })
}

/// What is found out about hosts while a URL is checked.
pub struct Answers {
    /// The address that a host name spells, if it spells one.
    pub address: spec_fn(Seq<char>) -> Option<IpAddress>,
    /// Whether an address is non-public.
    pub non_public: spec_fn(IpAddress) -> bool,
    /// The addresses of a host name, or `None` where the lookup fails or takes too long.
    pub lookup: spec_fn(Seq<char>, u16) -> Option<Seq<SocketAddress>>,
}

impl Answers {
    /// The addresses of a lookup, each with whether it is non-public.
    pub open spec fn checked(self, found: Seq<SocketAddress>) -> Seq<CheckedAddress> {
        found.map_values(
            |address: SocketAddress|
                CheckedAddress { address, non_public: (self.non_public)(address.ip()) },
        )
    }

    /// Whether every one of `found` is public.
    pub open spec fn all_public(self, found: Seq<SocketAddress>) -> bool {
        forall|i: int| 0 <= i < found.len() ==> !(self.non_public)((#[trigger] found[i]).ip())
    }
}

/// What the check of `url` comes to when each of its questions is answered from
/// `answers`.
pub open spec fn resolution(url: UrlView, answers: Answers) -> Result<TargetView, Seq<char>> {
    match plan(url) {
        Plan::Refuse(message) => Err(message),
        Plan::Classify(address) => class_outcome((answers.non_public)(address)),
        Plan::ParseAddress(host) => match (answers.address)(host) {
            Some(address) => class_outcome((answers.non_public)(address)),
            None => lookup_outcome(
                url,
                domain_of(url),
                match (answers.lookup)(host, lookup_port(url)) {
                    Some(found) => Some(answers.checked(found)),
                    None => None,
                },
            ),
        },
    }
}

/// The addresses that the check of `url` has approved with `target`: the pinned
/// ones, or else the one that the host of `url` is or, by `answers`, spells.
pub open spec fn approved(url: UrlView, target: TargetView, answers: Answers) -> Set<IpAddress> {
    match target.pinned_dns {
        Some(pinned) => Set::new(
            |ip: IpAddress|
                exists|i: int|
                    0 <= i < pinned.addrs.len() && (#[trigger] pinned.addrs[i]).ip() == ip,
        ),
        None => match url.host {
            Some(HostView::Ip(address)) => set![address],
            Some(HostView::Domain(domain)) => match (answers.address)(normalized(domain)) {
                Some(address) => set![address],
                None => Set::empty(),
            },
            None => Set::empty(),
        },
    }
}

/// A URL is accepted only if it is an http or https URL with a host that is not
/// one of this machine's names, and then at least one address is approved for it,
/// and public addresses only.
pub proof fn law_accepted_is_public(url: UrlView, answers: Answers)
    ensures
        resolution(url, answers) matches Ok(target) ==> {
            &&& is_http(url.scheme)
            &&& url.host is Some
            &&& url.host matches Some(HostView::Domain(domain)) ==> !is_localhost(
                normalized(domain),
            )
            &&& approved(url, target, answers) != Set::<IpAddress>::empty()
            &&& forall|ip: IpAddress| #[trigger]
                approved(url, target, answers).contains(ip) ==> !(answers.non_public)(ip)
        },
{
    if let Ok(target) = resolution(url, answers) {
        match target.pinned_dns {
            Some(pinned) => {
                let host = normalized(domain_of(url));
                let found = (answers.lookup)(host, lookup_port(url))->0;
                let checked = answers.checked(found);
                assert(pinned.addrs == addresses(checked));
                assert(pinned.addrs == found);
                assert(found.len() == checked.len());
                assert forall|ip: IpAddress| #[trigger]
                    approved(url, target, answers).contains(ip) implies !(answers.non_public)(
                    ip,
                ) by {
                    let i = choose|i: int|
                        0 <= i < pinned.addrs.len() && (#[trigger] pinned.addrs[i]).ip() == ip;
                    assert(!checked[i].non_public);
                }
                assert(approved(url, target, answers).contains(pinned.addrs[0].ip()));
            },
            None => {
                match url.host {
                    Some(HostView::Ip(address)) => {
                        assert(approved(url, target, answers).contains(address));
                    },
                    Some(HostView::Domain(domain)) => {
                        let address = (answers.address)(normalized(domain))->0;
                        assert(approved(url, target, answers).contains(address));
                    },
                    None => {},
                }
            },
        }
    }
}

/// Whether the host of `url`, which is a domain, is known to have no non-public
/// address by `answers`: it spells a public one, or its lookup finds some
/// addresses, all of them public.
pub open spec fn domain_is_public(url: UrlView, domain: Seq<char>, answers: Answers) -> bool {
    match (answers.address)(normalized(domain)) {
        Some(address) => !(answers.non_public)(address),
        None => match (answers.lookup)(normalized(domain), lookup_port(url)) {
            Some(found) => found.len() > 0 && answers.all_public(found),
            None => false,
        },
    }
}

/// A URL is accepted exactly if it is an http or https URL whose host is a public
/// address, or a name that is none of this machine's and has no non-public
/// address.
pub proof fn law_accepted_exactly(url: UrlView, answers: Answers)
    ensures
        resolution(url, answers) is Ok <==> is_http(url.scheme) && match url.host {
            Some(HostView::Ip(address)) => !(answers.non_public)(address),
            Some(HostView::Domain(domain)) => !is_localhost(normalized(domain)) && domain_is_public(
                url,
                domain,
                answers,
            ),
            None => false,
        },
{
    if let Plan::ParseAddress(host) = plan(url) {
        if let Some(found) = (answers.lookup)(host, lookup_port(url)) {
            lemma_checked(answers, found);
        }
    }
}

proof fn lemma_checked(answers: Answers, found: Seq<SocketAddress>)
    ensures
        answers.checked(found).len() == found.len(),
        answers.all_public(found) <==> !exists|i: int|
            0 <= i < answers.checked(found).len() && (#[trigger] answers.checked(
                found,
            )[i]).non_public,
{
    let checked = answers.checked(found);
    if answers.all_public(found) {
        assert forall|i: int|
            0 <= i < checked.len() implies !(#[trigger] checked[i]).non_public by {
            assert(!(answers.non_public)(found[i].ip()));
        }
    } else {
        let i = choose|i: int|
            0 <= i < found.len() && (answers.non_public)((#[trigger] found[i]).ip());
        assert(checked[i].non_public);
    }
}

proof fn lemma_messages_differ()
    ensures
        FETCH_URL_SCHEME@ != FETCH_URL_INCOMPLETE@,
        FETCH_URL_SCHEME@ != FETCH_URL_UNVERIFIED@,
        FETCH_URL_SCHEME@ != FETCH_URL_NON_PUBLIC@,
        FETCH_URL_INCOMPLETE@ != FETCH_URL_UNVERIFIED@,
        FETCH_URL_INCOMPLETE@ != FETCH_URL_NON_PUBLIC@,
        FETCH_URL_UNVERIFIED@ != FETCH_URL_NON_PUBLIC@,
{
    reveal_strlit("FetchURL does not fetch private or loopback addresses.");
    reveal_strlit("FetchURL supports only http and https URLs.");
    reveal_strlit("FetchURL requires a fully-formed public http or https URL.");
    reveal_strlit("FetchURL could not verify that the URL is public.");
    assert(FETCH_URL_NON_PUBLIC@[9] == 'd');
    assert(FETCH_URL_SCHEME@[9] == 's');
    assert(FETCH_URL_INCOMPLETE@[9] == 'r');
    assert(FETCH_URL_UNVERIFIED@[9] == 'c');
}

/// Each refusal tells its reason: the scheme, a missing host, a lookup without an
/// answer, or, in every other case, a private or loopback address.
pub proof fn law_refusals(url: UrlView, answers: Answers)
    ensures
        resolution(url, answers) == Err::<TargetView, Seq<char>>(FETCH_URL_SCHEME@) <==> !is_http(
            url.scheme,
        ),
        resolution(url, answers) == Err::<TargetView, Seq<char>>(FETCH_URL_INCOMPLETE@) <==> {
            &&& is_http(url.scheme)
            &&& url.host is None
        },
        resolution(url, answers) == Err::<TargetView, Seq<char>>(FETCH_URL_UNVERIFIED@) <==> {
            &&& is_http(url.scheme)
            &&& url.host matches Some(HostView::Domain(domain))
            &&& !is_localhost(normalized(domain))
            &&& (answers.address)(normalized(domain)) is None
            &&& match (answers.lookup)(normalized(domain), lookup_port(url)) {
                Some(found) => found.len() == 0,
                None => true,
            }
        },
        resolution(url, answers) matches Err(message) ==> {
            ||| message == FETCH_URL_SCHEME@
            ||| message == FETCH_URL_INCOMPLETE@
            ||| message == FETCH_URL_UNVERIFIED@
            ||| message == FETCH_URL_NON_PUBLIC@
        },
{
    lemma_messages_differ();
}

/// The names of this machine are refused before any question is asked, and so
/// whatever the answers would be.
pub proof fn law_local_names_are_refused(url: UrlView, domain: Seq<char>, answers: Answers)
    requires
        url.host == Some(HostView::Domain(domain)),
        is_localhost(normalized(domain)),
        is_http(url.scheme),
    ensures
        plan(url) == Plan::Refuse(FETCH_URL_NON_PUBLIC@),
        resolution(url, answers) == Err::<TargetView, Seq<char>>(FETCH_URL_NON_PUBLIC@),
{
}

/// Only the scheme, the host and the port of a URL matter: two parsed URLs that
/// have these in common are checked by the same questions and come to the same
/// target or refusal, whatever their paths, queries, fragments and user names are.
pub proof fn law_only_scheme_host_and_port(a: UrlView, b: UrlView, answers: Answers)
    requires
        a.scheme == b.scheme,
        a.host == b.host,
        a.port == b.port,
        a.host_str == b.host_str || (a.is_consistent() && b.is_consistent()),
    ensures
        plan(a) == plan(b),
        lookup_port(a) == lookup_port(b),
        resolution(a, answers) == resolution(b, answers),
{
}

/// A host name may end in dots and be written in capitals: it is compared and
/// looked up as the same name.
pub proof fn law_spelling_of_hosts(domain: Seq<char>)
    ensures
        normalized(domain.push('.')) == normalized(domain),
        normalized(domain.map_values(|c: char| ascii_lower(c))) == normalized(domain),
        normalized(normalized(domain)) == normalized(domain),
{
    assert(domain.push('.').drop_last() == domain);
    lemma_lower_then_trim(domain);
    lemma_trim_end_is_final(domain, '.');
    lemma_lower_then_trim(trimmed_end_of(domain, '.'));
}

proof fn lemma_trim_end_is_final(s: Seq<char>, c: char)
    ensures
        trimmed_end_of(trimmed_end_of(s, c), c) == trimmed_end_of(s, c),
    decreases s.len(),
{
    if s.len() > 0 && s.last() == c {
        lemma_trim_end_is_final(s.drop_last(), c);
    }
}

proof fn lemma_lower_then_trim(s: Seq<char>)
    ensures
        trimmed_end_of(s.map_values(|c: char| ascii_lower(c)), '.') == trimmed_end_of(
            s,
            '.',
        ).map_values(|c: char| ascii_lower(c)),
        s.map_values(|c: char| ascii_lower(c)).map_values(|c: char| ascii_lower(c))
            == s.map_values(|c: char| ascii_lower(c)),
    decreases s.len(),
{
    let lower = s.map_values(|c: char| ascii_lower(c));
    if s.len() > 0 {
        assert(lower.drop_last() == s.drop_last().map_values(|c: char| ascii_lower(c)));
        assert(lower.last() == ascii_lower(s.last()));
        lemma_lower_then_trim(s.drop_last());
    }
}

/// Addresses are pinned to the very host name that stands in the URL, they are all
/// those that the lookup of this name found, in order, and they are pinned exactly
/// where the host is a name that spells no address.
pub proof fn law_pinned_to_the_host(url: UrlView, answers: Answers)
    requires
        url.is_consistent(),
    ensures
        resolution(url, answers) matches Ok(target) ==> match target.pinned_dns {
            Some(pinned) => {
                &&& url.host == Some(HostView::Domain(pinned.host))
                &&& (answers.address)(normalized(pinned.host)) is None
                &&& (answers.lookup)(
                    normalized(pinned.host),
                    match url.port {
                        Some(port) => port,
                        None => 80,
                    },
                ) == Some(pinned.addrs)
            },
            None => {
                ||| url.host matches Some(HostView::Ip(_))
                ||| url.host matches Some(HostView::Domain(domain)) && (answers.address)(
                    normalized(domain),
                ) is Some
            },
        },
{
    if let Plan::ParseAddress(host) = plan(url) {
        if let Some(found) = (answers.lookup)(host, lookup_port(url)) {
            assert(addresses(answers.checked(found)) == found);
        }
    }
}

/// What a URL calls for is decided by its scheme first, and then by its host: an
/// address is classified, a name of this machine is refused, and any other name is
/// asked about in its normalized spelling.
pub proof fn law_plan(url: UrlView)
    ensures
        ({
            if url.scheme != "http"@ && url.scheme != "https"@ {
                plan(url) == Plan::Refuse("FetchURL supports only http and https URLs."@)
            } else {
                match url.host {
                    None => plan(url) == Plan::Refuse(
                        "FetchURL requires a fully-formed public http or https URL."@,
                    ),
                    Some(HostView::Ip(address)) => plan(url) == Plan::Classify(address),
                    Some(HostView::Domain(domain)) => {
                        if normalized(domain) == "localhost"@ || exists|name: Seq<char>|
                            #![trigger name + ".localhost"@]
                            normalized(domain) == name + ".localhost"@ {
                            plan(url) == Plan::Refuse(
                                "FetchURL does not fetch private or loopback addresses."@,
                            )
                        } else {
                            plan(url) == Plan::ParseAddress(normalized(domain))
                        }
                    },
                }
            }
        }),
{
    if let Some(HostView::Domain(domain)) = url.host {
        let host = normalized(domain);
        let suffix = ".localhost"@;
        let n = host.len() - suffix.len();
        if suffix.is_suffix_of(host) {
            assert(host == host.take(n) + suffix);
        }
        if exists|name: Seq<char>|
            #![trigger name + ".localhost"@]
            host == name + ".localhost"@ {
            let name = choose|name: Seq<char>|
                #![trigger name + ".localhost"@]
                host == name + ".localhost"@;
            assert(suffix == host.subrange(n, host.len() as int));
        }
    }
}

/// A host name that does not end in a dot keeps its characters when it is
/// normalized, but for capitals, which become small letters.
pub proof fn law_normalized(domain: Seq<char>)
    requires
        domain.len() > 0 ==> domain.last() != '.',
    ensures
        normalized(domain).len() == domain.len(),
        forall|i: int|
            0 <= i < domain.len() ==> (#[trigger] normalized(domain)[i]) as u32 == if 65
                <= domain[i] as u32 <= 90 {
                domain[i] as u32 + 32
            } else {
                domain[i] as int
            },
{
}

/// A host is looked up with the port of the URL, or else with port 80.
pub proof fn law_lookup_port(url: UrlView, port: u16)
    ensures
        url.port == Some(port) ==> lookup_port(url) == port,
        url.port is None ==> lookup_port(url) == 80,
{
}

/// An address is accepted as it is, with nothing pinned, or refused if it is
/// non-public.
pub proof fn law_class_outcome()
    ensures
        class_outcome(false) == Ok::<TargetView, Seq<char>>(TargetView { pinned_dns: None }),
        class_outcome(true) == Err::<TargetView, Seq<char>>(
            "FetchURL does not fetch private or loopback addresses."@,
        ),
{
}

/// A lookup that failed or found nothing leaves the host unverified; one non-public
/// address among those found, wherever it stands, has the host refused; else all of
/// them are pinned, in order, to the host as it stands in the URL.
pub proof fn law_lookup_outcome(url: UrlView, domain: Seq<char>, found: Seq<CheckedAddress>)
    ensures
        lookup_outcome(url, domain, None) == Err::<TargetView, Seq<char>>(
            "FetchURL could not verify that the URL is public."@,
        ),
        found.len() == 0 ==> lookup_outcome(url, domain, Some(found)) == Err::<
            TargetView,
            Seq<char>,
        >("FetchURL could not verify that the URL is public."@),
        forall|i: int|
            0 <= i < found.len() && (#[trigger] found[i]).non_public ==> lookup_outcome(
                url,
                domain,
                Some(found),
            ) == Err::<TargetView, Seq<char>>(
                "FetchURL does not fetch private or loopback addresses."@,
            ),
        found.len() > 0 && (forall|i: int|
            0 <= i < found.len() ==> !(#[trigger] found[i]).non_public) ==> {
            &&& lookup_outcome(url, domain, Some(found)) matches Ok(target)
            &&& target.pinned_dns matches Some(pinned)
            &&& pinned.host == url.host_str.unwrap_or(domain)
            &&& pinned.addrs.len() == found.len()
            &&& forall|i: int|
                0 <= i < found.len() ==> #[trigger] pinned.addrs[i] == found[i].address
        },
{
}

/// Each address that a lookup found is classified by itself.
pub proof fn law_checked(answers: Answers, found: Seq<SocketAddress>)
    ensures
        answers.checked(found).len() == found.len(),
        forall|i: int|
            0 <= i < found.len() ==> (#[trigger] answers.checked(found)[i]).address == found[i],
        forall|i: int|
            0 <= i < found.len() ==> (#[trigger] answers.checked(found)[i]).non_public == (
            answers.non_public)(
                match found[i] {
                    SocketAddress::V4 { ip, .. } => IpAddress::V4(ip),
                    SocketAddress::V6 { ip, .. } => IpAddress::V6(ip),
                },
            ),
{
}

/// A target holds what is pinned, name and addresses.
pub proof fn law_target_contents(target: PublicHttpTarget)
    ensures
        target.pinned_dns is None ==> target@.pinned_dns is None,
        target.pinned_dns matches Some(pinned) ==> {
            &&& target@.pinned_dns == Some(pinned@)
            &&& pinned@.host == pinned.host@
            &&& pinned@.addrs == pinned.addrs@
        },
        target_view(Ok(target)) == Ok::<TargetView, Seq<char>>(target@),
{
}

/// The domain of a URL is the host that it has.
pub proof fn law_domain_of(url: UrlView, domain: Seq<char>)
    ensures
        url.host == Some(HostView::Domain(domain)) ==> domain_of(url) == domain,
{
}

} // verus!
