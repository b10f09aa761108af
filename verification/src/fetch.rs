//! The fetch of a page, from its URL to the text that the model gets.
//!
//! Each step names one thing to find out or to do outside, and takes the answer.

use vstd::pervasive::unreached;
use vstd::prelude::*;

use crate::body::{too_large, BodyReader, MAX_FETCH_BODY_BYTES};
use crate::error::{
    fetch_failed, http_failure, invalid_url, respond, FunctionCallError, FETCH_URL_TOO_LARGE,
    FETCH_URL_TOO_MANY_REDIRECTS,
};
use crate::page::{extract_page_text, page_text};
use crate::resolve::{
    accept_address, accept_lookup, class_outcome, domain_of, lookup_outcome, lookup_port, plan,
    plan_resolution, resolution, Answers, CheckedAddress, PinnedDns, PinnedView, Plan,
    PublicHttpTarget, ResolvePlan, SocketAddress, TargetView, FETCH_URL_DNS_TIMEOUT_SECS,
};
use crate::text::{decimal, law_trimmed_end_of, same_text, trim_end_of, trimmed_end_of};
use crate::tool::{text_output, FunctionToolOutput};
use crate::web_url::{
    join_url, parse_url, parse_view, url_joined, url_parsed, HostView, IpAddress, UrlHost, UrlParts,
    UrlView,
};

verus! {

/// How many redirects a fetch follows.
pub const MAX_FETCH_URL_REDIRECTS: usize = 10;

/// How long a request may take, in seconds.
pub const FETCH_URL_REQUEST_TIMEOUT_SECS: u64 = 30;

/// What the model is told before the text of a page.
pub const FETCH_URL_PREAMBLE: &'static str =
    "The returned content is the main text extracted from the page. If you use it in your answer, cite this page as a markdown link, e.g. [title](url).\n\n";

/// The text of a status code, as `reqwest::StatusCode` displays it.
pub uninterp spec fn status_text(code: u16) -> Seq<char>;

/// Makes a `reqwest::StatusCode` with `from_u16` and displays it: the code, a
/// space, and a reason that depends on the code alone.
#[verifier::external_body]
fn display_status(code: u16) -> (text: String)
    requires
        100 <= code <= 999,
    ensures
        text@ == status_text(code),
        (decimal(code as nat) + " "@).is_prefix_of(text@),
{
    reqwest::StatusCode::from_u16(code).unwrap().to_string()
}

/// What the fetch looks at in a response before it reads the body.
#[derive(Debug)]
pub struct ResponseHead {
    pub status: u16,
    /// The value of the `Location` header.
    pub location: Option<Vec<u8>>,
    /// The length that the body is announced with.
    pub content_length: Option<u64>,
}

/// The contents of a `ResponseHead`.
pub struct HeadView {
    pub status: u16,
    pub location: Option<Seq<u8>>,
    pub content_length: Option<u64>,
}

impl View for ResponseHead {
    type V = HeadView;

    open spec fn view(&self) -> HeadView {
        HeadView {
            status: self.status,
            location: match self.location {
                Some(bytes) => Some(bytes@),
                None => None,
            },
            content_length: self.content_length,
        }
    }
}

/// Whether a status asks to look elsewhere.
pub open spec fn is_redirection(status: u16) -> bool {
    300 <= status < 400
}

/// Whether a status tells of success.
pub open spec fn is_success(status: u16) -> bool {
    200 <= status < 300
}

/// Whether a byte of a header value is a visible ASCII character, a space or a tab.
pub open spec fn visible_ascii(byte: u8) -> bool {
    32 <= byte < 127 || byte == 9
}

/// The text of a header value, where it has one.
pub open spec fn header_text(bytes: Seq<u8>) -> Option<Seq<char>> {
    if forall|i: int| 0 <= i < bytes.len() ==> visible_ascii(#[trigger] bytes[i]) {
        Some(bytes.map_values(|b: u8| b as char))
    } else {
        None
    }
}

/// The message for a response with `status`.
pub open spec fn status_failure(status: u16) -> Seq<char> {
    "FetchURL failed with HTTP "@ + status_text(status) + "."@
}

/// Whether the text of `status`, and with it the message for a response that has
/// it, names the code.
pub open spec fn names_code(status: u16) -> bool {
    &&& (decimal(status as nat) + " "@).is_prefix_of(status_text(status))
    &&& ("FetchURL failed with HTTP "@ + decimal(status as nat) + " "@).is_prefix_of(
        status_failure(status),
    )
}

/// A URL that is to be fetched, and how many redirects led to it.
pub struct Fetching {
    pub url: UrlView,
    pub redirects: nat,
}

/// What follows on a response.
pub enum Next {
    /// Fetch from here.
    Redirect(Fetching),
    /// Read the body.
    Read,
    /// Give up with this message.
    Fail(Seq<char>),
}

/// Where `fetch` goes on when a redirect's reference was resolved to `joined`.
pub open spec fn redirect_outcome(fetch: Fetching, joined: Result<UrlView, Seq<char>>) -> Next {
    if fetch.redirects >= MAX_FETCH_URL_REDIRECTS {
        Next::Fail(FETCH_URL_TOO_MANY_REDIRECTS@)
    } else {
        match joined {
            Ok(url) => Next::Redirect(Fetching { url, redirects: fetch.redirects + 1 }),
            Err(err) => Next::Fail("Invalid URL: "@ + err),
        }
    }
}

/// Where a `Location` header leads from `fetch`.
pub open spec fn location_outcome(fetch: Fetching, status: u16, location: Option<Seq<u8>>) -> Next {
    match location {
        None => Next::Fail(status_failure(status)),
        Some(bytes) => match header_text(bytes) {
            None => Next::Fail(status_failure(status)),
            Some(text) => redirect_outcome(fetch, url_joined(fetch.url.text, text)),
        },
    }
}

/// What follows on the response `head` to a request for `fetch`.
pub open spec fn response_outcome(fetch: Fetching, head: HeadView) -> Next {
    if is_redirection(head.status) {
        if fetch.redirects >= MAX_FETCH_URL_REDIRECTS {
            Next::Fail(FETCH_URL_TOO_MANY_REDIRECTS@)
        } else {
            location_outcome(fetch, head.status, head.location)
        }
    } else if !is_success(head.status) {
        Next::Fail(status_failure(head.status))
    } else if too_large(head.content_length) {
        Next::Fail(FETCH_URL_TOO_LARGE@)
    } else {
        Next::Read
    }
}

/// What a client got in answer to a request: the head of a response, or what it
/// reports in place of one.
pub open spec fn answer_view(response: Result<ResponseHead, String>) -> Result<
    HeadView,
    Seq<char>,
> {
    match response {
        Ok(head) => Ok(head@),
        Err(detail) => Err(detail@),
    }
}

/// What follows on what a client got in answer to a request for `fetch`.
pub open spec fn request_outcome(fetch: Fetching, response: Result<HeadView, Seq<char>>) -> Next {
    match response {
        Ok(head) => response_outcome(fetch, head),
        Err(detail) => Next::Fail("FetchURL failed: "@ + detail),
    }
}

/// A URL that is to be fetched once its host has been checked.
#[derive(Debug)]
pub struct FetchUrl {
    url: UrlParts,
    redirects: usize,
}

/// A question: is this host name an IP address in another spelling?
#[derive(Debug)]
pub struct AddressParse {
    fetch: FetchUrl,
    host: String,
}

/// A question: is this address non-public?
#[derive(Debug)]
pub struct AddressCheck {
    fetch: FetchUrl,
    address: IpAddress,
}

/// A question: which addresses does this host name have?
#[derive(Debug)]
pub struct HostLookup {
    fetch: FetchUrl,
    host: String,
    port: u16,
}

/// A request that may be sent.
#[derive(Debug)]
pub struct Request {
    fetch: FetchUrl,
    target: PublicHttpTarget,
}

/// What the check of a host calls for.
#[derive(Debug)]
pub enum ResolveStep {
    ParseAddress(AddressParse),
    Classify(AddressCheck),
    Lookup(HostLookup),
    Send(Request),
    Refuse(FunctionCallError),
}

/// What a response calls for.
#[derive(Debug)]
pub enum FetchStep {
    Redirect(FetchUrl),
    Read(BodyReader),
    Fail(FunctionCallError),
}

impl View for FetchUrl {
    type V = Fetching;

    closed spec fn view(&self) -> Fetching {
        Fetching { url: self.url@, redirects: self.redirects as nat }
    }
}

/// Whether `step` is what becomes of `fetch` with the outcome `target`.
pub open spec fn concludes(
    step: ResolveStep,
    fetch: FetchUrl,
    target: Result<TargetView, Seq<char>>,
) -> bool {
    match (step, target) {
        (ResolveStep::Send(request), Ok(target)) => request.fetch() == fetch && request.target()
            == target,
        (ResolveStep::Refuse(err), Err(message)) => err@ == message,
        _ => false,
    }
}

/// Whether `step` is the one that `next` describes.
pub open spec fn takes(step: FetchStep, next: Next) -> bool {
    match (step, next) {
        (FetchStep::Redirect(fetch), Next::Redirect(next)) => fetch@ == next,
        (FetchStep::Read(reader), Next::Read) => reader@ == Seq::<u8>::empty(),
        (FetchStep::Fail(err), Next::Fail(message)) => err@ == message,
        _ => false,
    }
}

/// Accepts what a parse made of a URL, or says what is wrong with it.
pub fn accept_url(outcome: Result<UrlParts, String>) -> (url: Result<UrlParts, FunctionCallError>)
    ensures
        match (outcome, url) {
            (Ok(parts), Ok(url)) => url == parts,
            (Err(detail), Err(err)) => err@ == "Invalid URL: "@ + detail@,
            _ => false,
        },
{
    match outcome {
        Ok(url) => Ok(url),
        Err(detail) => Err(invalid_url(detail.as_str())),
    }
}

impl FetchUrl {
    #[verifier::type_invariant]
    spec fn inv(self) -> bool {
        self.redirects <= MAX_FETCH_URL_REDIRECTS
    }

    /// Starts to fetch `url`.
    pub fn new(url: UrlParts) -> (fetch: FetchUrl)
        ensures
            fetch@ == (Fetching { url: url@, redirects: 0 }),
    {
        FetchUrl { url, redirects: 0 }
    }

    /// Starts to fetch the URL that `text` spells.
    pub fn parse(text: &str) -> (fetch: Result<FetchUrl, FunctionCallError>)
        ensures
            fetch matches Ok(fetch) ==> fetch@.url.is_consistent(),
            match (url_parsed(text@), fetch) {
                (Ok(url), Ok(fetch)) => fetch@ == (Fetching { url, redirects: 0 }),
                (Err(detail), Err(err)) => err@ == "Invalid URL: "@ + detail,
                _ => false,
            },
    {
        match accept_url(parse_url(text)) {
            Ok(url) => Ok(FetchUrl::new(url)),
            Err(err) => Err(err),
        }
    }

    /// Goes on where a redirect leads whose reference was resolved to `joined`.
    pub fn redirected(self, joined: Result<UrlParts, String>) -> (step: FetchStep)
        ensures
            takes(step, redirect_outcome(self@, parse_view(joined))),
    {
        if self.redirects >= MAX_FETCH_URL_REDIRECTS {
            return FetchStep::Fail(respond(FETCH_URL_TOO_MANY_REDIRECTS));
        }
        match accept_url(joined) {
            Ok(url) => FetchStep::Redirect(FetchUrl { url, redirects: self.redirects + 1 }),
            Err(err) => FetchStep::Fail(err),
        }
    }

    /// What has to be found out about the host before the URL may be fetched.
    pub fn resolve(self) -> (step: ResolveStep)
        ensures
            match (plan(self@.url), step) {
                (Plan::Refuse(message), ResolveStep::Refuse(err)) => err@ == message,
                (Plan::Classify(address), ResolveStep::Classify(check)) => check.fetch() == self
                    && check.address() == address,
                (Plan::ParseAddress(host), ResolveStep::ParseAddress(parse)) => parse.fetch()
                    == self && parse.host() == host,
                _ => false,
            },
    {
        match plan_resolution(&self.url) {
            ResolvePlan::Refuse(err) => ResolveStep::Refuse(err),
            ResolvePlan::Classify(address) => ResolveStep::Classify(
                AddressCheck { fetch: self, address },
            ),
            ResolvePlan::ParseAddress(host) => ResolveStep::ParseAddress(
                AddressParse { fetch: self, host },
            ),
        }
    }
}

impl AddressParse {
    #[verifier::type_invariant]
    spec fn inv(self) -> bool {
        plan(self.fetch.url@) == Plan::ParseAddress(self.host@)
    }

    /// The fetch that waits.
    pub closed spec fn fetch(&self) -> FetchUrl {
        self.fetch
    }

    /// The host name in question.
    pub closed spec fn host(&self) -> Seq<char> {
        self.host@
    }

    /// The host name in question.
    pub fn host_name(&self) -> (host: &str)
        ensures
            host@ == self.host(),
    {
        self.host.as_str()
    }

    /// Takes the address that the host name spells, if it spells one.
    pub fn answer(self, address: Option<IpAddress>) -> (step: ResolveStep)
        ensures
            plan(self.fetch()@.url) == Plan::ParseAddress(self.host()),
            match (address, step) {
                (Some(address), ResolveStep::Classify(check)) => check.fetch() == self.fetch()
                    && check.address() == address,
                (None, ResolveStep::Lookup(lookup)) => lookup.fetch() == self.fetch()
                    && lookup.host() == self.host() && lookup.port() == lookup_port(
                    self.fetch()@.url,
                ),
                _ => false,
            },
    {
        proof {
            use_type_invariant(&self);
        }
        match address {
            Some(address) => ResolveStep::Classify(AddressCheck { fetch: self.fetch, address }),
            None => {
                let port: u16 = match self.fetch.url.port {
                    Some(port) => port,
                    None => 80,
                };
                ResolveStep::Lookup(HostLookup { fetch: self.fetch, host: self.host, port })
            },
        }
    }
}

impl AddressCheck {
    #[verifier::type_invariant]
    spec fn inv(self) -> bool {
        !(plan(self.fetch.url@) is Refuse)
    }

    /// The fetch that waits.
    pub closed spec fn fetch(&self) -> FetchUrl {
        self.fetch
    }

    /// The address in question.
    pub closed spec fn address(&self) -> IpAddress {
        self.address
    }

    /// The address in question.
    pub fn ip_address(&self) -> (address: IpAddress)
        ensures
            address == self.address(),
    {
        self.address
    }

    /// Takes whether the address is non-public.
    pub fn answer(self, non_public: bool) -> (step: ResolveStep)
        ensures
            concludes(step, self.fetch(), class_outcome(non_public)),
    {
        proof {
            use_type_invariant(&self);
        }
        match accept_address(non_public) {
            Ok(target) => ResolveStep::Send(Request { fetch: self.fetch, target }),
            Err(err) => ResolveStep::Refuse(err),
        }
    }
}

impl HostLookup {
    #[verifier::type_invariant]
    spec fn inv(self) -> bool {
        &&& plan(self.fetch.url@) == Plan::ParseAddress(self.host@)
        &&& self.port == lookup_port(self.fetch.url@)
    }

    /// The fetch that waits.
    pub closed spec fn fetch(&self) -> FetchUrl {
        self.fetch
    }

    /// The host name to look up.
    pub closed spec fn host(&self) -> Seq<char> {
        self.host@
    }

    /// The port to look it up with.
    pub closed spec fn port(&self) -> u16 {
        self.port
    }

    /// The host name to look up.
    pub fn host_name(&self) -> (host: &str)
        ensures
            host@ == self.host(),
    {
        self.host.as_str()
    }

    /// The port to look it up with.
    pub fn port_number(&self) -> (port: u16)
        ensures
            port == self.port(),
    {
        self.port
    }

    /// Takes the addresses that were found, each with whether it is non-public,
    /// or `None` where the lookup failed or took too long.
    pub fn answer(self, answer: Option<Vec<CheckedAddress>>) -> (step: ResolveStep)
        ensures
            plan(self.fetch()@.url) == Plan::ParseAddress(self.host()),
            concludes(
                step,
                self.fetch(),
                lookup_outcome(
                    self.fetch()@.url,
                    domain_of(self.fetch()@.url),
                    match answer {
                        Some(found) => Some(found@),
                        None => None,
                    },
                ),
            ),
    {
        proof {
            use_type_invariant(&self);
        }
        let outcome = match &self.fetch.url.host {
            Some(UrlHost::Domain(domain)) => accept_lookup(
                &self.fetch.url,
                domain.as_str(),
                answer,
            ),
            _ => unreached(),
        };
        match outcome {
            Ok(target) => ResolveStep::Send(Request { fetch: self.fetch, target }),
            Err(err) => ResolveStep::Refuse(err),
        }
    }
}

/// What is known of a host, of which the check of a URL uses what it asks for.
#[derive(Debug)]
pub struct HostAnswers {
    /// The address that the host name spells, if it spells one.
    pub address: Option<IpAddress>,
    /// Whether the address that the host is or spells is non-public.
    pub non_public: bool,
    /// The addresses that a lookup finds, or `None` where it fails or takes too long.
    pub found: Option<Vec<CheckedAddress>>,
}

/// What the check of `url` comes to with what is `known` of its host.
pub open spec fn known_outcome(url: UrlView, known: HostAnswers) -> Result<
    TargetView,
    Seq<char>,
> {
    match plan(url) {
        Plan::Refuse(message) => Err(message),
        Plan::Classify(_) => class_outcome(known.non_public),
        Plan::ParseAddress(_) => if known.address is Some {
            class_outcome(known.non_public)
        } else {
            lookup_outcome(
                url,
                domain_of(url),
                match known.found {
                    Some(found) => Some(found@),
                    None => None,
                },
            )
        },
    }
}

/// Whether `answers` gives what is `known` wherever the check of `url` asks.
pub open spec fn agrees(answers: Answers, url: UrlView, known: HostAnswers) -> bool {
    match plan(url) {
        Plan::Refuse(_) => true,
        Plan::Classify(address) => (answers.non_public)(address) == known.non_public,
        Plan::ParseAddress(host) => {
            &&& (answers.address)(host) == known.address
            &&& match known.address {
                Some(address) => (answers.non_public)(address) == known.non_public,
                None => match ((answers.lookup)(host, lookup_port(url)), known.found) {
                    (Some(addrs), Some(found)) => answers.checked(addrs) == found@,
                    (None, None) => true,
                    _ => false,
                },
            }
        },
    }
}

/// Checks the host of `fetch` from its first question to the last, each answered
/// from what is `known`.
pub fn resolve_known(fetch: FetchUrl, known: HostAnswers) -> (step: ResolveStep)
    ensures
        concludes(step, fetch, known_outcome(fetch@.url, known)),
        forall|answers: Answers| #[trigger]
            agrees(answers, fetch@.url, known) ==> concludes(
                step,
                fetch,
                resolution(fetch@.url, answers),
            ),
{
    let HostAnswers { address, non_public, found } = known;
    match fetch.resolve() {
        ResolveStep::ParseAddress(parse) => match parse.answer(address) {
            ResolveStep::Classify(check) => check.answer(non_public),
            ResolveStep::Lookup(lookup) => lookup.answer(found),
            step => step,
        },
        ResolveStep::Classify(check) => check.answer(non_public),
        step => step,
    }
}

/// How the HTTP client is set up for a request.
#[derive(Debug, PartialEq, Eq)]
pub struct ClientPlan {
    /// Whether the client follows redirects by itself.
    pub follow_redirects: bool,
    /// How long a request may take, in seconds.
    pub timeout_secs: u64,
    /// The host names whose addresses are given, in place of a lookup.
    pub overrides: Vec<PinnedDns>,
}

/// The host names that the client is given addresses for: the pinned one, and
/// that one without trailing dots where it has some.
pub open spec fn overrides(pinned: Option<PinnedView>) -> Seq<PinnedView> {
    match pinned {
        None => Seq::empty(),
        Some(pinned) => {
            let bare = trimmed_end_of(pinned.host, '.');
            if bare == pinned.host {
                seq![pinned]
            } else {
                seq![pinned, PinnedView { host: bare, addrs: pinned.addrs }]
            }
        },
    }
}

/// The contents of a list of overrides.
pub open spec fn pinned_views(pinned: Seq<PinnedDns>) -> Seq<PinnedView> {
    pinned.map_values(|p: PinnedDns| p@)
}

/// `pinned` under the name `host`.
fn pin_as(host: String, pinned: &PinnedDns) -> (out: PinnedDns)
    ensures
        out@ == (PinnedView { host: host@, addrs: pinned@.addrs }),
{
    let n: usize = pinned.addrs.len();
    let mut addrs: Vec<SocketAddress> = Vec::new();
    for i in 0..n
        invariant
            n == pinned.addrs@.len(),
            addrs@ == pinned.addrs@.take(i as int),
    {
        addrs.push(pinned.addrs[i]);
    }
    assert(addrs@ == pinned.addrs@);
    PinnedDns { host, addrs }
}

/// Sets up the client: it follows no redirect, gives up in time, and is given the
/// pinned addresses.
pub fn fetch_client_plan(pinned_dns: Option<&PinnedDns>) -> (client: ClientPlan)
    ensures
        !client.follow_redirects,
        client.timeout_secs == FETCH_URL_REQUEST_TIMEOUT_SECS,
        pinned_views(client.overrides@) == overrides(
            match pinned_dns {
                Some(pinned) => Some(pinned@),
                None => None,
            },
        ),
{
    let mut list: Vec<PinnedDns> = Vec::new();
    if let Some(pinned) = pinned_dns {
        list.push(pin_as(pinned.host.clone(), pinned));
        let bare = trim_end_of(pinned.host.as_str(), '.');
        let ghost first = list@[0]@;
        assert(first == pinned@);
        if !same_text(bare.as_str(), pinned.host.as_str()) {
            list.push(pin_as(bare, pinned));
        }
    }
    let client = ClientPlan {
        follow_redirects: false,
        timeout_secs: FETCH_URL_REQUEST_TIMEOUT_SECS,
        overrides: list,
    };
    assert(pinned_views(client.overrides@) == overrides(
        match pinned_dns {
            Some(pinned) => Some(pinned@),
            None => None,
        },
    ));
    client
}

/// The text of a header value, where every byte is visible ASCII.
pub fn header_value_text(bytes: &[u8]) -> (text: Option<String>)
    ensures
        match text {
            Some(text) => header_text(bytes@) == Some(text@),
            None => header_text(bytes@) is None,
        },
{
    let mut text = String::new();
    let n: usize = bytes.len();
    for i in 0..n
        invariant
            n == bytes@.len(),
            text@ == bytes@.take(i as int).map_values(|b: u8| b as char),
            forall|j: int| 0 <= j < i ==> visible_ascii(#[trigger] bytes@[j]),
    {
        let byte: u8 = bytes[i];
        if !((32 <= byte && byte < 127) || byte == 9) {
            assert(!visible_ascii(bytes@[i as int]));
            return None;
        }
        assert(bytes@.take(i + 1) == bytes@.take(i as int).push(byte));
        text.push(byte as char);
    }
    assert(bytes@.take(n as int) == bytes@);
    Some(text)
}

impl Request {
    #[verifier::type_invariant]
    spec fn inv(self) -> bool {
        &&& !(plan(self.fetch.url@) is Refuse)
        &&& self.target@.pinned_dns matches Some(pinned) ==> pinned.addrs.len() > 0
    }

    /// The fetch that the request is for.
    pub closed spec fn fetch(&self) -> FetchUrl {
        self.fetch
    }

    /// Where the request may connect to.
    pub closed spec fn target(&self) -> TargetView {
        self.target@
    }

    /// The URL to request, which is never one that is refused outright.
    pub fn url(&self) -> (url: &str)
        ensures
            url@ == self.fetch()@.url.text,
            !(plan(self.fetch()@.url) is Refuse),
    {
        proof {
            use_type_invariant(self);
        }
        self.fetch.url.text.as_str()
    }

    /// Where the request may connect to. A host name is never pinned to no address.
    pub fn public_target(&self) -> (target: &PublicHttpTarget)
        ensures
            target@ == self.target(),
            target@.pinned_dns matches Some(pinned) ==> pinned.addrs.len() > 0,
    {
        proof {
            use_type_invariant(self);
        }
        &self.target
    }

    /// How the client is set up for the request.
    pub fn client_plan(&self) -> (client: ClientPlan)
        ensures
            !client.follow_redirects,
            client.timeout_secs == FETCH_URL_REQUEST_TIMEOUT_SECS,
            pinned_views(client.overrides@) == overrides(self.target().pinned_dns),
    {
        fetch_client_plan(self.target.pinned_dns.as_ref())
    }

    /// Takes the head of the response to the request, or what the client reports
    /// where it cannot be set up, cannot send the request or gets no response.
    pub fn answer(self, response: Result<ResponseHead, String>) -> (step: FetchStep)
        requires
            response matches Ok(head) ==> 100 <= head.status <= 999,
        ensures
            takes(step, request_outcome(self.fetch()@, answer_view(response))),
            step matches FetchStep::Redirect(next) ==> next@.url.is_consistent(),
            match (step, response) {
                (FetchStep::Fail(err), Ok(head)) => err@ == status_failure(head.status)
                    ==> names_code(head.status),
                _ => true,
            },
    {
        let Request { fetch, target: _ } = self;
        let head = match response {
            Ok(head) => head,
            Err(detail) => {
                return FetchStep::Fail(fetch_failed(detail.as_str()));
            },
        };
        let status: u16 = head.status;
        proof {
            lemma_status_failure_differs(status);
        }
        if 300 <= status && status < 400 {
            if fetch.redirects >= MAX_FETCH_URL_REDIRECTS {
                return FetchStep::Fail(respond(FETCH_URL_TOO_MANY_REDIRECTS));
            }
            return follow_location(fetch, status, head.location);
        }
        if !(200 <= status && status < 300) {
            return FetchStep::Fail(report_status(status));
        }
        match BodyReader::open(head.content_length) {
            Ok(reader) => FetchStep::Read(reader),
            Err(err) => FetchStep::Fail(err),
        }
    }
}

/// The failure of a response with `status`.
fn report_status(status: u16) -> (err: FunctionCallError)
    requires
        100 <= status <= 999,
    ensures
        err@ == status_failure(status),
        names_code(status),
{
    let text = display_status(status);
    let err = http_failure(text.as_str());
    proof {
        let code = decimal(status as nat) + " "@;
        assert("FetchURL failed with HTTP "@ + decimal(status as nat) + " "@
            == "FetchURL failed with HTTP "@ + code);
        assert(text@ == code + text@.skip(code.len() as int));
        assert(err@ == ("FetchURL failed with HTTP "@ + code) + (text@.skip(code.len() as int)
            + "."@));
    }
    err
}

/// Follows a `Location` header from `fetch`.
fn follow_location(fetch: FetchUrl, status: u16, location: Option<Vec<u8>>) -> (step: FetchStep)
    requires
        100 <= status <= 999,
    ensures
        takes(
            step,
            location_outcome(
                fetch@,
                status,
                match location {
                    Some(bytes) => Some(bytes@),
                    None => None,
                },
            ),
        ),
        step matches FetchStep::Redirect(next) ==> next@.url.is_consistent(),
        step matches FetchStep::Fail(err) ==> err@ == status_failure(status) ==> names_code(
            status,
        ),
{
    proof {
        lemma_status_failure_differs(status);
    }
    let text = match &location {
        Some(bytes) => header_value_text(bytes.as_slice()),
        None => None,
    };
    match text {
        None => FetchStep::Fail(report_status(status)),
        Some(text) => {
            let joined = join_url(fetch.url.text.as_str(), text.as_str());
            fetch.redirected(joined)
        },
    }
}

/// The output of a fetch whose body has the text `body`.
pub fn fetch_output(body: &str) -> (output: Result<FunctionToolOutput, FunctionCallError>)
    ensures
        output matches Ok(out) && out.text@ == FETCH_URL_PREAMBLE@ + page_text(body@)
            && out.success == Some(true),
{
    let mut text = FETCH_URL_PREAMBLE.to_string();
    text.append(extract_page_text(body).as_str());
    text_output(text)
}

/// A fetch follows a limited number of redirects: a run of responses each of
/// which redirects the fetch that the one before led to is no longer than that.
pub proof fn law_redirect_limit(chain: Seq<Fetching>, heads: Seq<HeadView>)
    requires
        chain.len() == heads.len() + 1,
        chain[0].redirects == 0,
        forall|i: int|
            0 <= i < heads.len() ==> #[trigger] response_outcome(chain[i], heads[i])
                == Next::Redirect(chain[i + 1]),
    ensures
        heads.len() <= MAX_FETCH_URL_REDIRECTS,
        forall|i: int| 0 <= i < chain.len() ==> (#[trigger] chain[i]).redirects == i,
    decreases heads.len(),
{
    if heads.len() > 0 {
        let n = heads.len() - 1;
        let shorter = chain.drop_last();
        let fewer = heads.drop_last();
        assert forall|i: int| 0 <= i < fewer.len() implies #[trigger] response_outcome(
            shorter[i],
            fewer[i],
        ) == Next::Redirect(shorter[i + 1]) by {
            assert(response_outcome(chain[i], heads[i]) == Next::Redirect(chain[i + 1]));
        }
        law_redirect_limit(shorter, fewer);
        assert(response_outcome(chain[n], heads[n]) == Next::Redirect(chain[n + 1]));
        assert(shorter[n] == chain[n]);
        assert forall|i: int| 0 <= i < chain.len() implies (#[trigger] chain[i]).redirects == i by {
            if i < n + 1 {
                assert(chain[i] == shorter[i]);
            }
        }
    }
}

/// What a fetch meets outside.
pub struct World {
    /// What is found out about the host before a request: a host name that is
    /// looked up again after a redirect may have other addresses by then.
    pub answers: spec_fn(Fetching) -> Answers,
    /// The head of the response to a request, or what the client reports in place
    /// of one.
    pub respond: spec_fn(Fetching, TargetView) -> Result<HeadView, Seq<char>>,
}

/// The requests of a fetch that starts with `fetch`, and what it comes to: the
/// last one, whose body is read, or the message that it fails with.
pub open spec fn fetch_run(fetch: Fetching, world: World) -> (
    Seq<Fetching>,
    Result<Fetching, Seq<char>>,
)
    decreases MAX_FETCH_URL_REDIRECTS - fetch.redirects,
{
    match resolution(fetch.url, (world.answers)(fetch)) {
        Err(message) => (Seq::empty(), Err(message)),
        Ok(target) => match request_outcome(fetch, (world.respond)(fetch, target)) {
            Next::Redirect(next) => {
                let (requests, outcome) = fetch_run(next, world);
                (seq![fetch] + requests, outcome)
            },
            Next::Fail(message) => (seq![fetch], Err(message)),
            Next::Read => (seq![fetch], Ok(fetch)),
        },
    }
}

/// Whatever the responses redirect to, and whatever is found out about a host each
/// time, every request of a fetch is for a URL that was accepted with what was
/// found out for this request, there are no more requests than redirects and the
/// first one, and the page that is read answers the last of them.
pub proof fn law_every_request_is_accepted(fetch: Fetching, world: World)
    requires
        fetch.redirects <= MAX_FETCH_URL_REDIRECTS,
    ensures
        ({
            let (requests, outcome) = fetch_run(fetch, world);
            &&& forall|i: int|
                0 <= i < requests.len() ==> resolution(
                    (#[trigger] requests[i]).url,
                    (world.answers)(requests[i]),
                ) is Ok
            &&& requests.len() <= MAX_FETCH_URL_REDIRECTS - fetch.redirects + 1
            &&& outcome matches Ok(page) ==> requests.len() > 0 && page == requests.last()
        }),
    decreases MAX_FETCH_URL_REDIRECTS - fetch.redirects,
{
    if let Ok(target) = resolution(fetch.url, (world.answers)(fetch)) {
        if let Next::Redirect(next) = request_outcome(fetch, (world.respond)(fetch, target)) {
            law_every_request_is_accepted(next, world);
            let (rest, _) = fetch_run(next, world);
            let (requests, _) = fetch_run(fetch, world);
            assert(requests == seq![fetch] + rest);
            assert forall|i: int| 0 <= i < requests.len() implies resolution(
                (#[trigger] requests[i]).url,
                (world.answers)(requests[i]),
            ) is Ok by {
                if i > 0 {
                    assert(requests[i] == rest[i - 1]);
                }
            }
        }
    }
}

proof fn lemma_status_failure_differs(status: u16)
    ensures
        status_failure(status) != FETCH_URL_TOO_MANY_REDIRECTS@,
        status_failure(status) != FETCH_URL_TOO_LARGE@,
        forall|detail: Seq<char>|
            status_failure(status) != #[trigger] ("Invalid URL: "@ + detail),
        forall|detail: Seq<char>|
            status_failure(status) != #[trigger] ("FetchURL failed: "@ + detail),
{
    reveal_strlit("FetchURL failed with HTTP ");
    reveal_strlit("FetchURL failed: too many redirects.");
    reveal_strlit("FetchURL refused a response that exceeded the size limit.");
    reveal_strlit("Invalid URL: ");
    reveal_strlit("FetchURL failed: ");
    let message = status_failure(status);
    assert(message[0] == 'F' && message[9] == 'f' && message[15] == ' ');
    assert(FETCH_URL_TOO_MANY_REDIRECTS@[15] == ':');
    assert(FETCH_URL_TOO_LARGE@[9] == 'r');
    assert forall|detail: Seq<char>| message != #[trigger] ("Invalid URL: "@ + detail) by {
        assert(("Invalid URL: "@ + detail)[0] == 'I');
    }
    assert forall|detail: Seq<char>| message != #[trigger] ("FetchURL failed: "@ + detail) by {
        assert(("FetchURL failed: "@ + detail)[15] == ':');
    }
}

/// A fetch fails with the status of a response exactly if this is no success and
/// no redirection, or a redirection, not one too many, without a readable
/// reference.
pub proof fn law_status_failures(fetch: Fetching, response: Result<HeadView, Seq<char>>)
    ensures
        response is Err ==> forall|status: u16|
            request_outcome(fetch, response) != Next::Fail(#[trigger] status_failure(status)),
        response matches Ok(head) ==> {
            request_outcome(fetch, response) == Next::Fail(status_failure(head.status)) <==> {
                if is_redirection(head.status) {
                    &&& fetch.redirects < MAX_FETCH_URL_REDIRECTS
                    &&& match head.location {
                        Some(bytes) => header_text(bytes) is None,
                        None => true,
                    }
                } else {
                    !is_success(head.status)
                }
            }
        },
{
    match response {
        Ok(head) => {
            lemma_status_failure_differs(head.status);
        },
        Err(_) => {
            assert forall|status: u16|
                request_outcome(fetch, response) != Next::Fail(
                    #[trigger] status_failure(status),
                ) by {
                lemma_status_failure_differs(status);
            }
        },
    }
}

/// A body is read only from a successful response of an admissible length, and
/// only a redirection leads on to another URL.
pub proof fn law_bodies_and_redirects(fetch: Fetching, head: HeadView)
    ensures
        response_outcome(fetch, head) is Read <==> is_success(head.status) && !too_large(
            head.content_length,
        ),
        response_outcome(fetch, head) is Redirect ==> is_redirection(head.status)
            && fetch.redirects < MAX_FETCH_URL_REDIRECTS,
{
}

/// Every name that the client is given addresses for has exactly the pinned ones,
/// and both spellings of the pinned host, with and without trailing dots, are
/// among these names.
pub proof fn law_overrides_are_pinned(pinned: PinnedView)
    ensures
        forall|i: int|
            0 <= i < overrides(Some(pinned)).len() ==> (#[trigger] overrides(
                Some(pinned),
            )[i]).addrs == pinned.addrs,
        exists|i: int|
            0 <= i < overrides(Some(pinned)).len() && (#[trigger] overrides(Some(pinned))[i]).host
                == pinned.host,
        exists|i: int|
            0 <= i < overrides(Some(pinned)).len() && (#[trigger] overrides(Some(pinned))[i]).host
                == trimmed_end_of(pinned.host, '.'),
{
    let list = overrides(Some(pinned));
    assert(list[0].host == pinned.host);
    assert(list.last() == list[list.len() - 1]);
    assert(list.last().host == trimmed_end_of(pinned.host, '.'));
}

/// A redirect leads to the URL that the bytes of the `Location` header, unchanged,
/// spell relative to the URL just requested, and counts as one redirect more. Only
/// a redirection, and not one too many, leads anywhere.
pub proof fn law_location_is_followed_as_it_stands(fetch: Fetching, head: HeadView)
    ensures
        response_outcome(fetch, head) matches Next::Redirect(next) ==> {
            &&& head.location matches Some(bytes)
            &&& url_joined(fetch.url.text, bytes.map_values(|b: u8| b as char)) == Ok::<
                UrlView,
                Seq<char>,
            >(next.url)
            &&& next.redirects == fetch.redirects + 1
            &&& fetch.redirects < 10
            &&& 300 <= head.status <= 399
        },
{
}

/// A redirection that is not one too many, and whose `Location` is visible ASCII, is
/// followed where the reference can be resolved, and else fails with what is wrong
/// with it.
pub proof fn law_redirections_are_followed(fetch: Fetching, head: HeadView, reference: Seq<char>)
    requires
        300 <= head.status <= 399,
        fetch.redirects < 10,
        head.location is Some,
        head.location->0.len() == reference.len(),
        forall|i: int|
            0 <= i < reference.len() ==> #[trigger] reference[i] == head.location->0[i] as char,
        forall|i: int|
            0 <= i < reference.len() ==> 32 <= #[trigger] head.location->0[i] <= 126
                || head.location->0[i] == 9,
    ensures
        match url_joined(fetch.url.text, reference) {
            Ok(url) => response_outcome(fetch, head) == Next::Redirect(
                Fetching { url, redirects: fetch.redirects + 1 },
            ),
            Err(detail) => response_outcome(fetch, head) == Next::Fail("Invalid URL: "@ + detail),
        },
{
    let bytes = head.location->0;
    law_header_text(bytes);
    assert(bytes.map_values(|b: u8| b as char) == reference);
}

/// A header value has a text exactly if each byte is a visible ASCII character, a
/// space or a tab; the text then has these characters, in order.
pub proof fn law_header_text(bytes: Seq<u8>)
    ensures
        header_text(bytes) is Some <==> forall|i: int|
            0 <= i < bytes.len() ==> 32 <= #[trigger] bytes[i] <= 126 || bytes[i] == 9,
        header_text(bytes) matches Some(text) ==> {
            &&& text.len() == bytes.len()
            &&& forall|i: int| 0 <= i < bytes.len() ==> (#[trigger] text[i]) as u32 == bytes[i]
        },
{
    if forall|i: int| 0 <= i < bytes.len() ==> 32 <= #[trigger] bytes[i] <= 126 || bytes[i] == 9 {
        assert forall|i: int| 0 <= i < bytes.len() implies visible_ascii(#[trigger] bytes[i]) by {}
    } else {
        let i = choose|i: int|
            0 <= i < bytes.len() && !(32 <= #[trigger] bytes[i] <= 126 || bytes[i] == 9);
        assert(!visible_ascii(bytes[i]));
    }
}

/// What does not lead elsewhere: a successful response is read unless it announces
/// more than a mebibyte, a redirection after ten of them fails as one too many, and
/// every other response fails with its status.
pub proof fn law_responses(fetch: Fetching, head: HeadView)
    ensures
        ({
            let failure = Next::Fail("FetchURL failed with HTTP "@ + status_text(head.status) + "."@);
            if 200 <= head.status <= 299 {
                match head.content_length {
                    Some(len) => if len > 1_048_576 {
                        response_outcome(fetch, head) == Next::Fail(
                            "FetchURL refused a response that exceeded the size limit."@,
                        )
                    } else {
                        response_outcome(fetch, head) == Next::Read
                    },
                    None => response_outcome(fetch, head) == Next::Read,
                }
            } else if 300 <= head.status <= 399 {
                &&& fetch.redirects >= 10 ==> response_outcome(fetch, head) == Next::Fail(
                    "FetchURL failed: too many redirects."@,
                )
                &&& fetch.redirects < 10 && head.location is None ==> response_outcome(fetch, head)
                    == failure
                &&& fetch.redirects < 10 && head.location is Some && (exists|i: int|
                    0 <= i < head.location->0.len() && !(32 <= #[trigger] head.location->0[i] <= 126
                        || head.location->0[i] == 9)) ==> response_outcome(fetch, head) == failure
            } else {
                response_outcome(fetch, head) == failure
            }
        }),
{
    if let Some(bytes) = head.location {
        law_header_text(bytes);
    }
}

/// What a client reports in place of a response is quoted; a response is judged by
/// its head alone.
pub proof fn law_client_reports(fetch: Fetching, head: HeadView, detail: Seq<char>)
    ensures
        request_outcome(fetch, Err(detail)) == Next::Fail("FetchURL failed: "@ + detail),
        request_outcome(fetch, Ok(head)) == response_outcome(fetch, head),
{
}

/// A reference that was resolved leads on for ten redirects; one that could not be
/// resolved fails with what is wrong with it.
pub proof fn law_resolved_references(fetch: Fetching, url: UrlView, detail: Seq<char>)
    ensures
        fetch.redirects < 10 ==> {
            &&& redirect_outcome(fetch, Ok(url)) == Next::Redirect(
                Fetching { url, redirects: fetch.redirects + 1 },
            )
            &&& redirect_outcome(fetch, Err(detail)) == Next::Fail("Invalid URL: "@ + detail)
        },
        fetch.redirects >= 10 ==> {
            &&& redirect_outcome(fetch, Ok(url)) == Next::Fail(
                "FetchURL failed: too many redirects."@,
            )
            &&& redirect_outcome(fetch, Err(detail)) == Next::Fail(
                "FetchURL failed: too many redirects."@,
            )
        },
{
}

/// The client is given addresses for the pinned name first, and for no other name
/// but that one without the dots that it ends in, where it ends in some; where
/// nothing is pinned, for none.
pub proof fn law_override_names(pinned: PinnedView)
    ensures
        overrides(None) == Seq::<PinnedView>::empty(),
        overrides(Some(pinned)).len() > 0,
        overrides(Some(pinned))[0] == pinned,
        pinned.host.len() == 0 || pinned.host.last() != '.' ==> overrides(Some(pinned)).len() == 1,
        pinned.host.len() > 0 && pinned.host.last() == '.' ==> {
            &&& overrides(Some(pinned)).len() == 2
            &&& overrides(Some(pinned))[1].addrs == pinned.addrs
            &&& exists|n: int|
                {
                    &&& 0 <= n < pinned.host.len()
                    &&& overrides(Some(pinned))[1].host == #[trigger] pinned.host.take(n)
                    &&& forall|k: int| n <= k < pinned.host.len() ==> #[trigger] pinned.host[k] == '.'
                    &&& n > 0 ==> pinned.host[n - 1] != '.'
                }
        },
{
    law_trimmed_end_of(pinned.host, '.');
    let n = choose|n: int|
        {
            &&& 0 <= n <= pinned.host.len()
            &&& trimmed_end_of(pinned.host, '.') == #[trigger] pinned.host.take(n)
            &&& forall|k: int| n <= k < pinned.host.len() ==> #[trigger] pinned.host[k] == '.'
            &&& n > 0 ==> pinned.host[n - 1] != '.'
        };
    if pinned.host.len() > 0 && pinned.host.last() == '.' {
        assert(pinned.host.take(n).len() == n);
    } else if n < pinned.host.len() {
        assert(pinned.host[pinned.host.len() - 1] == '.');
    } else {
        assert(pinned.host.take(n) == pinned.host);
    }
}

/// A fetch follows ten redirects, gives a request half a minute and a lookup two
/// seconds, reads a mebibyte, and tells the model how to cite the page.
pub proof fn law_limits()
    ensures
        MAX_FETCH_URL_REDIRECTS == 10,
        FETCH_URL_REQUEST_TIMEOUT_SECS == 30,
        FETCH_URL_DNS_TIMEOUT_SECS == 2,
        MAX_FETCH_BODY_BYTES == 1_048_576,
        FETCH_URL_PREAMBLE@
            == "The returned content is the main text extracted from the page. If you use it in your answer, cite this page as a markdown link, e.g. [title](url).\n\n"@,
{
}

/// A step is the one that an outcome describes only if it is of the same kind, leads
/// to the same fetch, and tells the same message.
pub proof fn law_fetch_steps(step: FetchStep, next: Next)
    ensures
        takes(step, next) ==> match next {
            Next::Redirect(to) => step matches FetchStep::Redirect(fetch) && fetch@ == to,
            Next::Read => step matches FetchStep::Read(reader) && reader@.len() == 0,
            Next::Fail(message) => step matches FetchStep::Fail(err) && err@ == message,
        },
{
}

/// A request is sent only for the fetch that was checked, to the target that it was
/// checked to, and a refusal tells its message.
pub proof fn law_resolve_steps(
    step: ResolveStep,
    fetch: FetchUrl,
    target: Result<TargetView, Seq<char>>,
)
    ensures
        concludes(step, fetch, target) ==> match target {
            Ok(target) => step matches ResolveStep::Send(request) && request.fetch() == fetch
                && request.target() == target,
            Err(message) => step matches ResolveStep::Refuse(err) && err@ == message,
        },
{
}

/// What is read of a response's head is what it holds.
pub proof fn law_head_contents(head: ResponseHead, detail: String)
    ensures
        head@.status == head.status,
        head@.content_length == head.content_length,
        head.location is None <==> head@.location is None,
        head.location matches Some(bytes) ==> head@.location == Some(bytes@),
        answer_view(Ok(head)) == Ok::<HeadView, Seq<char>>(head@),
        answer_view(Err(detail)) == Err::<HeadView, Seq<char>>(detail@),
{
}

/// What is known of a host is used as far as it is asked for: an address that the
/// host is or spells decides alone, and else what the lookup found.
pub proof fn law_known_answers(url: UrlView, known: HostAnswers, domain: Seq<char>)
    ensures
        match plan(url) {
            Plan::Refuse(message) => known_outcome(url, known) == Err::<TargetView, Seq<char>>(
                message,
            ),
            Plan::Classify(_) => known_outcome(url, known) == class_outcome(known.non_public),
            Plan::ParseAddress(_) => {
                &&& known.address is Some ==> known_outcome(url, known) == class_outcome(
                    known.non_public,
                )
                &&& known.address is None && url.host == Some(HostView::Domain(domain)) ==> {
                    &&& known.found is None ==> known_outcome(url, known) == lookup_outcome(
                        url,
                        domain,
                        None,
                    )
                    &&& known.found matches Some(found) ==> known_outcome(url, known)
                        == lookup_outcome(url, domain, Some(found@))
                }
            },
        },
{
}

/// What holds of the answers to the questions about a host holds of the check as a
/// whole: it comes to the same whether they are given beforehand or one by one.
pub proof fn law_answers_may_be_known(url: UrlView, known: HostAnswers, answers: Answers)
    requires
        agrees(answers, url, known),
    ensures
        known_outcome(url, known) == resolution(url, answers),
{
}

/// The overrides of a client are listed as they are, in order.
pub proof fn law_pinned_views(pinned: Seq<PinnedDns>)
    ensures
        pinned_views(pinned).len() == pinned.len(),
        forall|i: int| 0 <= i < pinned.len() ==> #[trigger] pinned_views(pinned)[i] == pinned[i]@,
{
}

} // verus!
