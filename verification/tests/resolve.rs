use kimi_code_extra::error::{
    FunctionCallError, FETCH_URL_INCOMPLETE, FETCH_URL_NON_PUBLIC, FETCH_URL_SCHEME,
    FETCH_URL_UNVERIFIED,
};
use kimi_code_extra::fetch::{FetchUrl, Request, ResolveStep};
use kimi_code_extra::resolve::{
    reject_non_public_ip, CheckedAddress, PinnedDns, PublicHttpTarget, SocketAddress,
};
use kimi_code_extra::web_url::{IpAddress, UrlHost, UrlParts};

type Lookup = fn(&str, u16) -> Option<Vec<SocketAddress>>;

fn v4(octets: [u8; 4]) -> u32 {
    u32::from_be_bytes(octets)
}

fn socket(octets: [u8; 4], port: u16) -> SocketAddress {
    SocketAddress::V4 {
        ip: v4(octets),
        port,
    }
}

/// The classes of addresses that the cases below are about.
fn is_non_public_ip(ip: IpAddress) -> bool {
    match ip {
        IpAddress::V4(bits) => match bits.to_be_bytes() {
            [0, ..] | [10, ..] | [127, ..] | [192, 168, ..] | [169, 254, ..] => true,
            [172, second, ..] => (16..32).contains(&second),
            [100, second, ..] => (64..128).contains(&second),
            _ => false,
        },
        IpAddress::V6(bits) => {
            if bits >> 32 == 0xffff {
                return is_non_public_ip(IpAddress::V4(bits as u32));
            }
            bits <= 1 || bits >> 118 == 0xfe80 >> 6 || bits >> 121 == 0xfc00 >> 9
        }
    }
}

fn parse_address(host: &str) -> Option<IpAddress> {
    let parts: Vec<&str> = host.split('.').collect();
    let octets: Vec<u8> = parts.iter().filter_map(|part| part.parse().ok()).collect();
    match (parts.len(), octets.as_slice()) {
        (4, [a, b, c, d]) => Some(IpAddress::V4(v4([*a, *b, *c, *d]))),
        _ => None,
    }
}

fn resolve_fetch(fetch: FetchUrl, lookup: Lookup) -> Result<Request, FunctionCallError> {
    let mut step = fetch.resolve();
    loop {
        step = match step {
            ResolveStep::ParseAddress(parse) => {
                let address = parse_address(parse.host_name());
                parse.answer(address)
            }
            ResolveStep::Classify(check) => {
                let non_public = is_non_public_ip(check.ip_address());
                check.answer(non_public)
            }
            ResolveStep::Lookup(question) => {
                let found = lookup(question.host_name(), question.port_number());
                question.answer(found.map(|addresses| {
                    addresses
                        .into_iter()
                        .map(|address| CheckedAddress {
                            address,
                            non_public: is_non_public_ip(match address {
                                SocketAddress::V4 { ip, .. } => IpAddress::V4(ip),
                                SocketAddress::V6 { ip, .. } => IpAddress::V6(ip),
                            }),
                        })
                        .collect()
                }))
            }
            ResolveStep::Send(request) => return Ok(request),
            ResolveStep::Refuse(err) => return Err(err),
        };
    }
}

fn parse_url(url: &str) -> FetchUrl {
    FetchUrl::parse(url).unwrap_or_else(|err| panic!("test URL should parse ({url}): {err:?}"))
}

fn resolve(url: &str, lookup: Lookup) -> Result<PublicHttpTarget, FunctionCallError> {
    resolve_fetch(parse_url(url), lookup).map(|request| request.public_target().clone())
}

fn refused(message: &str) -> Result<PublicHttpTarget, FunctionCallError> {
    Err(FunctionCallError::RespondToModel(message.to_string()))
}

fn lookup_should_not_run(host: &str, _port: u16) -> Option<Vec<SocketAddress>> {
    panic!("DNS lookup should not run for {host}")
}

fn lookup_private(_host: &str, port: u16) -> Option<Vec<SocketAddress>> {
    Some(vec![socket([10, 0, 0, 1], port)])
}

fn lookup_public(_host: &str, port: u16) -> Option<Vec<SocketAddress>> {
    Some(vec![socket([93, 184, 216, 34], port)])
}

fn lookup_mixed_public_and_loopback(_host: &str, port: u16) -> Option<Vec<SocketAddress>> {
    Some(vec![
        socket([93, 184, 216, 34], port),
        socket([127, 0, 0, 1], port),
    ])
}

fn lookup_empty(_host: &str, _port: u16) -> Option<Vec<SocketAddress>> {
    Some(Vec::new())
}

fn lookup_failed(_host: &str, _port: u16) -> Option<Vec<SocketAddress>> {
    None
}

fn public_literal_target() -> PublicHttpTarget {
    PublicHttpTarget { pinned_dns: None }
}

#[test]
fn rejects_non_public_ip_literals_loopback_rfc1918_link_local_and_unsafe_schemes() {
    let cases = [
        "http://127.0.0.1/",
        "https://127.0.0.1/path",
        "http://10.0.0.1/",
        "http://10.255.255.255/",
        "http://172.16.0.1/",
        "http://172.31.255.1/",
        "http://192.168.1.1/",
        "http://192.168.0.1:8080/internal",
        "http://169.254.169.254/",
        "http://169.254.1.1/",
        "http://100.64.0.1/",
        "http://0.0.0.0/",
        "http://[::1]/",
        "http://[::ffff:127.0.0.1]/",
        "http://[::ffff:10.0.0.1]/",
        "http://[fe80::1]/",
        "http://[fc00::1]/",
        "http://localhost/",
        "https://LOCALHOST/",
        "http://localhost./",
        "http://foo.localhost/",
        "file:///etc/passwd",
        "ftp://example.com/",
        "gopher://example.com/",
        "data:text/plain,hello",
        "javascript:alert(1)",
        "ws://example.com/",
        "unix:///tmp/socket",
    ];

    for url in cases {
        let result = resolve(url, lookup_should_not_run);
        assert!(result.is_err(), "{url} should be rejected, got {result:?}");
    }
}

#[test]
fn rejects_metadata_style_link_local_redirect_target() {
    assert_eq!(
        resolve(
            "http://169.254.169.254/latest/meta-data/",
            lookup_should_not_run
        ),
        refused(FETCH_URL_NON_PUBLIC)
    );
}

#[test]
fn rejects_hostname_that_resolves_to_a_private_or_loopback_address() {
    assert_eq!(
        resolve("https://example.test/docs", lookup_private),
        refused(FETCH_URL_NON_PUBLIC)
    );
    assert_eq!(
        resolve("http://example.test/", lookup_mixed_public_and_loopback),
        refused(FETCH_URL_NON_PUBLIC)
    );
}

#[test]
fn rejects_when_dns_cannot_prove_the_host_is_public() {
    assert_eq!(
        resolve("https://example.test/", lookup_failed),
        refused(FETCH_URL_UNVERIFIED)
    );
    assert_eq!(
        resolve("https://example.test/", lookup_empty),
        refused(FETCH_URL_UNVERIFIED)
    );
}

#[test]
fn rejects_non_http_schemes_with_the_public_contract_message() {
    assert_eq!(
        resolve("file://example.com/tmp", lookup_should_not_run),
        refused(FETCH_URL_SCHEME)
    );
}

#[test]
fn allows_public_ip_literals_and_hostnames_that_resolve_publicly() {
    assert_eq!(
        resolve("https://8.8.8.8/", lookup_should_not_run),
        Ok(public_literal_target())
    );
    assert_eq!(
        resolve("http://1.1.1.1/path", lookup_should_not_run),
        Ok(public_literal_target())
    );
    assert_eq!(
        resolve("http://172.15.0.1/", lookup_should_not_run),
        Ok(public_literal_target())
    );
    assert_eq!(
        resolve("https://[2001:4860:4860::8888]/", lookup_should_not_run),
        Ok(public_literal_target())
    );
    assert_eq!(
        resolve("https://example.test/path", lookup_public),
        Ok(PublicHttpTarget {
            pinned_dns: Some(PinnedDns {
                host: "example.test".to_string(),
                addrs: vec![socket([93, 184, 216, 34], 443)],
            }),
        })
    );
}

#[test]
fn messages_are_spelled_as_promised() {
    assert_eq!(
        FETCH_URL_NON_PUBLIC,
        "FetchURL does not fetch private or loopback addresses."
    );
    assert_eq!(
        FETCH_URL_SCHEME,
        "FetchURL supports only http and https URLs."
    );
    assert_eq!(
        FETCH_URL_INCOMPLETE,
        "FetchURL requires a fully-formed public http or https URL."
    );
    assert_eq!(
        FETCH_URL_UNVERIFIED,
        "FetchURL could not verify that the URL is public."
    );
}

#[test]
fn url_parts_are_those_of_the_parsed_url() {
    let request = resolve_fetch(
        parse_url("HTTPS://Example.TEST:8443/a/../b?q=1"),
        |host, port| {
            assert_eq!((host, port), ("example.test", 8443));
            Some(vec![socket([93, 184, 216, 34], port)])
        },
    )
    .expect("a public host");
    assert_eq!(request.url(), "https://example.test:8443/b?q=1");
}

#[test]
fn the_scheme_gives_the_port_to_look_up_with() {
    let check_http: Lookup = |_, port| {
        assert_eq!(port, 80);
        Some(vec![socket([93, 184, 216, 34], port)])
    };
    assert!(resolve("http://example.test/", check_http).is_ok());
}

#[test]
fn a_host_without_port_is_looked_up_with_eighty() {
    let url = UrlParts {
        text: "http://example.test/".to_string(),
        scheme: "http".to_string(),
        host: Some(UrlHost::Domain("Example.test.".to_string())),
        host_str: None,
        port: None,
    };
    let request = resolve_fetch(FetchUrl::new(url), |host, port| {
        assert_eq!((host, port), ("example.test", 80));
        lookup_public(host, port)
    })
    .expect("a public host");
    assert_eq!(
        request.public_target(),
        &PublicHttpTarget {
            pinned_dns: Some(PinnedDns {
                host: "Example.test.".to_string(),
                addrs: vec![socket([93, 184, 216, 34], 80)],
            }),
        }
    );
}

#[test]
fn trailing_dots_do_not_hide_an_address() {
    assert_eq!(
        resolve("http://127.0.0.1../", lookup_should_not_run),
        refused(FETCH_URL_NON_PUBLIC)
    );
    assert_eq!(
        resolve("http://8.8.8.8../", lookup_should_not_run),
        Ok(public_literal_target())
    );
}

#[test]
fn names_of_this_machine_are_refused_in_every_spelling() {
    for url in [
        "http://localhost/",
        "http://LocalHost../",
        "https://a.b.LOCALHOST./x",
    ] {
        assert_eq!(
            resolve(url, lookup_should_not_run),
            refused(FETCH_URL_NON_PUBLIC)
        );
    }
    assert!(resolve("http://notlocalhost/", lookup_public).is_ok());
    assert!(resolve("http://localhost.test/", lookup_public).is_ok());
}

#[test]
fn a_url_without_host_is_incomplete() {
    let url = UrlParts {
        text: "http:".to_string(),
        scheme: "http".to_string(),
        host: None,
        host_str: None,
        port: Some(80),
    };
    let outcome = resolve_fetch(FetchUrl::new(url), lookup_should_not_run);
    assert_eq!(
        outcome.map(|request| request.public_target().clone()),
        refused(FETCH_URL_INCOMPLETE)
    );
}

#[test]
fn only_non_public_addresses_are_rejected() {
    assert_eq!(reject_non_public_ip(false), Ok(()));
    assert_eq!(
        reject_non_public_ip(true),
        Err(FunctionCallError::RespondToModel(
            FETCH_URL_NON_PUBLIC.to_string()
        ))
    );
}

#[test]
fn text_that_is_no_url_is_named_as_such() {
    assert_eq!(
        FetchUrl::parse("no url").map(|_| ()),
        Err(FunctionCallError::RespondToModel(
            "Invalid URL: relative URL without a base".to_string()
        ))
    );
}
