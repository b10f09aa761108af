use kimi_code_extra::body::{BodyReader, BodyStep, MAX_FETCH_BODY_BYTES};
use kimi_code_extra::error::{fetch_failed, FunctionCallError};
use kimi_code_extra::fetch::{
    accept_url, fetch_client_plan, header_value_text, resolve_known, FetchStep, FetchUrl,
    HostAnswers, Request, ResolveStep, ResponseHead, MAX_FETCH_URL_REDIRECTS,
};
use kimi_code_extra::resolve::{CheckedAddress, PinnedDns, SocketAddress};
use kimi_code_extra::web_url::{IpAddress, UrlHost, UrlParts};

fn error(message: &str) -> FunctionCallError {
    FunctionCallError::RespondToModel(message.to_string())
}

fn accept(fetch: FetchUrl) -> Request {
    match fetch.resolve() {
        ResolveStep::Classify(check) => match check.answer(false) {
            ResolveStep::Send(request) => request,
            step => panic!("a public address is accepted, got {step:?}"),
        },
        step => panic!("an address is classified, got {step:?}"),
    }
}

fn request(url: &str) -> Request {
    accept(FetchUrl::parse(url).expect("a URL"))
}

fn head(
    status: u16,
    location: Option<&str>,
    content_length: Option<u64>,
) -> Result<ResponseHead, String> {
    Ok(ResponseHead {
        status,
        location: location.map(|text| text.as_bytes().to_vec()),
        content_length,
    })
}

fn failure(step: FetchStep) -> FunctionCallError {
    match step {
        FetchStep::Fail(err) => err,
        step => panic!("the fetch fails, got {step:?}"),
    }
}

fn body_of(url: &str, content_length: Option<u64>) -> BodyReader {
    match request(url).answer(head(200, None, content_length)) {
        FetchStep::Read(reader) => reader,
        step => panic!("the body is read, got {step:?}"),
    }
}

fn chunk(bytes: &[u8]) -> Result<Option<Vec<u8>>, String> {
    Ok(Some(bytes.to_vec()))
}

fn read_on(step: BodyStep) -> BodyReader {
    match step {
        BodyStep::More(reader) => reader,
        step => panic!("there is room for more, got {step:?}"),
    }
}

fn text_of(step: BodyStep) -> String {
    match step {
        BodyStep::Done(text) => text,
        step => panic!("the body is read, got {step:?}"),
    }
}

fn read_failure(step: BodyStep) -> FunctionCallError {
    match step {
        BodyStep::Fail(err) => err,
        step => panic!("the body is given up, got {step:?}"),
    }
}

#[test]
fn stops_reading_oversized_chunked_body_without_content_length() {
    let mut reader = body_of("http://8.8.8.8/", None);
    let mut chunks = 0;
    let body = loop {
        chunks += 1;
        match reader.answer(chunk(&[b'A'; 1024])) {
            BodyStep::More(next) => reader = next,
            step => break text_of(step),
        }
    };
    assert_eq!(chunks, MAX_FETCH_BODY_BYTES / 1024);
    assert_eq!(body.len(), MAX_FETCH_BODY_BYTES);
    assert!(body.bytes().all(|byte| byte == b'A'));
}

#[test]
fn a_chunk_is_cut_where_the_limit_is() {
    let reader = body_of("http://8.8.8.8/", None);
    let reader = read_on(reader.answer(chunk(&vec![b'a'; MAX_FETCH_BODY_BYTES - 1])));
    let body = text_of(reader.answer(chunk(b"bc")));
    assert_eq!(body.len(), 1_048_576);
    assert!(body.ends_with("ab"));
}

#[test]
fn chunks_are_kept_in_order() {
    let reader = body_of("http://8.8.8.8/", Some(5));
    let reader = read_on(reader.answer(chunk(b"he")));
    let reader = read_on(reader.answer(chunk(b"")));
    let reader = read_on(reader.answer(chunk(b"llo")));
    assert_eq!(text_of(reader.answer(Ok(None))), "hello");
}

#[test]
fn chunks_do_not_matter() {
    let body = vec![b'x'; MAX_FETCH_BODY_BYTES + 5];
    for size in [1000, MAX_FETCH_BODY_BYTES, MAX_FETCH_BODY_BYTES + 5] {
        let mut step = BodyStep::More(body_of("http://8.8.8.8/", None));
        for piece in body.chunks(size) {
            match step {
                BodyStep::More(reader) => step = reader.answer(chunk(piece)),
                _ => break,
            }
        }
        assert_eq!(text_of(step).as_bytes(), &body[..MAX_FETCH_BODY_BYTES]);
    }
}

#[test]
fn an_empty_body_is_no_failure() {
    assert_eq!(text_of(body_of("http://8.8.8.8/", None).answer(Ok(None))), "");
}

#[test]
fn a_read_that_fails_before_the_limit_fails_the_fetch() {
    let reset = || Err("connection reset".to_string());
    let reader = body_of("http://8.8.8.8/", None);
    assert_eq!(
        read_failure(reader.answer(reset())),
        error("FetchURL failed: connection reset")
    );
    let reader = body_of("http://8.8.8.8/", None);
    let reader = read_on(reader.answer(chunk(&vec![b'a'; MAX_FETCH_BODY_BYTES - 1])));
    assert_eq!(
        read_failure(reader.answer(reset())),
        error("FetchURL failed: connection reset")
    );
    let reader = body_of("http://8.8.8.8/", None);
    let step = reader.answer(chunk(&vec![b'a'; MAX_FETCH_BODY_BYTES]));
    assert_eq!(text_of(step).len(), MAX_FETCH_BODY_BYTES);
}

#[test]
fn bytes_that_are_no_text_are_replaced() {
    let reader = body_of("http://8.8.8.8/", None);
    let reader = read_on(reader.answer(chunk(&[b'a', 0xff, 0xc3, 0xa9])));
    assert_eq!(text_of(reader.answer(Ok(None))), "a\u{fffd}\u{e9}");
}

#[test]
fn a_response_that_announces_too_much_is_refused() {
    let limit = MAX_FETCH_BODY_BYTES as u64;
    assert!(matches!(
        request("http://8.8.8.8/").answer(head(200, None, Some(limit))),
        FetchStep::Read(_)
    ));
    assert_eq!(
        failure(request("http://8.8.8.8/").answer(head(200, None, Some(limit + 1)))),
        error("FetchURL refused a response that exceeded the size limit.")
    );
}

#[test]
fn other_statuses_are_reported() {
    assert_eq!(
        failure(request("http://8.8.8.8/").answer(head(404, None, None))),
        error("FetchURL failed with HTTP 404 Not Found.")
    );
    assert_eq!(
        failure(request("http://8.8.8.8/").answer(head(599, None, None))),
        error("FetchURL failed with HTTP 599 <unknown status code>.")
    );
}

#[test]
fn a_failure_names_the_code() {
    for status in (100..200).chain(300..=999) {
        let FunctionCallError::RespondToModel(message) =
            failure(request("http://8.8.8.8/").answer(head(status, None, None)));
        assert!(message.starts_with(&format!("FetchURL failed with HTTP {status} ")));
    }
}

#[test]
fn a_redirect_needs_a_readable_location() {
    assert_eq!(
        failure(request("http://8.8.8.8/").answer(head(302, None, None))),
        error("FetchURL failed with HTTP 302 Found.")
    );
    assert_eq!(
        failure(request("http://8.8.8.8/").answer(head(301, Some("/\u{e9}"), None))),
        error("FetchURL failed with HTTP 301 Moved Permanently.")
    );
    assert_eq!(
        failure(request("http://8.8.8.8/").answer(head(301, Some("http://[/"), None))),
        error("Invalid URL: invalid IPv6 address")
    );
}

#[test]
fn a_redirect_is_resolved_against_the_url_and_checked_again() {
    let step = request("http://8.8.8.8/a/b").answer(head(302, Some("../c?d"), None));
    let FetchStep::Redirect(next) = step else {
        panic!("the redirect is followed, got {step:?}");
    };
    assert_eq!(accept(next).url(), "http://8.8.8.8/c?d");

    let step = request("http://8.8.8.8/").answer(head(302, Some("http://169.254.169.254/"), None));
    let FetchStep::Redirect(next) = step else {
        panic!("the redirect is followed, got {step:?}");
    };
    let ResolveStep::Classify(check) = next.resolve() else {
        panic!("an address is classified");
    };
    assert!(matches!(check.answer(true), ResolveStep::Refuse(_)));

    let step = request("http://8.8.8.8/").answer(head(302, Some("file:///etc/passwd"), None));
    let FetchStep::Redirect(next) = step else {
        panic!("the redirect is followed, got {step:?}");
    };
    assert!(matches!(next.resolve(), ResolveStep::Refuse(_)));
}

#[test]
fn a_fetch_follows_ten_redirects() {
    assert_eq!(MAX_FETCH_URL_REDIRECTS, 10);
    let mut request = request("http://8.8.8.8/0");
    for hop in 1..=10 {
        let step = request.answer(head(307, Some(&format!("/{hop}")), None));
        let FetchStep::Redirect(next) = step else {
            panic!("redirect {hop} is followed, got {step:?}");
        };
        request = accept(next);
        assert_eq!(request.url(), format!("http://8.8.8.8/{hop}"));
    }
    assert_eq!(
        failure(request.answer(head(307, Some("/11"), None))),
        error("FetchURL failed: too many redirects.")
    );
}

#[test]
fn a_redirect_goes_on_with_the_resolved_url() {
    let url = || UrlParts {
        text: "http://8.8.8.8/".to_string(),
        scheme: "http".to_string(),
        host: Some(UrlHost::Ip(IpAddress::V4(0x08080808))),
        host_str: Some("8.8.8.8".to_string()),
        port: Some(80),
    };
    let mut fetch = FetchUrl::new(url());
    assert_eq!(
        failure(FetchUrl::new(url()).redirected(Err("empty host".to_string()))),
        error("Invalid URL: empty host")
    );
    for _ in 0..10 {
        fetch = match fetch.redirected(Ok(url())) {
            FetchStep::Redirect(next) => next,
            step => panic!("the redirect is followed, got {step:?}"),
        };
    }
    assert_eq!(
        failure(fetch.redirected(Ok(url()))),
        error("FetchURL failed: too many redirects.")
    );
}

#[test]
fn header_values_are_visible_ascii() {
    assert_eq!(header_value_text(b"/a b\tc~"), Some("/a b\tc~".to_string()));
    assert_eq!(header_value_text(b""), Some(String::new()));
    assert_eq!(header_value_text(b"\x7f"), None);
    assert_eq!(header_value_text(b"\n"), None);
    assert_eq!(header_value_text(&[0x80]), None);
}

#[test]
fn header_values_are_read_as_the_client_reads_them() {
    for byte in 0..=255u8 {
        if let Ok(value) = reqwest::header::HeaderValue::from_bytes(&[b'a', byte]) {
            assert_eq!(
                header_value_text(&[b'a', byte]).as_deref(),
                value.to_str().ok()
            );
        }
    }
}

#[test]
fn statuses_are_sorted_as_the_client_sorts_them() {
    for status in 100..=999u16 {
        let code = reqwest::StatusCode::from_u16(status).expect("a status code");
        let step = request("http://8.8.8.8/").answer(head(status, Some("/next"), None));
        assert_eq!(matches!(step, FetchStep::Redirect(_)), code.is_redirection());
        assert_eq!(matches!(step, FetchStep::Read(_)), code.is_success());
    }
}

fn pinned(host: &str) -> PinnedDns {
    PinnedDns {
        host: host.to_string(),
        addrs: vec![
            SocketAddress::V4 {
                ip: 0x5db8d822,
                port: 80,
            },
            SocketAddress::V6 {
                ip: 1 << 64,
                port: 80,
                flowinfo: 3,
                scope_id: 4,
            },
        ],
    }
}

#[test]
fn the_client_connects_to_the_pinned_addresses_only() {
    let plan = fetch_client_plan(Some(&pinned("rebind.test")));
    assert!(!plan.follow_redirects);
    assert_eq!(plan.timeout_secs, 30);
    assert_eq!(plan.overrides, vec![pinned("rebind.test")]);
    assert_eq!(
        fetch_client_plan(Some(&pinned("rebind.test.."))).overrides,
        vec![pinned("rebind.test.."), pinned("rebind.test")]
    );
    assert_eq!(fetch_client_plan(None).overrides, vec![]);
    assert_eq!(request("http://8.8.8.8/").client_plan(), fetch_client_plan(None));
}

fn checked(ip: u32, non_public: bool) -> CheckedAddress {
    CheckedAddress {
        address: SocketAddress::V4 { ip, port: 80 },
        non_public,
    }
}

fn known(
    address: Option<IpAddress>,
    non_public: bool,
    found: Option<Vec<CheckedAddress>>,
) -> HostAnswers {
    HostAnswers {
        address,
        non_public,
        found,
    }
}

fn outcome(url: &str, known: HostAnswers) -> Result<Option<PinnedDns>, FunctionCallError> {
    match resolve_known(FetchUrl::parse(url).expect("a URL"), known) {
        ResolveStep::Send(request) => Ok(request
            .public_target()
            .pinned_dns
            .as_ref()
            .map(|pinned| PinnedDns {
                host: pinned.host.clone(),
                addrs: pinned.addrs.clone(),
            })),
        ResolveStep::Refuse(err) => Err(err),
        step => panic!("every question is answered, got {step:?}"),
    }
}

#[test]
fn a_host_is_checked_with_what_is_known_of_it() {
    let private = || error("FetchURL does not fetch private or loopback addresses.");
    let unverified = || error("FetchURL could not verify that the URL is public.");
    let address = Some(IpAddress::V4(0x08080808));
    let found = |non_public| Some(vec![checked(0x08080808, false), checked(1, non_public)]);

    assert_eq!(outcome("http://8.8.8.8/", known(None, false, None)), Ok(None));
    assert_eq!(
        outcome("http://8.8.8.8/", known(None, true, None)),
        Err(private())
    );
    assert_eq!(outcome("http://a.test/", known(address, false, None)), Ok(None));
    assert_eq!(
        outcome("http://a.test/", known(address, true, found(false))),
        Err(private())
    );
    assert_eq!(
        outcome("http://a.test./", known(None, true, found(false))),
        Ok(Some(PinnedDns {
            host: "a.test.".to_string(),
            addrs: vec![
                SocketAddress::V4 {
                    ip: 0x08080808,
                    port: 80
                },
                SocketAddress::V4 { ip: 1, port: 80 },
            ],
        }))
    );
    assert_eq!(
        outcome("http://a.test/", known(None, false, found(true))),
        Err(private())
    );
    assert_eq!(
        outcome("http://a.test/", known(None, false, None)),
        Err(unverified())
    );
    assert_eq!(
        outcome("http://a.test/", known(None, false, Some(vec![]))),
        Err(unverified())
    );
    assert_eq!(
        outcome("http://localhost/", known(address, false, found(false))),
        Err(private())
    );
    assert_eq!(
        outcome("ftp://8.8.8.8/", known(address, false, found(false))),
        Err(error("FetchURL supports only http and https URLs."))
    );
}

#[test]
fn paths_queries_fragments_and_user_names_do_not_matter() {
    let found = || known(None, false, Some(vec![checked(0x08080808, false)]));
    let plain = outcome("http://a.test/", found());
    assert!(matches!(plain, Ok(Some(_))));
    for url in [
        "http://a.test:80/b/c",
        "http://a.test/?localhost",
        "http://a.test/#10.0.0.1",
        "http://127.0.0.1:x@a.test/",
    ] {
        assert_eq!(outcome(url, found()), plain);
    }
}

#[test]
fn a_name_is_looked_up_again_after_a_redirect() {
    let first = FetchUrl::parse("http://a.test/").expect("a URL");
    let step = resolve_known(first, known(None, false, Some(vec![checked(0x08080808, false)])));
    let ResolveStep::Send(request) = step else {
        panic!("a public name is accepted, got {step:?}");
    };
    let step = request.answer(head(302, Some("/again"), None));
    let FetchStep::Redirect(next) = step else {
        panic!("the redirect is followed, got {step:?}");
    };
    let step = resolve_known(next, known(None, false, Some(vec![checked(0x7f000001, true)])));
    let ResolveStep::Refuse(err) = step else {
        panic!("a name that became private is refused, got {step:?}");
    };
    assert_eq!(
        err,
        error("FetchURL does not fetch private or loopback addresses.")
    );
}

#[test]
fn failures_of_the_client_are_quoted() {
    assert_eq!(
        failure(request("http://8.8.8.8/").answer(Err("builder error".to_string()))),
        error("FetchURL failed: builder error")
    );
    assert_eq!(
        fetch_failed("connection reset"),
        error("FetchURL failed: connection reset")
    );
    assert_eq!(
        accept_url(Err("empty host".to_string())),
        Err(error("Invalid URL: empty host"))
    );
}
