use http::header::HeaderValue;
use http::HeaderMap;
use rgate::headers::is_upgrade_request;
use rgate::headers::strip_hop_by_hop;
use rgate::proxy::finish_response;
use rgate::proxy::forward_headers;
use rgate::proxy::join_path;
use rgate::proxy::path_suffix;
use rgate::proxy::prepare_request;
use rgate::proxy::prepare_with_target;
use rgate::proxy::split_authority;
use rgate::proxy::upstream_path;
use rgate::proxy::ForwardError;
use rgate::proxy::ProxyRule;
use rgate::proxy::ProxyTarget;
use rgate::proxy::Scheme;
use rgate::proxy::TargetError;
use rgate::uri::UriParts;

fn rule(key: &str, target: &str) -> ProxyRule {
    ProxyRule { key: key.to_string(), target: ProxyTarget::parse(target).unwrap() }
}

fn headers(fields: &[(&'static str, &str)]) -> HeaderMap<HeaderValue> {
    let mut map = HeaderMap::new();
    for (name, value) in fields {
        map.append(*name, HeaderValue::from_str(value).unwrap());
    }
    map
}

#[test]
fn target_is_parsed() {
    let t = ProxyTarget::parse("http://web:8080/web/").unwrap();
    assert_eq!(t.scheme, Scheme::Http);
    assert_eq!(t.host, "web");
    assert_eq!(t.port, 8080);
    assert_eq!(t.authority, "web:8080");
    assert_eq!(t.prefix, "/web");
    assert_eq!(t.display(), "http://web:8080/web");
    let t = ProxyTarget::parse("https://example.org").unwrap();
    assert_eq!(t.scheme, Scheme::Https);
    assert_eq!((t.host.as_str(), t.port), ("example.org", 443));
    assert_eq!(t.prefix, "");
    assert_eq!(t.display(), "https://example.org");
}

#[test]
fn bad_targets_are_rejected() {
    assert_eq!(
        ProxyTarget::parse("http://[").unwrap_err().message(),
        "invalid proxy target: http://["
    );
    assert_eq!(
        ProxyTarget::parse("ftp://a/").unwrap_err().message(),
        "unsupported proxy scheme Some(\"ftp\"), only http/https are supported"
    );
    assert_eq!(
        ProxyTarget::parse("/web").unwrap_err().message(),
        "unsupported proxy scheme None, only http/https are supported"
    );
    let uri = UriParts { scheme: Some("http".to_string()), authority: None, path: "/".to_string() };
    let error = ProxyTarget::from_uri("t", Some(uri)).unwrap_err();
    assert!(matches!(error, TargetError::MissingHost(_)));
    assert_eq!(error.message(), "proxy target missing host: t");
}

#[test]
fn target_follows_from_its_uri() {
    let uri = UriParts {
        scheme: Some("https".to_string()),
        authority: Some("h:9".to_string()),
        path: "/a//".to_string(),
    };
    let t = ProxyTarget::from_uri("x", Some(uri)).unwrap();
    assert_eq!((t.host.as_str(), t.port, t.prefix.as_str()), ("h", 9, "/a"));
}

#[test]
fn authority_is_split() {
    assert_eq!(split_authority("web:8080", Scheme::Http), ("web".to_string(), 8080));
    assert_eq!(split_authority("web", Scheme::Http), ("web".to_string(), 80));
    assert_eq!(split_authority("web", Scheme::Https), ("web".to_string(), 443));
    assert_eq!(split_authority("[::1]", Scheme::Http), ("[::1]".to_string(), 80));
    assert_eq!(split_authority("[::1]:8080", Scheme::Http), ("[::1]".to_string(), 8080));
    assert_eq!(split_authority("[::1]:x", Scheme::Http), ("[::1]:x".to_string(), 80));
    assert_eq!(split_authority("u@[::1]:8080", Scheme::Http), ("u@[::1]".to_string(), 8080));
    assert_eq!(split_authority("::1", Scheme::Http), ("::1".to_string(), 80));
    assert_eq!(split_authority("fe80::1:2", Scheme::Https), ("fe80::1:2".to_string(), 443));
    assert_eq!(split_authority("u:p@web:81", Scheme::Http), ("u:p@web".to_string(), 81));
    assert_eq!(split_authority("a]b:81", Scheme::Http), ("a]b:81".to_string(), 80));
    assert_eq!(split_authority(":80", Scheme::Https), (":80".to_string(), 443));
    assert_eq!(split_authority("web:x", Scheme::Http), ("web:x".to_string(), 80));
    assert_eq!(split_authority("web:65536", Scheme::Http), ("web:65536".to_string(), 80));
    assert_eq!(split_authority("web:", Scheme::Http), ("web:".to_string(), 80));
}

#[test]
fn prefixes_match_whole_segments() {
    let r = rule("/web", "http://a");
    assert!(r.matches("/web"));
    assert!(r.matches("/web/"));
    assert!(r.matches("/web/foo"));
    assert!(!r.matches("/webfoo"));
    assert!(!r.matches("/we"));
    assert!(rule("/web//", "http://a").matches("/web"));
    assert!(rule("/", "http://a").matches("/anything"));
    assert!(rule("", "http://a").matches("*"));
}

#[test]
fn suffixes_are_what_follows_the_key() {
    assert_eq!(path_suffix("/web", "/web/foo"), "/foo");
    assert_eq!(path_suffix("/web/", "/web"), "");
    assert_eq!(path_suffix("/", "/x"), "/x");
    assert_eq!(path_suffix("/web", "/other"), "/other");
}

#[test]
fn paths_are_joined() {
    assert_eq!(join_path("/web/", "/foo"), "/web/foo");
    assert_eq!(join_path("", ""), "/");
    assert_eq!(join_path("/web", ""), "/web");
    assert_eq!(join_path("/", "/foo"), "/foo");
}

#[test]
fn upstream_paths_keep_the_query() {
    let r = rule("/web", "http://a/web");
    assert_eq!(upstream_path(&r, "/web/foo", None), "/web/foo");
    assert_eq!(upstream_path(&r, "/web/foo", Some("a=b")), "/web/foo?a=b");
    assert_eq!(upstream_path(&rule("/web", "http://a"), "/web", Some("")), "/?");
    assert_eq!(upstream_path(&rule("/", "http://a/p"), "/x", None), "/p/x");
}

#[test]
fn hop_by_hop_headers_are_stripped() {
    let fields = [
        ("connection", "upgrade"),
        ("keep-alive", "1"),
        ("proxy-authenticate", "1"),
        ("proxy-authorization", "1"),
        ("te", "1"),
        ("trailer", "1"),
        ("transfer-encoding", "chunked"),
        ("upgrade", "websocket"),
        ("host", "h"),
        ("accept", "a"),
        ("accept", "b"),
    ];
    let mut plain = headers(&fields);
    strip_hop_by_hop(&mut plain, false);
    assert_eq!(plain, headers(&[("accept", "a"), ("accept", "b")]));
    let mut upgrade = headers(&fields);
    strip_hop_by_hop(&mut upgrade, true);
    let kept = headers(&[
        ("connection", "upgrade"),
        ("upgrade", "websocket"),
        ("accept", "a"),
        ("accept", "b"),
    ]);
    assert_eq!(upgrade, kept);
    strip_hop_by_hop(&mut upgrade, true);
    assert_eq!(upgrade, kept);
}

#[test]
fn websocket_requests_are_recognised() {
    assert!(is_upgrade_request(&headers(&[
        ("connection", "keep-alive, Upgrade"),
        ("upgrade", "WebSocket"),
    ])));
    assert!(!is_upgrade_request(&headers(&[("connection", "Upgrade"), ("upgrade", "h2c")])));
    assert!(!is_upgrade_request(&headers(&[("upgrade", "websocket")])));
    assert!(!is_upgrade_request(&headers(&[("connection", "close"), ("upgrade", "websocket")])));
    let mut opaque = headers(&[("upgrade", "websocket")]);
    opaque.insert("connection", HeaderValue::from_bytes(b"upgrade\xff").unwrap());
    assert!(!is_upgrade_request(&opaque));
}

#[test]
fn request_is_prepared_for_the_upstream() {
    let r = rule("/web", "http://up:81/app");
    let mut h = headers(&[("host", "client"), ("te", "x"), ("accept", "a"), ("x-forwarded-for", "old")]);
    let request = prepare_request(&r, "/web/foo", Some("q=1"), &mut h, "10.0.0.1", Scheme::Https).unwrap();
    assert_eq!(request.target, "/app/foo?q=1");
    assert!(!request.is_ws);
    assert_eq!(
        h,
        headers(&[
            ("host", "up:81"),
            ("accept", "a"),
            ("x-forwarded-for", "10.0.0.1"),
            ("x-forwarded-proto", "https"),
        ])
    );
}

#[test]
fn websocket_headers_are_forwarded() {
    let r = rule("/", "http://up");
    let mut h = headers(&[("connection", "Upgrade"), ("upgrade", "websocket")]);
    let request = prepare_request(&r, "/ws", None, &mut h, "::1", Scheme::Http).unwrap();
    assert!(request.is_ws);
    assert_eq!(request.target, "/ws");
    assert_eq!(h.get("connection").unwrap(), "Upgrade");
    assert_eq!(h.get("upgrade").unwrap(), "websocket");
    assert_eq!(h.get("x-forwarded-proto").unwrap(), "http");
    assert_eq!(h.get("host").unwrap(), "up");
}

#[test]
fn request_that_cannot_be_forwarded_is_refused() {
    let r = rule("/", "http://up");
    let mut h = headers(&[("accept", "a")]);
    let error = prepare_request(&r, "/a b", None, &mut h, "1", Scheme::Http).unwrap_err();
    assert_eq!(error, ForwardError::InvalidPath);
    assert_eq!(error.message(), "invalid upstream path");
    assert_eq!(h, headers(&[("accept", "a")]));

    let mut h = HeaderMap::new();
    let error = forward_headers(&r.target, &mut h, "1\n2", Scheme::Http).unwrap_err();
    assert_eq!(error, ForwardError::InvalidPeer);
    assert_eq!(error.message(), "invalid client address");

    let mut target = r.target.clone();
    target.authority = "a\nb".to_string();
    let mut h = HeaderMap::new();
    let error =
        prepare_with_target(Some("/".to_string()), &target, &mut h, "1", Scheme::Http).unwrap_err();
    assert_eq!(error, ForwardError::InvalidHost);
    assert_eq!(error.message(), "invalid upstream authority");
}

#[test]
fn fragment_is_not_sent() {
    let r = rule("/", "http://up");
    let mut h = HeaderMap::new();
    let request = prepare_request(&r, "/a#b", None, &mut h, "1", Scheme::Http).unwrap();
    assert_eq!(request.target, "/a");
}

#[test]
fn headers_are_forwarded_as_long_as_there_is_room() {
    let r = rule("/", "http://up");
    let mut h = HeaderMap::new();
    for i in 0..20000 {
        let name = http::header::HeaderName::from_bytes(format!("x{}", i).as_bytes()).unwrap();
        h.insert(name, HeaderValue::from_static("v"));
    }
    assert!(prepare_request(&r, "/", None, &mut h, "1", Scheme::Http).is_ok());
    assert_eq!(h.keys_len(), 20003);
    let mut i = 20000;
    loop {
        let name = http::header::HeaderName::from_bytes(format!("x{}", i).as_bytes()).unwrap();
        if h.try_insert(name, HeaderValue::from_static("v")).is_err() {
            break;
        }
        i += 1;
    }
    h.remove("x-forwarded-for");
    let error = prepare_request(&r, "/", None, &mut h, "1", Scheme::Http).unwrap_err();
    assert_eq!(error, ForwardError::TooManyFields);
    assert_eq!(error.message(), "too many header fields");
}

#[test]
fn displayed_targets_are_read_back() {
    for text in ["http://web:8080/web//", "https://example.org", "http://u:p@[::1]:81/a/b", "http://a/?q"] {
        let t = ProxyTarget::parse(text).unwrap();
        let u = ProxyTarget::parse(&t.display()).unwrap();
        assert_eq!(u.scheme, t.scheme);
        assert_eq!((&u.host, u.port), (&t.host, t.port));
        assert_eq!((&u.authority, &u.prefix), (&t.authority, &t.prefix));
        assert!(!t.prefix.ends_with('/'));
    }
}

#[test]
fn response_headers_are_stripped_unless_protocols_are_switched() {
    let mut h = headers(&[("connection", "close"), ("server", "s")]);
    assert_eq!(finish_response(200, &mut h, true, true), Ok(false));
    assert_eq!(h, headers(&[("server", "s")]));
    let mut h = headers(&[("connection", "upgrade"), ("upgrade", "websocket"), ("te", "x")]);
    assert_eq!(finish_response(101, &mut h, true, true), Ok(true));
    assert_eq!(h, headers(&[("connection", "upgrade"), ("upgrade", "websocket")]));
    assert_eq!(
        finish_response(101, &mut h, false, false),
        Err(ForwardError::MissingClientUpgrade)
    );
    assert_eq!(
        finish_response(101, &mut h, true, false),
        Err(ForwardError::MissingUpstreamUpgrade)
    );
    assert_eq!(ForwardError::MissingClientUpgrade.message(), "missing client upgrade handle");
    assert_eq!(
        ForwardError::MissingUpstreamUpgrade.message(),
        "upstream did not return an upgrade handle"
    );
}

#[test]
fn server_names_are_checked() {
    assert_eq!(ProxyTarget::parse("https://example.org").unwrap().server_name().unwrap(), "example.org");
    assert_eq!(ProxyTarget::parse("https://127.0.0.1:1").unwrap().server_name().unwrap(), "127.0.0.1");
    let error = ProxyTarget::parse("https://[::1]").unwrap().server_name().unwrap_err();
    assert_eq!(error, ForwardError::InvalidServerName);
    assert_eq!(error.message(), "invalid upstream host name: invalid dns name");
}

#[test]
fn schemes_have_names() {
    assert_eq!(Scheme::Http.as_str(), "http");
    assert_eq!(Scheme::Https.as_str(), "https");
}
