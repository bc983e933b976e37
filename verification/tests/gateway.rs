use http::header::HeaderValue;
use http::HeaderMap;
use rgate::config::WebConfig;
use rgate::gateway::redirect_to_https;
use rgate::gateway::strip_port;
use rgate::gateway::Action;
use rgate::gateway::HostState;
use rgate::gateway::State;
use rgate::proxy::ProxyRule;
use rgate::proxy::ProxyTarget;
use rgate::proxy::Scheme;
use rgate::respond::bad_gateway;
use rgate::respond::error;
use rgate::respond::text;

const HOSTS: &str = r#"
    <host>
        <name value="test.yunp.top"/>
        <ssl cert="c" key="k"/>
        <webroot value="first"/>
        <proxy path="/" target="http://root"/>
        <proxy path="/web" target="http://web1"/>
        <proxy path="/web/api" target="http://api"/>
        <proxy path="/web/" target="http://web2"/>
        <proxy path="/wab" target="http://wab"/>
    </host>
    <host>
        <name value="yunp.top"/>
        <name value="WWW.yunp.top"/>
        <ssl cert="c" key="k"/>
        <webroot value="second"/>
        <proxy path="/web" target="http://other"/>
    </host>"#;

fn state(ports: &str) -> State {
    let text = format!("<web>{}{}</web>", ports, HOSTS);
    State::from_config(&WebConfig::load(&text).unwrap()).unwrap()
}

fn host(value: &str) -> HeaderMap<HeaderValue> {
    let mut h = HeaderMap::new();
    h.insert("host", HeaderValue::from_str(value).unwrap());
    h
}

fn upstream(s: &State, header: &str, path: &str) -> String {
    match s.handle_request(Scheme::Http, path, Some(path), &host(header)) {
        Action::Forward(rule) => rule.target.authority.clone(),
        Action::Static(site) => format!("static {}", site.webroot),
        Action::Answer(reply) => format!("answer {}", reply.status),
    }
}

#[test]
fn rules_are_tried_longest_first() {
    let s = state("<ports http=\"80\"/>");
    let keys: Vec<&str> = s.hosts[0].rules.iter().map(|r| r.key.as_str()).collect();
    assert_eq!(keys, vec!["/web/api", "/web", "/web/", "/wab", "/"]);
    assert_eq!(upstream(&s, "test.yunp.top", "/web/api/x"), "api");
    assert_eq!(upstream(&s, "test.yunp.top", "/web/x"), "web1");
    assert_eq!(upstream(&s, "test.yunp.top", "/webfoo"), "root");
    assert_eq!(upstream(&s, "test.yunp.top", "/wab"), "wab");
}

#[test]
fn equally_long_keys_keep_file_order() {
    let text = r#"<web><ports http="1"/><host><name value="a"/>
        <proxy path="/a" target="http://one"/><proxy path="/a" target="http://two"/>
        <proxy path="/b" target="http://three"/></host></web>"#;
    let s = State::from_config(&WebConfig::load(text).unwrap()).unwrap();
    let order: Vec<&str> = s.hosts[0].rules.iter().map(|r| r.target.host.as_str()).collect();
    assert_eq!(order, vec!["one", "two", "three"]);
    assert_eq!(upstream(&s, "a", "/a"), "one");
}

#[test]
fn trailing_slashes_do_not_make_a_prefix_longer() {
    let text = r#"<web><ports http="80"/><host><name value="a"/>
        <proxy path="/a///" target="http://x"/><proxy path="/a/b" target="http://y"/></host></web>"#;
    let s = State::from_config(&WebConfig::load(text).unwrap()).unwrap();
    let keys: Vec<&str> = s.hosts[0].rules.iter().map(|r| r.key.as_str()).collect();
    assert_eq!(keys, vec!["/a/b", "/a///"]);
    assert_eq!(upstream(&s, "a", "/a/b/c"), "y");
    assert_eq!(upstream(&s, "a", "/a/c"), "x");
}

#[test]
fn length_of_keys_is_counted_in_bytes() {
    let target = ProxyTarget::parse("http://a").unwrap();
    let rules = vec![
        ProxyRule { key: "/abc".to_string(), target: target.clone() },
        ProxyRule { key: "/\u{e9}\u{e9}".to_string(), target: target.clone() },
    ];
    let config =
        WebConfig::load(r#"<web><ports http="1"/><host><name value="A"/></host></web>"#).unwrap();
    let site = HostState::from_rules(&config.hosts[0], rules);
    assert_eq!(site.names, vec!["a"]);
    assert_eq!(site.rules[0].key, "/\u{e9}\u{e9}");
    assert!(site.find_rule("/abc/d").is_some());
    assert!(site.find_rule("/abcd").is_none());
}

#[test]
fn hosts_are_selected_by_name() {
    let s = state("<ports http=\"80\"/>");
    assert_eq!(upstream(&s, "yunp.top", "/web"), "other");
    assert_eq!(upstream(&s, "www.YUNP.top:8080", "/x"), "static second");
    assert_eq!(upstream(&s, "yunp.top:80", "/x"), "static second");
    assert_eq!(upstream(&s, "unknown", "/web"), "web1");
    assert_eq!(s.find_host("").webroot, "first");
    let none = HeaderMap::new();
    assert!(matches!(s.handle_request(Scheme::Http, "/web", None, &none), Action::Forward(_)));
}

#[test]
fn plain_http_is_redirected_when_https_is_enabled() {
    let s = state("<ports http=\"80\" https=\"8443\"/>");
    match s.handle_request(Scheme::Http, "/web", Some("/web?x=1"), &host("yunp.top:80")) {
        Action::Answer(reply) => {
            assert_eq!(reply.status, 301);
            assert_eq!(reply.headers.get("location").unwrap(), "https://yunp.top:8443/web?x=1");
            assert_eq!(reply.headers.get("content-type").unwrap(), "text/plain; charset=utf-8");
            assert_eq!(reply.body, b"301 Moved Permanently\n");
        }
        _ => panic!("the request was not redirected"),
    }
    assert!(matches!(
        s.handle_request(Scheme::Https, "/web", Some("/web"), &host("yunp.top")),
        Action::Forward(_)
    ));
    assert!(matches!(
        s.handle_request(Scheme::Https, "/x", Some("/x"), &host("yunp.top")),
        Action::Static(_)
    ));
}

#[test]
fn redirect_omits_the_default_port() {
    let reply = redirect_to_https(&host("yunp.top"), None, 443);
    assert_eq!(reply.headers.get("location").unwrap(), "https://yunp.top/");
    let reply = redirect_to_https(&host("[::1]:80"), Some("/a"), 8443);
    assert_eq!(reply.headers.get("location").unwrap(), "https://[::1]:8443/a");
}

#[test]
fn redirect_without_a_host_is_refused() {
    let reply = redirect_to_https(&HeaderMap::new(), Some("/"), 443);
    assert_eq!(reply.status, 400);
    assert_eq!(reply.body, b"400 Bad Request\n");
    assert!(reply.headers.get("location").is_none());
    let mut opaque = HeaderMap::new();
    opaque.insert("host", HeaderValue::from_bytes(b"\xff").unwrap());
    assert_eq!(redirect_to_https(&opaque, Some("/"), 443).status, 400);
}

#[test]
fn redirect_to_what_no_header_can_hold_has_no_location() {
    let reply = redirect_to_https(&host("a"), Some("/\n"), 443);
    assert_eq!(reply.status, 301);
    assert!(reply.headers.get("location").is_none());
}

#[test]
fn ports_are_stripped() {
    assert_eq!(strip_port("a:80"), "a");
    assert_eq!(strip_port("a"), "a");
    assert_eq!(strip_port(""), "");
    assert_eq!(strip_port("[::1]:443"), "[::1]");
    assert_eq!(strip_port("[::1]"), "[::1]");
    assert_eq!(strip_port("[::1"), "[::1");
    assert_eq!(strip_port("::1"), "");
}

#[test]
fn first_bad_target_is_reported() {
    let text = r#"<web><ports http="1"/><host><name value="a"/>
        <proxy path="/a" target="ftp://one"/><proxy path="/b" target="gopher://two"/></host></web>"#;
    let error = State::from_config(&WebConfig::load(text).unwrap()).unwrap_err();
    assert_eq!(
        error.message(),
        "unsupported proxy scheme Some(\"ftp\"), only http/https are supported"
    );
}

#[test]
fn replies_are_plain_text() {
    let reply = text(200, "h\u{e9}");
    assert_eq!(reply.status, 200);
    assert_eq!(reply.body, "h\u{e9}".as_bytes());
    assert_eq!(reply.headers.len(), 1);
    assert_eq!(reply.headers.get("content-type").unwrap(), "text/plain; charset=utf-8");
    assert_eq!(error(404, "x").status, 404);
    let reply = bad_gateway();
    assert_eq!(reply.status, 502);
    assert_eq!(reply.body, b"502 Bad Gateway\n");
}
