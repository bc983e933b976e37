use rgate::config::default_webroot;
use rgate::config::ConfigError;
use rgate::config::WebConfig;
use rgate::xml::attr;
use rgate::xml::XmlElement;
use rgate::xml::XmlEvent;

const DOCUMENT: &str = r#"<web>
    <ports http="80" https="443"/>
    <host>
        <name value="test.yunp.top"/>
        <ssl cert="certs/test.yunp.top.pem" key="certs/test.yunp.top.key"/>
        <webroot value="www"/>
        <proxy path="/web" target="http://127.0.0.1:9081/web"/>
    </host>
    <host>
        <name value="yunp.top"/>
        <name value="www.yunp.top"/>
        <ssl cert="certs/yunp.top.pem" key="certs/yunp.top.key"/>
        <webroot value="www"/>
        <proxy path="/web" target="http://127.0.0.1:9082/web"/>
    </host>
</web>"#;

fn fault(text: &str) -> String {
    match WebConfig::load(text) {
        Ok(_) => panic!("the configuration was accepted"),
        Err(error) => error.message(),
    }
}

fn element(name: &str, attributes: &[(&str, &str)]) -> XmlElement {
    let attributes = attributes
        .iter()
        .map(|(k, v)| Some((k.to_string(), v.to_string())))
        .collect();
    XmlElement { name: name.to_string(), attributes }
}

#[test]
fn documented_example_is_loaded() {
    let config = WebConfig::load(DOCUMENT).unwrap();
    assert_eq!(config.http_port, 80);
    assert_eq!(config.https_port, Some(443));
    assert_eq!(config.hosts.len(), 2);
    assert_eq!(config.hosts[0].names, vec!["test.yunp.top"]);
    assert_eq!(config.hosts[1].names, vec!["yunp.top", "www.yunp.top"]);
    let ssl = config.hosts[1].ssl.as_ref().unwrap();
    assert_eq!(ssl.cert, "certs/yunp.top.pem");
    assert_eq!(ssl.key, "certs/yunp.top.key");
    assert_eq!(config.hosts[1].webroot, "www");
    assert_eq!(
        config.hosts[0].proxy,
        vec![("/web".to_string(), "http://127.0.0.1:9081/web".to_string())]
    );
}

#[test]
fn https_and_webroot_are_optional() {
    let config =
        WebConfig::load(r#"<web><ports http="8080"/><host><name value="a"/></host></web>"#).unwrap();
    assert_eq!(config.http_port, 8080);
    assert_eq!(config.https_port, None);
    assert_eq!(config.hosts[0].webroot, "www");
    assert_eq!(default_webroot(), "www");
    assert!(config.hosts[0].ssl.is_none());
    assert!(!config.has_unused_ssl());
}

#[test]
fn names_are_lowercased() {
    let config =
        WebConfig::load(r#"<web><ports http="1"/><host><name value="Yunp.TOP"/></host></web>"#).unwrap();
    assert_eq!(config.hosts[0].names, vec!["yunp.top"]);
}

#[test]
fn unknown_elements_comments_and_text_are_passed_over() {
    let config = WebConfig::load(
        r#"<?xml version="1.0"?><!-- c --><web>text<ports http="1"/><other><more/></other>
           <host><name value="a"/><x y="z">t</x></host></web>"#,
    )
    .unwrap();
    assert_eq!(config.hosts.len(), 1);
    assert_eq!(config.hosts[0].names, vec!["a"]);
}

#[test]
fn first_valid_ports_win() {
    let config = WebConfig::load(
        r#"<web><ports http="1" https="nope"/><ports http="x" https="+0443"/>
           <host><name value="a"/><ssl cert="c" key="k"/></host></web>"#,
    )
    .unwrap();
    assert_eq!(config.http_port, 1);
    assert_eq!(config.https_port, Some(443));
}

#[test]
fn last_webroot_and_ssl_win() {
    let config = WebConfig::load(
        r#"<web><ports http="1"/><host><name value="a"/><webroot value="x"/><webroot value="y"/>
           <ssl cert="c" key="k"/><ssl cert="d" key="l"/></host></web>"#,
    )
    .unwrap();
    assert_eq!(config.hosts[0].webroot, "y");
    assert_eq!(config.hosts[0].ssl.as_ref().unwrap().cert, "d");
    assert!(config.has_unused_ssl());
}

#[test]
fn faults_are_reported() {
    assert_eq!(fault("<web><ports http=\"1\"/></web>"), "config contains no <host> elements");
    assert_eq!(
        fault("<web><ports http=\"1\"/><host></host></web>"),
        "a <host> element has no <name> entries"
    );
    assert_eq!(
        fault("<web><ports http=\"1\" https=\"2\"/><host><name value=\"a\"/></host></web>"),
        "https port is set but host a has no <ssl> config"
    );
    assert_eq!(
        fault("<web><host><name value=\"a\"/></host></web>"),
        "<ports> with a valid http attribute is required"
    );
    assert_eq!(
        fault("<web><ports http=\"65536\"/></web>"),
        "<ports> is missing a valid http attribute"
    );
    assert_eq!(
        fault("<web><host><host></host></host></web>"),
        "nested <host> elements are not allowed"
    );
    assert_eq!(fault("<web><ports http=\"1\"/><host>"), "unclosed <host> element");
    assert_eq!(fault("<host><name/></host>"), "<name> is missing a value attribute");
    assert_eq!(fault("<host><webroot/></host>"), "<webroot> is missing a value attribute");
    assert_eq!(fault("<host><ssl key=\"k\"/></host>"), "<ssl> is missing a cert attribute");
    assert_eq!(fault("<host><ssl cert=\"c\"/></host>"), "<ssl> is missing a key attribute");
    assert_eq!(fault("<host><proxy/></host>"), "<proxy> is missing a path attribute");
    assert_eq!(fault("<host><proxy path=\"/\"/></host>"), "<proxy> is missing a target attribute");
    assert_eq!(fault("<name value=\"a\"/>"), "<name> outside of a <host> element");
    assert_eq!(fault("<ssl cert=\"c\" key=\"k\"/>"), "<ssl> outside of a <host> element");
    assert_eq!(fault("<webroot value=\"a\"/>"), "<webroot> outside of a <host> element");
    assert_eq!(fault("<proxy path=\"/\" target=\"t\"/>"), "<proxy> outside of a <host> element");
}

#[test]
fn malformed_documents_are_rejected() {
    assert!(matches!(WebConfig::load("<web></other>"), Err(ConfigError::Syntax(_))));
    assert!(matches!(WebConfig::load("<web"), Err(ConfigError::Syntax(_))));
    assert!(matches!(WebConfig::load("</host>"), Err(ConfigError::Syntax(_))));
    assert!(!fault("<web></other>").is_empty());
}

#[test]
fn events_are_read_like_a_document() {
    let events = vec![
        XmlEvent::Start(element("web", &[])),
        XmlEvent::Empty(element("ports", &[("http", "80"), ("https", "8443")])),
        XmlEvent::Start(element("host", &[])),
        XmlEvent::Other,
        XmlEvent::Start(element("name", &[("value", "A")])),
        XmlEvent::End("name".to_string()),
        XmlEvent::Empty(element("proxy", &[("path", "/x"), ("target", "t")])),
        XmlEvent::End("host".to_string()),
        XmlEvent::Eof,
        XmlEvent::Malformed("not reached".to_string()),
    ];
    let config = WebConfig::from_events(&events).unwrap();
    assert_eq!(config.http_port, 80);
    assert_eq!(config.https_port, Some(8443));
    assert_eq!(config.hosts[0].names, vec!["a"]);
    assert_eq!(config.hosts[0].proxy, vec![("/x".to_string(), "t".to_string())]);
    assert!(matches!(config.validate(), Err(ConfigError::NoSsl(name)) if name == "a"));

    let stray = vec![XmlEvent::End("host".to_string())];
    assert_eq!(WebConfig::from_events(&stray).unwrap_err().message(), "unexpected </host>");
    let broken = vec![XmlEvent::Malformed("why".to_string())];
    assert_eq!(WebConfig::from_events(&broken).unwrap_err().message(), "why");
}

#[test]
fn empty_host_element_is_a_host_without_a_name() {
    let nameless = "a <host> element has no <name> entries";
    assert_eq!(fault("<web><ports http=\"1\"/><host/></web>"), nameless);
    assert_eq!(
        fault("<web><ports http=\"80\"/><host/><host><name value=\"a\"/></host></web>"),
        nameless
    );
    assert_eq!(
        fault("<web><host><name value=\"a\"/><host/></host></web>"),
        "nested <host> elements are not allowed"
    );
    let config = WebConfig::from_xml("<web><ports http=\"80\"/><host/></web>").unwrap();
    assert_eq!(config.hosts.len(), 1);
    assert!(config.hosts[0].names.is_empty());
    assert_eq!(config.hosts[0].webroot, "www");
}

#[test]
fn first_readable_attribute_is_found() {
    let e = XmlElement {
        name: "x".to_string(),
        attributes: vec![
            None,
            Some(("b".to_string(), "1".to_string())),
            Some(("a".to_string(), "2".to_string())),
            Some(("a".to_string(), "3".to_string())),
        ],
    };
    assert_eq!(attr(&e, "a"), Some("2".to_string()));
    assert_eq!(attr(&e, "b"), Some("1".to_string()));
    assert_eq!(attr(&e, "c"), None);
}

#[test]
fn duplicate_attributes_keep_the_first_value() {
    let config =
        WebConfig::load(r#"<web><ports http="1" http="2"/><host><name value="a"/></host></web>"#).unwrap();
    assert_eq!(config.http_port, 1);
}

#[test]
fn attribute_values_are_taken_raw() {
    let config =
        WebConfig::load(r#"<web><ports http="1"/><host><name value="a&amp;b"/></host></web>"#).unwrap();
    assert_eq!(config.hosts[0].names, vec!["a&amp;b"]);
}
