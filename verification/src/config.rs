//! The configuration of the gateway, read from an XML document.
//!
//! ```xml
//! <web>
//!   <ports http="80" https="443"/>
//!   <host>
//!     <name value="test.yunp.top"/>
//!     <ssl cert="certs/test.yunp.top.pem" key="certs/test.yunp.top.key"/>
//!     <webroot value="www"/>
//!     <proxy path="/web" target="http://127.0.0.1:9081/web"/>
//!   </host>
//! </web>
//! ```

use crate::text::ascii_lowercase;
use crate::text::lower;
use crate::text::parse_port;
use crate::text::port_of;
use crate::text::same;
use crate::xml::attr;
use crate::xml::attr_of;
use crate::xml::document_tokens;
use crate::xml::is_complete;
use crate::xml::next_event;
use crate::xml::open_document;
use crate::xml::remaining_tokens;
use crate::xml::Tag;
use crate::xml::Token;
use crate::xml::XmlElement;
use crate::xml::XmlEvent;
use vstd::prelude::*;

verus! {

/// The configuration of the gateway.
#[derive(Debug)]
pub struct WebConfig {
    /// Port the plain-HTTP server listens on
    pub http_port: u16,
    /// When set, an HTTPS server listens on this port and all plain-HTTP
    /// requests are redirected to it; when absent, HTTPS stays disabled.
    pub https_port: Option<u16>,
    /// Virtual hosts, matched by Host header / SNI name; the first one is the default
    pub hosts: Vec<HostConfig>,
}

/// The configuration of a virtual host.
#[derive(Debug)]
pub struct HostConfig {
    /// Server names (lowercased) matched against the Host header and SNI
    pub names: Vec<String>,
    /// Certificate and private key for this host (required on every host when https is enabled)
    pub ssl: Option<SslConfig>,
    /// Directory that static files are served from
    pub webroot: String,
    /// path prefix -> upstream address, in file order
    pub proxy: Vec<(String, String)>,
}

/// Where the certificate and the private key of a host are kept.
#[derive(Debug)]
pub struct SslConfig {
    pub cert: String,
    pub key: String,
}

/// Why a configuration is rejected.
#[derive(Debug)]
pub enum ConfigError {
    /// The document is not well-formed XML
    Syntax(String),
    /// `</host>` without an open `<host>`
    UnexpectedHostEnd,
    /// `<host>` inside a `<host>`
    NestedHost,
    /// `<host>` without its end
    UnclosedHost,
    /// A `<ports>` element without a valid `http` attribute
    InvalidHttpPort,
    /// No `<ports>` element with a valid `http` attribute
    MissingHttpPort,
    /// An element lacks an attribute that it needs
    MissingAttribute { element: &'static str, attribute: &'static str },
    /// An element that belongs inside `<host>` stands elsewhere
    OutsideHost { element: &'static str },
    /// There is no `<host>`
    NoHosts,
    /// A `<host>` without a `<name>`
    NoNames,
    /// HTTPS is enabled and the host with this name has no `<ssl>`
    NoSsl(String),
}

/// A configuration, as a mathematical value.
pub struct WebModel {
    pub http_port: u16,
    pub https_port: Option<u16>,
    pub hosts: Seq<HostModel>,
}

/// The configuration of a virtual host, as a mathematical value.
pub struct HostModel {
    pub names: Seq<Seq<char>>,
    /// The paths of the certificate and of the private key
    pub ssl: Option<(Seq<char>, Seq<char>)>,
    pub webroot: Seq<char>,
    pub proxy: Seq<(Seq<char>, Seq<char>)>,
}

/// A reason for rejection, as a mathematical value.
pub enum Fault {
    Syntax(Seq<char>),
    UnexpectedHostEnd,
    NestedHost,
    UnclosedHost,
    InvalidHttpPort,
    MissingHttpPort,
    MissingAttribute { element: Seq<char>, attribute: Seq<char> },
    OutsideHost { element: Seq<char> },
    NoHosts,
    NoNames,
    NoSsl(Seq<char>),
}

impl View for HostConfig {
    type V = HostModel;

    open spec fn view(&self) -> HostModel {
        HostModel {
            names: self.names.deep_view(),
            ssl: match self.ssl {
                Some(s) => Some((s.cert@, s.key@)),
                None => None,
            },
            webroot: self.webroot@,
            proxy: self.proxy.deep_view(),
        }
    }
}

impl View for WebConfig {
    type V = WebModel;

    open spec fn view(&self) -> WebModel {
        WebModel {
            http_port: self.http_port,
            https_port: self.https_port,
            hosts: self.hosts@.map_values(|h: HostConfig| h@),
        }
    }
}

impl View for ConfigError {
    type V = Fault;

    open spec fn view(&self) -> Fault {
        match self {
            ConfigError::Syntax(message) => Fault::Syntax(message@),
            ConfigError::UnexpectedHostEnd => Fault::UnexpectedHostEnd,
            ConfigError::NestedHost => Fault::NestedHost,
            ConfigError::UnclosedHost => Fault::UnclosedHost,
            ConfigError::InvalidHttpPort => Fault::InvalidHttpPort,
            ConfigError::MissingHttpPort => Fault::MissingHttpPort,
            ConfigError::MissingAttribute { element, attribute } => Fault::MissingAttribute {
                element: element@,
                attribute: attribute@,
            },
            ConfigError::OutsideHost { element } => Fault::OutsideHost { element: element@ },
            ConfigError::NoHosts => Fault::NoHosts,
            ConfigError::NoNames => Fault::NoNames,
            ConfigError::NoSsl(name) => Fault::NoSsl(name@),
        }
    }
}

/// The text that describes a reason for rejection.
pub open spec fn fault_text(fault: Fault) -> Seq<char> {
    match fault {
        Fault::Syntax(message) => message,
        Fault::UnexpectedHostEnd => "unexpected </host>"@,
        Fault::NestedHost => "nested <host> elements are not allowed"@,
        Fault::UnclosedHost => "unclosed <host> element"@,
        Fault::InvalidHttpPort => "<ports> is missing a valid http attribute"@,
        Fault::MissingHttpPort => "<ports> with a valid http attribute is required"@,
        Fault::MissingAttribute { element, attribute } => "<"@ + element + "> is missing a "@
            + attribute + " attribute"@,
        Fault::OutsideHost { element } => "<"@ + element + "> outside of a <host> element"@,
        Fault::NoHosts => "config contains no <host> elements"@,
        Fault::NoNames => "a <host> element has no <name> entries"@,
        Fault::NoSsl(name) => "https port is set but host "@ + name + " has no <ssl> config"@,
    }
}

impl ConfigError {
    /// The text that describes the error.
    pub fn message(&self) -> (r: String)
        ensures
            r@ == fault_text(self@),
    {
        let mut r = String::new();
        match self {
            ConfigError::Syntax(message) => r.append(message.as_str()),
            ConfigError::UnexpectedHostEnd => r.append("unexpected </host>"),
            ConfigError::NestedHost => r.append("nested <host> elements are not allowed"),
            ConfigError::UnclosedHost => r.append("unclosed <host> element"),
            ConfigError::InvalidHttpPort => r.append("<ports> is missing a valid http attribute"),
            ConfigError::MissingHttpPort => {
                r.append("<ports> with a valid http attribute is required")
            },
            ConfigError::MissingAttribute { element, attribute } => {
                r.append("<");
                r.append(element);
                r.append("> is missing a ");
                r.append(attribute);
                r.append(" attribute");
            },
            ConfigError::OutsideHost { element } => {
                r.append("<");
                r.append(element);
                r.append("> outside of a <host> element");
            },
            ConfigError::NoHosts => r.append("config contains no <host> elements"),
            ConfigError::NoNames => r.append("a <host> element has no <name> entries"),
            ConfigError::NoSsl(name) => {
                r.append("https port is set but host ");
                r.append(name.as_str());
                r.append(" has no <ssl> config");
            },
        }
        assert(r@ =~= fault_text(self@));
        r
    }
}

/// The webroot of a host that names none.
pub fn default_webroot() -> (r: String)
    ensures
        r@ == "www"@,
{
    "www".to_owned()
}

/// A configuration that is being read.
pub struct DraftModel {
    pub http_port: Option<u16>,
    pub https_port: Option<u16>,
    /// The hosts that are complete
    pub hosts: Seq<HostModel>,
    /// The host between `<host>` and `</host>`
    pub host: Option<HostModel>,
}

/// Nothing has been read yet.
pub open spec fn blank() -> DraftModel {
    DraftModel { http_port: None, https_port: None, hosts: Seq::empty(), host: None }
}

/// A host of which nothing has been read yet.
pub open spec fn blank_host() -> HostModel {
    HostModel { names: Seq::empty(), ssl: None, webroot: "www"@, proxy: Seq::empty() }
}

/// The port that an attribute of a tag denotes.
pub open spec fn port_attr(tag: Tag, key: Seq<char>) -> Option<u16> {
    match attr_of(tag.attributes, key) {
        Some(value) => port_of(value),
        None => None,
    }
}

/// Reading `<ports>`: each port is taken from the first element that gives it.
pub open spec fn with_ports(draft: DraftModel, tag: Tag) -> Result<DraftModel, Fault> {
    let http = if draft.http_port is Some { draft.http_port } else { port_attr(tag, "http"@) };
    let https = if draft.https_port is Some { draft.https_port } else { port_attr(tag, "https"@) };
    if http is Some {
        Ok(DraftModel { http_port: http, https_port: https, ..draft })
    } else {
        Err(Fault::InvalidHttpPort)
    }
}

/// Reading an element that belongs inside `<host>`: `change` is what it does to
/// the open host.
pub open spec fn with_host(
    draft: DraftModel,
    element: Seq<char>,
    change: spec_fn(HostModel) -> HostModel,
) -> Result<DraftModel, Fault> {
    match draft.host {
        Some(host) => Ok(DraftModel { host: Some(change(host)), ..draft }),
        None => Err(Fault::OutsideHost { element }),
    }
}

/// Reading the opening tag of an element; `open` tells `<name>` from `<name/>`.
/// Elements that the gateway does not know are passed over.
pub open spec fn with_tag(draft: DraftModel, tag: Tag, open: bool) -> Result<DraftModel, Fault> {
    let name = tag.name;
    let get = |key: Seq<char>| attr_of(tag.attributes, key);
    let missing = |key: Seq<char>|
        Err::<DraftModel, Fault>(Fault::MissingAttribute { element: name, attribute: key });
    if name == "ports"@ {
        with_ports(draft, tag)
    } else if name == "host"@ {
        if draft.host is Some {
            Err(Fault::NestedHost)
        } else if open {
            Ok(DraftModel { host: Some(blank_host()), ..draft })
        } else {
            Ok(DraftModel { hosts: draft.hosts.push(blank_host()), ..draft })
        }
    } else if name == "name"@ {
        match get("value"@) {
            Some(value) => with_host(
                draft,
                name,
                |h: HostModel| HostModel { names: h.names.push(lower(value)), ..h },
            ),
            None => missing("value"@),
        }
    } else if name == "ssl"@ {
        match (get("cert"@), get("key"@)) {
            (Some(cert), Some(key)) => with_host(
                draft,
                name,
                |h: HostModel| HostModel { ssl: Some((cert, key)), ..h },
            ),
            (None, _) => missing("cert"@),
            (_, None) => missing("key"@),
        }
    } else if name == "webroot"@ {
        match get("value"@) {
            Some(value) => with_host(
                draft,
                name,
                |h: HostModel| HostModel { webroot: value, ..h },
            ),
            None => missing("value"@),
        }
    } else if name == "proxy"@ {
        match (get("path"@), get("target"@)) {
            (Some(path), Some(target)) => with_host(
                draft,
                name,
                |h: HostModel| HostModel { proxy: h.proxy.push((path, target)), ..h },
            ),
            (None, _) => missing("path"@),
            (_, None) => missing("target"@),
        }
    } else {
        Ok(draft)
    }
}

/// Reading one token; the end of the document changes nothing.
pub open spec fn with_token(draft: DraftModel, token: Token) -> Result<DraftModel, Fault> {
    match token {
        Token::Start(tag) => with_tag(draft, tag, true),
        Token::Empty(tag) => with_tag(draft, tag, false),
        Token::End(name) => if name != "host"@ {
            Ok(draft)
        } else {
            match draft.host {
                Some(host) => Ok(DraftModel { hosts: draft.hosts.push(host), host: None, ..draft }),
                None => Err(Fault::UnexpectedHostEnd),
            }
        },
        Token::Other => Ok(draft),
        Token::Eof => Ok(draft),
        Token::Malformed(message) => Err(Fault::Syntax(message)),
    }
}

/// What a draft amounts to at the end of the document.
pub open spec fn finished(draft: DraftModel) -> Result<WebModel, Fault> {
    if draft.host is Some {
        Err(Fault::UnclosedHost)
    } else {
        match draft.http_port {
            Some(http_port) => Ok(
                WebModel { http_port, https_port: draft.https_port, hosts: draft.hosts },
            ),
            None => Err(Fault::MissingHttpPort),
        }
    }
}

/// Reading tokens into a draft, up to the end of the document or the first fault.
pub open spec fn read_from(draft: DraftModel, tokens: Seq<Token>) -> Result<WebModel, Fault>
    decreases tokens.len(),
{
    if tokens.len() == 0 || tokens[0] is Eof {
        finished(draft)
    } else {
        match with_token(draft, tokens[0]) {
            Ok(next) => read_from(next, tokens.skip(1)),
            Err(fault) => Err(fault),
        }
    }
}

/// The configuration that a document describes, or why it describes none.
pub open spec fn config_of(tokens: Seq<Token>) -> Result<WebModel, Fault> {
    read_from(blank(), tokens)
}

/// The first fault among hosts that have been read.
pub open spec fn hosts_checked(hosts: Seq<HostModel>, https: bool) -> Result<(), Fault>
    decreases hosts.len(),
{
    if hosts.len() == 0 {
        Ok(())
    } else if hosts[0].names.len() == 0 {
        Err(Fault::NoNames)
    } else if https && hosts[0].ssl is None {
        Err(Fault::NoSsl(hosts[0].names[0]))
    } else {
        hosts_checked(hosts.skip(1), https)
    }
}

/// The first fault of a configuration.
pub open spec fn checked(config: WebModel) -> Result<(), Fault> {
    if config.hosts.len() == 0 {
        Err(Fault::NoHosts)
    } else {
        hosts_checked(config.hosts, config.https_port is Some)
    }
}

/// A configuration that the gateway can run with: there is a host, every host
/// has a name, and every host has a certificate when HTTPS is enabled.
pub open spec fn is_valid(config: WebModel) -> bool {
    &&& config.hosts.len() > 0
    &&& forall|i: int|
        0 <= i < config.hosts.len() ==> {
            &&& (#[trigger] config.hosts[i]).names.len() > 0
            &&& config.https_port is Some ==> config.hosts[i].ssl is Some
        }
}

/// Some host has a certificate although HTTPS stays disabled.
pub open spec fn leaves_ssl_unused(config: WebModel) -> bool {
    config.https_port is None && exists|i: int|
        0 <= i < config.hosts.len() && (#[trigger] config.hosts[i]).ssl is Some
}

/// The configuration that a document describes, if it can be run with.
pub open spec fn loaded(tokens: Seq<Token>) -> Result<WebModel, Fault> {
    match config_of(tokens) {
        Ok(config) => match checked(config) {
            Ok(_) => Ok(config),
            Err(fault) => Err(fault),
        },
        Err(fault) => Err(fault),
    }
}

/// An outcome, as a mathematical value.
pub open spec fn outcome(r: Result<WebConfig, ConfigError>) -> Result<WebModel, Fault> {
    match r {
        Ok(config) => Ok(config@),
        Err(error) => Err(error@),
    }
}

/// A configuration that is being read.
struct Draft {
    http_port: Option<u16>,
    https_port: Option<u16>,
    hosts: Vec<HostConfig>,
    /// Host currently being built (between `<host>` and `</host>`)
    host: Option<HostConfig>,
}

impl Draft {
    spec fn model(self) -> DraftModel {
        DraftModel {
            http_port: self.http_port,
            https_port: self.https_port,
            hosts: self.hosts@.map_values(|h: HostConfig| h@),
            host: match self.host {
                Some(h) => Some(h@),
                None => None,
            },
        }
    }

    spec fn outcome(r: Result<Draft, ConfigError>) -> Result<DraftModel, Fault> {
        match r {
            Ok(draft) => Ok(draft.model()),
            Err(error) => Err(error@),
        }
    }

    fn new() -> (r: Draft)
        ensures
            r.model() == blank(),
    {
        let r = Draft { http_port: None, https_port: None, hosts: Vec::new(), host: None };
        assert(r.model().hosts =~= Seq::<HostModel>::empty());
        r
    }

    fn ports(self, e: &XmlElement) -> (r: Result<Draft, ConfigError>)
        ensures
            Draft::outcome(r) == with_ports(self.model(), e@),
    {
        let mut draft = self;
        if draft.http_port.is_none() {
            let port = match attr(e, "http") {
                Some(v) => parse_port(v.as_str()),
                None => None,
            };
            if port.is_none() {
                return Err(ConfigError::InvalidHttpPort);
            }
            draft.http_port = port;
        }
        if draft.https_port.is_none() {
            draft.https_port = match attr(e, "https") {
                Some(v) => parse_port(v.as_str()),
                None => None,
            };
        }
        Ok(draft)
    }

    /// The host that is open.
    fn take_host(&mut self, element: &'static str) -> (r: Result<HostConfig, ConfigError>)
        ensures
            final(self).http_port == old(self).http_port,
            final(self).https_port == old(self).https_port,
            final(self).hosts == old(self).hosts,
            final(self).host is None,
            match old(self).host {
                Some(h) => r == Ok::<HostConfig, ConfigError>(h),
                None => r matches Err(e) && e@ == (Fault::OutsideHost { element: element@ }),
            },
    {
        match self.host.take() {
            Some(h) => Ok(h),
            None => Err(ConfigError::OutsideHost { element }),
        }
    }

    fn name(self, e: &XmlElement) -> (r: Result<Draft, ConfigError>)
        requires
            e@.name == "name"@,
        ensures
            Draft::outcome(r) == with_tag(self.model(), e@, true),
            Draft::outcome(r) == with_tag(self.model(), e@, false),
    {
        proof {
            distinct_names();
        }
        let mut draft = self;
        let value = match attr(e, "value") {
            Some(v) => v,
            None => return Err(
                ConfigError::MissingAttribute { element: "name", attribute: "value" },
            ),
        };
        let mut host = match draft.take_host("name") {
            Ok(h) => h,
            Err(error) => return Err(error),
        };
        let ghost names = host.names.deep_view();
        host.names.push(ascii_lowercase(value.as_str()));
        assert(host.names.deep_view() =~= names.push(lower(value@)));
        draft.host = Some(host);
        Ok(draft)
    }

    fn ssl(self, e: &XmlElement) -> (r: Result<Draft, ConfigError>)
        requires
            e@.name == "ssl"@,
        ensures
            Draft::outcome(r) == with_tag(self.model(), e@, true),
            Draft::outcome(r) == with_tag(self.model(), e@, false),
    {
        proof {
            distinct_names();
        }
        let mut draft = self;
        let cert = match attr(e, "cert") {
            Some(v) => v,
            None => return Err(ConfigError::MissingAttribute { element: "ssl", attribute: "cert" }),
        };
        let key = match attr(e, "key") {
            Some(v) => v,
            None => return Err(ConfigError::MissingAttribute { element: "ssl", attribute: "key" }),
        };
        let mut host = match draft.take_host("ssl") {
            Ok(h) => h,
            Err(error) => return Err(error),
        };
        host.ssl = Some(SslConfig { cert, key });
        draft.host = Some(host);
        Ok(draft)
    }

    fn webroot(self, e: &XmlElement) -> (r: Result<Draft, ConfigError>)
        requires
            e@.name == "webroot"@,
        ensures
            Draft::outcome(r) == with_tag(self.model(), e@, true),
            Draft::outcome(r) == with_tag(self.model(), e@, false),
    {
        proof {
            distinct_names();
        }
        let mut draft = self;
        let value = match attr(e, "value") {
            Some(v) => v,
            None => return Err(
                ConfigError::MissingAttribute { element: "webroot", attribute: "value" },
            ),
        };
        let mut host = match draft.take_host("webroot") {
            Ok(h) => h,
            Err(error) => return Err(error),
        };
        host.webroot = value;
        draft.host = Some(host);
        Ok(draft)
    }

    fn proxy(self, e: &XmlElement) -> (r: Result<Draft, ConfigError>)
        requires
            e@.name == "proxy"@,
        ensures
            Draft::outcome(r) == with_tag(self.model(), e@, true),
            Draft::outcome(r) == with_tag(self.model(), e@, false),
    {
        proof {
            distinct_names();
        }
        let mut draft = self;
        let path = match attr(e, "path") {
            Some(v) => v,
            None => return Err(
                ConfigError::MissingAttribute { element: "proxy", attribute: "path" },
            ),
        };
        let target = match attr(e, "target") {
            Some(v) => v,
            None => return Err(
                ConfigError::MissingAttribute { element: "proxy", attribute: "target" },
            ),
        };
        let mut host = match draft.take_host("proxy") {
            Ok(h) => h,
            Err(error) => return Err(error),
        };
        let ghost before = host.proxy.deep_view();
        let ghost rule = (path@, target@);
        host.proxy.push((path, target));
        assert(host.proxy.deep_view() =~= before.push(rule));
        draft.host = Some(host);
        Ok(draft)
    }

    fn element(self, e: &XmlElement, open: bool) -> (r: Result<Draft, ConfigError>)
        ensures
            Draft::outcome(r) == with_tag(self.model(), e@, open),
    {
        let name = e.name.as_str();
        if same(name, "ports") {
            self.ports(e)
        } else if same(name, "host") {
            let mut draft = self;
            if draft.host.is_some() {
                return Err(ConfigError::NestedHost);
            }
            let host = HostConfig {
                names: Vec::new(),
                ssl: None,
                webroot: default_webroot(),
                proxy: Vec::new(),
            };
            assert(host@.names =~= Seq::<Seq<char>>::empty());
            assert(host@.proxy =~= Seq::<(Seq<char>, Seq<char>)>::empty());
            if open {
                draft.host = Some(host);
            } else {
                let ghost before = draft.model().hosts;
                draft.hosts.push(host);
                assert(draft.model().hosts =~= before.push(blank_host()));
            }
            Ok(draft)
        } else if same(name, "name") {
            self.name(e)
        } else if same(name, "ssl") {
            self.ssl(e)
        } else if same(name, "webroot") {
            self.webroot(e)
        } else if same(name, "proxy") {
            self.proxy(e)
        } else {
            Ok(self)
        }
    }

    fn event(self, event: &XmlEvent) -> (r: Result<Draft, ConfigError>)
        ensures
            Draft::outcome(r) == with_token(self.model(), event@),
    {
        match event {
            XmlEvent::Start(e) => self.element(e, true),
            XmlEvent::Empty(e) => self.element(e, false),
            XmlEvent::End(name) => {
                let mut draft = self;
                if same(name.as_str(), "host") {
                    match draft.host.take() {
                        Some(h) => {
                            let ghost before = draft.model().hosts;
                            let ghost host = h@;
                            draft.hosts.push(h);
                            assert(draft.model().hosts =~= before.push(host));
                        },
                        None => return Err(ConfigError::UnexpectedHostEnd),
                    }
                }
                Ok(draft)
            },
            XmlEvent::Other => Ok(self),
            XmlEvent::Eof => Ok(self),
            XmlEvent::Malformed(message) => Err(ConfigError::Syntax(message.clone())),
        }
    }

    fn finish(self) -> (r: Result<WebConfig, ConfigError>)
        ensures
            outcome(r) == finished(self.model()),
    {
        if self.host.is_some() {
            return Err(ConfigError::UnclosedHost);
        }
        match self.http_port {
            Some(http_port) => Ok(
                WebConfig { http_port, https_port: self.https_port, hosts: self.hosts },
            ),
            None => Err(ConfigError::MissingHttpPort),
        }
    }
}

/// The names of the elements differ from each other.
pub(crate) proof fn distinct_names()
    ensures
        "name"@ != "ports"@ && "name"@ != "host"@,
        "ssl"@ != "ports"@ && "ssl"@ != "host"@ && "ssl"@ != "name"@,
        "webroot"@ != "ports"@ && "webroot"@ != "host"@ && "webroot"@ != "name"@ && "webroot"@
            != "ssl"@,
        "proxy"@ != "ports"@ && "proxy"@ != "host"@ && "proxy"@ != "name"@ && "proxy"@ != "ssl"@
            && "proxy"@ != "webroot"@,
        "host"@ != "ports"@,
        "web"@ != "ports"@ && "web"@ != "host"@ && "web"@ != "name"@ && "web"@ != "ssl"@ && "web"@
            != "webroot"@ && "web"@ != "proxy"@,
{
    reveal_strlit("ports");
    reveal_strlit("host");
    reveal_strlit("name");
    reveal_strlit("ssl");
    reveal_strlit("webroot");
    reveal_strlit("proxy");
    reveal_strlit("web");
    assert("name"@[0] == 'n' && "host"@[0] == 'h' && "ssl"@[0] == 's' && "web"@[0] == 'w');
    assert("ports"@[0] == 'p' && "proxy"@[0] == 'p');
    assert("ports"@[1] == 'o' && "proxy"@[1] == 'r');
    assert("webroot"@[0] == 'w' && "webroot"@.len() == 7 && "web"@.len() == 3);
}

impl WebConfig {
    /// The configuration in a configuration file with the given text.
    pub fn load(raw: &str) -> (r: Result<WebConfig, ConfigError>)
        ensures
            outcome(r) == loaded(document_tokens(raw@)),
    {
        let config = match WebConfig::from_xml(raw) {
            Ok(config) => config,
            Err(error) => return Err(error),
        };
        match config.validate() {
            Ok(()) => Ok(config),
            Err(error) => Err(error),
        }
    }

    /// The configuration that a document describes, whether or not it can be run with.
    pub fn from_xml(xml: &str) -> (r: Result<WebConfig, ConfigError>)
        ensures
            outcome(r) == config_of(document_tokens(xml@)),
    {
        let mut reader = open_document(xml);
        let mut draft = Draft::new();
        loop
            invariant
                is_complete(remaining_tokens(reader)),
                read_from(draft.model(), remaining_tokens(reader)) == config_of(
                    document_tokens(xml@),
                ),
            decreases remaining_tokens(reader).len(),
        {
            let ghost tokens = remaining_tokens(reader);
            let event = next_event(&mut reader);
            if let XmlEvent::Eof = event {
                return draft.finish();
            }
            draft = match draft.event(&event) {
                Ok(next) => next,
                Err(error) => return Err(error),
            };
            assert(tokens.len() > 1);
            assert(tokens.skip(1).last() == tokens.last());
        }
    }

    /// The configuration that the events of a document describe.
    pub fn from_events(events: &Vec<XmlEvent>) -> (r: Result<WebConfig, ConfigError>)
        ensures
            outcome(r) == config_of(events@.map_values(|e: XmlEvent| e@)),
    {
        let ghost tokens = events@.map_values(|e: XmlEvent| e@);
        let mut draft = Draft::new();
        let mut i: usize = 0;
        assert(tokens.skip(0) =~= tokens);
        while i < events.len()
            invariant
                i <= events@.len(),
                tokens == events@.map_values(|e: XmlEvent| e@),
                read_from(draft.model(), tokens.skip(i as int)) == config_of(tokens),
            decreases events@.len() - i,
        {
            assert(tokens.skip(i as int)[0] == events@[i as int]@);
            if let XmlEvent::Eof = &events[i] {
                return draft.finish();
            }
            draft = match draft.event(&events[i]) {
                Ok(next) => next,
                Err(error) => return Err(error),
            };
            assert(tokens.skip(i as int).skip(1) =~= tokens.skip(i + 1));
            i += 1;
        }
        draft.finish()
    }

    /// Whether the configuration can be run with, or else its first fault.
    pub fn validate(&self) -> (r: Result<(), ConfigError>)
        ensures
            match r {
                Ok(()) => checked(self@) == Ok::<(), Fault>(()),
                Err(error) => checked(self@) == Err::<(), Fault>(error@),
            },
            r is Ok <==> is_valid(self@),
    {
        proof {
            validity(self@);
        }
        if self.hosts.len() == 0 {
            return Err(ConfigError::NoHosts);
        }
        let mut i: usize = 0;
        assert(self@.hosts.skip(0) =~= self@.hosts);
        while i < self.hosts.len()
            invariant
                i <= self.hosts@.len(),
                self.hosts@.len() > 0,
                checked(self@) is Ok <==> is_valid(self@),
                hosts_checked(self@.hosts.skip(i as int), self@.https_port is Some) == checked(
                    self@,
                ),
            decreases self.hosts@.len() - i,
        {
            let host = &self.hosts[i];
            let ghost rest = self@.hosts.skip(i as int);
            assert(rest[0] == host@);
            if host.names.len() == 0 {
                return Err(ConfigError::NoNames);
            }
            if self.https_port.is_some() && host.ssl.is_none() {
                return Err(ConfigError::NoSsl(host.names[0].clone()));
            }
            assert(rest.skip(1) =~= self@.hosts.skip(i + 1));
            i += 1;
        }
        Ok(())
    }

    /// Whether some host has a certificate although HTTPS stays disabled.
    pub fn has_unused_ssl(&self) -> (r: bool)
        ensures
            r == leaves_ssl_unused(self@),
    {
        if self.https_port.is_some() {
            return false;
        }
        let mut i: usize = 0;
        while i < self.hosts.len()
            invariant
                i <= self.hosts@.len(),
                self.https_port is None,
                forall|j: int| 0 <= j < i ==> (#[trigger] self@.hosts[j]).ssl is None,
            decreases self.hosts@.len() - i,
        {
            if self.hosts[i].ssl.is_some() {
                assert(self@.hosts[i as int].ssl is Some);
                return true;
            }
            i += 1;
        }
        false
    }
}

/// A configuration passes the check exactly if it can be run with.
pub proof fn validity(config: WebModel)
    ensures
        checked(config) is Ok <==> is_valid(config),
{
    if config.hosts.len() > 0 {
        hosts_validity(config.hosts, config.https_port is Some);
    }
}

proof fn hosts_validity(hosts: Seq<HostModel>, https: bool)
    ensures
        hosts_checked(hosts, https) is Ok <==> (forall|i: int|
            0 <= i < hosts.len() ==> (#[trigger] hosts[i]).names.len() > 0 && (https
                ==> hosts[i].ssl is Some)),
    decreases hosts.len(),
{
    if hosts.len() > 0 {
        let rest = hosts.skip(1);
        hosts_validity(rest, https);
        assert(forall|i: int| 0 <= i < rest.len() ==> rest[i] == #[trigger] hosts[i + 1]);
        if forall|i: int|
            0 <= i < rest.len() ==> (#[trigger] rest[i]).names.len() > 0 && (https
                ==> rest[i].ssl is Some) {
            assert forall|i: int| 0 < i < hosts.len() implies (#[trigger] hosts[i]).names.len() > 0
                && (https ==> hosts[i].ssl is Some) by {
                assert(rest[i - 1] == hosts[i]);
            }
        }
        if forall|i: int|
            0 <= i < hosts.len() ==> (#[trigger] hosts[i]).names.len() > 0 && (https
                ==> hosts[i].ssl is Some) {
            assert(hosts[0].names.len() > 0);
        }
    }
}

} // verus!
