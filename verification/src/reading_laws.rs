//! What each element of a configuration document does to what is read.

use crate::config::checked;
use crate::config::config_of;
use crate::config::distinct_names;
use crate::config::fault_text;
use crate::config::hosts_checked;
use crate::config::is_valid;
use crate::config::leaves_ssl_unused;
use crate::config::loaded;
use crate::config::read_from;
use crate::config::validity;
use crate::config::with_token;
use crate::config::DraftModel;
use crate::config::Fault;
use crate::config::HostModel;
use crate::config::WebModel;
use crate::text::lower;
use crate::text::port_of;
use crate::xml::attr_of;
use crate::xml::Tag;
use crate::xml::Token;
use vstd::prelude::*;

verus! {

/// The value of an attribute is that of the first readable attribute with its key.
pub proof fn first_attribute(
    attributes: Seq<Option<(Seq<char>, Seq<char>)>>,
    key: Seq<char>,
    value: Seq<char>,
    i: int,
)
    requires
        0 <= i < attributes.len(),
        attributes[i] == Some((key, value)),
        forall|j: int| 0 <= j < i ==> (#[trigger] attributes[j] matches Some(a) ==> a.0 != key),
    ensures
        attr_of(attributes, key) == Some(value),
    decreases i,
{
    if i > 0 {
        let rest = attributes.skip(1);
        assert(attributes[0] matches Some(a) ==> a.0 != key);
        assert(rest[i - 1] == attributes[i]);
        assert forall|j: int| 0 <= j < i - 1 implies (#[trigger] rest[j] matches Some(a) ==> a.0
            != key) by {
            assert(rest[j] == attributes[j + 1]);
        }
        first_attribute(rest, key, value, i - 1);
    }
}

/// An attribute that no readable attribute has the key of is missing.
pub proof fn missing_attribute(attributes: Seq<Option<(Seq<char>, Seq<char>)>>, key: Seq<char>)
    requires
        forall|j: int|
            0 <= j < attributes.len() ==> (#[trigger] attributes[j] matches Some(a) ==> a.0
                != key),
    ensures
        attr_of(attributes, key) is None,
    decreases attributes.len(),
{
    if attributes.len() > 0 {
        let rest = attributes.skip(1);
        assert(attributes[0] matches Some(a) ==> a.0 != key);
        assert forall|j: int| 0 <= j < rest.len() implies (#[trigger] rest[j] matches Some(a)
            ==> a.0 != key) by {
            assert(rest[j] == attributes[j + 1]);
        }
        missing_attribute(rest, key);
    }
}

/// `token` opens an element, with or without content.
pub open spec fn opens(token: Token, tag: Tag) -> bool {
    token == Token::Start(tag) || token == Token::Empty(tag)
}

/// Tokens are read one after the other: a token that is read leaves the rest to be
/// read, and a fault ends the reading.
proof fn one_token(draft: DraftModel, token: Token, rest: Seq<Token>)
    requires
        !(token is Eof),
    ensures
        read_from(draft, seq![token] + rest) == (match with_token(draft, token) {
            Ok(next) => read_from(next, rest),
            Err(fault) => Err(fault),
        }),
{
    let all = seq![token] + rest;
    assert(all[0] == token);
    assert(all.skip(1) =~= rest);
}

/// A document is read from nothing: no port, no host, and none open.
pub proof fn reading_begins(tokens: Seq<Token>)
    ensures
        config_of(tokens) == read_from(
            DraftModel { http_port: None, https_port: None, hosts: Seq::empty(), host: None },
            tokens,
        ),
{
}

/// `<name>` adds its value, in lower case, behind the names of the open host.
pub proof fn name_is_added(
    draft: DraftModel,
    host: HostModel,
    token: Token,
    tag: Tag,
    value: Seq<char>,
    rest: Seq<Token>,
)
    requires
        opens(token, tag),
        tag.name == "name"@,
        attr_of(tag.attributes, "value"@) == Some(value),
        draft.host == Some(host),
    ensures
        read_from(draft, seq![token] + rest) == read_from(
            DraftModel {
                host: Some(HostModel { names: host.names.push(lower(value)), ..host }),
                ..draft
            },
            rest,
        ),
{
    distinct_names();
    one_token(draft, token, rest);
}

/// `<ssl>` sets the certificate and the key of the open host, in place of earlier ones.
pub proof fn ssl_is_set(
    draft: DraftModel,
    host: HostModel,
    token: Token,
    tag: Tag,
    cert: Seq<char>,
    key: Seq<char>,
    rest: Seq<Token>,
)
    requires
        opens(token, tag),
        tag.name == "ssl"@,
        attr_of(tag.attributes, "cert"@) == Some(cert),
        attr_of(tag.attributes, "key"@) == Some(key),
        draft.host == Some(host),
    ensures
        read_from(draft, seq![token] + rest) == read_from(
            DraftModel { host: Some(HostModel { ssl: Some((cert, key)), ..host }), ..draft },
            rest,
        ),
{
    distinct_names();
    one_token(draft, token, rest);
}

/// `<webroot>` sets the webroot of the open host, in place of an earlier one.
pub proof fn webroot_is_set(
    draft: DraftModel,
    host: HostModel,
    token: Token,
    tag: Tag,
    value: Seq<char>,
    rest: Seq<Token>,
)
    requires
        opens(token, tag),
        tag.name == "webroot"@,
        attr_of(tag.attributes, "value"@) == Some(value),
        draft.host == Some(host),
    ensures
        read_from(draft, seq![token] + rest) == read_from(
            DraftModel { host: Some(HostModel { webroot: value, ..host }), ..draft },
            rest,
        ),
{
    distinct_names();
    one_token(draft, token, rest);
}

/// `<proxy>` adds its path and target behind the rules of the open host.
pub proof fn proxy_is_added(
    draft: DraftModel,
    host: HostModel,
    token: Token,
    tag: Tag,
    path: Seq<char>,
    target: Seq<char>,
    rest: Seq<Token>,
)
    requires
        opens(token, tag),
        tag.name == "proxy"@,
        attr_of(tag.attributes, "path"@) == Some(path),
        attr_of(tag.attributes, "target"@) == Some(target),
        draft.host == Some(host),
    ensures
        read_from(draft, seq![token] + rest) == read_from(
            DraftModel {
                host: Some(HostModel { proxy: host.proxy.push((path, target)), ..host }),
                ..draft
            },
            rest,
        ),
{
    distinct_names();
    one_token(draft, token, rest);
}

/// `<host>` opens a host without names, certificate and rules, and with the webroot
/// www; `</host>` puts the open host behind the others.
pub proof fn host_is_opened_and_closed(draft: DraftModel, tag: Tag, rest: Seq<Token>)
    requires
        tag.name == "host"@,
    ensures
        draft.host is None ==> read_from(draft, seq![Token::Start(tag)] + rest) == read_from(
            DraftModel {
                host: Some(
                    HostModel {
                        names: Seq::empty(),
                        ssl: None,
                        webroot: "www"@,
                        proxy: Seq::empty(),
                    },
                ),
                ..draft
            },
            rest,
        ),
        draft.host matches Some(host) ==> read_from(draft, seq![Token::End("host"@)] + rest)
            == read_from(
            DraftModel { hosts: draft.hosts.push(host), host: None, ..draft },
            rest,
        ),
{
    distinct_names();
    one_token(draft, Token::Start(tag), rest);
    one_token(draft, Token::End("host"@), rest);
}

/// Hosts neither contain each other nor end before they begin.
pub proof fn misplaced_hosts(draft: DraftModel, token: Token, tag: Tag, rest: Seq<Token>)
    requires
        opens(token, tag),
        tag.name == "host"@,
    ensures
        draft.host is Some ==> read_from(draft, seq![token] + rest) == Err::<WebModel, Fault>(
            Fault::NestedHost,
        ),
        draft.host is None ==> read_from(draft, seq![Token::End("host"@)] + rest) == Err::<
            WebModel,
            Fault,
        >(Fault::UnexpectedHostEnd),
{
    distinct_names();
    one_token(draft, token, rest);
    one_token(draft, Token::End("host"@), rest);
}

/// `<ports>` gives the ports that are not known yet. Without a valid HTTP port, here
/// or earlier, it is a fault; an HTTPS port that is missing or no port stays unset.
pub proof fn ports_are_read(
    draft: DraftModel,
    token: Token,
    tag: Tag,
    http: Option<u16>,
    https: Option<u16>,
    rest: Seq<Token>,
)
    requires
        opens(token, tag),
        tag.name == "ports"@,
        match attr_of(tag.attributes, "http"@) {
            Some(text) => http == port_of(text),
            None => http is None,
        },
        match attr_of(tag.attributes, "https"@) {
            Some(text) => https == port_of(text),
            None => https is None,
        },
    ensures
        draft.http_port is None && http is None ==> read_from(draft, seq![token] + rest) == Err::<
            WebModel,
            Fault,
        >(Fault::InvalidHttpPort),
        draft.http_port is Some || http is Some ==> read_from(draft, seq![token] + rest)
            == read_from(
            DraftModel {
                http_port: match draft.http_port {
                    Some(port) => Some(port),
                    None => http,
                },
                https_port: match draft.https_port {
                    Some(port) => Some(port),
                    None => https,
                },
                ..draft
            },
            rest,
        ),
{
    distinct_names();
    one_token(draft, token, rest);
}

/// An element has an attribute that can be read.
pub open spec fn gives(tag: Tag, key: Seq<char>) -> bool {
    attr_of(tag.attributes, key) is Some
}

/// The fault of an element that lacks an attribute.
pub open spec fn lacks(tag: Tag, key: Seq<char>) -> Result<WebModel, Fault> {
    Err(Fault::MissingAttribute { element: tag.name, attribute: key })
}

/// An element without an attribute that it needs is a fault, wherever it stands; of
/// two that are missing, the first is named.
pub proof fn attributes_are_needed(draft: DraftModel, token: Token, tag: Tag, rest: Seq<Token>)
    requires
        opens(token, tag),
    ensures
        ({
            let read = read_from(draft, seq![token] + rest);
            &&& (tag.name == "name"@ || tag.name == "webroot"@) && !gives(tag, "value"@) ==> read
                == lacks(tag, "value"@)
            &&& tag.name == "ssl"@ && !gives(tag, "cert"@) ==> read == lacks(tag, "cert"@)
            &&& tag.name == "ssl"@ && gives(tag, "cert"@) && !gives(tag, "key"@) ==> read == lacks(
                tag,
                "key"@,
            )
            &&& tag.name == "proxy"@ && !gives(tag, "path"@) ==> read == lacks(tag, "path"@)
            &&& tag.name == "proxy"@ && gives(tag, "path"@) && !gives(tag, "target"@) ==> read
                == lacks(tag, "target"@)
        }),
{
    distinct_names();
    one_token(draft, token, rest);
}

/// A part of a host that has all of its attributes.
pub open spec fn is_complete_part(tag: Tag) -> bool {
    ||| (tag.name == "name"@ || tag.name == "webroot"@) && gives(tag, "value"@)
    ||| tag.name == "ssl"@ && gives(tag, "cert"@) && gives(tag, "key"@)
    ||| tag.name == "proxy"@ && gives(tag, "path"@) && gives(tag, "target"@)
}

/// What belongs to a host is a fault outside of one.
pub proof fn elements_outside_hosts(draft: DraftModel, token: Token, tag: Tag, rest: Seq<Token>)
    requires
        opens(token, tag),
        draft.host is None,
        is_complete_part(tag),
    ensures
        read_from(draft, seq![token] + rest) == Err::<WebModel, Fault>(
            Fault::OutsideHost { element: tag.name },
        ),
{
    distinct_names();
    one_token(draft, token, rest);
}

/// At the end of the document, whatever is written behind it, no host may be open
/// and the HTTP port must be known; then all that was read is the configuration.
pub proof fn reading_ends(draft: DraftModel, rest: Seq<Token>)
    ensures
        ({
            let read = read_from(draft, seq![Token::Eof] + rest);
            &&& draft.host is Some ==> read == Err::<WebModel, Fault>(Fault::UnclosedHost)
            &&& draft.host is None && draft.http_port is None ==> read == Err::<WebModel, Fault>(
                Fault::MissingHttpPort,
            )
            &&& draft.host is None ==> (draft.http_port matches Some(port) ==> read == Ok::<
                WebModel,
                Fault,
            >(WebModel { http_port: port, https_port: draft.https_port, hosts: draft.hosts }))
            &&& read_from(draft, Seq::empty()) == read
        }),
{
    assert((seq![Token::Eof] + rest)[0] == Token::Eof);
}

/// A document that cannot be read further is refused with the reader's message.
pub proof fn malformed_documents(draft: DraftModel, message: Seq<char>, rest: Seq<Token>)
    ensures
        read_from(draft, seq![Token::Malformed(message)] + rest) == Err::<WebModel, Fault>(
            Fault::Syntax(message),
        ),
        fault_text(Fault::Syntax(message)) == message,
{
    one_token(draft, Token::Malformed(message), rest);
}

/// A configuration without hosts cannot be run with, nor one with a host that lacks
/// a name, or a certificate while HTTPS is enabled; the first such host is reported.
pub proof fn first_unusable_host(config: WebModel, i: int)
    requires
        0 <= i < config.hosts.len(),
        forall|j: int|
            0 <= j < i ==> (#[trigger] config.hosts[j]).names.len() > 0 && (config.https_port
                is Some ==> config.hosts[j].ssl is Some),
    ensures
        config.hosts[i].names.len() == 0 ==> checked(config) == Err::<(), Fault>(Fault::NoNames),
        config.hosts[i].names.len() > 0 && config.https_port is Some && config.hosts[i].ssl
            is None ==> checked(config) == Err::<(), Fault>(
            Fault::NoSsl(config.hosts[i].names[0]),
        ),
{
    hosts_fault(config.hosts, config.https_port is Some, i);
}

proof fn hosts_fault(hosts: Seq<HostModel>, https: bool, i: int)
    requires
        0 <= i < hosts.len(),
        forall|j: int|
            0 <= j < i ==> (#[trigger] hosts[j]).names.len() > 0 && (https ==> hosts[j].ssl
                is Some),
    ensures
        hosts[i].names.len() == 0 ==> hosts_checked(hosts, https) == Err::<(), Fault>(
            Fault::NoNames,
        ),
        hosts[i].names.len() > 0 && https && hosts[i].ssl is None ==> hosts_checked(hosts, https)
            == Err::<(), Fault>(Fault::NoSsl(hosts[i].names[0])),
    decreases i,
{
    if i > 0 {
        let rest = hosts.skip(1);
        assert(hosts[0].names.len() > 0);
        assert(rest[i - 1] == hosts[i]);
        assert forall|j: int| 0 <= j < i - 1 implies (#[trigger] rest[j]).names.len() > 0 && (https
            ==> rest[j].ssl is Some) by {
            assert(rest[j] == hosts[j + 1]);
        }
        hosts_fault(rest, https, i - 1);
    }
}

/// A configuration with a host can be run with if every host has a name, and a
/// certificate while HTTPS is enabled; nothing else is asked of it.
pub proof fn usable_config(config: WebModel)
    requires
        config.hosts.len() > 0,
        forall|j: int|
            0 <= j < config.hosts.len() ==> (#[trigger] config.hosts[j]).names.len() > 0 && (
            config.https_port is Some ==> config.hosts[j].ssl is Some),
    ensures
        checked(config) is Ok,
        is_valid(config),
{
    validity(config);
}

/// Certificates are unused exactly if a host has one and HTTPS is disabled.
pub proof fn unused_certificates(config: WebModel, i: int)
    ensures
        config.https_port is Some ==> !leaves_ssl_unused(config),
        config.https_port is None && 0 <= i < config.hosts.len() && config.hosts[i].ssl is Some
            ==> leaves_ssl_unused(config),
        (forall|k: int| 0 <= k < config.hosts.len() ==> (#[trigger] config.hosts[k]).ssl is None)
            ==> !leaves_ssl_unused(config),
{
}

/// A fault of an element is described by the names of the element and of the
/// attribute, and one of a host by the name of the host.
pub proof fn faults_are_named(element: Seq<char>, attribute: Seq<char>, name: Seq<char>)
    ensures
        fault_text(Fault::MissingAttribute { element, attribute }) == "<"@ + element
            + "> is missing a "@ + attribute + " attribute"@,
        fault_text(Fault::OutsideHost { element }) == "<"@ + element
            + "> outside of a <host> element"@,
        fault_text(Fault::NoSsl(name)) == "https port is set but host "@ + name
            + " has no <ssl> config"@,
{
}

/// Loading is reading and then looking for faults: a document that is read and has
/// none gives what was read, and otherwise the fault of the one or the other.
pub proof fn loading(tokens: Seq<Token>)
    ensures
        config_of(tokens) matches Err(fault) ==> loaded(tokens) == Err::<WebModel, Fault>(fault),
        config_of(tokens) matches Ok(config) ==> {
            &&& config.hosts.len() == 0 ==> loaded(tokens) == Err::<WebModel, Fault>(
                Fault::NoHosts,
            )
            &&& checked(config) matches Err(fault) ==> loaded(tokens) == Err::<WebModel, Fault>(
                fault,
            )
            &&& checked(config) is Ok ==> loaded(tokens) == Ok::<WebModel, Fault>(config)
        },
{
}

} // verus!
