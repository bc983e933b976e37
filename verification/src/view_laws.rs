//! The mathematical values that contracts speak of leave nothing out.

use crate::config::outcome;
use crate::config::ConfigError;
use crate::config::Fault;
use crate::config::HostConfig;
use crate::config::WebConfig;
use crate::config::WebModel;
use crate::gateway::state_outcome;
use crate::gateway::Action;
use crate::gateway::ActionModel;
use crate::gateway::HostState;
use crate::gateway::State;
use crate::gateway::StateModel;
use crate::headers::header_values;
use crate::proxy::prepared;
use crate::proxy::slice_text;
use crate::proxy::target_outcome;
use crate::proxy::ForwardError;
use crate::proxy::ProxyRule;
use crate::proxy::ProxyTarget;
use crate::proxy::TargetError;
use crate::proxy::TargetFault;
use crate::proxy::TargetModel;
use crate::proxy::UpstreamRequest;
use crate::respond::Reply;
use crate::sni::SslFiles;
use crate::static_files::PlanModel;
use crate::static_files::StaticPlan;
use crate::text::text_of;
use crate::tls::tls_outcome;
use crate::tls::PrivateKey;
use crate::tls::TlsError;
use crate::tls::TlsFault;
use crate::uri::uri_model;
use crate::uri::UriModel;
use crate::uri::UriParts;
use crate::xml::Token;
use crate::xml::XmlElement;
use crate::xml::XmlEvent;
use vstd::prelude::*;

verus! {

/// Optional texts are there or missing as the strings are.
pub proof fn optional_texts(owned: String, slice: &str)
    ensures
        text_of(Some(owned)) == Some(owned@),
        text_of(None) == None::<Seq<char>>,
        slice_text(Some(slice)) == Some(slice@),
        slice_text(None) == None::<Seq<char>>,
{
}

/// A URI is known by its three parts.
pub proof fn uris(uri: UriParts)
    ensures
        uri_model(Some(uri)) == Some(
            UriModel {
                scheme: text_of(uri.scheme),
                authority: text_of(uri.authority),
                path: uri.path@,
            },
        ),
        uri_model(None) == None::<UriModel>,
{
}

/// An element is known by its name and all of its attributes, in order.
pub proof fn elements(element: XmlElement, i: int)
    ensures
        element@.name == element.name@,
        element@.attributes.len() == element.attributes@.len(),
        0 <= i < element.attributes@.len() ==> element@.attributes[i] == (
        match element.attributes@[i] {
            Some((key, value)) => Some((key@, value@)),
            None => None,
        }),
{
}

/// An event is known by its kind and what it holds.
pub proof fn events(element: XmlElement, text: String)
    ensures
        XmlEvent::Start(element)@ == Token::Start(element@),
        XmlEvent::Empty(element)@ == Token::Empty(element@),
        XmlEvent::End(text)@ == Token::End(text@),
        XmlEvent::Other@ == Token::Other,
        XmlEvent::Eof@ == Token::Eof,
        XmlEvent::Malformed(text)@ == Token::Malformed(text@),
{
}

/// A configured host is known by all of its names and rules, its certificate and
/// its webroot.
pub proof fn configured_hosts(host: HostConfig, i: int)
    ensures
        host@.names.len() == host.names@.len(),
        0 <= i < host.names@.len() ==> host@.names[i] == host.names@[i]@,
        host@.ssl == (match host.ssl {
            Some(ssl) => Some((ssl.cert@, ssl.key@)),
            None => None,
        }),
        host@.webroot == host.webroot@,
        host@.proxy.len() == host.proxy@.len(),
        0 <= i < host.proxy@.len() ==> host@.proxy[i] == (
            host.proxy@[i].0@,
            host.proxy@[i].1@,
        ),
{
}

/// A configuration is known by its ports and all of its hosts, in order.
pub proof fn configurations(config: WebConfig, i: int)
    ensures
        config@.http_port == config.http_port,
        config@.https_port == config.https_port,
        config@.hosts.len() == config.hosts@.len(),
        0 <= i < config.hosts@.len() ==> config@.hosts[i] == config.hosts@[i]@,
{
}

/// A refused configuration is known by its error, an accepted one by itself.
pub proof fn configuration_outcomes(config: WebConfig, error: ConfigError)
    ensures
        outcome(Ok(config)) == Ok::<WebModel, Fault>(config@),
        outcome(Err(error)) == Err::<WebModel, Fault>(error@),
        match error {
            ConfigError::Syntax(message) => error@ == Fault::Syntax(message@),
            ConfigError::UnexpectedHostEnd => error@ == Fault::UnexpectedHostEnd,
            ConfigError::NestedHost => error@ == Fault::NestedHost,
            ConfigError::UnclosedHost => error@ == Fault::UnclosedHost,
            ConfigError::InvalidHttpPort => error@ == Fault::InvalidHttpPort,
            ConfigError::MissingHttpPort => error@ == Fault::MissingHttpPort,
            ConfigError::MissingAttribute { element, attribute } => error@ == (
            Fault::MissingAttribute { element: element@, attribute: attribute@ }),
            ConfigError::OutsideHost { element } => error@ == (Fault::OutsideHost {
                element: element@,
            }),
            ConfigError::NoHosts => error@ == Fault::NoHosts,
            ConfigError::NoNames => error@ == Fault::NoNames,
            ConfigError::NoSsl(name) => error@ == Fault::NoSsl(name@),
        },
{
}

/// A reply is known by its status, its header fields and its body.
pub proof fn replies(reply: Reply)
    ensures
        reply@.status == reply.status,
        reply@.headers == header_values(reply.headers),
        reply@.body == reply.body@,
{
}

/// A target and a rule are known by all of their fields.
pub proof fn targets_and_rules(target: ProxyTarget, rule: ProxyRule)
    ensures
        target@ == (TargetModel {
            scheme: target.scheme,
            host: target.host@,
            port: target.port,
            authority: target.authority@,
            prefix: target.prefix@,
        }),
        rule@.key == rule.key@,
        rule@.target == rule.target@,
{
}

/// A refused target is known by its error, an accepted one by itself.
pub proof fn target_outcomes(target: ProxyTarget, error: TargetError)
    ensures
        target_outcome(Ok(target)) == Ok::<TargetModel, TargetFault>(target@),
        target_outcome(Err(error)) == Err::<TargetModel, TargetFault>(error@),
        match error {
            TargetError::Invalid(text) => error@ == TargetFault::Invalid(text@),
            TargetError::UnsupportedScheme(scheme) => error@ == TargetFault::UnsupportedScheme(
                text_of(scheme),
            ),
            TargetError::MissingHost(text) => error@ == TargetFault::MissingHost(text@),
        },
{
}

/// A prepared request is known by its target and whether it asks for a WebSocket.
pub proof fn prepared_outcomes(request: UpstreamRequest, error: ForwardError)
    ensures
        prepared(Ok(request)) == Ok::<(Seq<char>, bool), ForwardError>(
            (request.target@, request.is_ws),
        ),
        prepared(Err(error)) == Err::<(Seq<char>, bool), ForwardError>(error),
{
}

/// A virtual host is known by all of its names and rules and its webroot.
pub proof fn virtual_hosts(host: HostState, i: int)
    ensures
        host@.names.len() == host.names@.len(),
        0 <= i < host.names@.len() ==> host@.names[i] == host.names@[i]@,
        host@.webroot == host.webroot@,
        host@.rules.len() == host.rules@.len(),
        0 <= i < host.rules@.len() ==> host@.rules[i] == host.rules@[i]@,
{
}

/// The state is known by all of its hosts, in order, and its port.
pub proof fn states(state: State, i: int)
    ensures
        state@.https_port == state.https_port,
        state@.hosts.len() == state.hosts@.len(),
        0 <= i < state.hosts@.len() ==> state@.hosts[i] == state.hosts@[i]@,
{
}

/// A refused state is known by its error, an accepted one by itself.
pub proof fn state_outcomes(state: State, error: TargetError)
    ensures
        state_outcome(Ok(state)) == Ok::<StateModel, TargetFault>(state@),
        state_outcome(Err(error)) == Err::<StateModel, TargetFault>(error@),
{
}

/// What to do with a request is known by its kind and what it is done with.
pub proof fn actions(reply: Reply, rule: &ProxyRule, host: &HostState)
    ensures
        Action::Answer(reply)@ == ActionModel::Answer(reply@),
        Action::Forward(rule)@ == ActionModel::Forward(rule@),
        Action::Static(host)@ == ActionModel::Static(host@),
{
}

/// What to do with a request for a file is known by the reply, or by all names
/// that lead to the file.
pub proof fn plans(reply: Reply, segments: Vec<String>, directory: bool, i: int)
    ensures
        StaticPlan::Answer(reply)@ == PlanModel::Answer(reply@),
        ({
            let plan = (StaticPlan::File { segments, directory })@;
            &&& plan is File
            &&& plan->segments.len() == segments@.len()
            &&& 0 <= i < segments@.len() ==> plan->segments[i] == segments@[i]@
            &&& plan->directory == directory
        }),
{
}

/// A private key is known by its format and its bytes.
pub proof fn private_keys(key: PrivateKey)
    ensures
        key@.format == key.format,
        key@.der == key.der@,
{
}

/// The files of a host are known by their bytes, or by being unreadable.
pub proof fn host_files(cert: Vec<u8>, key: Vec<u8>, files: SslFiles)
    ensures
        files.cert == Some(cert) ==> files@.cert == Some(cert@),
        files.cert is None ==> files@.cert is None,
        files.key == Some(key) ==> files@.key == Some(key@),
        files.key is None ==> files@.key is None,
{
    assert(cert.deep_view() =~= cert@);
    assert(key.deep_view() =~= key@);
}

/// The outcome of giving a certificate is known by its error, if it has one.
pub proof fn certificate_outcomes(error: TlsError)
    ensures
        tls_outcome(Ok(())) == Ok::<(), TlsFault>(()),
        tls_outcome(Err(error)) == Err::<(), TlsFault>(error@),
        match error {
            TlsError::UnreadableCerts => error@ == TlsFault::UnreadableCerts,
            TlsError::UnreadableKey => error@ == TlsFault::UnreadableKey,
            TlsError::MalformedCerts => error@ == TlsFault::MalformedCerts,
            TlsError::NoCertificates => error@ == TlsFault::NoCertificates,
            TlsError::MalformedKey => error@ == TlsFault::MalformedKey,
            TlsError::NoPrivateKey => error@ == TlsFault::NoPrivateKey,
            TlsError::UnsupportedKey(reason) => error@ == TlsFault::UnsupportedKey(reason@),
            TlsError::RejectedName(name) => error@ == TlsFault::RejectedName(name@),
        },
{
}

} // verus!
