//! Forwarding requests to upstream servers.

use crate::headers::asks_for_websocket;
use crate::headers::has_room;
use crate::headers::header_values;
use crate::headers::is_field_text;
use crate::headers::is_for_upgrade;
use crate::headers::is_hop_by_hop;
use crate::headers::is_stripped;
use crate::headers::is_upgrade_request;
use crate::headers::known_names;
use crate::headers::set_field;
use crate::headers::strip_hop_by_hop;
use crate::headers::stripped;
use crate::headers::with_field;
use crate::text::all_digits;
use crate::text::begins_with;
use crate::text::chars_of;
use crate::text::decimal_of;
use crate::text::decimal_round_trip;
use crate::text::first_at_contains;
use crate::text::first_index;
use crate::text::last_at;
use crate::text::last_at_bounds;
use crate::text::last_at_is;
use crate::text::last_index;
use crate::text::parse_port;
use crate::text::port_of;
use crate::text::port_round_trip;
use crate::text::same;
use crate::text::string_of;
use crate::text::text_of;
use crate::text::trim_end_slashes;
use crate::text::trim_slashes;
use crate::text::trim_slashes_facts;
use crate::text::trim_slashes_is;
use crate::uri::is_absolute;
use crate::uri::parse_server_name;
use crate::uri::parse_uri;
use crate::uri::request_target;
use crate::uri::request_target_of;
use crate::uri::server_name_of;
use crate::uri::uri_model;
use crate::uri::uri_of;
use crate::uri::UriModel;
use crate::uri::UriParts;
use http::header::HeaderValue;
use http::HeaderMap;
use vstd::prelude::*;

verus! {

/// Upstream scheme
#[derive(Debug, Clone, Copy, PartialEq, Eq, Structural)]
pub enum Scheme {
    Http,
    Https,
}

/// The name of a scheme.
pub open spec fn scheme_text(scheme: Scheme) -> Seq<char> {
    match scheme {
        Scheme::Http => "http"@,
        Scheme::Https => "https"@,
    }
}

/// The port that a scheme stands for.
pub open spec fn default_port(scheme: Scheme) -> u16 {
    match scheme {
        Scheme::Http => 80,
        Scheme::Https => 443,
    }
}

impl Scheme {
    /// The name of the scheme.
    pub fn as_str(self) -> (r: &'static str)
        ensures
            r@ == scheme_text(self),
    {
        match self {
            Scheme::Http => "http",
            Scheme::Https => "https",
        }
    }
}

/// A parsed proxy target, e.g. `http://web:8080/web`
#[derive(Debug, Clone)]
pub struct ProxyTarget {
    pub scheme: Scheme,
    pub host: String,
    pub port: u16,
    /// authority in host:port form
    pub authority: String,
    /// Upstream path prefix (e.g. /web), may be empty
    pub prefix: String,
}

/// A proxy target, as a mathematical value.
pub struct TargetModel {
    pub scheme: Scheme,
    pub host: Seq<char>,
    pub port: u16,
    pub authority: Seq<char>,
    pub prefix: Seq<char>,
}

impl View for ProxyTarget {
    type V = TargetModel;

    open spec fn view(&self) -> TargetModel {
        TargetModel {
            scheme: self.scheme,
            host: self.host@,
            port: self.port,
            authority: self.authority@,
            prefix: self.prefix@,
        }
    }
}

/// Why a proxy target is rejected.
#[derive(Debug)]
pub enum TargetError {
    /// The text is not a URI
    Invalid(String),
    /// The scheme is neither http nor https
    UnsupportedScheme(Option<String>),
    /// The URI names no host
    MissingHost(String),
}

/// A reason for rejection, as a mathematical value.
pub enum TargetFault {
    Invalid(Seq<char>),
    UnsupportedScheme(Option<Seq<char>>),
    MissingHost(Seq<char>),
}

impl View for TargetError {
    type V = TargetFault;

    open spec fn view(&self) -> TargetFault {
        match self {
            TargetError::Invalid(target) => TargetFault::Invalid(target@),
            TargetError::UnsupportedScheme(scheme) => TargetFault::UnsupportedScheme(
                text_of(*scheme),
            ),
            TargetError::MissingHost(target) => TargetFault::MissingHost(target@),
        }
    }
}

/// The text that describes a reason for rejection.
pub open spec fn target_fault_text(fault: TargetFault) -> Seq<char> {
    match fault {
        TargetFault::Invalid(target) => "invalid proxy target: "@ + target,
        TargetFault::UnsupportedScheme(None) => "unsupported proxy scheme None, only http/https are supported"@,
        TargetFault::UnsupportedScheme(Some(scheme)) => "unsupported proxy scheme Some(\""@ + scheme
            + "\"), only http/https are supported"@,
        TargetFault::MissingHost(target) => "proxy target missing host: "@ + target,
    }
}

impl TargetError {
    /// The text that describes the error.
    pub fn message(&self) -> (r: String)
        ensures
            r@ == target_fault_text(self@),
    {
        let mut r = String::new();
        match self {
            TargetError::Invalid(target) => {
                r.append("invalid proxy target: ");
                r.append(target.as_str());
            },
            TargetError::UnsupportedScheme(None) => {
                r.append("unsupported proxy scheme None, only http/https are supported");
            },
            TargetError::UnsupportedScheme(Some(scheme)) => {
                r.append("unsupported proxy scheme Some(\"");
                r.append(scheme.as_str());
                r.append("\"), only http/https are supported");
            },
            TargetError::MissingHost(target) => {
                r.append("proxy target missing host: ");
                r.append(target.as_str());
            },
        }
        assert(r@ =~= target_fault_text(self@));
        r
    }
}

/// An address in brackets, such as [::1].
pub open spec fn is_bracketed(name: Seq<char>) -> bool {
    name.len() >= 2 && name[0] == '[' && name.last() == ']'
}

/// A host that a colon and a port can follow: its name, which comes after the user
/// information if there is any, is bracketed, or holds no bracket and no colon. A
/// bare IPv6 address such as ::1 is all host.
pub open spec fn takes_port(host: Seq<char>) -> bool {
    let name = host.skip(last_at(host, '@') + 1);
    host.len() > 0 && (is_bracketed(name) || (!host.contains(']') && !name.contains(':')))
}

/// The host and the port of an authority. The port is what follows the last
/// colon, if that is a number and a port can follow what stands before it; else
/// the whole authority is the host, with the port of the scheme.
pub open spec fn authority_parts(authority: Seq<char>, scheme: Scheme) -> (Seq<char>, u16) {
    let colon = last_at(authority, ':');
    let host = authority.take(colon);
    let port = port_of(authority.skip(colon + 1));
    if colon >= 0 && takes_port(host) && port is Some {
        (host, port->0)
    } else {
        (authority, default_port(scheme))
    }
}

/// The proxy target that a text is, given the URI that it is.
pub open spec fn target_of(text: Seq<char>, uri: Option<UriModel>) -> Result<
    TargetModel,
    TargetFault,
> {
    match uri {
        None => Err(TargetFault::Invalid(text)),
        Some(uri) => {
            let scheme = if uri.scheme == Some("http"@) {
                Some(Scheme::Http)
            } else if uri.scheme == Some("https"@) {
                Some(Scheme::Https)
            } else {
                None
            };
            match (scheme, uri.authority) {
                (None, _) => Err(TargetFault::UnsupportedScheme(uri.scheme)),
                (Some(_), None) => Err(TargetFault::MissingHost(text)),
                (Some(scheme), Some(authority)) => Ok(
                    TargetModel {
                        scheme,
                        host: authority_parts(authority, scheme).0,
                        port: authority_parts(authority, scheme).1,
                        authority,
                        prefix: trim_slashes(uri.path),
                    },
                ),
            }
        },
    }
}

/// A target in the form in which it is configured.
pub open spec fn displayed(target: TargetModel) -> Seq<char> {
    scheme_text(target.scheme) + "://"@ + target.authority + target.prefix
}

/// An outcome, as a mathematical value.
pub open spec fn target_outcome(r: Result<ProxyTarget, TargetError>) -> Result<
    TargetModel,
    TargetFault,
> {
    match r {
        Ok(target) => Ok(target@),
        Err(error) => Err(error@),
    }
}

impl ProxyTarget {
    /// The proxy target that a text is.
    pub fn parse(target: &str) -> (r: Result<ProxyTarget, TargetError>)
        ensures
            target_outcome(r) == target_of(target@, uri_of(target@)),
    {
        match parse_uri(target) {
            Ok(uri) => ProxyTarget::from_uri(target, Some(uri)),
            Err(_) => ProxyTarget::from_uri(target, None),
        }
    }

    /// The proxy target that a text is, given the URI that it is.
    pub fn from_uri(target: &str, uri: Option<UriParts>) -> (r: Result<ProxyTarget, TargetError>)
        ensures
            target_outcome(r) == target_of(target@, uri_model(uri)),
    {
        proof {
            reveal_strlit("http");
            reveal_strlit("https");
            assert("http"@.len() != "https"@.len());
        }
        let uri = match uri {
            Some(uri) => uri,
            None => return Err(TargetError::Invalid(target.to_owned())),
        };
        let scheme = match &uri.scheme {
            Some(s) => if same(s.as_str(), "http") {
                Scheme::Http
            } else if same(s.as_str(), "https") {
                Scheme::Https
            } else {
                return Err(TargetError::UnsupportedScheme(Some(s.clone())));
            },
            None => return Err(TargetError::UnsupportedScheme(None)),
        };
        let authority = match uri.authority {
            Some(authority) => authority,
            None => return Err(TargetError::MissingHost(target.to_owned())),
        };
        let (host, port) = split_authority(authority.as_str(), scheme);
        let prefix = trim_end_slashes(uri.path.as_str());
        Ok(ProxyTarget { scheme, host, port, authority, prefix })
    }

    /// The target in the form in which it is configured.
    pub fn display(&self) -> (r: String)
        ensures
            r@ == displayed(self@),
    {
        let mut r = self.scheme.as_str().to_owned();
        r.append("://");
        r.append(self.authority.as_str());
        r.append(self.prefix.as_str());
        r
    }

    /// The name that the certificate of an https upstream is checked against.
    pub fn server_name(&self) -> (r: Result<String, ForwardError>)
        ensures
            match r {
                Ok(name) => server_name_of(self.host@) == Some(name@),
                Err(error) => server_name_of(self.host@) is None && error
                    == ForwardError::InvalidServerName,
            },
    {
        match parse_server_name(self.host.as_str()) {
            Ok(name) => Ok(name),
            Err(_) => Err(ForwardError::InvalidServerName),
        }
    }
}

/// Split into host and port; default ports are 80 for http and 443 for https
pub fn split_authority(authority: &str, scheme: Scheme) -> (r: (String, u16))
    ensures
        (r.0@, r.1) == authority_parts(authority@, scheme),
{
    let default: u16 = if scheme == Scheme::Https { 443 } else { 80 };
    let v = chars_of(authority);
    if let Some(colon) = last_index(&v, ':') {
        let host = string_of(&v, 0, colon);
        assert(host@ =~= authority@.take(colon as int));
        if can_take_port(host.as_str()) {
            let port = string_of(&v, colon + 1, v.len());
            assert(port@ =~= authority@.skip(colon + 1));
            if let Some(p) = parse_port(port.as_str()) {
                return (host, p);
            }
        }
    }
    (authority.to_owned(), default)
}

/// Whether a colon and a port can follow a host; they cannot follow what is part of
/// a bare IPv6 address (e.g. [::1] or ::1).
fn can_take_port(host: &str) -> (r: bool)
    ensures
        r == takes_port(host@),
{
    let v = chars_of(host);
    let n: usize = v.len();
    if n == 0 {
        return false;
    }
    let start: usize = match last_index(&v, '@') {
        Some(at) => at + 1,
        None => 0,
    };
    let name = chars_of(string_of(&v, start, n).as_str());
    proof {
        last_at_bounds(host@, '@');
        assert(name@ =~= host@.skip(last_at(host@, '@') + 1));
        first_at_contains(v@, ']');
        first_at_contains(name@, ':');
    }
    let len: usize = name.len();
    if len >= 2 && name[0] == '[' && name[len - 1] == ']' {
        return true;
    }
    first_index(&v, ']') == n && first_index(&name, ':') == len
}

/// A proxy rule: path prefix -> upstream
#[derive(Debug, Clone)]
pub struct ProxyRule {
    pub key: String,
    pub target: ProxyTarget,
}

/// A proxy rule, as a mathematical value.
pub struct RuleModel {
    pub key: Seq<char>,
    pub target: TargetModel,
}

impl View for ProxyRule {
    type V = RuleModel;

    open spec fn view(&self) -> RuleModel {
        RuleModel { key: self.key@, target: self.target@ }
    }
}

/// `path` is `key` itself or lies below it; trailing slashes of the key do not count.
pub open spec fn rule_matches(key: Seq<char>, path: Seq<char>) -> bool {
    let k = trim_slashes(key);
    k.len() == 0 || path == k || k.push('/').is_prefix_of(path)
}

/// What remains of a path after a key.
pub open spec fn suffix_of(key: Seq<char>, path: Seq<char>) -> Seq<char> {
    let k = trim_slashes(key);
    if k.is_prefix_of(path) {
        path.skip(k.len() as int)
    } else {
        path
    }
}

/// A path put behind a prefix; never empty.
pub open spec fn joined(prefix: Seq<char>, suffix: Seq<char>) -> Seq<char> {
    let whole = trim_slashes(prefix) + suffix;
    if whole.len() == 0 {
        "/"@
    } else {
        whole
    }
}

/// The path and query of the request to the upstream.
pub open spec fn upstream_path_of(
    rule: RuleModel,
    path: Seq<char>,
    query: Option<Seq<char>>,
) -> Seq<char> {
    let whole = joined(rule.target.prefix, suffix_of(rule.key, path));
    match query {
        Some(q) => whole + "?"@ + q,
        None => whole,
    }
}

/// The text of an optional string slice.
pub open spec fn slice_text(s: Option<&str>) -> Option<Seq<char>> {
    match s {
        Some(t) => Some(t@),
        None => None,
    }
}

impl ProxyRule {
    /// Prefix matching: /web matches /web and /web/**, but not /webfoo
    pub fn matches(&self, path: &str) -> (r: bool)
        ensures
            r == rule_matches(self.key@, path@),
    {
        let mut key = trim_end_slashes(self.key.as_str());
        if key.as_str().is_empty() {
            return true;  // when key is "/", match all paths
        }
        if same(path, key.as_str()) {
            return true;
        }
        key.push('/');
        begins_with(path, key.as_str())
    }
}

/// Compute the path remaining after the matched key: /web/foo (key=/web) -> /foo
pub fn path_suffix(key: &str, path: &str) -> (r: String)
    ensures
        r@ == suffix_of(key@, path@),
{
    let key = trim_end_slashes(key);
    if !begins_with(path, key.as_str()) {
        return path.to_owned();
    }
    let k = chars_of(key.as_str());
    let v = chars_of(path);
    let r = string_of(&v, k.len(), v.len());
    assert(r@ =~= path@.skip(k@.len() as int));
    r
}

/// Join the upstream prefix + remaining path into a full path
pub fn join_path(prefix: &str, suffix: &str) -> (r: String)
    ensures
        r@ == joined(prefix@, suffix@),
{
    let mut r = trim_end_slashes(prefix);
    r.append(suffix);
    if r.as_str().is_empty() {
        return "/".to_owned();
    }
    r
}

/// The path and query of the request to the upstream: /web/foo (key=/web,
/// upstream prefix=/web) -> /web/foo
pub fn upstream_path(rule: &ProxyRule, path: &str, query: Option<&str>) -> (r: String)
    ensures
        r@ == upstream_path_of(rule@, path@, slice_text(query)),
{
    let suffix = path_suffix(rule.key.as_str(), path);
    let mut r = join_path(rule.target.prefix.as_str(), suffix.as_str());
    if let Some(q) = query {
        r.append("?");
        r.append(q);
    }
    r
}

/// Why a request cannot be forwarded, or a response not be passed on.
#[derive(Debug, Clone, Copy, PartialEq, Eq, Structural)]
pub enum ForwardError {
    /// The path and query cannot be part of a URI
    InvalidPath,
    /// The authority of the upstream cannot be a Host header
    InvalidHost,
    /// The address of the client cannot be a header
    InvalidPeer,
    /// The header fields have reached their maximum number
    TooManyFields,
    /// The host of an https upstream is not a server name
    InvalidServerName,
    /// The upstream switched protocols for a client that cannot
    MissingClientUpgrade,
    /// The upstream switched protocols without an upgraded connection
    MissingUpstreamUpgrade,
}

/// The text that describes an error.
pub open spec fn forward_error_text(error: ForwardError) -> Seq<char> {
    match error {
        ForwardError::InvalidPath => "invalid upstream path"@,
        ForwardError::InvalidHost => "invalid upstream authority"@,
        ForwardError::InvalidPeer => "invalid client address"@,
        ForwardError::TooManyFields => "too many header fields"@,
        ForwardError::InvalidServerName => "invalid upstream host name: invalid dns name"@,
        ForwardError::MissingClientUpgrade => "missing client upgrade handle"@,
        ForwardError::MissingUpstreamUpgrade => "upstream did not return an upgrade handle"@,
    }
}

impl ForwardError {
    /// The text that describes the error.
    pub fn message(self) -> (r: &'static str)
        ensures
            r@ == forward_error_text(self),
    {
        match self {
            ForwardError::InvalidPath => "invalid upstream path",
            ForwardError::InvalidHost => "invalid upstream authority",
            ForwardError::InvalidPeer => "invalid client address",
            ForwardError::TooManyFields => "too many header fields",
            ForwardError::InvalidServerName => "invalid upstream host name: invalid dns name",
            ForwardError::MissingClientUpgrade => "missing client upgrade handle",
            ForwardError::MissingUpstreamUpgrade => "upstream did not return an upgrade handle",
        }
    }
}

/// The header fields of the request to the upstream.
pub open spec fn forwarded(
    values: Map<Seq<char>, Seq<Seq<u8>>>,
    authority: Seq<char>,
    peer_ip: Seq<char>,
    proto: Seq<char>,
) -> Map<Seq<char>, Seq<Seq<u8>>> {
    with_field(
        with_field(
            with_field(stripped(values, asks_for_websocket(values)), "host"@, authority),
            "x-forwarded-for"@,
            peer_ip,
        ),
        "x-forwarded-proto"@,
        proto,
    )
}

/// Whether the header fields of a request can be made those of the request to
/// the upstream, and what becomes of them: `Ok` says whether the request asks
/// for a WebSocket.
pub open spec fn forward_outcome(
    values: Map<Seq<char>, Seq<Seq<u8>>>,
    authority: Seq<char>,
    peer_ip: Seq<char>,
    proto: Seq<char>,
) -> (Result<bool, ForwardError>, Map<Seq<char>, Seq<Seq<u8>>>) {
    let is_ws = asks_for_websocket(values);
    let kept = stripped(values, is_ws);
    if !is_field_text(authority) {
        (Err(ForwardError::InvalidHost), kept)
    } else if !is_field_text(peer_ip) {
        (Err(ForwardError::InvalidPeer), with_field(kept, "host"@, authority))
    } else {
        (Ok(is_ws), forwarded(values, authority, peer_ip, proto))
    }
}

/// The header fields along the way to those of the request to the upstream.
pub open spec fn forward_steps(
    values: Map<Seq<char>, Seq<Seq<u8>>>,
    authority: Seq<char>,
    peer_ip: Seq<char>,
) -> Seq<Map<Seq<char>, Seq<Seq<u8>>>> {
    let kept = stripped(values, asks_for_websocket(values));
    let named = with_field(kept, "host"@, authority);
    seq![kept, named, with_field(named, "x-forwarded-for"@, peer_ip)]
}

/// The header fields cannot hold those that forwarding adds, and some of the steps
/// to them have been taken.
pub open spec fn is_overfull(
    values: Map<Seq<char>, Seq<Seq<u8>>>,
    authority: Seq<char>,
    peer_ip: Seq<char>,
    after: Map<Seq<char>, Seq<Seq<u8>>>,
) -> bool {
    !has_room(values, 2) && forward_steps(values, authority, peer_ip).contains(after)
}

/// Turn the header fields of a client's request into those of the request to the
/// upstream: hop-by-hop headers are stripped, save those of a WebSocket upgrade;
/// Host names the upstream; and the client's address and protocol are added.
/// Returns whether the request asks for a WebSocket.
pub fn forward_headers(
    target: &ProxyTarget,
    headers: &mut HeaderMap<HeaderValue>,
    peer_ip: &str,
    scheme: Scheme,
) -> (r: Result<bool, ForwardError>)
    ensures
        if r == Err::<bool, ForwardError>(ForwardError::TooManyFields) {
            is_overfull(
                header_values(*old(headers)),
                target.authority@,
                peer_ip@,
                header_values(*final(headers)),
            )
        } else {
            (r, header_values(*final(headers))) == forward_outcome(
                header_values(*old(headers)),
                target.authority@,
                peer_ip@,
                scheme_text(scheme),
            )
        },
{
    let ghost values = header_values(*headers);
    let ghost steps = forward_steps(values, target.authority@, peer_ip@);
    let is_ws = is_upgrade_request(headers);
    strip_hop_by_hop(headers, is_ws);
    proof {
        known_names();
        reveal_strlit("http");
        reveal_strlit("https");
        let left = header_values(*headers);
        assert(left.dom() =~= values.dom().difference(
            Set::new(|name: Seq<char>| is_stripped(name, is_ws)),
        ));
        if values.dom().finite() {
            vstd::set_lib::lemma_len_subset(left.dom(), values.dom());
        }
        assert(steps[0] == left);
    }
    match set_field(headers, "host", target.authority.as_str()) {
        Err(_) => return Err(ForwardError::InvalidHost),
        Ok(false) => return Err(ForwardError::TooManyFields),
        Ok(true) => {},
    }
    assert(steps[1] == header_values(*headers));
    match set_field(headers, "x-forwarded-for", peer_ip) {
        Err(_) => return Err(ForwardError::InvalidPeer),
        Ok(false) => return Err(ForwardError::TooManyFields),
        Ok(true) => {},
    }
    assert(steps[2] == header_values(*headers));
    match set_field(headers, "x-forwarded-proto", scheme.as_str()) {
        Ok(true) => Ok(is_ws),
        _ => Err(ForwardError::TooManyFields),
    }
}

/// A request to the upstream, ready to be sent with the header fields beside it.
#[derive(Debug)]
pub struct UpstreamRequest {
    /// Path and query only; the host is conveyed by the Host header
    pub target: String,
    /// Whether the request asks for a WebSocket
    pub is_ws: bool,
}

/// Whether a request can be turned into the request to the upstream of a rule,
/// and what becomes of its header fields: `Ok` gives the request target, and
/// whether the request asks for a WebSocket. `target` is the request target that
/// the rewritten path and query make.
pub open spec fn prepare_outcome(
    target: Option<Seq<char>>,
    values: Map<Seq<char>, Seq<Seq<u8>>>,
    authority: Seq<char>,
    peer_ip: Seq<char>,
    proto: Seq<char>,
) -> (Result<(Seq<char>, bool), ForwardError>, Map<Seq<char>, Seq<Seq<u8>>>) {
    let (ws, sent) = forward_outcome(values, authority, peer_ip, proto);
    match (target, ws) {
        (None, _) => (Err(ForwardError::InvalidPath), values),
        (Some(_), Err(error)) => (Err(error), sent),
        (Some(target), Ok(is_ws)) => (Ok((target, is_ws)), sent),
    }
}

/// A prepared request, as a mathematical value.
pub open spec fn prepared(r: Result<UpstreamRequest, ForwardError>) -> Result<
    (Seq<char>, bool),
    ForwardError,
> {
    match r {
        Ok(request) => Ok((request.target@, request.is_ws)),
        Err(error) => Err(error),
    }
}

/// Turn a client's request into the request to the upstream of a rule.
pub fn prepare_request(
    rule: &ProxyRule,
    path: &str,
    query: Option<&str>,
    headers: &mut HeaderMap<HeaderValue>,
    peer_ip: &str,
    scheme: Scheme,
) -> (r: Result<UpstreamRequest, ForwardError>)
    ensures
        if prepared(r) == Err::<(Seq<char>, bool), _>(ForwardError::TooManyFields) {
            request_target_of(upstream_path_of(rule@, path@, slice_text(query))) is Some
                && is_overfull(
                header_values(*old(headers)),
                rule.target.authority@,
                peer_ip@,
                header_values(*final(headers)),
            )
        } else {
            (prepared(r), header_values(*final(headers))) == prepare_outcome(
                request_target_of(upstream_path_of(rule@, path@, slice_text(query))),
                header_values(*old(headers)),
                rule.target.authority@,
                peer_ip@,
                scheme_text(scheme),
            )
        },
        r matches Ok(request) ==> (is_absolute(upstream_path_of(rule@, path@, slice_text(query)))
            ==> request.target@ == upstream_path_of(rule@, path@, slice_text(query))),
{
    let pq = upstream_path(rule, path, query);
    let target = match request_target(pq.as_str()) {
        Ok(target) => Some(target),
        Err(_) => None,
    };
    prepare_with_target(target, &rule.target, headers, peer_ip, scheme)
}

/// Turn a client's request into a request to an upstream, given the request
/// target, or `None` if the rewritten path and query make none.
pub fn prepare_with_target(
    target: Option<String>,
    upstream: &ProxyTarget,
    headers: &mut HeaderMap<HeaderValue>,
    peer_ip: &str,
    scheme: Scheme,
) -> (r: Result<UpstreamRequest, ForwardError>)
    ensures
        if prepared(r) == Err::<(Seq<char>, bool), _>(ForwardError::TooManyFields) {
            target is Some && is_overfull(
                header_values(*old(headers)),
                upstream.authority@,
                peer_ip@,
                header_values(*final(headers)),
            )
        } else {
            (prepared(r), header_values(*final(headers))) == prepare_outcome(
                text_of(target),
                header_values(*old(headers)),
                upstream.authority@,
                peer_ip@,
                scheme_text(scheme),
            )
        },
        r matches Ok(request) ==> target == Some(request.target),
{
    let target = match target {
        Some(target) => target,
        None => return Err(ForwardError::InvalidPath),
    };
    match forward_headers(upstream, headers, peer_ip, scheme) {
        Ok(is_ws) => Ok(UpstreamRequest { target, is_ws }),
        Err(error) => Err(error),
    }
}

/// Whether a response is followed by a relay between client and upstream, and the
/// header fields that it reaches the client with.
pub open spec fn finish_outcome(
    status: u16,
    values: Map<Seq<char>, Seq<Seq<u8>>>,
    client_can_upgrade: bool,
    upstream_can_upgrade: bool,
) -> (Result<bool, ForwardError>, Map<Seq<char>, Seq<Seq<u8>>>) {
    let relay = if status != 101 {
        Ok(false)
    } else if !client_can_upgrade {
        Err(ForwardError::MissingClientUpgrade)
    } else if !upstream_can_upgrade {
        Err(ForwardError::MissingUpstreamUpgrade)
    } else {
        Ok(true)
    };
    (relay, stripped(values, status == 101))
}

/// Turn the header fields of an upstream's response into those of the response
/// to the client: hop-by-hop headers are stripped, save those of a 101 response,
/// which trigger the upgrade of the client. Returns whether the two connections
/// are to be relayed to each other from now on.
pub fn finish_response(
    status: u16,
    headers: &mut HeaderMap<HeaderValue>,
    client_can_upgrade: bool,
    upstream_can_upgrade: bool,
) -> (r: Result<bool, ForwardError>)
    ensures
        (r, header_values(*final(headers))) == finish_outcome(
            status,
            header_values(*old(headers)),
            client_can_upgrade,
            upstream_can_upgrade,
        ),
{
    let switching = status == 101;
    strip_hop_by_hop(headers, switching);
    if !switching {
        Ok(false)
    } else if !client_can_upgrade {
        Err(ForwardError::MissingClientUpgrade)
    } else if !upstream_can_upgrade {
        Err(ForwardError::MissingUpstreamUpgrade)
    } else {
        Ok(true)
    }
}

/// An authority in host:port form is split into that host and that port.
pub proof fn authority_with_port(host: Seq<char>, port: u16, scheme: Scheme)
    requires
        takes_port(host),
    ensures
        authority_parts(host.push(':') + decimal_of(port as nat), scheme) == (host, port),
{
    let digits = decimal_of(port as nat);
    let authority = host.push(':') + digits;
    port_round_trip(port);
    decimal_round_trip(port as nat);
    assert forall|j: int| host.len() < j < authority.len() implies authority[j] != ':' by {
        assert(authority[j] == digits[j - host.len() - 1]);
        assert(all_digits(digits));
    }
    assert(authority[host.len() as int] == ':');
    last_at_is(authority, ':', host.len() as int);
    assert(authority.take(host.len() as int) =~= host);
    assert(authority.skip(host.len() as int + 1) =~= digits);
}

/// An authority without a port stands for the port of its scheme.
pub proof fn authority_without_port(authority: Seq<char>, scheme: Scheme)
    requires
        !authority.contains(':'),
    ensures
        authority_parts(authority, scheme) == (authority, default_port(scheme)),
{
    assert forall|j: int| 0 <= j < authority.len() implies authority[j] != ':' by {
        assert(authority.contains(authority[j]));
    }
    last_at_is(authority, ':', -1);
}

/// A bracketed IPv6 address can be followed by a port, and without one stands for
/// the port of its scheme.
pub proof fn bracketed_address(address: Seq<char>, port: u16, scheme: Scheme)
    requires
        !address.contains('@'),
    ensures
        ({
            let host = seq!['['] + address + seq![']'];
            &&& authority_parts(host.push(':') + decimal_of(port as nat), scheme) == (host, port)
            &&& authority_parts(host, scheme) == (host, default_port(scheme))
        }),
{
    let host = seq!['['] + address + seq![']'];
    assert forall|j: int| -1 < j < host.len() implies host[j] != '@' by {
        if 0 < j < host.len() - 1 {
            assert(host[j] == address[j - 1]);
            assert(address.contains(address[j - 1]));
        }
    }
    last_at_is(host, '@', -1);
    assert(host.skip(0) =~= host);
    authority_with_port(host, port, scheme);
    last_at_bounds(host, ':');
    let colon = last_at(host, ':');
    let after = host.skip(colon + 1);
    let digits = if after.len() > 0 && after[0] == '+' {
        after.skip(1)
    } else {
        after
    };
    assert(host.last() == ']');
    assert(after.last() == ']');
    if digits.len() > 0 {
        assert(digits[digits.len() - 1] == ']');
    }
}

/// A bare IPv6 address, which holds several colons, stands for the port of its scheme.
pub proof fn bare_address(address: Seq<char>, i: int, j: int, scheme: Scheme)
    requires
        0 <= i < j < address.len(),
        address[i] == ':',
        address[j] == ':',
        !address.contains('@'),
        !address.contains('['),
    ensures
        authority_parts(address, scheme) == (address, default_port(scheme)),
{
    last_at_bounds(address, ':');
    let host = address.take(last_at(address, ':'));
    assert forall|k: int| -1 < k < host.len() implies host[k] != '@' && host[k] != '[' by {
        assert(host[k] == address[k]);
        assert(address.contains(address[k]));
    }
    last_at_is(host, '@', -1);
    assert(host.skip(0) =~= host);
    assert(host[i] == ':');
}

/// The prefix of a target ends in no slash, and its host and port are those of its
/// authority.
pub proof fn target_parts(text: Seq<char>, uri: Option<UriModel>)
    ensures
        target_of(text, uri) matches Ok(target) ==> {
            &&& target.prefix.len() > 0 ==> target.prefix.last() != '/'
            &&& (target.host, target.port) == authority_parts(target.authority, target.scheme)
        },
{
    if let Some(uri) = uri {
        trim_slashes_facts(uri.path);
    }
}

/// A target that is displayed is read back as itself, given that its text is the
/// URI with its scheme, its authority and its prefix as the path, or / for an
/// empty prefix.
pub proof fn displayed_target_is_read_back(
    text: Seq<char>,
    uri: Option<UriModel>,
    target: TargetModel,
    shown: UriModel,
)
    requires
        target_of(text, uri) == Ok::<TargetModel, TargetFault>(target),
        shown.scheme == Some(scheme_text(target.scheme)),
        shown.authority == Some(target.authority),
        shown.path == target.prefix || (target.prefix.len() == 0 && shown.path == "/"@),
    ensures
        target_of(displayed(target), Some(shown)) == Ok::<TargetModel, TargetFault>(target),
{
    reveal_strlit("http");
    reveal_strlit("https");
    reveal_strlit("/");
    assert("http"@.len() != "https"@.len());
    trim_slashes_facts(uri->0.path);
    trim_slashes_is("/"@, 0);
    assert("/"@.take(0) =~= target.prefix || target.prefix.len() > 0);
}

/// A key matches its own path and everything below it, but no path that merely
/// begins with the same characters: /web matches /web and /web/**, not /webfoo.
pub proof fn prefix_matching(key: Seq<char>, rest: Seq<char>, c: char)
    requires
        trim_slashes(key).len() > 0,
        c != '/',
    ensures
        rule_matches(key, trim_slashes(key)),
        rule_matches(key, trim_slashes(key).push('/') + rest),
        !rule_matches(key, trim_slashes(key).push(c) + rest),
{
    let k = trim_slashes(key);
    assert(k.push('/') =~= (k.push('/') + rest).subrange(0, k.push('/').len() as int));
    let other = k.push(c) + rest;
    assert(other[k.len() as int] == c);
    if k.push('/').is_prefix_of(other) {
        assert(k.push('/')[k.len() as int] == other.subrange(0, k.push('/').len() as int)[k.len() as int]);
    }
}

/// A key of slashes alone matches every path.
pub proof fn root_matches_all(key: Seq<char>, path: Seq<char>)
    requires
        forall|i: int| 0 <= i < key.len() ==> key[i] == '/',
    ensures
        rule_matches(key, path),
{
    trim_slashes_is(key, 0);
}

/// A matching path is its key followed by what remains of it, and the upstream
/// gets the target's prefix in place of the key, or / where nothing is left.
pub proof fn rewriting(rule: RuleModel, path: Seq<char>)
    requires
        rule_matches(rule.key, path),
    ensures
        path == trim_slashes(rule.key) + suffix_of(rule.key, path),
        upstream_path_of(rule, path, None) == (if trim_slashes(rule.target.prefix).len() == 0
            && suffix_of(rule.key, path).len() == 0 {
            "/"@
        } else {
            trim_slashes(rule.target.prefix) + suffix_of(rule.key, path)
        }),
{
    let k = trim_slashes(rule.key);
    matching_path_begins_with_key(rule.key, path);
    assert(path =~= k + path.skip(k.len() as int));
}

pub(crate) proof fn matching_path_begins_with_key(key: Seq<char>, path: Seq<char>)
    requires
        rule_matches(key, path),
    ensures
        trim_slashes(key).is_prefix_of(path),
{
    let k = trim_slashes(key);
    if k.len() == 0 {
        assert(k =~= path.subrange(0, 0));
    } else if path == k {
        assert(k =~= path.subrange(0, k.len() as int));
    } else {
        assert(k =~= path.subrange(0, k.len() as int)) by {
            assert(k.push('/') =~= path.subrange(0, k.push('/').len() as int));
            assert forall|i: int| 0 <= i < k.len() implies k[i] == path[i] by {
                assert(k.push('/')[i] == path.subrange(0, k.push('/').len() as int)[i]);
            }
        }
    }
}

/// With the key itself as the upstream's prefix, a path reaches the upstream
/// unchanged: /web/foo (key=/web, upstream prefix=/web) -> /web/foo.
pub proof fn same_prefix_keeps_path(rule: RuleModel, path: Seq<char>)
    requires
        trim_slashes(rule.target.prefix) == trim_slashes(rule.key),
        rule_matches(rule.key, path),
        path.len() > 0,
    ensures
        upstream_path_of(rule, path, None) == path,
{
    rewriting(rule, path);
}

/// The upstream gets an absolute path.
pub proof fn upstream_path_is_absolute(rule: RuleModel, path: Seq<char>, query: Option<Seq<char>>)
    requires
        rule_matches(rule.key, path),
        path.len() > 0 && path[0] == '/',
        rule.target.prefix.len() == 0 || rule.target.prefix[0] == '/',
    ensures
        upstream_path_of(rule, path, query).len() > 0,
        upstream_path_of(rule, path, query)[0] == '/',
{
    let k = trim_slashes(rule.key);
    let p = trim_slashes(rule.target.prefix);
    let suffix = suffix_of(rule.key, path);
    reveal_strlit("/");
    rewriting(rule, path);
    trim_slashes_facts(rule.target.prefix);
    if p.len() > 0 {
        assert(p[0] == rule.target.prefix.subrange(0, p.len() as int)[0]);
    } else if k.len() == 0 {
        assert(suffix =~= path);
    } else if suffix.len() > 0 {
        assert(k.push('/') =~= path.subrange(0, k.push('/').len() as int));
        assert(path[k.len() as int] == k.push('/')[k.len() as int]);
        assert(suffix[0] == path[k.len() as int]);
    }
}

/// The upstream sees its own authority as Host, the client's address and
/// protocol, no hop-by-hop header save those of a WebSocket upgrade, and every
/// other header as the client sent it.
pub proof fn forwarding(
    values: Map<Seq<char>, Seq<Seq<u8>>>,
    authority: Seq<char>,
    peer_ip: Seq<char>,
    proto: Seq<char>,
    name: Seq<char>,
)
    ensures
        ({
            let sent = forwarded(values, authority, peer_ip, proto);
            let added = name == "host"@ || name == "x-forwarded-for"@ || name
                == "x-forwarded-proto"@;
            &&& sent.dom().contains("host"@) && sent["host"@] == seq![
                vstd::utf8::encode_utf8(authority),
            ]
            &&& sent.dom().contains("x-forwarded-for"@) && sent["x-forwarded-for"@] == seq![
                vstd::utf8::encode_utf8(peer_ip),
            ]
            &&& sent.dom().contains("x-forwarded-proto"@) && sent["x-forwarded-proto"@] == seq![
                vstd::utf8::encode_utf8(proto),
            ]
            &&& is_hop_by_hop(name) && !(asks_for_websocket(values) && is_for_upgrade(name))
                ==> !sent.dom().contains(name)
            &&& !added && (!is_hop_by_hop(name) || (asks_for_websocket(values) && is_for_upgrade(
                name,
            ))) ==> (sent.dom().contains(name) <==> values.dom().contains(name)) && (
            values.dom().contains(name) ==> sent[name] == values[name])
        }),
{
    reveal_strlit("host");
    reveal_strlit("x-forwarded-for");
    reveal_strlit("x-forwarded-proto");
    reveal_strlit("connection");
    reveal_strlit("keep-alive");
    reveal_strlit("proxy-authenticate");
    reveal_strlit("proxy-authorization");
    reveal_strlit("te");
    reveal_strlit("trailer");
    reveal_strlit("transfer-encoding");
    reveal_strlit("upgrade");
    assert("host"@[0] == 'h' && "x-forwarded-for"@[0] == 'x' && "x-forwarded-proto"@[0] == 'x');
    assert("x-forwarded-for"@.len() != "x-forwarded-proto"@.len());
    assert("connection"@[0] == 'c' && "keep-alive"@[0] == 'k' && "te"@[0] == 't' && "trailer"@[0]
        == 't' && "transfer-encoding"@[0] == 't' && "upgrade"@[0] == 'u');
    assert("proxy-authenticate"@[0] == 'p' && "proxy-authorization"@[0] == 'p');
}

} // verus!
