//! What holds of every request that is forwarded.

use crate::header_laws::setting;
use crate::header_laws::stripping;
use crate::headers::asks_for_websocket;
use crate::headers::has_room;
use crate::headers::is_field_text;
use crate::headers::stripped;
use crate::proxy::authority_parts;
use crate::proxy::default_port;
use crate::proxy::displayed;
use crate::proxy::finish_outcome;
use crate::proxy::forward_outcome;
use crate::proxy::forward_steps;
use crate::proxy::is_overfull;
use crate::proxy::joined;
use crate::proxy::prepare_outcome;
use crate::proxy::rule_matches;
use crate::proxy::scheme_text;
use crate::proxy::suffix_of;
use crate::proxy::takes_port;
use crate::proxy::target_fault_text;
use crate::proxy::target_of;
use crate::proxy::upstream_path_of;
use crate::proxy::ForwardError;
use crate::proxy::RuleModel;
use crate::proxy::Scheme;
use crate::proxy::TargetFault;
use crate::proxy::TargetModel;
use crate::text::port_of;
use crate::text::trim_slashes;
use crate::text_laws::last_occurrence;
use crate::text_laws::trimming;
use crate::uri::UriModel;
use vstd::prelude::*;
use vstd::utf8::encode_utf8;

verus! {

/// A field that the proxy sets itself.
pub open spec fn is_set_by_proxy(name: Seq<char>) -> bool {
    name == "host"@ || name == "x-forwarded-for"@ || name == "x-forwarded-proto"@
}

/// A field that reaches the other side unchanged: neither one that the proxy sets,
/// nor one that concerns a single connection, save Connection and Upgrade where
/// the connection is upgraded.
pub open spec fn is_passed_on(name: Seq<char>, upgraded: bool) -> bool {
    if name == "connection"@ || name == "upgrade"@ {
        upgraded
    } else {
        &&& name != "host"@
        &&& name != "keep-alive"@
        &&& name != "proxy-authenticate"@
        &&& name != "proxy-authorization"@
        &&& name != "te"@
        &&& name != "trailer"@
        &&& name != "transfer-encoding"@
    }
}

proof fn proxy_names()
    ensures
        "host"@ != "x-forwarded-for"@,
        "host"@ != "x-forwarded-proto"@,
        "x-forwarded-for"@ != "x-forwarded-proto"@,
{
    reveal_strlit("host");
    reveal_strlit("x-forwarded-for");
    reveal_strlit("x-forwarded-proto");
    assert("host"@[0] == 'h' && "x-forwarded-for"@[0] == 'x' && "x-forwarded-proto"@[0] == 'x');
    assert("x-forwarded-for"@.len() != "x-forwarded-proto"@.len());
}

/// Every field of the client's request reaches the upstream with the same values
/// in the same order, unless it concerns a single connection or the proxy sets it;
/// and the upstream gets no field that the client did not send.
pub proof fn client_fields_are_forwarded(
    values: Map<Seq<char>, Seq<Seq<u8>>>,
    authority: Seq<char>,
    peer_ip: Seq<char>,
    proto: Seq<char>,
    name: Seq<char>,
)
    requires
        name != "host"@,
        name != "x-forwarded-for"@,
        name != "x-forwarded-proto"@,
    ensures
        ({
            let sent = forward_outcome(values, authority, peer_ip, proto).1;
            let passed_on = if name == "connection"@ || name == "upgrade"@ {
                asks_for_websocket(values)
            } else {
                &&& name != "keep-alive"@
                &&& name != "proxy-authenticate"@
                &&& name != "proxy-authorization"@
                &&& name != "te"@
                &&& name != "trailer"@
                &&& name != "transfer-encoding"@
            };
            &&& passed_on == is_passed_on(name, asks_for_websocket(values))
            &&& sent.dom().contains(name) <==> values.dom().contains(name) && passed_on
            &&& sent.dom().contains(name) ==> sent[name] == values[name]
        }),
{
    stripping(values, asks_for_websocket(values), name);
}

/// A request that is forwarded carries the upstream's authority as Host, the
/// client's address and the client's protocol, each as the only value of its
/// field, and is known to ask for a WebSocket if it does.
pub proof fn proxy_fields_are_set(
    values: Map<Seq<char>, Seq<Seq<u8>>>,
    authority: Seq<char>,
    peer_ip: Seq<char>,
    proto: Seq<char>,
)
    requires
        is_field_text(authority),
        is_field_text(peer_ip),
    ensures
        ({
            let (outcome, sent) = forward_outcome(values, authority, peer_ip, proto);
            &&& outcome == Ok::<bool, ForwardError>(asks_for_websocket(values))
            &&& sent.dom().contains("host"@)
            &&& sent["host"@] == seq![encode_utf8(authority)]
            &&& sent.dom().contains("x-forwarded-for"@)
            &&& sent["x-forwarded-for"@] == seq![encode_utf8(peer_ip)]
            &&& sent.dom().contains("x-forwarded-proto"@)
            &&& sent["x-forwarded-proto"@] == seq![encode_utf8(proto)]
        }),
{
    proxy_names();
}

/// Forwarding fails exactly where the authority or the address cannot be a header.
pub proof fn forwarding_faults(
    values: Map<Seq<char>, Seq<Seq<u8>>>,
    authority: Seq<char>,
    peer_ip: Seq<char>,
    proto: Seq<char>,
)
    ensures
        ({
            let outcome = forward_outcome(values, authority, peer_ip, proto).0;
            &&& !is_field_text(authority) <==> outcome == Err::<bool, ForwardError>(
                ForwardError::InvalidHost,
            )
            &&& is_field_text(authority) && !is_field_text(peer_ip) <==> outcome == Err::<
                bool,
                ForwardError,
            >(ForwardError::InvalidPeer)
            &&& is_field_text(authority) && is_field_text(peer_ip) <==> outcome is Ok
        }),
{
}

/// Where header fields cannot be added for want of room, the client's fields are
/// still there, and there are more than six thousand of them.
pub proof fn overfull_requests(
    values: Map<Seq<char>, Seq<Seq<u8>>>,
    authority: Seq<char>,
    peer_ip: Seq<char>,
    after: Map<Seq<char>, Seq<Seq<u8>>>,
    name: Seq<char>,
)
    requires
        is_overfull(values, authority, peer_ip, after),
        !is_set_by_proxy(name),
    ensures
        values.dom().finite() ==> values.dom().len() > 6000,
        after.dom().contains(name) <==> values.dom().contains(name) && is_passed_on(
            name,
            asks_for_websocket(values),
        ),
        after.dom().contains(name) ==> after[name] == values[name],
{
    let steps = forward_steps(values, authority, peer_ip);
    let k = steps.index_of(after);
    assert(steps[k] == after);
    stripping(values, asks_for_websocket(values), name);
    setting(steps[0], "host"@, authority, name);
    setting(steps[1], "x-forwarded-for"@, peer_ip, name);
}

/// Up to six and a half thousand fields leave room for those that the proxy sets.
pub proof fn room_for_many(values: Map<Seq<char>, Seq<Seq<u8>>>)
    requires
        values.dom().finite(),
        values.dom().len() <= 6500,
    ensures
        has_room(values, 2),
{
}

/// A request is sent to the target that its rewritten path and query make, with
/// the fields that forwarding gives it; without a target it is refused, and its
/// fields are left as they are.
pub proof fn preparing(
    target: Seq<char>,
    values: Map<Seq<char>, Seq<Seq<u8>>>,
    authority: Seq<char>,
    peer_ip: Seq<char>,
    proto: Seq<char>,
)
    ensures
        prepare_outcome(None, values, authority, peer_ip, proto) == (
            Err::<(Seq<char>, bool), ForwardError>(ForwardError::InvalidPath),
            values,
        ),
        ({
            let (ws, sent) = forward_outcome(values, authority, peer_ip, proto);
            let (outcome, prepared) = prepare_outcome(
                Some(target),
                values,
                authority,
                peer_ip,
                proto,
            );
            &&& prepared == sent
            &&& match ws {
                Ok(is_ws) => outcome == Ok::<(Seq<char>, bool), ForwardError>((target, is_ws)),
                Err(error) => outcome == Err::<(Seq<char>, bool), ForwardError>(error),
            }
        }),
{
}

/// A request that is prepared carries all of the client's fields that are passed
/// on, and the upstream's authority, the client's address and its protocol.
pub proof fn prepared_requests(
    target: Seq<char>,
    values: Map<Seq<char>, Seq<Seq<u8>>>,
    authority: Seq<char>,
    peer_ip: Seq<char>,
    proto: Seq<char>,
    name: Seq<char>,
)
    requires
        is_field_text(authority),
        is_field_text(peer_ip),
    ensures
        ({
            let (outcome, sent) = prepare_outcome(Some(target), values, authority, peer_ip, proto);
            let is_ws = asks_for_websocket(values);
            &&& outcome == Ok::<(Seq<char>, bool), ForwardError>((target, is_ws))
            &&& sent["host"@] == seq![encode_utf8(authority)]
            &&& sent["x-forwarded-for"@] == seq![encode_utf8(peer_ip)]
            &&& sent["x-forwarded-proto"@] == seq![encode_utf8(proto)]
            &&& !is_set_by_proxy(name) ==> {
                &&& sent.dom().contains(name) <==> values.dom().contains(name) && is_passed_on(
                    name,
                    is_ws,
                )
                &&& sent.dom().contains(name) ==> sent[name] == values[name]
            }
        }),
{
    proxy_fields_are_set(values, authority, peer_ip, proto);
    if !is_set_by_proxy(name) {
        client_fields_are_forwarded(values, authority, peer_ip, proto, name);
    }
}

/// Every field of a response reaches the client with the same values, unless it
/// concerns a single connection; Connection and Upgrade are kept exactly when
/// protocols are switched. Host is no field of a response.
pub proof fn response_fields_are_passed_on(
    status: u16,
    values: Map<Seq<char>, Seq<Seq<u8>>>,
    client_can_upgrade: bool,
    upstream_can_upgrade: bool,
    name: Seq<char>,
)
    ensures
        ({
            let sent = finish_outcome(status, values, client_can_upgrade, upstream_can_upgrade).1;
            &&& sent == stripped(values, status == 101)
            &&& sent.dom().contains(name) <==> values.dom().contains(name) && is_passed_on(
                name,
                status == 101,
            )
            &&& sent.dom().contains(name) ==> sent[name] == values[name]
        }),
{
    stripping(values, status == 101, name);
}

/// The connections are relayed to each other exactly after a 101 response, and
/// then both must be able to; whichever cannot is reported, the client first.
pub proof fn relaying(
    status: u16,
    values: Map<Seq<char>, Seq<Seq<u8>>>,
    client_can_upgrade: bool,
    upstream_can_upgrade: bool,
)
    ensures
        ({
            let relay = finish_outcome(status, values, client_can_upgrade, upstream_can_upgrade).0;
            &&& relay == Ok::<bool, ForwardError>(true) <==> status == 101 && client_can_upgrade
                && upstream_can_upgrade
            &&& relay == Ok::<bool, ForwardError>(false) <==> status != 101
            &&& relay == Err::<bool, ForwardError>(ForwardError::MissingClientUpgrade) <==> status
                == 101 && !client_can_upgrade
            &&& relay == Err::<bool, ForwardError>(ForwardError::MissingUpstreamUpgrade)
                <==> status == 101 && client_can_upgrade && !upstream_can_upgrade
        }),
{
}

/// The schemes by name and port: http and 80, https and 443.
pub proof fn schemes(scheme: Scheme)
    ensures
        scheme_text(Scheme::Http) == "http"@,
        scheme_text(Scheme::Https) == "https"@,
        default_port(scheme) == 80 <==> scheme == Scheme::Http,
        default_port(scheme) == 443 <==> scheme == Scheme::Https,
{
}

/// What an authority is split into is decided by what stands before its last colon.
proof fn split_at_last_colon(host: Seq<char>, port: Seq<char>, scheme: Scheme)
    requires
        !port.contains(':'),
    ensures
        authority_parts(host.push(':') + port, scheme) == (if takes_port(host) && port_of(
            port,
        ) is Some {
            (host, port_of(port)->0)
        } else {
            (host.push(':') + port, default_port(scheme))
        }),
{
    let whole = host.push(':') + port;
    last_occurrence(host, ':', port);
    assert(whole.take(host.len() as int) =~= host);
    assert(whole.skip(host.len() as int + 1) =~= port);
}

/// The name of a host stands behind the user information.
proof fn name_behind_user(user: Option<Seq<char>>, name: Seq<char>)
    requires
        !name.contains('@'),
    ensures
        ({
            let host = match user {
                Some(user) => user.push('@') + name,
                None => name,
            };
            host.skip(crate::text::last_at(host, '@') + 1) == name
        }),
{
    match user {
        Some(user) => {
            last_occurrence(user, '@', name);
            assert((user.push('@') + name).skip(user.len() as int + 1) =~= name);
        },
        None => {
            last_occurrence(name, '@', name);
            assert(name.skip(0) =~= name);
        },
    }
}

/// A host name, perhaps behind user information, and a port are told apart by the
/// colon between them; what follows the colon and is no port belongs to the host.
pub proof fn named_authority(
    user: Option<Seq<char>>,
    name: Seq<char>,
    port: Seq<char>,
    scheme: Scheme,
)
    requires
        name.len() > 0,
        !name.contains('@') && !name.contains(':') && !name.contains(']'),
        user matches Some(user) ==> !user.contains(']'),
        !port.contains(':'),
    ensures
        ({
            let host = match user {
                Some(user) => user.push('@') + name,
                None => name,
            };
            let authority = host.push(':') + port;
            match port_of(port) {
                Some(number) => authority_parts(authority, scheme) == (host, number),
                None => authority_parts(authority, scheme) == (authority, default_port(scheme)),
            }
        }),
{
    let host = match user {
        Some(user) => user.push('@') + name,
        None => name,
    };
    name_behind_user(user, name);
    assert(!host.contains(']')) by {
        if host.contains(']') {
            let k = host.index_of(']');
            if let Some(user) = user {
                if k < user.len() {
                    assert(user.contains(user[k]));
                } else if k > user.len() {
                    assert(name.contains(name[k - user.len() - 1]));
                }
            }
        }
    }
    split_at_last_colon(host, port, scheme);
}

/// A bracketed address, perhaps behind user information, and a port are told apart
/// by the colon between them; what follows the colon and is no port belongs to the
/// host.
pub proof fn bracketed_authority(
    user: Option<Seq<char>>,
    address: Seq<char>,
    port: Seq<char>,
    scheme: Scheme,
)
    requires
        !address.contains('@'),
        !port.contains(':'),
    ensures
        ({
            let name = seq!['['] + address + seq![']'];
            let host = match user {
                Some(user) => user.push('@') + name,
                None => name,
            };
            let authority = host.push(':') + port;
            match port_of(port) {
                Some(number) => authority_parts(authority, scheme) == (host, number),
                None => authority_parts(authority, scheme) == (authority, default_port(scheme)),
            }
        }),
{
    let name = seq!['['] + address + seq![']'];
    let host = match user {
        Some(user) => user.push('@') + name,
        None => name,
    };
    assert(!name.contains('@')) by {
        if name.contains('@') {
            let k = name.index_of('@');
            if 0 < k < name.len() - 1 {
                assert(address.contains(address[k - 1]));
            }
        }
    }
    name_behind_user(user, name);
    split_at_last_colon(host, port, scheme);
}

/// A bracket that closes no address, and a colon without a host before it, keep an
/// authority whole.
pub proof fn unsplit_authority(host: Seq<char>, port: Seq<char>, scheme: Scheme)
    requires
        host.len() == 0 || (host.contains(']') && host.last() != ']'),
        !port.contains(':'),
    ensures
        authority_parts(host.push(':') + port, scheme) == (
            host.push(':') + port,
            default_port(scheme),
        ),
{
    split_at_last_colon(host, port, scheme);
    if host.len() > 0 {
        crate::text::last_at_bounds(host, '@');
        let name = host.skip(crate::text::last_at(host, '@') + 1);
        if name.len() > 0 {
            assert(name.last() == host.last());
        }
    }
}

/// A URI with an authority and one of the two schemes is a target: it has that
/// scheme and authority, the host and port of that authority, and the path of the
/// URI without its trailing slashes.
pub proof fn targets(
    text: Seq<char>,
    scheme: Scheme,
    authority: Seq<char>,
    prefix: Seq<char>,
    slashes: Seq<char>,
)
    requires
        prefix.len() == 0 || prefix.last() != '/',
        forall|i: int| 0 <= i < slashes.len() ==> slashes[i] == '/',
    ensures
        ({
            let uri = UriModel {
                scheme: Some(match scheme {
                    Scheme::Http => "http"@,
                    Scheme::Https => "https"@,
                }),
                authority: Some(authority),
                path: prefix + slashes,
            };
            &&& target_of(text, Some(uri)) matches Ok(target)
            &&& target.scheme == scheme
            &&& target.authority == authority
            &&& (target.host, target.port) == authority_parts(authority, scheme)
            &&& target.prefix == prefix
            &&& displayed(target) == (match scheme {
                Scheme::Http => "http"@,
                Scheme::Https => "https"@,
            }) + "://"@ + authority + prefix
        }),
{
    reveal_strlit("http");
    reveal_strlit("https");
    assert("http"@.len() != "https"@.len());
    trimming(prefix, slashes);
}

/// What is no target: a text that is no URI, one with another scheme or none, and
/// one without an authority; they are refused in this order.
pub proof fn target_faults(text: Seq<char>, uri: UriModel)
    ensures
        target_of(text, None) == Err::<TargetModel, TargetFault>(TargetFault::Invalid(text)),
        uri.scheme != Some("http"@) && uri.scheme != Some("https"@) ==> target_of(text, Some(uri))
            == Err::<TargetModel, TargetFault>(TargetFault::UnsupportedScheme(uri.scheme)),
        (uri.scheme == Some("http"@) || uri.scheme == Some("https"@)) && uri.authority is None
            ==> target_of(text, Some(uri)) == Err::<TargetModel, TargetFault>(
            TargetFault::MissingHost(text),
        ),
{
}

/// A target that is refused is named, or else its scheme.
pub proof fn target_faults_are_named(text: Seq<char>)
    ensures
        target_fault_text(TargetFault::Invalid(text)) == "invalid proxy target: "@ + text,
        target_fault_text(TargetFault::MissingHost(text)) == "proxy target missing host: "@ + text,
        target_fault_text(TargetFault::UnsupportedScheme(Some(text)))
            == "unsupported proxy scheme Some(\""@ + text
            + "\"), only http/https are supported"@,
{
}

/// A key with any number of trailing slashes matches the path that it names and
/// the paths below that, and no others; one of slashes alone matches all paths.
pub proof fn matching(key: Seq<char>, slashes: Seq<char>, path: Seq<char>)
    requires
        key.len() == 0 || key.last() != '/',
        forall|i: int| 0 <= i < slashes.len() ==> slashes[i] == '/',
    ensures
        rule_matches(key + slashes, path) <==> {
            ||| key.len() == 0
            ||| path == key
            ||| exists|rest: Seq<char>| path == #[trigger] (key + "/"@ + rest)
        },
{
    trimming(key, slashes);
    reveal_strlit("/");
    assert(key + "/"@ =~= key.push('/'));
    let k = key.push('/');
    if k.is_prefix_of(path) {
        let rest = path.skip(k.len() as int);
        assert(path =~= key + "/"@ + rest) by {
            assert(k =~= path.subrange(0, k.len() as int));
            assert forall|i: int| 0 <= i < k.len() implies k[i] == path[i] by {
                assert(k[i] == path.subrange(0, k.len() as int)[i]);
            }
        }
    }
    if exists|rest: Seq<char>| path == #[trigger] (key + "/"@ + rest) {
        let rest = choose|rest: Seq<char>| path == #[trigger] (key + "/"@ + rest);
        assert(k =~= path.subrange(0, k.len() as int));
    }
}

/// A matching path reaches the upstream with the upstream's prefix in place of the
/// key; where nothing would be left it becomes /, and a query follows a question
/// mark.
pub proof fn rewritten_paths(
    rule: RuleModel,
    key: Seq<char>,
    prefix: Seq<char>,
    slashes: Seq<char>,
    more_slashes: Seq<char>,
    suffix: Seq<char>,
    query: Seq<char>,
)
    requires
        key.len() == 0 || key.last() != '/',
        prefix.len() == 0 || prefix.last() != '/',
        forall|i: int| 0 <= i < slashes.len() ==> slashes[i] == '/',
        forall|i: int| 0 <= i < more_slashes.len() ==> more_slashes[i] == '/',
        rule.key == key + slashes,
        rule.target.prefix == prefix + more_slashes,
    ensures
        ({
            let sent = if prefix + suffix == Seq::<char>::empty() {
                "/"@
            } else {
                prefix + suffix
            };
            &&& suffix_of(rule.key, key + suffix) == suffix
            &&& joined(rule.target.prefix, suffix) == sent
            &&& upstream_path_of(rule, key + suffix, None) == sent
            &&& upstream_path_of(rule, key + suffix, Some(query)) == sent + "?"@ + query
        }),
{
    trimming(key, slashes);
    trimming(prefix, more_slashes);
    let path = key + suffix;
    assert(key =~= path.subrange(0, key.len() as int));
    assert(path.skip(key.len() as int) =~= suffix);
    if (prefix + suffix).len() == 0 {
        assert(prefix + suffix =~= Seq::<char>::empty());
    }
}

/// A path that does not begin with a key is left as it is.
pub proof fn unrelated_paths(key: Seq<char>, slashes: Seq<char>, path: Seq<char>)
    requires
        key.len() == 0 || key.last() != '/',
        forall|i: int| 0 <= i < slashes.len() ==> slashes[i] == '/',
        forall|suffix: Seq<char>| path != #[trigger] (key + suffix),
    ensures
        suffix_of(key + slashes, path) == path,
{
    trimming(key, slashes);
    if key.is_prefix_of(path) {
        let suffix = path.skip(key.len() as int);
        assert(path =~= key + suffix) by {
            assert forall|i: int| 0 <= i < key.len() implies key[i] == path[i] by {
                assert(key[i] == path.subrange(0, key.len() as int)[i]);
            }
        }
    }
}

/// The trimmed form of a key is what stands before its trailing slashes, so that
/// keys which differ in these alone match the same paths.
pub proof fn trailing_slashes_make_no_difference(
    key: Seq<char>,
    slashes: Seq<char>,
    path: Seq<char>,
)
    requires
        forall|i: int| 0 <= i < slashes.len() ==> slashes[i] == '/',
    ensures
        rule_matches(key + slashes, path) == rule_matches(key, path),
        suffix_of(key + slashes, path) == suffix_of(key, path),
{
    let k = trim_slashes(key);
    crate::text::trim_slashes_facts(key);
    let all = key + slashes;
    trailing_part(key);
    crate::text::trim_slashes_is(all, k.len() as int);
    assert(all.take(k.len() as int) =~= k) by {
        assert forall|i: int| 0 <= i < k.len() implies k[i] == key[i] by {
            assert(k[i] == key.subrange(0, k.len() as int)[i]);
        }
    }
}

proof fn trailing_part(s: Seq<char>)
    ensures
        trim_slashes(s).len() <= s.len(),
        trim_slashes(s).len() > 0 ==> s[trim_slashes(s).len() - 1] != '/',
        forall|i: int| trim_slashes(s).len() <= i < s.len() ==> s[i] == '/',
    decreases s.len(),
{
    if s.len() > 0 && s.last() == '/' {
        trailing_part(s.drop_last());
        assert forall|i: int| trim_slashes(s).len() <= i < s.len() implies s[i] == '/' by {
            if i < s.len() - 1 {
                assert(s.drop_last()[i] == '/');
            }
        }
    }
}

} // verus!
