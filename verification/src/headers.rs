//! Header fields of requests and replies, kept in an `http::HeaderMap`.

use crate::text::ascii_lowercase;
use crate::text::contains;
use crate::text::lower;
use crate::text::occurs;
use crate::text::text_of;
use http::header::HeaderValue;
use http::header::InvalidHeaderValue;
use http::HeaderMap;
use vstd::prelude::*;
use vstd::utf8::encode_utf8;

verus! {

/// The header fields of a request or a reply.
#[verifier::external_type_specification]
#[verifier::external_body]
#[verifier::reject_recursive_types(T)]
pub struct ExHeaderMap<T>(HeaderMap<T>);

/// The value of a header field.
#[verifier::external_type_specification]
#[verifier::external_body]
pub struct ExHeaderValue(HeaderValue);

/// A text cannot be the value of a header field.
#[verifier::external_type_specification]
#[verifier::external_body]
pub struct ExInvalidHeaderValue(InvalidHeaderValue);

/// The values of each header field by its name, which is in lower case. The
/// values of one field stand in the order in which they came.
pub uninterp spec fn header_values(headers: HeaderMap<HeaderValue>) -> Map<Seq<char>, Seq<Seq<u8>>>;

/// A field name in the form in which it is stored.
pub open spec fn is_header_name(name: Seq<char>) -> bool {
    &&& 0 < name.len() <= 64
    &&& forall|i: int|
        0 <= i < name.len() ==> (#[trigger] name[i] == '-' || ('a' <= name[i] && name[i] <= 'z'))
}

/// A text that can be the value of a field: no control characters but the tab.
pub open spec fn is_field_text(text: Seq<char>) -> bool {
    forall|i: int|
        0 <= i < text.len() ==> (#[trigger] text[i] == '\t' || (text[i] >= ' ' && text[i]
            != '\x7f'))
}

/// A tab or a printable ASCII character.
pub open spec fn is_visible(b: u8) -> bool {
    32 <= b < 127 || b == 9
}

/// The text of a field value, if it is all visible.
pub open spec fn visible_text(value: Seq<u8>) -> Option<Seq<char>> {
    if forall|i: int| 0 <= i < value.len() ==> is_visible(#[trigger] value[i]) {
        Some(Seq::new(value.len(), |i: int| value[i] as char))
    } else {
        None
    }
}

/// The text of the first value of a field, if there is one and it is all visible.
pub open spec fn header_text(
    values: Map<Seq<char>, Seq<Seq<u8>>>,
    name: Seq<char>,
) -> Option<Seq<char>> {
    if values.dom().contains(name) && values[name].len() > 0 {
        visible_text(values[name][0])
    } else {
        None
    }
}

/// `values` with the field `name` replaced by the single value `text`.
pub open spec fn with_field(
    values: Map<Seq<char>, Seq<Seq<u8>>>,
    name: Seq<char>,
    text: Seq<char>,
) -> Map<Seq<char>, Seq<Seq<u8>>> {
    values.insert(name, seq![encode_utf8(text)])
}

/// There is room for another field after `extra` new ones, whatever the state of
/// the map. A `HeaderMap` has at most 32768 slots; where their order has become
/// unlucky it asks for more once a fifth of them are in use, and else when three
/// quarters are.
pub open spec fn has_room(values: Map<Seq<char>, Seq<Seq<u8>>>, extra: nat) -> bool {
    &&& values.dom().finite()
    &&& 5 * (values.dom().len() + extra) < 32768
}

/// No header fields at all.
pub open spec fn no_fields() -> Map<Seq<char>, Seq<Seq<u8>>> {
    Map::empty()
}

/// `HeaderMap::new`: there are no fields.
#[verifier::external_body]
pub(crate) fn no_headers() -> (r: HeaderMap<HeaderValue>)
    ensures
        header_values(r) == no_fields(),
{
    HeaderMap::new()
}

/// `HeaderMap::get`, with `HeaderValue::to_str` on what it finds: the first value
/// of the field, if it consists of tabs and printable ASCII characters.
#[verifier::external_body]
pub(crate) fn get_text(headers: &HeaderMap<HeaderValue>, name: &str) -> (r: Option<String>)
    requires
        is_header_name(name@),
    ensures
        text_of(r) == header_text(header_values(*headers), name@),
{
    match headers.get(name) {
        Some(value) => match value.to_str() {
            Ok(text) => Some(text.to_string()),
            Err(_) => None,
        },
        None => None,
    }
}

/// `HeaderMap::remove`: takes out all values of the field.
#[verifier::external_body]
pub(crate) fn remove_field(headers: &mut HeaderMap<HeaderValue>, name: &str)
    requires
        is_header_name(name@),
    ensures
        header_values(*final(headers)) == header_values(*old(headers)).remove(name@),
{
    headers.remove(name);
}

/// `HeaderMap::try_insert` of what `HeaderValue::from_str` makes of the text: the
/// field has that one value from now on. A text with control characters other
/// than the tab is refused; and `Ok(false)` says that the map has reached its
/// maximum size. In both cases nothing changes. Beyond [`has_room`] it is left
/// open whether the map is full: that depends on how its slots are filled.
#[verifier::external_body]
pub(crate) fn set_field(
    headers: &mut HeaderMap<HeaderValue>,
    name: &'static str,
    value: &str,
) -> (r: Result<bool, InvalidHeaderValue>)
    requires
        is_header_name(name@),
    ensures
        r is Ok <==> is_field_text(value@),
        r matches Ok(done) ==> has_room(header_values(*old(headers)), 0) ==> done,
        header_values(*final(headers)) == (if r is Ok && r->Ok_0 {
            with_field(header_values(*old(headers)), name@, value@)
        } else {
            header_values(*old(headers))
        }),
{
    Ok(headers.try_insert(name, HeaderValue::from_str(value)?).is_ok())
}

/// A header that concerns a single connection and is not passed on.
pub open spec fn is_hop_by_hop(name: Seq<char>) -> bool {
    ||| name == "connection"@
    ||| name == "keep-alive"@
    ||| name == "proxy-authenticate"@
    ||| name == "proxy-authorization"@
    ||| name == "te"@
    ||| name == "trailer"@
    ||| name == "transfer-encoding"@
    ||| name == "upgrade"@
}

/// A header that an upgrade of the connection needs.
pub open spec fn is_for_upgrade(name: Seq<char>) -> bool {
    name == "connection"@ || name == "upgrade"@
}

/// A header that is not passed on.
pub open spec fn is_stripped(name: Seq<char>, keep_upgrade: bool) -> bool {
    (is_hop_by_hop(name) && !(keep_upgrade && is_for_upgrade(name))) || name == "host"@
}

/// The fields that are passed on, with their values.
pub open spec fn stripped(
    values: Map<Seq<char>, Seq<Seq<u8>>>,
    keep_upgrade: bool,
) -> Map<Seq<char>, Seq<Seq<u8>>> {
    values.remove_keys(Set::new(|name: Seq<char>| is_stripped(name, keep_upgrade)))
}

/// A request to turn the connection into a WebSocket.
pub open spec fn asks_for_websocket(values: Map<Seq<char>, Seq<Seq<u8>>>) -> bool {
    &&& header_text(values, "connection"@) matches Some(text) && occurs("upgrade"@, lower(text))
    &&& header_text(values, "upgrade"@) matches Some(text) && occurs("websocket"@, lower(text))
}

/// The names that this library uses are names of header fields.
pub(crate) proof fn known_names()
    ensures
        is_header_name("connection"@),
        is_header_name("keep-alive"@),
        is_header_name("proxy-authenticate"@),
        is_header_name("proxy-authorization"@),
        is_header_name("te"@),
        is_header_name("trailer"@),
        is_header_name("transfer-encoding"@),
        is_header_name("upgrade"@),
        is_header_name("host"@),
        is_header_name("x-forwarded-for"@),
        is_header_name("x-forwarded-proto"@),
        is_header_name("content-type"@),
        is_header_name("content-length"@),
        is_header_name("allow"@),
        is_header_name("location"@),
{
    reveal_strlit("connection");
    reveal_strlit("keep-alive");
    reveal_strlit("proxy-authenticate");
    reveal_strlit("proxy-authorization");
    reveal_strlit("te");
    reveal_strlit("trailer");
    reveal_strlit("transfer-encoding");
    reveal_strlit("upgrade");
    reveal_strlit("host");
    reveal_strlit("x-forwarded-for");
    reveal_strlit("x-forwarded-proto");
    reveal_strlit("content-type");
    reveal_strlit("content-length");
    reveal_strlit("allow");
    reveal_strlit("location");
}

/// Strip hop-by-hop headers; keep Connection / Upgrade when `keep_upgrade` is true.
pub fn strip_hop_by_hop(headers: &mut HeaderMap<HeaderValue>, keep_upgrade: bool)
    ensures
        header_values(*final(headers)) == stripped(header_values(*old(headers)), keep_upgrade),
{
    proof {
        known_names();
    }
    let ghost values = header_values(*headers);
    if !keep_upgrade {
        remove_field(headers, "connection");
        remove_field(headers, "upgrade");
    }
    remove_field(headers, "keep-alive");
    remove_field(headers, "proxy-authenticate");
    remove_field(headers, "proxy-authorization");
    remove_field(headers, "te");
    remove_field(headers, "trailer");
    remove_field(headers, "transfer-encoding");
    remove_field(headers, "host");
    proof {
        upgrade_names();
        assert(header_values(*headers) =~= stripped(values, keep_upgrade));
    }
}

/// The headers for an upgrade are none of the others.
proof fn upgrade_names()
    ensures
        forall|name: Seq<char>| #[trigger]
            is_for_upgrade(name) ==> name != "keep-alive"@ && name != "proxy-authenticate"@ && name
                != "proxy-authorization"@ && name != "te"@ && name != "trailer"@ && name
                != "transfer-encoding"@ && name != "host"@,
{
    reveal_strlit("connection");
    reveal_strlit("upgrade");
    reveal_strlit("keep-alive");
    reveal_strlit("proxy-authenticate");
    reveal_strlit("proxy-authorization");
    reveal_strlit("te");
    reveal_strlit("trailer");
    reveal_strlit("transfer-encoding");
    reveal_strlit("host");
    assert("connection"@[0] == 'c' && "upgrade"@[0] == 'u');
    assert("keep-alive"@[0] == 'k' && "trailer"@[0] == 't');
}

/// Check whether this is a WebSocket upgrade request.
pub fn is_upgrade_request(headers: &HeaderMap<HeaderValue>) -> (r: bool)
    ensures
        r == asks_for_websocket(header_values(*headers)),
{
    proof {
        known_names();
    }
    let conn_upgrade = match get_text(headers, "connection") {
        Some(v) => contains(ascii_lowercase(v.as_str()).as_str(), "upgrade"),
        None => false,
    };
    let ws = match get_text(headers, "upgrade") {
        Some(v) => contains(ascii_lowercase(v.as_str()).as_str(), "websocket"),
        None => false,
    };
    conn_upgrade && ws
}

/// Stripping headers that have been stripped changes nothing.
pub proof fn strip_idempotent(values: Map<Seq<char>, Seq<Seq<u8>>>, keep_upgrade: bool)
    ensures
        stripped(stripped(values, keep_upgrade), keep_upgrade) == stripped(values, keep_upgrade),
{
    assert(stripped(stripped(values, keep_upgrade), keep_upgrade) =~= stripped(
        values,
        keep_upgrade,
    ));
}

/// No hop-by-hop header is passed on, save those for an upgrade that is kept, and
/// every other header but Host is passed on unchanged.
pub proof fn strip_keeps_the_rest(
    values: Map<Seq<char>, Seq<Seq<u8>>>,
    keep_upgrade: bool,
    name: Seq<char>,
)
    ensures
        !keep_upgrade && is_hop_by_hop(name) ==> !stripped(values, keep_upgrade).dom().contains(
            name,
        ),
        !stripped(values, keep_upgrade).dom().contains("host"@),
        name != "host"@ && (!is_hop_by_hop(name) || (keep_upgrade && is_for_upgrade(name))) ==> (
        stripped(values, keep_upgrade).dom().contains(name) <==> values.dom().contains(name)),
        stripped(values, keep_upgrade).dom().contains(name) ==> stripped(
            values,
            keep_upgrade,
        )[name] == values[name],
{
}

} // verus!
