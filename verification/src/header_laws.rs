//! What holds of header fields, and of the replies that the gateway makes itself.

use crate::headers::asks_for_websocket;
use crate::headers::header_text;
use crate::headers::is_field_text;
use crate::headers::is_visible;
use crate::headers::stripped;
use crate::headers::visible_text;
use crate::headers::with_field;
use crate::respond::bad_gateway_reply;
use crate::respond::text_reply;
use crate::text::lower;
use crate::text::occurs;
use crate::text_laws::occurrence;
use vstd::prelude::*;
use vstd::utf8::encode_utf8;
use vstd::utf8::is_ascii_chars_encode_utf8;

verus! {

/// A text of tabs and printable ASCII characters.
pub open spec fn is_printable(text: Seq<char>) -> bool {
    forall|i: int|
        0 <= i < text.len() ==> (#[trigger] text[i] == '\t' || (' ' <= text[i] && text[i] <= '~'))
}

/// What is passed on of each header field: all of its values, or nothing. Nothing
/// is left of Host and of the fields that concern a single connection, save
/// Connection and Upgrade where the upgrade is kept; every other field is left.
pub proof fn stripping(
    values: Map<Seq<char>, Seq<Seq<u8>>>,
    keep_upgrade: bool,
    name: Seq<char>,
)
    ensures
        ({
            let after = stripped(values, keep_upgrade);
            let passed_on = if name == "connection"@ || name == "upgrade"@ {
                keep_upgrade
            } else {
                &&& name != "host"@
                &&& name != "keep-alive"@
                &&& name != "proxy-authenticate"@
                &&& name != "proxy-authorization"@
                &&& name != "te"@
                &&& name != "trailer"@
                &&& name != "transfer-encoding"@
            };
            &&& after.dom().contains(name) <==> passed_on && values.dom().contains(name)
            &&& after.dom().contains(name) ==> after[name] == values[name]
        }),
{
    reveal_strlit("connection");
    reveal_strlit("upgrade");
    reveal_strlit("host");
    assert("connection"@[0] == 'c' && "upgrade"@[0] == 'u' && "host"@[0] == 'h');
}

/// A field that is set has the given text as its only value, and no other field
/// changes.
pub proof fn setting(
    values: Map<Seq<char>, Seq<Seq<u8>>>,
    name: Seq<char>,
    text: Seq<char>,
    other: Seq<char>,
)
    ensures
        with_field(values, name, text).dom().contains(name),
        with_field(values, name, text)[name] == seq![encode_utf8(text)],
        other != name ==> {
            &&& with_field(values, name, text).dom().contains(other) <==> values.dom().contains(
                other,
            )
            &&& with_field(values, name, text)[other] == values[other]
        },
{
}

/// The text of a field is that of its first value, whatever values follow, if it
/// consists of tabs and printable ASCII characters.
pub proof fn readable_field(
    values: Map<Seq<char>, Seq<Seq<u8>>>,
    name: Seq<char>,
    text: Seq<char>,
)
    requires
        values.dom().contains(name),
        values[name].len() > 0,
        values[name][0] == encode_utf8(text),
        is_printable(text),
    ensures
        header_text(values, name) == Some(text),
{
    let value = values[name][0];
    assert(vstd::utf8::is_ascii_chars(text));
    is_ascii_chars_encode_utf8(text);
    assert forall|i: int| 0 <= i < value.len() implies is_visible(#[trigger] value[i])
        && value[i] as char == text[i] by {
        assert(text[i] as u8 == value[i]);
    }
    assert(visible_text(value)->0 =~= text);
}

/// A field that is missing, or whose first value holds another byte than those of
/// tabs and printable ASCII characters, has no text.
pub proof fn unreadable_field(values: Map<Seq<char>, Seq<Seq<u8>>>, name: Seq<char>, i: int)
    requires
        !values.dom().contains(name) || values[name].len() == 0 || (0 <= i < values[name][0].len()
            && values[name][0][i] != 9 && !(32 <= values[name][0][i] <= 126)),
    ensures
        header_text(values, name) is None,
{
    if values.dom().contains(name) && values[name].len() > 0 {
        assert(!is_visible(values[name][0][i]));
    }
}

/// A request asks for a WebSocket exactly if "upgrade" occurs in its Connection
/// header and "websocket" in its Upgrade header, whatever the case.
pub proof fn websocket_requests(
    values: Map<Seq<char>, Seq<Seq<u8>>>,
    connection: Seq<char>,
    upgrade: Seq<char>,
)
    requires
        header_text(values, "connection"@) == Some(connection),
        header_text(values, "upgrade"@) == Some(upgrade),
    ensures
        asks_for_websocket(values) <==> {
            &&& exists|a: Seq<char>, b: Seq<char>|
                lower(connection) == #[trigger] (a + "upgrade"@ + b)
            &&& exists|a: Seq<char>, b: Seq<char>|
                lower(upgrade) == #[trigger] (a + "websocket"@ + b)
        },
{
    occurrence("upgrade"@, lower(connection));
    occurrence("websocket"@, lower(upgrade));
    assert(asks_for_websocket(values) <==> occurs("upgrade"@, lower(connection)) && occurs(
        "websocket"@,
        lower(upgrade),
    ));
}

/// A request without a readable Connection or Upgrade header asks for no WebSocket.
pub proof fn no_websocket_otherwise(values: Map<Seq<char>, Seq<Seq<u8>>>)
    requires
        header_text(values, "connection"@) is None || header_text(values, "upgrade"@) is None,
    ensures
        !asks_for_websocket(values),
{
}

/// A text can be the value of a field exactly if each of its characters can: all
/// but the control characters, of which only the tab can.
pub proof fn field_text_characters(text: Seq<char>, c: char)
    ensures
        is_field_text(Seq::empty()),
        is_field_text(text.push(c)) <==> is_field_text(text) && (c == '\t' || (c >= ' ' && c
            != '\x7f')),
{
    let whole = text.push(c);
    if is_field_text(whole) {
        assert forall|i: int| 0 <= i < text.len() implies (#[trigger] text[i] == '\t' || (text[i]
            >= ' ' && text[i] != '\x7f')) by {
            assert(whole[i] == text[i]);
        }
        assert(whole[text.len() as int] == c);
    }
    if is_field_text(text) && (c == '\t' || (c >= ' ' && c != '\x7f')) {
        assert forall|i: int| 0 <= i < whole.len() implies (#[trigger] whole[i] == '\t' || (
        whole[i] >= ' ' && whole[i] != '\x7f')) by {
            if i < text.len() {
                assert(whole[i] == text[i]);
            }
        }
    }
}

/// A plain-text reply has the given status and text, and its type as its only field.
pub proof fn plain_replies(status: u16, msg: Seq<char>, name: Seq<char>)
    ensures
        text_reply(status, msg).status == status,
        text_reply(status, msg).body == encode_utf8(msg),
        text_reply(status, msg).headers.dom().contains(name) <==> name == "content-type"@,
        text_reply(status, msg).headers["content-type"@] == seq![
            encode_utf8("text/plain; charset=utf-8"@),
        ],
{
}

/// When the upstream cannot be used, the client is told so with status 502.
pub proof fn bad_gateway_is_502()
    ensures
        bad_gateway_reply() == text_reply(502, "502 Bad Gateway\n"@),
{
}

} // verus!
