//! Replies that the gateway makes itself.

use crate::headers::header_values;
use crate::headers::known_names;
use crate::headers::no_fields;
use crate::headers::no_headers;
use crate::headers::set_field;
use crate::headers::with_field;
use http::header::HeaderValue;
use http::HeaderMap;
use vstd::prelude::*;
use vstd::utf8::encode_utf8;

verus! {

/// A reply with all of its body.
#[derive(Debug)]
pub struct Reply {
    /// The status code
    pub status: u16,
    pub headers: HeaderMap<HeaderValue>,
    pub body: Vec<u8>,
}

/// A reply, as a mathematical value.
pub struct ReplyModel {
    pub status: u16,
    pub headers: Map<Seq<char>, Seq<Seq<u8>>>,
    pub body: Seq<u8>,
}

impl View for Reply {
    type V = ReplyModel;

    open spec fn view(&self) -> ReplyModel {
        ReplyModel {
            status: self.status,
            headers: header_values(self.headers),
            body: self.body@,
        }
    }
}

/// A reply that consists of a plain text.
pub open spec fn text_reply(status: u16, msg: Seq<char>) -> ReplyModel {
    ReplyModel {
        status,
        headers: with_field(no_fields(), "content-type"@, "text/plain; charset=utf-8"@),
        body: encode_utf8(msg),
    }
}

/// The reply when the upstream cannot be used.
pub open spec fn bad_gateway_reply() -> ReplyModel {
    text_reply(502, "502 Bad Gateway\n"@)
}

/// Plain-text reply.
pub fn text(status: u16, msg: &str) -> (r: Reply)
    ensures
        r@ == text_reply(status, msg@),
        r@.headers.dom().finite() && r@.headers.dom().len() == 1,
{
    proof {
        known_names();
        reveal_strlit("text/plain; charset=utf-8");
    }
    let mut headers = no_headers();
    let _ = set_field(&mut headers, "content-type", "text/plain; charset=utf-8");
    Reply { status, headers, body: msg.as_bytes_vec() }
}

/// Error reply.
pub fn error(status: u16, msg: &str) -> (r: Reply)
    ensures
        r@ == text_reply(status, msg@),
        r@.headers.dom().finite() && r@.headers.dom().len() == 1,
{
    text(status, msg)
}

/// 502 reply used for upstream-unreachable and similar errors.
pub fn bad_gateway() -> (r: Reply)
    ensures
        r@ == bad_gateway_reply(),
{
    error(502, "502 Bad Gateway\n")
}

} // verus!
