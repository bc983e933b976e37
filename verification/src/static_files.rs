//! Serving static files from the webroot of a host.

use crate::headers::is_field_text;
use crate::headers::known_names;
use crate::headers::no_fields;
use crate::headers::no_headers;
use crate::headers::set_field;
use crate::headers::with_field;
use crate::respond::error;
use crate::respond::text_reply;
use crate::respond::Reply;
use crate::respond::ReplyModel;
use crate::text::all_digits;
use crate::text::ascii_lowercase;
use crate::text::chars_of;
use crate::text::decimal;
use crate::text::decimal_of;
use crate::text::decimal_round_trip;
use crate::text::last_at;
use crate::text::last_at_bounds;
use crate::text::last_at_is;
use crate::text::last_index;
use crate::text::lower;
use crate::text::lower_idempotent;
use crate::text::same;
use crate::text::split;
use crate::text::split_on;
use crate::text::split_on_facts;
use crate::text::string_of;
use crate::text_laws::split_on_joined;
use crate::text_laws::split_on_piece;
use vstd::prelude::*;
use vstd::utf8::decode_utf8;
use vstd::utf8::decode_utf8_encode_utf8;
use vstd::utf8::encode_scalar;
use vstd::utf8::encode_utf8;
use vstd::utf8::encode_utf8_decode_utf8;
use vstd::utf8::encode_utf8_valid_utf8;
use vstd::utf8::valid_utf8;

verus! {

/// What to do with a request for a static file.
#[derive(Debug)]
pub enum StaticPlan {
    /// Answer at once
    Answer(Reply),
    /// Read the file that these names lead to from the webroot
    File {
        segments: Vec<String>,
        /// Whether the request is for a directory
        directory: bool,
    },
}

/// What to do with a request, as a mathematical value.
pub enum PlanModel {
    Answer(ReplyModel),
    File { segments: Seq<Seq<char>>, directory: bool },
}

impl View for StaticPlan {
    type V = PlanModel;

    open spec fn view(&self) -> PlanModel {
        match self {
            StaticPlan::Answer(reply) => PlanModel::Answer(reply@),
            StaticPlan::File { segments, directory } => PlanModel::File {
                segments: segments.deep_view(),
                directory: *directory,
            },
        }
    }
}

/// What came of reading a file.
#[derive(Debug)]
pub enum FileOutcome {
    /// The contents of the file
    Data(Vec<u8>),
    /// There is no such file
    NotFound,
    /// The path leads through a file as if it were a directory
    NotADirectory,
    /// The file cannot be read
    Failed,
}

/// The value of a hexadecimal digit.
pub open spec fn hex_value(b: u8) -> Option<u8> {
    if 0x30 <= b <= 0x39 {
        Some((b - 0x30) as u8)
    } else if 0x61 <= b <= 0x66 {
        Some((b - 0x61 + 10) as u8)
    } else if 0x41 <= b <= 0x46 {
        Some((b - 0x41 + 10) as u8)
    } else {
        None
    }
}

/// `bytes` begins with a percent sign and two hexadecimal digits.
pub open spec fn begins_with_escape(bytes: Seq<u8>) -> bool {
    bytes.len() >= 3 && bytes[0] == 0x25 && hex_value(bytes[1]) is Some && hex_value(
        bytes[2],
    ) is Some
}

/// `bytes` with every percent escape replaced by the byte that it stands for. A
/// percent sign that begins no escape stands for itself.
pub open spec fn unescaped(bytes: Seq<u8>) -> Seq<u8>
    decreases bytes.len(),
{
    if bytes.len() == 0 {
        Seq::empty()
    } else if begins_with_escape(bytes) {
        seq![(hex_value(bytes[1])->0 * 16 + hex_value(bytes[2])->0) as u8] + unescaped(
            bytes.skip(3),
        )
    } else {
        seq![bytes[0]] + unescaped(bytes.skip(1))
    }
}

/// The text that bytes stand for, with a replacement character for what is not UTF-8.
pub uninterp spec fn lossy_text(bytes: Seq<u8>) -> Seq<char>;

/// `String::from_utf8_lossy`, owned: valid UTF-8 is decoded as such.
#[verifier::external_body]
fn text_lossy(bytes: &Vec<u8>) -> (r: String)
    ensures
        r@ == lossy_text(bytes@),
        valid_utf8(bytes@) ==> r@ == decode_utf8(bytes@),
{
    String::from_utf8_lossy(bytes).into_owned()
}

/// The text that a URL path stands for: its percent escapes are replaced, and
/// the bytes that result are read as UTF-8.
pub open spec fn decoded(path: Seq<char>) -> Seq<char> {
    let bytes = unescaped(encode_utf8(path));
    if valid_utf8(bytes) {
        decode_utf8(bytes)
    } else {
        lossy_text(bytes)
    }
}

/// A name that a path leads to a file by.
pub open spec fn is_kept(segment: Seq<char>) -> bool {
    segment.len() > 0 && segment != "."@
}

/// The names along a path, without the empty ones and the dots.
pub open spec fn segments_of(path: Seq<char>) -> Seq<Seq<char>> {
    split_on(path, '/').filter(|s: Seq<char>| is_kept(s))
}

/// What to do with a request for the file at a path that has been decoded.
pub open spec fn resolved(path: Seq<char>) -> PlanModel {
    if segments_of(path).contains(".."@) {
        PlanModel::Answer(text_reply(403, "403 Forbidden\n"@))
    } else {
        PlanModel::File {
            segments: segments_of(path),
            directory: path.len() > 0 && path.last() == '/',
        }
    }
}

/// The reply to a method that static files do not support.
pub open spec fn method_not_allowed() -> ReplyModel {
    let reply = text_reply(405, "405 Method Not Allowed\n"@);
    ReplyModel { headers: with_field(reply.headers, "allow"@, "GET, HEAD"@), ..reply }
}

/// A reply with an empty body.
pub open spec fn without_body(reply: ReplyModel) -> ReplyModel {
    ReplyModel { body: Seq::empty(), ..reply }
}

/// A reply as it is sent to a method: to HEAD, with an empty body.
pub open spec fn sent_to(method: Seq<char>, reply: ReplyModel) -> ReplyModel {
    if method == "HEAD"@ {
        without_body(reply)
    } else {
        reply
    }
}

/// What to do with a request for a static file.
pub open spec fn planned(method: Seq<char>, path: Seq<char>) -> PlanModel {
    if method != "GET"@ && method != "HEAD"@ {
        PlanModel::Answer(method_not_allowed())
    } else {
        match resolved(decoded(path)) {
            PlanModel::Answer(reply) => PlanModel::Answer(sent_to(method, reply)),
            PlanModel::File { segments, directory } => PlanModel::File { segments, directory },
        }
    }
}

/// What follows the last dot of a file name, unless that dot begins the name.
pub open spec fn extension_of(file_name: Seq<char>) -> Seq<char> {
    let dot = last_at(file_name, '.');
    if dot > 0 {
        file_name.skip(dot + 1)
    } else {
        Seq::empty()
    }
}

/// The MIME type for an extension in lower case.
pub open spec fn mime_of(ext: Seq<char>) -> Seq<char> {
    if ext == "html"@ || ext == "htm"@ {
        "text/html; charset=utf-8"@
    } else if ext == "css"@ {
        "text/css; charset=utf-8"@
    } else if ext == "js"@ || ext == "mjs"@ {
        "application/javascript"@
    } else if ext == "json"@ {
        "application/json"@
    } else if ext == "txt"@ || ext == "md"@ {
        "text/plain; charset=utf-8"@
    } else if ext == "xml"@ {
        "application/xml"@
    } else if ext == "png"@ {
        "image/png"@
    } else if ext == "jpg"@ || ext == "jpeg"@ {
        "image/jpeg"@
    } else if ext == "gif"@ {
        "image/gif"@
    } else if ext == "svg"@ {
        "image/svg+xml"@
    } else if ext == "ico"@ {
        "image/x-icon"@
    } else if ext == "webp"@ {
        "image/webp"@
    } else if ext == "pdf"@ {
        "application/pdf"@
    } else if ext == "wasm"@ {
        "application/wasm"@
    } else if ext == "woff"@ {
        "font/woff"@
    } else if ext == "woff2"@ {
        "font/woff2"@
    } else if ext == "mp4"@ {
        "video/mp4"@
    } else if ext == "mp3"@ {
        "audio/mpeg"@
    } else {
        "application/octet-stream"@
    }
}

/// The MIME type of a file.
pub open spec fn mime_type_of(file_name: Seq<char>) -> Seq<char> {
    mime_of(lower(extension_of(file_name)))
}

/// The reply with the contents of a file.
pub open spec fn data_reply(file_name: Seq<char>, data: Seq<u8>) -> ReplyModel {
    ReplyModel {
        status: 200,
        headers: with_field(
            with_field(no_fields(), "content-type"@, mime_type_of(file_name)),
            "content-length"@,
            decimal_of(data.len()),
        ),
        body: data,
    }
}

/// The reply to a request for a file, by what came of reading it.
pub open spec fn outcome_reply(
    method: Seq<char>,
    file_name: Seq<char>,
    outcome: FileOutcome,
) -> ReplyModel {
    sent_to(
        method,
        match outcome {
            FileOutcome::Data(data) => data_reply(file_name, data@),
            FileOutcome::NotFound => text_reply(404, "404 Not Found\n"@),
            FileOutcome::NotADirectory => text_reply(404, "404 Not Found\n"@),
            FileOutcome::Failed => text_reply(500, "500 Internal Server Error\n"@),
        },
    )
}

/// What to do with a request for a static file; `path` is the URL path without
/// the query.
pub fn plan(method: &str, path: &str) -> (r: StaticPlan)
    ensures
        r@ == planned(method@, path@),
{
    if !same(method, "GET") && !same(method, "HEAD") {
        let mut reply = error(405, "405 Method Not Allowed\n");
        proof {
            known_names();
            reveal_strlit("GET, HEAD");
        }
        let _ = set_field(&mut reply.headers, "allow", "GET, HEAD");
        return StaticPlan::Answer(reply);
    }
    let decoded = percent_decode(path);
    match resolve(decoded.as_str()) {
        StaticPlan::Answer(reply) => StaticPlan::Answer(send_to(method, reply)),
        plan => plan,
    }
}

/// A reply as it is sent to a method: to HEAD, with an empty body.
fn send_to(method: &str, reply: Reply) -> (r: Reply)
    ensures
        r@ == sent_to(method@, reply@),
{
    if same(method, "HEAD") {
        let r = Reply { status: reply.status, headers: reply.headers, body: Vec::new() };
        assert(r@.body =~= Seq::<u8>::empty());
        r
    } else {
        reply
    }
}

/// What to do with a request for the file at a path that has been decoded: empty
/// segments and "." are dropped, ".." is refused.
pub fn resolve(path: &str) -> (r: StaticPlan)
    ensures
        r@ == resolved(path@),
{
    let pieces = split(path, '/');
    let ghost all = split_on(path@, '/');
    let ghost keep = |s: Seq<char>| is_kept(s);
    let mut segments: Vec<String> = Vec::new();
    let mut climbs: bool = false;
    let mut i: usize = 0;
    proof {
        reveal(Seq::filter);
        assert(all.take(0) =~= Seq::<Seq<char>>::empty());
        assert(segments.deep_view() =~= all.take(0).filter(keep));
    }
    while i < pieces.len()
        invariant
            i <= pieces@.len(),
            pieces.deep_view() == all,
            keep == (|s: Seq<char>| is_kept(s)),
            segments.deep_view() == all.take(i as int).filter(keep),
            climbs == segments.deep_view().contains(".."@),
        decreases pieces@.len() - i,
    {
        let piece = &pieces[i];
        let ghost before = segments.deep_view();
        proof {
            reveal(Seq::filter);
            assert(all[i as int] == piece@);
            assert(all.take(i + 1).drop_last() =~= all.take(i as int));
            assert(all.take(i + 1).last() == piece@);
        }
        if !piece.as_str().is_empty() && !same(piece.as_str(), ".") {
            segments.push(piece.clone());
            assert(segments.deep_view() =~= before.push(piece@));
            if same(piece.as_str(), "..") {
                climbs = true;
                assert(segments.deep_view()[before.len() as int] == ".."@);
            } else {
                proof {
                    assert forall|s: Seq<char>| s == ".."@ implies before.contains(s)
                        == segments.deep_view().contains(s) by {
                        if before.contains(s) {
                            let k = before.index_of(s);
                            assert(segments.deep_view()[k] == s);
                        }
                        if segments.deep_view().contains(s) {
                            let k = segments.deep_view().index_of(s);
                            assert(before[k] == s);
                        }
                    }
                }
            }
        }
        i += 1;
    }
    assert(all.take(all.len() as int) =~= all);
    if climbs {
        return StaticPlan::Answer(error(403, "403 Forbidden\n"));
    }
    let v = chars_of(path);
    let directory = v.len() > 0 && v[v.len() - 1] == '/';
    StaticPlan::File { segments, directory }
}

/// The names that lead to the file to read for a path with the given names.
pub open spec fn file_names(segments: Seq<Seq<char>>, is_directory: bool) -> Seq<Seq<char>> {
    if is_directory {
        segments.push("index.html"@)
    } else {
        segments
    }
}

/// The names that lead to the file to read: a directory falls back to its index.html.
pub fn file_segments(segments: Vec<String>, is_directory: bool) -> (r: Vec<String>)
    ensures
        r.deep_view() == file_names(segments.deep_view(), is_directory),
{
    let mut r = segments;
    if is_directory {
        r.push("index.html".to_owned());
        assert(r.deep_view() =~= segments.deep_view().push("index.html"@));
    }
    r
}

/// The reply to a request for a file, by what came of reading it.
pub fn file_reply(method: &str, file_name: &str, outcome: FileOutcome) -> (r: Reply)
    ensures
        r@ == outcome_reply(method@, file_name@, outcome),
{
    let data = match outcome {
        FileOutcome::Data(data) => data,
        FileOutcome::NotFound => return send_to(method, error(404, "404 Not Found\n")),
        FileOutcome::NotADirectory => return send_to(method, error(404, "404 Not Found\n")),
        FileOutcome::Failed => return send_to(method, error(500, "500 Internal Server Error\n")),
    };
    let length = decimal(data.len() as u64);
    let mime = mime_type(file_name);
    proof {
        known_names();
        decimal_round_trip(data@.len());
        assert(is_field_text(length@)) by {
            assert(all_digits(length@));
        }
        mime_is_field_text(lower(extension_of(file_name@)));
    }
    let mut headers = no_headers();
    let _ = set_field(&mut headers, "content-type", mime);
    let _ = set_field(&mut headers, "content-length", length.as_str());
    send_to(method, Reply { status: 200, headers, body: data })
}

/// Guess the MIME type of a file by its extension
pub fn mime_type(file_name: &str) -> (r: &'static str)
    ensures
        r@ == mime_type_of(file_name@),
{
    let v = chars_of(file_name);
    let end: usize = v.len();
    let ext = match last_index(&v, '.') {
        Some(dot) => if dot > 0 {
            let s = string_of(&v, dot + 1, end);
            assert(s@ =~= file_name@.skip(dot + 1));
            s
        } else {
            String::new()
        },
        None => String::new(),
    };
    let ext = ascii_lowercase(ext.as_str());
    let e = ext.as_str();
    if same(e, "html") || same(e, "htm") {
        "text/html; charset=utf-8"
    } else if same(e, "css") {
        "text/css; charset=utf-8"
    } else if same(e, "js") || same(e, "mjs") {
        "application/javascript"
    } else if same(e, "json") {
        "application/json"
    } else if same(e, "txt") || same(e, "md") {
        "text/plain; charset=utf-8"
    } else if same(e, "xml") {
        "application/xml"
    } else if same(e, "png") {
        "image/png"
    } else if same(e, "jpg") || same(e, "jpeg") {
        "image/jpeg"
    } else if same(e, "gif") {
        "image/gif"
    } else if same(e, "svg") {
        "image/svg+xml"
    } else if same(e, "ico") {
        "image/x-icon"
    } else if same(e, "webp") {
        "image/webp"
    } else if same(e, "pdf") {
        "application/pdf"
    } else if same(e, "wasm") {
        "application/wasm"
    } else if same(e, "woff") {
        "font/woff"
    } else if same(e, "woff2") {
        "font/woff2"
    } else if same(e, "mp4") {
        "video/mp4"
    } else if same(e, "mp3") {
        "audio/mpeg"
    } else {
        "application/octet-stream"
    }
}

/// The value of a hexadecimal digit.
fn hex(b: u8) -> (r: Option<u8>)
    ensures
        r == hex_value(b),
{
    if 0x30 <= b && b <= 0x39 {
        Some(b - 0x30)
    } else if 0x61 <= b && b <= 0x66 {
        Some(b - 0x61 + 10)
    } else if 0x41 <= b && b <= 0x46 {
        Some(b - 0x41 + 10)
    } else {
        None
    }
}

/// The bytes of a text with its percent escapes replaced.
pub fn unescape(s: &str) -> (r: Vec<u8>)
    ensures
        r@ == unescaped(encode_utf8(s@)),
{
    let bytes = s.as_bytes();
    let mut out: Vec<u8> = Vec::new();
    let mut i: usize = 0;
    assert(bytes@.skip(0) =~= bytes@);
    while i < bytes.len()
        invariant
            i <= bytes@.len(),
            bytes@ == encode_utf8(s@),
            out@ + unescaped(bytes@.skip(i as int)) == unescaped(bytes@),
        decreases bytes@.len() - i,
    {
        let ghost rest = bytes@.skip(i as int);
        let ghost before = out@;
        if bytes[i] == 0x25 && bytes.len() - i > 2 {
            if let (Some(h), Some(l)) = (hex(bytes[i + 1]), hex(bytes[i + 2])) {
                assert(rest[1] == bytes@[i + 1] && rest[2] == bytes@[i + 2]);
                out.push(h * 16 + l);
                i += 3;
                assert(rest.skip(3) =~= bytes@.skip(i as int));
                assert(out@ + unescaped(bytes@.skip(i as int)) =~= before + unescaped(rest));
                continue;
            }
        }
        out.push(bytes[i]);
        i += 1;
        assert(rest.skip(1) =~= bytes@.skip(i as int));
        assert(out@ + unescaped(bytes@.skip(i as int)) =~= before + unescaped(rest));
    }
    assert(out@ + unescaped(bytes@.skip(i as int)) =~= out@);
    out
}

/// Percent-decoding of a URL path.
pub fn percent_decode(s: &str) -> (r: String)
    ensures
        r@ == decoded(s@),
{
    let bytes = unescape(s);
    text_lossy(&bytes)
}

/// A character other than the percent sign is encoded without one.
proof fn plain_scalar(c: char)
    requires
        c != '%',
    ensures
        !encode_scalar(c as u32).contains(0x25),
{
    let v = c as u32;
    if v <= 0x7F {
        assert((v & 0x7F) as u8 == v) by (bit_vector)
            requires
                v <= 0x7F,
        ;
    }
    assert((0xC0 | ((v >> 6) & 0x1F) as u8) >= 0x80) by (bit_vector);
    assert((0xE0 | ((v >> 12) & 0x0F) as u8) >= 0x80) by (bit_vector);
    assert((0xF0 | ((v >> 18) & 0x7) as u8) >= 0x80) by (bit_vector);
    assert((0x80 | (v & 0x3F) as u8) >= 0x80) by (bit_vector);
    assert((0x80 | ((v >> 6) & 0x3F) as u8) >= 0x80) by (bit_vector);
    assert((0x80 | ((v >> 12) & 0x3F) as u8) >= 0x80) by (bit_vector);
    let bytes = encode_scalar(v);
    assert forall|i: int| 0 <= i < bytes.len() implies bytes[i] != 0x25 by {
        assert(i == 0 || i == 1 || i == 2 || i == 3);
    }
}

/// A text without a percent sign is encoded without one.
proof fn plain_bytes(s: Seq<char>)
    requires
        !s.contains('%'),
    ensures
        !encode_utf8(s).contains(0x25),
    decreases s.len(),
{
    if s.len() > 0 {
        assert(s[0] != '%');
        assert(!s.drop_first().contains('%')) by {
            if s.drop_first().contains('%') {
                let k = s.drop_first().index_of('%');
                assert(s[k + 1] == '%');
            }
        }
        plain_bytes(s.drop_first());
        let first = encode_scalar(s[0] as u32);
        plain_scalar(s[0]);
        assert forall|i: int| 0 <= i < encode_utf8(s).len() implies encode_utf8(s)[i] != 0x25 by {
            if i < first.len() {
                assert(first.contains(first[i]));
            } else {
                let rest = encode_utf8(s.drop_first());
                assert(rest.contains(rest[i - first.len()]));
            }
        }
    }
}

/// Bytes without a percent sign hold no escapes.
pub proof fn nothing_to_unescape(bytes: Seq<u8>)
    requires
        !bytes.contains(0x25),
    ensures
        unescaped(bytes) == bytes,
    decreases bytes.len(),
{
    if bytes.len() > 0 {
        assert(bytes.contains(bytes[0]));
        assert(!bytes.skip(1).contains(0x25)) by {
            if bytes.skip(1).contains(0x25) {
                let k = bytes.skip(1).index_of(0x25);
                assert(bytes[k + 1] == 0x25);
            }
        }
        nothing_to_unescape(bytes.skip(1));
        assert(seq![bytes[0]] + bytes.skip(1) =~= bytes);
    } else {
        assert(bytes =~= Seq::empty());
    }
}

/// The hexadecimal digit, in upper case, with value `d`.
pub open spec fn hex_digit(d: u8) -> u8 {
    if d < 10 {
        (d + 0x30) as u8
    } else {
        (d - 10 + 0x41) as u8
    }
}

/// `bytes` with every byte written as a percent escape.
pub open spec fn escaped(bytes: Seq<u8>) -> Seq<u8>
    decreases bytes.len(),
{
    if bytes.len() == 0 {
        Seq::empty()
    } else {
        seq![0x25u8, hex_digit(bytes[0] / 16), hex_digit(bytes[0] % 16)] + escaped(bytes.skip(1))
    }
}

/// Bytes that are written as percent escapes are read back.
pub proof fn escape_round_trip(bytes: Seq<u8>)
    ensures
        unescaped(escaped(bytes)) == bytes,
    decreases bytes.len(),
{
    if bytes.len() > 0 {
        let all = escaped(bytes);
        let b = bytes[0];
        escape_round_trip(bytes.skip(1));
        assert(all[0] == 0x25 && all[1] == hex_digit(b / 16) && all[2] == hex_digit(b % 16));
        assert(hex_value(all[1]) == Some((b / 16) as u8) && hex_value(all[2]) == Some(
            (b % 16) as u8,
        ));
        assert(all.skip(3) =~= escaped(bytes.skip(1)));
        assert(seq![b] + bytes.skip(1) =~= bytes);
    } else {
        assert(bytes =~= Seq::empty());
    }
}

/// Bytes without a percent sign stay in front of what follows them.
proof fn unescaped_after(a: Seq<u8>, b: Seq<u8>)
    requires
        !a.contains(0x25),
    ensures
        unescaped(a + b) == a + unescaped(b),
    decreases a.len(),
{
    if a.len() > 0 {
        assert(a.contains(a[0]));
        assert(!a.skip(1).contains(0x25)) by {
            if a.skip(1).contains(0x25) {
                let k = a.skip(1).index_of(0x25);
                assert(a[k + 1] == 0x25);
            }
        }
        unescaped_after(a.skip(1), b);
        assert((a + b).skip(1) =~= a.skip(1) + b);
        assert((a + b)[0] == a[0]);
        assert(seq![a[0]] + (a.skip(1) + unescaped(b)) =~= a + unescaped(b));
    } else {
        assert(a + b =~= b);
        assert(a + unescaped(b) =~= unescaped(b));
    }
}

proof fn encoded_joined(a: Seq<char>, b: Seq<char>)
    ensures
        encode_utf8(a + b) == encode_utf8(a) + encode_utf8(b),
    decreases a.len(),
{
    if a.len() == 0 {
        assert(a + b =~= b);
        assert(encode_utf8(a) + encode_utf8(b) =~= encode_utf8(b));
    } else {
        assert((a + b).drop_first() =~= a.drop_first() + b);
        assert((a + b)[0] == a[0]);
        encoded_joined(a.drop_first(), b);
        let first = encode_scalar(a[0] as u32);
        assert(first + (encode_utf8(a.drop_first()) + encode_utf8(b)) =~= first + encode_utf8(
            a.drop_first(),
        ) + encode_utf8(b));
    }
}

/// A text without a percent sign is decoded to itself, whatever else it holds.
pub proof fn plain_text_is_kept(a: Seq<char>)
    requires
        !a.contains('%'),
    ensures
        decoded(a) == a,
{
    plain_bytes(a);
    nothing_to_unescape(encode_utf8(a));
    encode_utf8_valid_utf8(a);
    encode_utf8_decode_utf8(a);
}

/// A text without a percent sign stays in front of what follows it, provided that
/// the escapes in this stand for UTF-8.
pub proof fn plain_prefix_is_kept(a: Seq<char>, b: Seq<char>)
    requires
        !a.contains('%'),
        valid_utf8(unescaped(encode_utf8(b))),
    ensures
        decoded(a + b) == a + decoded(b),
{
    let bytes = unescaped(encode_utf8(b));
    plain_bytes(a);
    encoded_joined(a, b);
    unescaped_after(encode_utf8(a), encode_utf8(b));
    decode_utf8_encode_utf8(bytes);
    encoded_joined(a, decoded(b));
    encode_utf8_valid_utf8(a + decoded(b));
    encode_utf8_decode_utf8(a + decoded(b));
}

/// A percent sign and two hexadecimal digits, of either case, stand for `b`.
pub open spec fn is_escape(percent: u8, high: u8, low: u8, b: u8) -> bool {
    percent == 0x25 && hex_value(high) == Some((b / 16) as u8) && hex_value(low) == Some(
        (b % 16) as u8,
    )
}

/// `text` holds an escape for each of `bytes`, and nothing else.
pub open spec fn escapes(text: Seq<u8>, bytes: Seq<u8>) -> bool {
    &&& text.len() == 3 * bytes.len()
    &&& forall|i: int|
        0 <= i < bytes.len() ==> is_escape(
            text[3 * i],
            text[3 * i + 1],
            text[3 * i + 2],
            #[trigger] bytes[i],
        )
}

/// Bytes that are all escaped are read back.
pub proof fn escapes_are_replaced(text: Seq<u8>, bytes: Seq<u8>)
    requires
        escapes(text, bytes),
    ensures
        unescaped(text) == bytes,
    decreases bytes.len(),
{
    if bytes.len() > 0 {
        let b = bytes[0];
        let after = text.skip(3);
        let rest = bytes.skip(1);
        assert(is_escape(text[0], text[1], text[2], b));
        assert(escapes(after, rest)) by {
            assert forall|i: int| 0 <= i < rest.len() implies is_escape(
                after[3 * i],
                after[3 * i + 1],
                after[3 * i + 2],
                #[trigger] rest[i],
            ) by {
                assert(rest[i] == bytes[i + 1]);
                assert(after[3 * i] == text[3 * (i + 1)]);
                assert(after[3 * i + 1] == text[3 * (i + 1) + 1]);
                assert(after[3 * i + 2] == text[3 * (i + 1) + 2]);
            }
        }
        escapes_are_replaced(after, rest);
        assert(seq![b] + rest =~= bytes);
    } else {
        assert(bytes =~= Seq::empty());
    }
}

/// A text whose bytes are all escaped is decoded to itself.
pub proof fn escaped_text_is_read_back(escaped_text: Seq<char>, text: Seq<char>)
    requires
        escapes(encode_utf8(escaped_text), encode_utf8(text)),
    ensures
        decoded(escaped_text) == text,
{
    escapes_are_replaced(encode_utf8(escaped_text), encode_utf8(text));
    encode_utf8_valid_utf8(text);
    encode_utf8_decode_utf8(text);
}

/// A file that is read lies below the webroot: no name that leads to it is empty,
/// "." or "..", and none holds a slash.
pub proof fn stays_below_webroot(method: Seq<char>, path: Seq<char>, i: int, j: int)
    ensures
        planned(method, path) matches PlanModel::File { segments, directory } ==> {
            &&& 0 <= i < segments.len() ==> {
                &&& segments[i].len() > 0
                &&& segments[i] != "."@
                &&& segments[i] != ".."@
                &&& 0 <= j < segments[i].len() ==> segments[i][j] != '/'
            }
        },
{
    if let PlanModel::File { segments, directory } = planned(method, path) {
        if 0 <= i < segments.len() {
            let all = split_on(decoded(path), '/');
            let keep = |s: Seq<char>| is_kept(s);
            all.lemma_filter_pred(keep, i);
            assert(segments == all.filter(keep));
            assert(segments.contains(segments[i]));
            all.lemma_filter_contains_rev(keep, segments[i]);
            assert(all.contains(segments[i]));
            let k = all.index_of(segments[i]);
            split_on_facts(decoded(path), '/');
            if 0 <= j < segments[i].len() {
                assert(all[k][j] != '/');
            }
        }
    }
}

/// The names along two paths with a slash between them are those along the one
/// and then those along the other.
pub proof fn segments_joined(a: Seq<char>, b: Seq<char>)
    ensures
        segments_of(a.push('/') + b) == segments_of(a) + segments_of(b),
{
    split_on_joined(a, b, '/');
    Seq::filter_distributes_over_add(
        split_on(a, '/'),
        split_on(b, '/'),
        |s: Seq<char>| is_kept(s),
    );
}

/// A piece of a path without a slash is one name, unless it is empty or a dot.
pub proof fn segments_of_piece(piece: Seq<char>)
    requires
        !piece.contains('/'),
    ensures
        segments_of(piece) == (if is_kept(piece) {
            seq![piece]
        } else {
            Seq::empty()
        }),
{
    split_on_piece(piece, '/');
    reveal(Seq::filter);
    let all = seq![piece];
    let keep = |s: Seq<char>| is_kept(s);
    assert(all.drop_last() =~= Seq::<Seq<char>>::empty());
    assert(all.drop_last().filter(keep) =~= Seq::<Seq<char>>::empty());
    assert(all.filter(keep) =~= (if is_kept(piece) {
        seq![piece]
    } else {
        Seq::empty()
    }));
}

/// Empty segments and dots in a path make no difference.
pub proof fn redundant_segments(a: Seq<char>, b: Seq<char>)
    ensures
        segments_of(a.push('/').push('/') + b) == segments_of(a.push('/') + b),
        segments_of(a.push('/').push('.').push('/') + b) == segments_of(a.push('/') + b),
{
    let nothing = Seq::<char>::empty();
    let dot = seq!['.'];
    reveal_strlit(".");
    assert("."@ =~= dot);
    segments_of_piece(nothing);
    segments_of_piece(dot);
    segments_joined(a, b);
    segments_joined(a, nothing);
    segments_joined(a.push('/'), b);
    assert(a.push('/') + nothing =~= a.push('/'));
    segments_joined(a, dot);
    segments_joined(a.push('/').push('.'), b);
    assert(a.push('/') + dot =~= a.push('/').push('.'));
    assert(segments_of(a) + segments_of(nothing) =~= segments_of(a));
    assert(segments_of(a) + segments_of(dot) =~= segments_of(a));
}

/// A path that climbs out of a directory is refused, wherever it does so.
pub proof fn climbing_is_refused(a: Seq<char>, b: Seq<char>)
    ensures
        resolved(a.push('/').push('.').push('.').push('/') + b) == PlanModel::Answer(
            text_reply(403, "403 Forbidden\n"@),
        ),
        resolved(seq!['.', '.', '/'] + b) == PlanModel::Answer(
            text_reply(403, "403 Forbidden\n"@),
        ),
        resolved(a.push('/').push('.').push('.')) == PlanModel::Answer(
            text_reply(403, "403 Forbidden\n"@),
        ),
{
    let dots = seq!['.', '.'];
    reveal_strlit(".");
    reveal_strlit("..");
    assert(".."@ =~= dots);
    assert("."@.len() != dots.len());
    segments_of_piece(dots);
    assert(segments_of(dots)[0] == dots);
    let climbing = a.push('/').push('.').push('.');
    assert(a.push('/') + dots =~= climbing);
    segments_joined(a, dots);
    let at = segments_of(a).len() as int;
    assert(segments_of(climbing)[at] == dots);
    segments_joined(climbing, b);
    assert(segments_of(climbing.push('/') + b)[at] == dots);
    segments_joined(dots, b);
    assert(dots.push('/') + b =~= seq!['.', '.', '/'] + b);
    assert(segments_of(dots.push('/') + b)[0] == dots);
}

/// HEAD is answered as GET is, with an empty body: whatever comes of reading the
/// file, and when the path is refused.
pub proof fn head_is_get_without_body(path: Seq<char>, file_name: Seq<char>, outcome: FileOutcome)
    ensures
        outcome_reply("HEAD"@, file_name, outcome) == without_body(
            outcome_reply("GET"@, file_name, outcome),
        ),
        planned("HEAD"@, path) == (match planned("GET"@, path) {
            PlanModel::Answer(reply) => PlanModel::Answer(without_body(reply)),
            plan => plan,
        }),
        outcome matches FileOutcome::Data(data) ==> outcome_reply(
            "GET"@,
            file_name,
            outcome,
        ).body == data@,
{
    reveal_strlit("HEAD");
    reveal_strlit("GET");
    assert("HEAD"@.len() != "GET"@.len());
}

/// The case of a file name makes no difference to its MIME type.
pub proof fn mime_ignores_case(file_name: Seq<char>)
    ensures
        mime_type_of(lower(file_name)) == mime_type_of(file_name),
{
    let dot = last_at(file_name, '.');
    last_at_bounds(file_name, '.');
    let low = lower(file_name);
    assert forall|j: int| dot < j < low.len() implies low[j] != '.' by {
        assert(file_name[j] != '.');
    }
    last_at_is(low, '.', dot);
    if dot > 0 {
        assert(lower(extension_of(low)) =~= lower(extension_of(file_name))) by {
            assert(extension_of(low) =~= lower(extension_of(file_name)));
            lower_idempotent(extension_of(file_name));
        }
    }
}

/// Every MIME type can be the value of a header.
proof fn mime_is_field_text(ext: Seq<char>)
    ensures
        is_field_text(mime_of(ext)),
{
    reveal_strlit("text/html; charset=utf-8");
    reveal_strlit("text/css; charset=utf-8");
    reveal_strlit("application/javascript");
    reveal_strlit("application/json");
    reveal_strlit("text/plain; charset=utf-8");
    reveal_strlit("application/xml");
    reveal_strlit("image/png");
    reveal_strlit("image/jpeg");
    reveal_strlit("image/gif");
    reveal_strlit("image/svg+xml");
    reveal_strlit("image/x-icon");
    reveal_strlit("image/webp");
    reveal_strlit("application/pdf");
    reveal_strlit("application/wasm");
    reveal_strlit("font/woff");
    reveal_strlit("font/woff2");
    reveal_strlit("video/mp4");
    reveal_strlit("audio/mpeg");
    reveal_strlit("application/octet-stream");
}

} // verus!
