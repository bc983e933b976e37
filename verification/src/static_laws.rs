//! What holds of every request for a static file.

use crate::header_laws::setting;
use crate::respond::text_reply;
use crate::static_files::begins_with_escape;
use crate::static_files::decoded;
use crate::static_files::extension_of;
use crate::static_files::file_names;
use crate::static_files::hex_value;
use crate::static_files::is_escape;
use crate::static_files::lossy_text;
use crate::static_files::mime_type_of;
use crate::static_files::outcome_reply;
use crate::static_files::planned;
use crate::static_files::resolved;
use crate::static_files::segments_of;
use crate::static_files::unescaped;
use crate::static_files::FileOutcome;
use crate::static_files::PlanModel;
use crate::text::decimal_of;
use crate::text::lower;
use crate::text_laws::last_occurrence;
use vstd::prelude::*;
use vstd::utf8::decode_utf8;
use vstd::utf8::encode_utf8;
use vstd::utf8::valid_utf8;

verus! {

/// The hexadecimal digits, in either case, have the values from 0 to 15 in their
/// order; no other byte has a value.
pub proof fn hexadecimal_digits(b: u8, i: int)
    ensures
        0 <= i < 16 && b as int == "0123456789abcdef"@[i] as int ==> hex_value(b) == Some(i as u8),
        0 <= i < 16 && b as int == "0123456789ABCDEF"@[i] as int ==> hex_value(b) == Some(i as u8),
        hex_value(b) matches Some(v) ==> {
            &&& v < 16
            &&& b as int == "0123456789abcdef"@[v as int] as int || b as int
                == "0123456789ABCDEF"@[v as int] as int
        },
{
    reveal_strlit("0123456789abcdef");
    reveal_strlit("0123456789ABCDEF");
}

/// An escape is replaced by its byte wherever it stands, whatever follows it.
pub proof fn escape_is_replaced(high: u8, low: u8, rest: Seq<u8>)
    requires
        hex_value(high) is Some,
        hex_value(low) is Some,
    ensures
        unescaped(seq![0x25u8, high, low] + rest) == seq![
            (16 * hex_value(high)->0 + hex_value(low)->0) as u8,
        ] + unescaped(rest),
{
    let all = seq![0x25u8, high, low] + rest;
    assert(all.skip(3) =~= rest);
    assert(begins_with_escape(all));
}

/// An escape stands for the byte with these sixteens and ones.
pub proof fn escape_stands_for(high: u8, low: u8, b: u8, rest: Seq<u8>)
    requires
        is_escape(0x25, high, low, b),
    ensures
        unescaped(seq![0x25u8, high, low] + rest) == seq![b] + unescaped(rest),
        hex_value(high) == Some((b / 16) as u8),
        hex_value(low) == Some((b % 16) as u8),
{
    escape_is_replaced(high, low, rest);
}

/// A byte other than the percent sign, and a percent sign that no two hexadecimal
/// digits follow, stand for themselves.
pub proof fn plain_byte_is_kept(b: u8, rest: Seq<u8>)
    requires
        b != 0x25 || rest.len() < 2 || hex_value(rest[0]) is None || hex_value(rest[1]) is None,
    ensures
        unescaped(seq![b] + rest) == seq![b] + unescaped(rest),
        unescaped(Seq::empty()) == Seq::<u8>::empty(),
{
    let all = seq![b] + rest;
    assert(all.skip(1) =~= rest);
    assert(all[0] == b);
    if all.len() >= 3 {
        assert(all[1] == rest[0] && all[2] == rest[1]);
    }
}

/// A path is decoded by replacing the escapes in its bytes and reading what
/// results as UTF-8.
pub proof fn decoding(path: Seq<char>, text: Seq<char>)
    requires
        unescaped(encode_utf8(path)) == encode_utf8(text),
    ensures
        decoded(path) == text,
{
    vstd::utf8::encode_utf8_valid_utf8(text);
    vstd::utf8::encode_utf8_decode_utf8(text);
}

/// Paths whose escapes stand for the same bytes are decoded alike.
pub proof fn decoding_by_bytes(path: Seq<char>, other: Seq<char>)
    requires
        unescaped(encode_utf8(path)) == unescaped(encode_utf8(other)),
    ensures
        decoded(path) == decoded(other),
        valid_utf8(unescaped(encode_utf8(path))) ==> decoded(path) == decode_utf8(
            unescaped(encode_utf8(path)),
        ),
        !valid_utf8(unescaped(encode_utf8(path))) ==> decoded(path) == lossy_text(
            unescaped(encode_utf8(path)),
        ),
{
}

/// A path leads to a file by all of its names, in order, and to a directory
/// exactly if it ends in a slash; it is refused with 403 exactly if one of the
/// names is two dots.
pub proof fn resolving(path: Seq<char>)
    ensures
        segments_of(path).contains(".."@) ==> resolved(path) == PlanModel::Answer(
            text_reply(403, "403 Forbidden\n"@),
        ),
        !segments_of(path).contains(".."@) ==> {
            &&& resolved(path) matches PlanModel::File { segments, directory }
            &&& segments == segments_of(path)
            &&& directory <==> path.len() > 0 && path[path.len() - 1] == '/'
        },
{
}

/// The names along a path: a slash ends a name, and of the rest between slashes
/// only what is empty or a single dot is no name.
pub proof fn names_along_a_path(path: Seq<char>, piece: Seq<char>)
    requires
        !piece.contains('/'),
    ensures
        segments_of(path + "/"@ + piece) == (if piece.len() == 0 || piece == "."@ {
            segments_of(path)
        } else {
            segments_of(path).push(piece)
        }),
        segments_of(piece) == (if piece.len() == 0 || piece == "."@ {
            Seq::empty()
        } else {
            seq![piece]
        }),
{
    reveal_strlit("/");
    assert(path + "/"@ =~= path.push('/'));
    crate::static_files::segments_joined(path, piece);
    crate::static_files::segments_of_piece(piece);
    assert(segments_of(path) + Seq::<Seq<char>>::empty() =~= segments_of(path));
    assert(segments_of(path) + seq![piece] =~= segments_of(path).push(piece));
}

/// GET is planned by the decoded path; so is HEAD, whose replies have no body.
pub proof fn planning(path: Seq<char>)
    ensures
        planned("GET"@, path) == resolved(decoded(path)),
        match resolved(decoded(path)) {
            PlanModel::Answer(reply) => {
                &&& planned("HEAD"@, path) matches PlanModel::Answer(sent)
                &&& sent.status == reply.status
                &&& sent.headers == reply.headers
                &&& sent.body.len() == 0
            },
            PlanModel::File { segments, directory } => planned("HEAD"@, path) == resolved(
                decoded(path),
            ),
        },
{
    reveal_strlit("HEAD");
    reveal_strlit("GET");
    assert("HEAD"@.len() != "GET"@.len());
}

/// Any other method is answered with 405 and told which are allowed, whatever the
/// path.
pub proof fn other_methods(method: Seq<char>, path: Seq<char>, name: Seq<char>)
    requires
        method != "GET"@,
        method != "HEAD"@,
    ensures
        planned(method, path) matches PlanModel::Answer(reply) && {
            &&& reply.status == 405
            &&& reply.body == encode_utf8("405 Method Not Allowed\n"@)
            &&& reply.headers.dom().contains(name) <==> name == "allow"@ || name
                == "content-type"@
            &&& reply.headers["allow"@] == seq![encode_utf8("GET, HEAD"@)]
            &&& reply.headers["content-type"@] == seq![
                encode_utf8("text/plain; charset=utf-8"@),
            ]
        },
{
    reveal_strlit("allow");
    reveal_strlit("content-type");
    assert("allow"@.len() != "content-type"@.len());
}

/// A file that can be read is sent whole, with its type and its length; to HEAD
/// the same is sent without the contents.
pub proof fn contents_are_sent(
    method: Seq<char>,
    file_name: Seq<char>,
    data: Vec<u8>,
    name: Seq<char>,
)
    ensures
        ({
            let reply = outcome_reply(method, file_name, FileOutcome::Data(data));
            &&& reply.status == 200
            &&& method != "HEAD"@ ==> reply.body == data@
            &&& method == "HEAD"@ ==> reply.body.len() == 0
            &&& reply.headers.dom().contains(name) <==> name == "content-type"@ || name
                == "content-length"@
            &&& reply.headers["content-type"@] == seq![encode_utf8(mime_type_of(file_name))]
            &&& reply.headers["content-length"@] == seq![encode_utf8(decimal_of(data@.len()))]
        }),
{
    reveal_strlit("content-length");
    reveal_strlit("content-type");
    assert("content-length"@.len() != "content-type"@.len());
    setting(
        crate::headers::no_fields(),
        "content-type"@,
        mime_type_of(file_name),
        "content-length"@,
    );
}

/// A file that does not exist is answered with 404, also where a file stands in
/// the place of a directory; one that cannot be read with 500.
pub proof fn failures_are_reported(method: Seq<char>, file_name: Seq<char>)
    ensures
        ({
            let missing = outcome_reply(method, file_name, FileOutcome::NotFound);
            let blocked = outcome_reply(method, file_name, FileOutcome::NotADirectory);
            let failed = outcome_reply(method, file_name, FileOutcome::Failed);
            &&& missing.status == 404
            &&& blocked == missing
            &&& failed.status == 500
            &&& method != "HEAD"@ ==> missing == text_reply(404, "404 Not Found\n"@) && failed
                == text_reply(500, "500 Internal Server Error\n"@)
            &&& method == "HEAD"@ ==> missing.body.len() == 0 && failed.body.len() == 0
            &&& missing.headers == text_reply(404, "404 Not Found\n"@).headers
            &&& failed.headers == missing.headers
        }),
{
}

/// A directory is answered with the file index.html in it, and a file with itself.
pub proof fn directories_have_an_index(segments: Seq<Seq<char>>)
    ensures
        file_names(segments, false) == segments,
        file_names(segments, true).len() == segments.len() + 1,
        file_names(segments, true).take(segments.len() as int) == segments,
        file_names(segments, true).last() == "index.html"@,
{
    assert(file_names(segments, true).take(segments.len() as int) =~= segments);
}

/// The extension of a file name is what follows its last dot; a name without a
/// dot, or with one only at its beginning, has none.
pub proof fn extensions(stem: Seq<char>, extension: Seq<char>)
    requires
        !extension.contains('.'),
    ensures
        stem.len() > 0 ==> extension_of(stem.push('.') + extension) == extension,
        extension_of(seq!['.'] + extension) == Seq::<char>::empty(),
        extension_of(extension) == Seq::<char>::empty(),
{
    let name = stem.push('.') + extension;
    last_occurrence(stem, '.', extension);
    assert(name.skip(stem.len() as int + 1) =~= extension);
    let nothing = Seq::<char>::empty();
    last_occurrence(nothing, '.', extension);
    assert(nothing.push('.') + extension =~= seq!['.'] + extension);
}

/// The extensions that have a type of their own.
pub open spec fn types() -> Seq<(Seq<char>, Seq<char>)> {
    seq![
        ("html"@, "text/html; charset=utf-8"@),
        ("htm"@, "text/html; charset=utf-8"@),
        ("css"@, "text/css; charset=utf-8"@),
        ("js"@, "application/javascript"@),
        ("mjs"@, "application/javascript"@),
        ("json"@, "application/json"@),
        ("txt"@, "text/plain; charset=utf-8"@),
        ("md"@, "text/plain; charset=utf-8"@),
        ("xml"@, "application/xml"@),
        ("png"@, "image/png"@),
        ("jpg"@, "image/jpeg"@),
        ("jpeg"@, "image/jpeg"@),
        ("gif"@, "image/gif"@),
        ("svg"@, "image/svg+xml"@),
        ("ico"@, "image/x-icon"@),
        ("webp"@, "image/webp"@),
        ("pdf"@, "application/pdf"@),
        ("wasm"@, "application/wasm"@),
        ("woff"@, "font/woff"@),
        ("woff2"@, "font/woff2"@),
        ("mp4"@, "video/mp4"@),
        ("mp3"@, "audio/mpeg"@),
    ]
}

/// The type of a file is that of its extension, whatever the case and whatever
/// stands before it; a file with another extension is a stream of bytes.
pub proof fn types_of_files(stem: Seq<char>, extension: Seq<char>, i: int)
    requires
        stem.len() > 0,
        !extension.contains('.'),
    ensures
        0 <= i < types().len() && lower(extension) == types()[i].0 ==> mime_type_of(
            stem.push('.') + extension,
        ) == types()[i].1,
        (forall|k: int| 0 <= k < types().len() ==> lower(extension) != #[trigger] types()[k].0)
            ==> mime_type_of(stem.push('.') + extension) == "application/octet-stream"@,
{
    extensions(stem, extension);
    distinct_extensions();
    let e = lower(extension);
    if forall|k: int| 0 <= k < types().len() ==> e != #[trigger] types()[k].0 {
        assert(e != types()[0].0 && e != types()[1].0 && e != types()[2].0 && e != types()[3].0);
        assert(e != types()[4].0 && e != types()[5].0 && e != types()[6].0 && e != types()[7].0);
        assert(e != types()[8].0 && e != types()[9].0 && e != types()[10].0 && e != types()[11].0);
        assert(e != types()[12].0 && e != types()[13].0 && e != types()[14].0);
        assert(e != types()[15].0 && e != types()[16].0 && e != types()[17].0);
        assert(e != types()[18].0 && e != types()[19].0 && e != types()[20].0);
        assert(e != types()[21].0);
    }
}

/// A file without an extension is a stream of bytes.
pub proof fn files_without_a_type(name: Seq<char>)
    requires
        !name.contains('.'),
    ensures
        mime_type_of(name) == "application/octet-stream"@,
        mime_type_of(seq!['.'] + name) == "application/octet-stream"@,
{
    extensions(name, name);
    assert(lower(Seq::empty()) =~= Seq::<char>::empty());
    extension_lengths();
}

proof fn extension_lengths()
    ensures
        forall|k: int| 0 <= k < types().len() ==> (#[trigger] types()[k]).0.len() > 0,
        "html"@.len() == 4 && "htm"@.len() == 3 && "css"@.len() == 3 && "js"@.len() == 2,
        "mjs"@.len() == 3 && "json"@.len() == 4 && "txt"@.len() == 3 && "md"@.len() == 2,
        "xml"@.len() == 3 && "png"@.len() == 3 && "jpg"@.len() == 3 && "jpeg"@.len() == 4,
        "gif"@.len() == 3 && "svg"@.len() == 3 && "ico"@.len() == 3 && "webp"@.len() == 4,
        "pdf"@.len() == 3 && "wasm"@.len() == 4 && "woff"@.len() == 4 && "woff2"@.len() == 5,
        "mp4"@.len() == 3 && "mp3"@.len() == 3,
{
    reveal_strlit("html");
    reveal_strlit("htm");
    reveal_strlit("css");
    reveal_strlit("js");
    reveal_strlit("mjs");
    reveal_strlit("json");
    reveal_strlit("txt");
    reveal_strlit("md");
    reveal_strlit("xml");
    reveal_strlit("png");
    reveal_strlit("jpg");
    reveal_strlit("jpeg");
    reveal_strlit("gif");
    reveal_strlit("svg");
    reveal_strlit("ico");
    reveal_strlit("webp");
    reveal_strlit("pdf");
    reveal_strlit("wasm");
    reveal_strlit("woff");
    reveal_strlit("woff2");
    reveal_strlit("mp4");
    reveal_strlit("mp3");
}

/// No extension stands in the table twice.
proof fn distinct_extensions()
    ensures
        forall|j: int, k: int|
            0 <= j < k < types().len() ==> (#[trigger] types()[j]).0 != (#[trigger] types()[k]).0,
{
    extension_lengths();
    reveal_strlit("html");
    reveal_strlit("htm");
    reveal_strlit("css");
    reveal_strlit("js");
    reveal_strlit("mjs");
    reveal_strlit("json");
    reveal_strlit("txt");
    reveal_strlit("md");
    reveal_strlit("xml");
    reveal_strlit("png");
    reveal_strlit("jpg");
    reveal_strlit("jpeg");
    reveal_strlit("gif");
    reveal_strlit("svg");
    reveal_strlit("ico");
    reveal_strlit("webp");
    reveal_strlit("pdf");
    reveal_strlit("wasm");
    reveal_strlit("woff");
    reveal_strlit("woff2");
    reveal_strlit("mp4");
    reveal_strlit("mp3");
    // Two characters of each tell those of one length apart.
    assert("js"@[0] == 'j' && "md"@[0] == 'm');
    assert("htm"@[0] == 'h' && "css"@[0] == 'c' && "txt"@[0] == 't' && "xml"@[0] == 'x');
    assert("jpg"@[0] == 'j' && "gif"@[0] == 'g' && "svg"@[0] == 's' && "ico"@[0] == 'i');
    assert("mjs"@[0] == 'm' && "mjs"@[2] == 's');
    assert("mp4"@[0] == 'm' && "mp4"@[2] == '4');
    assert("mp3"@[0] == 'm' && "mp3"@[2] == '3');
    assert("png"@[0] == 'p' && "png"@[2] == 'g');
    assert("pdf"@[0] == 'p' && "pdf"@[2] == 'f');
    assert("html"@[0] == 'h' && "json"@[1] == 's' && "jpeg"@[1] == 'p');
    assert("json"@[0] == 'j' && "jpeg"@[0] == 'j');
    assert("webp"@[0] == 'w' && "webp"@[1] == 'e');
    assert("wasm"@[0] == 'w' && "wasm"@[1] == 'a');
    assert("woff"@[0] == 'w' && "woff"@[1] == 'o');
}

} // verus!
