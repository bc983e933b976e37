use rgate::static_files::file_reply;
use rgate::static_files::file_segments;
use rgate::static_files::mime_type;
use rgate::static_files::percent_decode;
use rgate::static_files::plan;
use rgate::static_files::resolve;
use rgate::static_files::unescape;
use rgate::static_files::FileOutcome;
use rgate::static_files::StaticPlan;

fn segments(path: &str) -> (Vec<String>, bool) {
    match plan("GET", path) {
        StaticPlan::File { segments, directory } => (segments, directory),
        StaticPlan::Answer(reply) => (vec![reply.status.to_string()], false),
    }
}

fn names(list: &[&str]) -> Vec<String> {
    list.iter().map(|s| s.to_string()).collect()
}

#[test]
fn percent_escapes_are_decoded() {
    assert_eq!(percent_decode("/a%20b"), "/a b");
    assert_eq!(percent_decode("%41%4a%4A"), "AJJ");
    assert_eq!(percent_decode("100%"), "100%");
    assert_eq!(percent_decode("%4"), "%4");
    assert_eq!(percent_decode("%zz"), "%zz");
    assert_eq!(percent_decode("%%41"), "%A");
    assert_eq!(percent_decode("%e4%bd%a0"), "\u{4f60}");
    assert_eq!(percent_decode("%ff"), "\u{fffd}");
    assert_eq!(percent_decode("\u{e9}"), "\u{e9}");
    assert_eq!(unescape("%00%FF"), vec![0, 255]);
    assert_eq!(percent_decode("a+\u{e9}%2b"), "a+\u{e9}+");
    assert_eq!(percent_decode("%c3%A9%2F%25"), "\u{e9}/%");
}

#[test]
fn paths_lead_to_files() {
    assert_eq!(segments("/a/b.txt"), (names(&["a", "b.txt"]), false));
    assert_eq!(segments("/"), (names(&[]), true));
    assert_eq!(segments("//a/./b/"), (names(&["a", "b"]), true));
    assert_eq!(segments("/a%2fb"), (names(&["a", "b"]), false));
    assert_eq!(segments("/..."), (names(&["..."]), false));
}

#[test]
fn climbing_paths_are_refused() {
    for path in ["/../x", "/a/..", "..", "/%2e%2e/x", "/a/..%2fb", "/./../"] {
        match plan("HEAD", path) {
            StaticPlan::Answer(reply) => {
                assert_eq!(reply.status, 403);
                assert!(reply.body.is_empty());
            }
            StaticPlan::File { .. } => panic!("{} was not refused", path),
        }
        match plan("GET", path) {
            StaticPlan::Answer(reply) => {
                assert_eq!(reply.status, 403);
                assert_eq!(reply.body, b"403 Forbidden\n");
            }
            StaticPlan::File { .. } => panic!("{} was not refused", path),
        }
    }
    assert!(matches!(resolve("/a..b"), StaticPlan::File { .. }));
}

#[test]
fn other_methods_are_refused() {
    for method in ["POST", "get", "OPTIONS", ""] {
        match plan(method, "/../x") {
            StaticPlan::Answer(reply) => {
                assert_eq!(reply.status, 405);
                assert_eq!(reply.headers.get("allow").unwrap(), "GET, HEAD");
                assert_eq!(reply.headers.get("content-type").unwrap(), "text/plain; charset=utf-8");
                assert_eq!(reply.body, b"405 Method Not Allowed\n");
            }
            StaticPlan::File { .. } => panic!("{} was not refused", method),
        }
    }
}

#[test]
fn directories_fall_back_to_their_index() {
    assert_eq!(file_segments(names(&["a"]), true), names(&["a", "index.html"]));
    assert_eq!(file_segments(names(&["a"]), false), names(&["a"]));
    assert_eq!(file_segments(names(&[]), true), names(&["index.html"]));
}

#[test]
fn files_are_sent() {
    let reply = file_reply("GET", "x.css", FileOutcome::Data(b"hello world!".to_vec()));
    assert_eq!(reply.status, 200);
    assert_eq!(reply.body, b"hello world!");
    assert_eq!(reply.headers.len(), 2);
    assert_eq!(reply.headers.get("content-type").unwrap(), "text/css; charset=utf-8");
    assert_eq!(reply.headers.get("content-length").unwrap(), "12");
}

#[test]
fn head_has_an_empty_body() {
    let reply = file_reply("HEAD", "x", FileOutcome::Data(b"hello".to_vec()));
    assert_eq!(reply.status, 200);
    assert!(reply.body.is_empty());
    assert_eq!(reply.headers.get("content-length").unwrap(), "5");
    let reply = file_reply("HEAD", "x", FileOutcome::NotFound);
    assert_eq!(reply.status, 404);
    assert!(reply.body.is_empty());
    let reply = file_reply("HEAD", "x", FileOutcome::NotADirectory);
    assert_eq!(reply.status, 404);
    assert!(reply.body.is_empty());
    let reply = file_reply("HEAD", "x", FileOutcome::Failed);
    assert_eq!(reply.status, 500);
    assert!(reply.body.is_empty());
}

#[test]
fn missing_and_unreadable_files_are_reported() {
    let reply = file_reply("GET", "x", FileOutcome::NotFound);
    assert_eq!(reply.status, 404);
    assert_eq!(reply.body, b"404 Not Found\n");
    let reply = file_reply("GET", "x", FileOutcome::NotADirectory);
    assert_eq!(reply.status, 404);
    assert_eq!(reply.body, b"404 Not Found\n");
    let reply = file_reply("GET", "x", FileOutcome::Failed);
    assert_eq!(reply.status, 500);
    assert_eq!(reply.body, b"500 Internal Server Error\n");
}

#[test]
fn mime_types_follow_the_extension() {
    let table = [
        ("a.html", "text/html; charset=utf-8"),
        ("a.htm", "text/html; charset=utf-8"),
        ("a.css", "text/css; charset=utf-8"),
        ("a.js", "application/javascript"),
        ("a.mjs", "application/javascript"),
        ("a.json", "application/json"),
        ("a.txt", "text/plain; charset=utf-8"),
        ("a.md", "text/plain; charset=utf-8"),
        ("a.xml", "application/xml"),
        ("a.png", "image/png"),
        ("a.jpg", "image/jpeg"),
        ("a.jpeg", "image/jpeg"),
        ("a.gif", "image/gif"),
        ("a.svg", "image/svg+xml"),
        ("a.ico", "image/x-icon"),
        ("a.webp", "image/webp"),
        ("a.pdf", "application/pdf"),
        ("a.wasm", "application/wasm"),
        ("a.woff", "font/woff"),
        ("a.woff2", "font/woff2"),
        ("a.mp4", "video/mp4"),
        ("a.mp3", "audio/mpeg"),
        ("a.bin", "application/octet-stream"),
        ("a", "application/octet-stream"),
        (".html", "application/octet-stream"),
        (".a.html", "text/html; charset=utf-8"),
        ("A.HTML", "text/html; charset=utf-8"),
        ("a.tar.PNG", "image/png"),
        ("a.", "application/octet-stream"),
        ("", "application/octet-stream"),
    ];
    for (name, mime) in table {
        assert_eq!(mime_type(name), mime, "{}", name);
    }
}
