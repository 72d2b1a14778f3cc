use std::io::Read;

use flate2::read::GzDecoder;
use http_server::{finish_read, finish_write, start_exchange, Exchange, HttpResponse};

const DIR: &[u8] = b"/srv/files/";

fn reply(raw: &[u8]) -> HttpResponse {
    match start_exchange(raw, DIR) {
        Exchange::Reply(r) => r,
        _ => panic!("expected a ready response"),
    }
}

fn header<'a>(r: &'a HttpResponse, name: &str) -> Option<&'a [u8]> {
    r.headers.get(name.as_bytes()).map(|v| v.as_slice())
}

fn gunzip(bytes: &[u8]) -> Vec<u8> {
    let mut out = Vec::new();
    GzDecoder::new(bytes).read_to_end(&mut out).unwrap();
    out
}

#[test]
fn root_probe_answers_ok_with_empty_body() {
    let r = reply(b"GET / HTTP/1.1\r\n\r\n");
    assert_eq!(r.into_bytes(), b"HTTP/1.1 200 OK\r\nContent-Length: 0\r\n\r\n".to_vec());
}

#[test]
fn echo_returns_segment_as_text() {
    let r = reply(b"GET /echo/abc HTTP/1.1\r\n\r\n");
    assert_eq!(r.status_line.status_code.as_u16(), 200);
    assert_eq!(header(&r, "Content-Type"), Some(&b"text/plain"[..]));
    assert_eq!(header(&r, "Content-Length"), Some(&b"3"[..]));
    assert_eq!(header(&r, "Content-Encoding"), None);
    let bytes = r.into_bytes();
    assert!(bytes.starts_with(b"HTTP/1.1 200 OK\r\n"));
    assert!(bytes.ends_with(b"\r\n\r\nabc"));
}

#[test]
fn echo_with_gzip_is_compressed() {
    let r = reply(b"GET /echo/abc HTTP/1.1\r\nAccept-Encoding: gzip\r\n\r\n");
    assert_eq!(r.status_line.status_code.as_u16(), 200);
    assert_eq!(header(&r, "Content-Encoding"), Some(&b"gzip"[..]));
    let length = String::from_utf8(header(&r, "Content-Length").unwrap().to_vec()).unwrap();
    let body = match &r.response_body {
        http_server::ResponseBody::Encoded(b) => b.clone(),
        _ => panic!("expected an encoded body"),
    };
    assert_eq!(length, body.len().to_string());
    assert_ne!(length, "3");
    assert_eq!(gunzip(&body), b"abc".to_vec());
    assert!(r.into_bytes().ends_with(&body));
}

#[test]
fn user_agent_is_reflected() {
    let r = reply(b"GET /user-agent HTTP/1.1\r\nUser-Agent: test-client/1.0\r\n\r\n");
    assert_eq!(r.status_line.status_code.as_u16(), 200);
    assert_eq!(header(&r, "Content-Type"), Some(&b"text/plain"[..]));
    assert_eq!(header(&r, "Content-Length"), Some(&b"15"[..]));
    assert!(r.into_bytes().ends_with(b"\r\n\r\ntest-client/1.0"));
}

#[test]
fn missing_user_agent_is_bad_request() {
    let r = reply(b"GET /user-agent HTTP/1.1\r\nHost: x\r\n\r\n");
    assert_eq!(
        r.into_bytes(),
        b"HTTP/1.1 400 Bad Request\r\nContent-Length: 0\r\n\r\n".to_vec()
    );
}

#[test]
fn post_then_get_a_file() {
    let (request, path, contents) =
        match start_exchange(b"POST /files/report.txt HTTP/1.1\r\n\r\nhello", DIR) {
            Exchange::WriteFile { request, path, contents } => (request, path, contents),
            _ => panic!("expected a file write"),
        };
    assert_eq!(path, b"/srv/files/report.txt".to_vec());
    assert_eq!(contents, b"hello".to_vec());
    let created = finish_write(&request, true);
    assert_eq!(
        created.into_bytes(),
        b"HTTP/1.1 201 Created\r\nContent-Length: 0\r\n\r\n".to_vec()
    );

    let (request, path) = match start_exchange(b"GET /files/report.txt HTTP/1.1\r\n\r\n", DIR) {
        Exchange::ReadFile { request, path } => (request, path),
        _ => panic!("expected a file read"),
    };
    assert_eq!(path, b"/srv/files/report.txt".to_vec());
    let page = finish_read(&request, Some(contents));
    assert_eq!(page.status_line.status_code.as_u16(), 200);
    assert_eq!(header(&page, "Content-Type"), Some(&b"application/octet-stream"[..]));
    assert_eq!(header(&page, "Content-Length"), Some(&b"5"[..]));
    assert!(page.into_bytes().ends_with(b"\r\n\r\nhello"));
}

#[test]
fn unknown_target_is_not_found() {
    let r = reply(b"GET /unknown HTTP/1.1\r\n\r\n");
    assert_eq!(
        r.into_bytes(),
        b"HTTP/1.1 404 Not Found\r\nContent-Length: 0\r\n\r\n".to_vec()
    );
}

#[test]
fn missing_file_is_not_found() {
    let request = match start_exchange(b"GET /files/none HTTP/1.1\r\n\r\n", DIR) {
        Exchange::ReadFile { request, .. } => request,
        _ => panic!("expected a file read"),
    };
    let r = finish_read(&request, None);
    assert_eq!(
        r.into_bytes(),
        b"HTTP/1.1 404 Not Found\r\nContent-Length: 0\r\n\r\n".to_vec()
    );
}

#[test]
fn failed_write_is_not_found() {
    let request = match start_exchange(b"POST /files/x HTTP/1.1\r\n\r\ndata", DIR) {
        Exchange::WriteFile { request, .. } => request,
        _ => panic!("expected a file write"),
    };
    let r = finish_write(&request, false);
    assert_eq!(r.status_line.status_code.as_u16(), 404);
    assert_eq!(header(&r, "Content-Length"), Some(&b"0"[..]));
}

#[test]
fn post_without_body_is_not_found() {
    let r = reply(b"POST /files/x HTTP/1.1\r\n\r\n");
    assert_eq!(
        r.into_bytes(),
        b"HTTP/1.1 404 Not Found\r\nContent-Length: 0\r\n\r\n".to_vec()
    );
}

#[test]
fn unparsable_requests_are_bad_requests() {
    for raw in [
        &b"BREW / HTTP/1.1\r\n\r\n"[..],
        &b"GET /\r\n\r\n"[..],
        &b""[..],
        &b"GET /echo/\xff HTTP/1.1\r\n\r\n"[..],
    ] {
        let r = reply(raw);
        assert_eq!(
            r.into_bytes(),
            b"HTTP/1.1 400 Bad Request\r\nContent-Length: 0\r\n\r\n".to_vec()
        );
    }
}

#[test]
fn unsupported_encoding_leaves_body_plain() {
    let r = reply(b"GET /echo/abc HTTP/1.1\r\nAccept-Encoding: br, deflate\r\n\r\n");
    assert_eq!(header(&r, "Content-Encoding"), None);
    assert_eq!(header(&r, "Content-Length"), Some(&b"3"[..]));
    assert!(r.into_bytes().ends_with(b"\r\n\r\nabc"));
}

#[test]
fn gzip_listed_among_others_is_chosen() {
    let r = reply(b"GET /echo/hello HTTP/1.1\r\nAccept-Encoding: deflate, gzip, br\r\n\r\n");
    assert_eq!(header(&r, "Content-Encoding"), Some(&b"gzip"[..]));
    let body = match &r.response_body {
        http_server::ResponseBody::Encoded(b) => b.clone(),
        _ => panic!("expected an encoded body"),
    };
    assert_eq!(gunzip(&body), b"hello".to_vec());
}

#[test]
fn gzip_without_list_space_is_not_recognised() {
    let r = reply(b"GET /echo/abc HTTP/1.1\r\nAccept-Encoding: gzip,deflate\r\n\r\n");
    assert_eq!(header(&r, "Content-Encoding"), None);
    assert!(r.into_bytes().ends_with(b"\r\n\r\nabc"));
}

#[test]
fn empty_bodies_are_never_encoded() {
    let r = reply(b"GET / HTTP/1.1\r\nAccept-Encoding: gzip\r\n\r\n");
    assert_eq!(header(&r, "Content-Encoding"), None);
    assert_eq!(header(&r, "Content-Length"), Some(&b"0"[..]));
}

#[test]
fn echo_takes_the_last_segment() {
    let r = reply(b"GET /echo/a/b HTTP/1.1\r\n\r\n");
    match &r.response_body {
        http_server::ResponseBody::Plain(t) => assert_eq!(t, &b"b".to_vec()),
        _ => panic!("expected a plain body"),
    }
    let r = reply(b"GET /echo/ HTTP/1.1\r\n\r\n");
    assert_eq!(header(&r, "Content-Length"), Some(&b"0"[..]));
}

#[test]
fn file_name_stops_at_next_slash() {
    let path = match start_exchange(b"GET /files/dir/inner.txt HTTP/1.1\r\n\r\n", DIR) {
        Exchange::ReadFile { path, .. } => path,
        _ => panic!("expected a file read"),
    };
    assert_eq!(path, b"/srv/files/dir".to_vec());
}

#[test]
fn echo_route_ignores_method() {
    let r = reply(b"POST /echo/xyz HTTP/1.1\r\n\r\nignored");
    assert_eq!(r.status_line.status_code.as_u16(), 200);
    assert!(r.into_bytes().ends_with(b"\r\n\r\nxyz"));
}
