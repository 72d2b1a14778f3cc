use http_server::text::{push_decimal, split_lines, split_on_exec, split_tokens};
use http_server::{
    byte_array_to_hex_string, common_str_elements, echo_page, encode_body, file_path,
    get_file_page, join_headers, parse_header, route, user_agent_page, HeaderMap, HttpError,
    HttpMethod, HttpRequest, HttpResponse, RequestLine, ResponseBody, Route, StatusCode,
    StatusLine,
};

fn request(raw: &[u8]) -> HttpRequest {
    match HttpRequest::from_bytes(raw) {
        Ok(r) => r,
        Err(e) => panic!("request did not parse: {:?}", e),
    }
}

fn words(v: &[&str]) -> Vec<Vec<u8>> {
    v.iter().map(|s| s.as_bytes().to_vec()).collect()
}

#[test]
fn parses_request_line_headers_and_body() {
    let r = request(b"POST /files/a HTTP/1.1\r\nHost: localhost\r\nUser-Agent: curl\r\n\r\nhello");
    assert_eq!(r.request_line.http_method, HttpMethod::Post);
    assert_eq!(r.request_line.request_target, b"/files/a".to_vec());
    assert_eq!(r.request_line.http_version, b"HTTP/1.1".to_vec());
    assert_eq!(r.headers.len(), 2);
    assert_eq!(r.headers.get(b"Host"), Some(&b"localhost".to_vec()));
    assert_eq!(r.headers.get(b"User-Agent"), Some(&b"curl".to_vec()));
    assert_eq!(r.request_body, Some(b"hello".to_vec()));
}

#[test]
fn request_without_body_line_has_no_body() {
    let r = request(b"GET / HTTP/1.1\r\nHost: h\r\n\r\n");
    assert_eq!(r.request_body, None);
    let r = request(b"GET / HTTP/1.1\r\nHost: h");
    assert_eq!(r.request_body, None);
    assert_eq!(r.headers.len(), 1);
}

#[test]
fn header_names_keep_their_case() {
    let r = request(b"GET / HTTP/1.1\r\nuser-agent: x\r\n\r\n");
    assert_eq!(r.headers.get(b"User-Agent"), None);
    assert_eq!(r.headers.get(b"user-agent"), Some(&b"x".to_vec()));
}

#[test]
fn repeated_header_keeps_last_value() {
    let r = request(b"GET / HTTP/1.1\r\nX: 1\r\nX: 2\r\n\r\n");
    assert_eq!(r.headers.len(), 1);
    assert_eq!(r.headers.get(b"X"), Some(&b"2".to_vec()));
}

#[test]
fn header_block_stops_at_first_non_header_line() {
    let r = request(b"GET / HTTP/1.1\r\nA: 1\r\nnot a header\r\nB: 2\r\n");
    assert_eq!(r.headers.len(), 1);
    assert_eq!(r.request_body, Some(b"B: 2".to_vec()));
}

#[test]
fn invalid_utf8_is_an_encoding_error() {
    assert!(matches!(
        HttpRequest::from_bytes(b"GET /\xc3\x28 HTTP/1.1\r\n\r\n"),
        Err(HttpError::InvalidEncoding)
    ));
}

#[test]
fn empty_input_is_malformed() {
    assert!(matches!(HttpRequest::from_bytes(b""), Err(HttpError::MalformedRequestLine)));
}

#[test]
fn unknown_method_is_rejected() {
    assert!(matches!(
        HttpRequest::from_bytes(b"DELETE /x HTTP/1.1\r\n\r\n"),
        Err(HttpError::UnknownMethod)
    ));
    assert!(matches!(HttpMethod::from_str(b"get"), Err(HttpError::UnknownMethod)));
    assert!(matches!(HttpMethod::from_str(b"GET"), Ok(HttpMethod::Get)));
    assert!(matches!(HttpMethod::from_str(b"POST"), Ok(HttpMethod::Post)));
}

#[test]
fn request_line_needs_three_words() {
    assert!(matches!(RequestLine::from_str(b"GET /"), Err(HttpError::MalformedRequestLine)));
    assert!(matches!(RequestLine::from_str(b"   "), Err(HttpError::MalformedRequestLine)));
    assert!(matches!(RequestLine::from_str(b"PUT"), Err(HttpError::UnknownMethod)));
    let line = RequestLine::from_str(b"  GET\t/a   HTTP/1.1 extra").unwrap();
    assert_eq!(line.http_method, HttpMethod::Get);
    assert_eq!(line.request_target, b"/a".to_vec());
    assert_eq!(line.http_version, b"HTTP/1.1".to_vec());
}

#[test]
fn parse_header_cuts_value_at_second_separator() {
    assert_eq!(parse_header(b"Name: Value"), Some((b"Name".to_vec(), b"Value".to_vec())));
    assert_eq!(parse_header(b"X: a: b"), Some((b"X".to_vec(), b"a".to_vec())));
    assert_eq!(parse_header(b": v"), Some((b"".to_vec(), b"v".to_vec())));
    assert_eq!(parse_header(b"Name:Value"), None);
    assert_eq!(parse_header(b""), None);
}

#[test]
fn lines_follow_str_lines() {
    assert_eq!(split_lines(b"a\r\nb\n\nc"), words(&["a", "b", "", "c"]));
    assert_eq!(split_lines(b"a\n"), words(&["a"]));
    assert_eq!(split_lines(b"a\r"), words(&["a\r"]));
    assert_eq!(split_lines(b""), words(&[]));
    assert_eq!(split_lines(b"\n\n"), words(&["", ""]));
}

#[test]
fn split_follows_str_split() {
    assert_eq!(split_on_exec(b"a, b, c", b", "), words(&["a", "b", "c"]));
    assert_eq!(split_on_exec(b"", b", "), words(&[""]));
    assert_eq!(split_on_exec(b"/echo/abc", b"/"), words(&["", "echo", "abc"]));
    assert_eq!(split_on_exec(b"a::b", b"::"), words(&["a", "b"]));
    assert_eq!(split_on_exec(b":::", b"::"), words(&["", ":"]));
}

#[test]
fn tokens_follow_split_whitespace() {
    assert_eq!(split_tokens(b" a \t b\r\n"), words(&["a", "b"]));
    assert_eq!(split_tokens(b""), words(&[]));
}

#[test]
fn decimal_rendering() {
    let mut out = Vec::new();
    push_decimal(&mut out, 0);
    assert_eq!(out, b"0".to_vec());
    let mut out = b"n=".to_vec();
    push_decimal(&mut out, 1234509);
    assert_eq!(out, b"n=1234509".to_vec());
}

#[test]
fn header_map_insert_and_get() {
    let mut h = HeaderMap::new();
    assert_eq!(h.len(), 0);
    h.insert(b"A".to_vec(), b"1".to_vec());
    h.insert(b"B".to_vec(), b"2".to_vec());
    h.insert(b"A".to_vec(), b"3".to_vec());
    assert_eq!(h.len(), 2);
    assert_eq!(h.get(b"A"), Some(&b"3".to_vec()));
    assert_eq!(h.get(b"B"), Some(&b"2".to_vec()));
    assert_eq!(h.get(b"C"), None);
    assert_eq!(h.entry_at(0), (&b"A".to_vec(), &b"3".to_vec()));
}

#[test]
fn status_codes_and_phrases() {
    assert_eq!(StatusCode::OK.as_u16(), 200);
    assert_eq!(StatusCode::Created.as_u16(), 201);
    assert_eq!(StatusCode::BadRequest.as_u16(), 400);
    assert_eq!(StatusCode::NotFound.as_u16(), 404);
    assert_eq!(StatusCode::OK.reason_phrase(), b"OK".to_vec());
    assert_eq!(StatusCode::Created.reason_phrase(), b"Created".to_vec());
    assert_eq!(StatusCode::BadRequest.reason_phrase(), b"Bad Request".to_vec());
    assert_eq!(StatusCode::NotFound.reason_phrase(), b"Not Found".to_vec());
}

#[test]
fn status_line_renders() {
    let line = StatusLine::new(StatusCode::BadRequest);
    assert_eq!(line.http_version, b"HTTP/1.1".to_vec());
    assert_eq!(line.render(), b"HTTP/1.1 400 Bad Request".to_vec());
}

#[test]
fn body_lengths_and_bytes() {
    assert_eq!(ResponseBody::Empty.len(), 0);
    assert_eq!(ResponseBody::Plain("héllo".as_bytes().to_vec()).len(), 6);
    assert_eq!(ResponseBody::Encoded(vec![1, 2, 3, 4]).len(), 4);
    assert_eq!(ResponseBody::Empty.into_bytes(), Vec::<u8>::new());
    assert_eq!(ResponseBody::Plain(b"ab".to_vec()).into_bytes(), b"ab".to_vec());
    assert_eq!(ResponseBody::Encoded(vec![0, 255]).into_bytes(), vec![0, 255]);
}

#[test]
fn body_renders_as_text() {
    assert_eq!(ResponseBody::Plain(b"hi".to_vec()).render(), b"hi".to_vec());
    assert_eq!(ResponseBody::Encoded(vec![31, 139, 8]).render(), b"[31, 139, 8]".to_vec());
    assert_eq!(ResponseBody::Encoded(vec![]).render(), b"[]".to_vec());
    assert_eq!(ResponseBody::Empty.render(), Vec::<u8>::new());
}

#[test]
fn not_found_response() {
    let r = HttpResponse::not_found();
    assert_eq!(r.headers.len(), 0);
    assert_eq!(r.into_bytes(), b"HTTP/1.1 404 Not Found\r\n\r\n".to_vec());
}

#[test]
fn response_serialization() {
    let mut headers = HeaderMap::new();
    headers.insert(b"Content-Type".to_vec(), b"text/plain".to_vec());
    headers.insert(b"Content-Length".to_vec(), b"2".to_vec());
    assert_eq!(join_headers(&headers), b"Content-Type: text/plain\r\nContent-Length: 2\r\n".to_vec());
    let r = HttpResponse {
        status_line: StatusLine::new(StatusCode::OK),
        headers,
        response_body: ResponseBody::Plain(b"hi".to_vec()),
    };
    assert_eq!(
        r.render(),
        b"HTTP/1.1 200 OK\r\nContent-Type: text/plain\r\nContent-Length: 2\r\n\r\nhi".to_vec()
    );
    assert_eq!(
        r.into_bytes(),
        b"HTTP/1.1 200 OK\r\nContent-Type: text/plain\r\nContent-Length: 2\r\n\r\nhi".to_vec()
    );
}

#[test]
fn serialized_head_reads_back() {
    let mut headers = HeaderMap::new();
    headers.insert(b"X-One".to_vec(), b"1".to_vec());
    headers.insert(b"X-Two".to_vec(), b"two words".to_vec());
    let r = HttpResponse {
        status_line: StatusLine::new(StatusCode::Created),
        headers,
        response_body: ResponseBody::Plain(b"line\nbody".to_vec()),
    };
    let lines = split_lines(&r.into_bytes());
    assert_eq!(lines[0], b"HTTP/1.1 201 Created".to_vec());
    let mut back = HeaderMap::new();
    let mut i = 1;
    while let Some((name, value)) = parse_header(&lines[i]) {
        back.insert(name, value);
        i += 1;
    }
    assert_eq!(i, 3);
    assert_eq!(lines[i], Vec::<u8>::new());
    assert_eq!(back.len(), 2);
    assert_eq!(back.get(b"X-One"), Some(&b"1".to_vec()));
    assert_eq!(back.get(b"X-Two"), Some(&b"two words".to_vec()));
}

#[test]
fn routes_are_selected_in_order() {
    assert_eq!(route(HttpMethod::Get, b"/"), Route::RootProbe);
    assert_eq!(route(HttpMethod::Post, b"/"), Route::RootProbe);
    assert_eq!(route(HttpMethod::Get, b"/echo/x"), Route::Echo);
    assert_eq!(route(HttpMethod::Get, b"/echo/"), Route::Echo);
    assert_eq!(route(HttpMethod::Get, b"/echo"), Route::NotFoundRoute);
    assert_eq!(route(HttpMethod::Post, b"/user-agent"), Route::UserAgent);
    assert_eq!(route(HttpMethod::Get, b"/user-agent/"), Route::NotFoundRoute);
    assert_eq!(route(HttpMethod::Get, b"/files/a"), Route::FileRead);
    assert_eq!(route(HttpMethod::Post, b"/files/a"), Route::FileWrite);
    assert_eq!(route(HttpMethod::Get, b"/files"), Route::NotFoundRoute);
    assert_eq!(route(HttpMethod::Get, b""), Route::NotFoundRoute);
    assert_eq!(route(HttpMethod::Get, b"/x/echo/"), Route::NotFoundRoute);
}

#[test]
fn handler_pages() {
    let r = request(b"GET /echo/hey HTTP/1.1\r\nUser-Agent: ua/2\r\n\r\n");
    let (h, b) = echo_page(&r);
    assert_eq!(h.get(b"Content-Type"), Some(&b"text/plain".to_vec()));
    assert_eq!(b.into_bytes(), b"hey".to_vec());
    let (h, b) = user_agent_page(&r).unwrap();
    assert_eq!(h.get(b"Content-Type"), Some(&b"text/plain".to_vec()));
    assert_eq!(b.into_bytes(), b"ua/2".to_vec());
    let r = request(b"GET /user-agent HTTP/1.1\r\n\r\n");
    assert!(user_agent_page(&r).is_none());
    let (h, b) = get_file_page(b"data".to_vec());
    assert_eq!(h.get(b"Content-Type"), Some(&b"application/octet-stream".to_vec()));
    assert_eq!(b.into_bytes(), b"data".to_vec());
}

#[test]
fn file_paths_join_directory_and_name() {
    assert_eq!(file_path(b"/tmp/", b"/files/foo"), b"/tmp/foo".to_vec());
    assert_eq!(file_path(b"", b"/files/"), b"".to_vec());
    assert_eq!(file_path(b"d/", b"/files/a/b"), b"d/a".to_vec());
}

#[test]
fn common_elements_keep_server_order() {
    let server = words(&["gzip", "br", "deflate"]);
    let client = words(&["deflate", "gzip", "zstd"]);
    assert_eq!(common_str_elements(&server, &client), words(&["gzip", "deflate"]));
    assert_eq!(common_str_elements(&server, &words(&[])), words(&[]));
}

#[test]
fn encode_body_compresses_only_plain_text() {
    let r = request(b"GET / HTTP/1.1\r\nAccept-Encoding: gzip\r\n\r\n");
    let mut h = HeaderMap::new();
    let out = encode_body(&r, &mut h, ResponseBody::Empty);
    assert!(matches!(out, ResponseBody::Empty));
    assert_eq!(h.len(), 0);
    let out = encode_body(&r, &mut h, ResponseBody::Plain(b"abc".to_vec()));
    assert_eq!(h.get(b"Content-Encoding"), Some(&b"gzip".to_vec()));
    match out {
        ResponseBody::Encoded(bytes) => {
            assert_eq!(&bytes[..2], &[0x1f, 0x8b]);
            assert_ne!(bytes, b"abc".to_vec());
        }
        _ => panic!("expected an encoded body"),
    }
    let r = request(b"GET / HTTP/1.1\r\n\r\n");
    let mut h = HeaderMap::new();
    let out = encode_body(&r, &mut h, ResponseBody::Plain(b"abc".to_vec()));
    assert_eq!(h.len(), 0);
    assert_eq!(out.into_bytes(), b"abc".to_vec());
}

#[test]
fn utf8_bytes_become_text() {
    assert_eq!(byte_array_to_hex_string("héllo".as_bytes().to_vec()), "héllo".to_string());
    assert_eq!(byte_array_to_hex_string(Vec::new()), String::new());
}

#[test]
fn request_line_splits_at_unicode_whitespace() {
    let line = RequestLine::from_str("GET\u{A0}/ a b".as_bytes()).unwrap();
    assert_eq!(line.http_method, HttpMethod::Get);
    assert_eq!(line.request_target, b"/".to_vec());
    assert_eq!(line.http_version, b"a".to_vec());
    assert!(matches!(
        RequestLine::from_str("GET\u{A0}/".as_bytes()),
        Err(HttpError::MalformedRequestLine)
    ));
}

#[test]
fn tokens_follow_split_whitespace_for_unicode_text() {
    let text = "a\u{2003}b\u{3000}c\u{85}d\u{1680}e\u{2029}\u{205F}f\u{202F}g\u{200A}h";
    let expected: Vec<&str> = text.split_whitespace().collect();
    assert_eq!(split_tokens(text.as_bytes()), words(&expected));
    assert_eq!(expected, vec!["a", "b", "c", "d", "e", "f", "g", "h"]);
    let text = "é\u{2010}x\u{200B}y\u{A0}";
    let expected: Vec<&str> = text.split_whitespace().collect();
    assert_eq!(split_tokens(text.as_bytes()), words(&expected));
    assert_eq!(expected.len(), 1);
}

#[test]
fn request_with_unicode_separators_parses() {
    let r = request("POST\u{2028}/files/a\u{3000}HTTP/1.1\r\n\r\nbody".as_bytes());
    assert_eq!(r.request_line.http_method, HttpMethod::Post);
    assert_eq!(r.request_line.request_target, b"/files/a".to_vec());
    assert_eq!(r.request_body, Some(b"body".to_vec()));
}

#[test]
fn header_lines_read_back() {
    let mut headers = HeaderMap::new();
    headers.insert(b"A".to_vec(), b"x y".to_vec());
    headers.insert(b"B-2".to_vec(), b"".to_vec());
    let block = join_headers(&headers);
    let lines = split_lines(&block);
    assert_eq!(lines.len(), headers.len());
    let mut back = HeaderMap::new();
    for l in &lines {
        let (n, v) = parse_header(l).unwrap();
        back.insert(n, v);
    }
    assert_eq!(back.get(b"A"), Some(&b"x y".to_vec()));
    assert_eq!(back.get(b"B-2"), Some(&b"".to_vec()));
    assert_eq!(back.len(), 2);
}
