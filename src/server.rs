//! The exchange on one connection: parse, route, handle, encode, and frame
//! the response. File reads and writes are the caller's to perform: the
//! exchange stops at them and resumes with their outcome.
use vstd::prelude::*;

use crate::encoding::{
    accepted_value, client_encodings, content_encoding_name, encode_body, encoded_body,
    encoded_headers, gzip_applies, gzip_word, lemma_gzip_chosen,
};
use crate::handlers::{
    content_type, echo_page, file_name, file_path, get_file_page, last_segment, octet_stream,
    text_plain, user_agent_name, user_agent_page,
};
use crate::headers::HeaderMap;
use crate::request::{request_of, HttpRequest, RequestView};
use crate::response::{
    body_bytes, http_1_1, BodyView, HttpResponse, ResponseBody, ResponseView, StatusCode,
    StatusLine,
};
use crate::router::{route, route_of, Route};
use crate::text::{ascii_bytes, ascii_vec, decimal, push_decimal};
use crate::trusted::gzip_of;

verus! {

/// The header name `Content-Length`.
pub open spec fn content_length_name() -> Seq<u8> {
    ascii_bytes("Content-Length"@)
}

/// The response that the pipeline sends for a handler's outcome: the body
/// encoded as negotiated, then `Content-Length` set to the byte count of the
/// final body.
pub open spec fn finished(
    request_headers: Map<Seq<u8>, Seq<u8>>,
    status: StatusCode,
    fragment: Map<Seq<u8>, Seq<u8>>,
    body: BodyView,
) -> ResponseView {
    let accept = accepted_value(request_headers);
    let final_body = encoded_body(body, accept);
    ResponseView {
        version: http_1_1(),
        status,
        headers: encoded_headers(fragment, body, accept).insert(
            content_length_name(),
            decimal(body_bytes(final_body).len()),
        ),
        body: final_body,
    }
}

/// The response carries a `Content-Length` equal to its body's byte count.
pub open spec fn content_length_matches(r: ResponseView) -> bool {
    r.headers.contains_key(content_length_name()) && r.headers[content_length_name()] == decimal(
        body_bytes(r.body).len(),
    )
}

/// The outcome of a route that needs no file: status, header fragment and
/// body.
pub open spec fn handled(req: RequestView) -> (StatusCode, Map<Seq<u8>, Seq<u8>>, BodyView) {
    match route_of(req.method, req.target) {
        Route::RootProbe => (StatusCode::OK, Map::empty(), BodyView::Empty),
        Route::Echo => (
            StatusCode::OK,
            content_type(text_plain()),
            BodyView::Plain(last_segment(req.target)),
        ),
        Route::UserAgent => if req.headers.contains_key(user_agent_name()) {
            (
                StatusCode::OK,
                content_type(text_plain()),
                BodyView::Plain(req.headers[user_agent_name()]),
            )
        } else {
            (StatusCode::BadRequest, Map::empty(), BodyView::Empty)
        },
        _ => (StatusCode::NotFound, Map::empty(), BodyView::Empty),
    }
}

/// The outcome of a file read: the contents as an octet stream, or not
/// found when the read failed.
pub open spec fn read_outcome(content: Option<Seq<u8>>) -> (
    StatusCode,
    Map<Seq<u8>, Seq<u8>>,
    BodyView,
) {
    match content {
        Some(c) => (StatusCode::OK, content_type(octet_stream()), BodyView::Plain(c)),
        None => (StatusCode::NotFound, Map::empty(), BodyView::Empty),
    }
}

/// The bytes that a file read gave, if it succeeded.
pub open spec fn contents_view(content: Option<Vec<u8>>) -> Option<Seq<u8>> {
    match content {
        Some(c) => Some(c@),
        None => None,
    }
}

/// The outcome of a file write: created, or not found when the write failed.
pub open spec fn write_outcome(written: bool) -> (StatusCode, Map<Seq<u8>, Seq<u8>>, BodyView) {
    if written {
        (StatusCode::Created, Map::empty(), BodyView::Empty)
    } else {
        (StatusCode::NotFound, Map::empty(), BodyView::Empty)
    }
}

/// The response to a request that could not be parsed.
pub open spec fn bad_request_view() -> ResponseView {
    finished(Map::empty(), StatusCode::BadRequest, Map::empty(), BodyView::Empty)
}

/// The two header names that the pipeline sets differ.
proof fn lemma_length_and_encoding_names()
    ensures
        content_length_name() != content_encoding_name(),
{
    reveal_strlit("Content-Length");
    reveal_strlit("Content-Encoding");
    assert(content_length_name().len() != content_encoding_name().len());
}

/// Every response that the pipeline builds carries a `Content-Length` whose
/// value is the decimal byte count of the body it sends: zero for an empty
/// body, the text's byte count for a plain body, and the compressed byte
/// count for an encoded one.
pub proof fn lemma_content_length(
    request_headers: Map<Seq<u8>, Seq<u8>>,
    status: StatusCode,
    fragment: Map<Seq<u8>, Seq<u8>>,
    body: BodyView,
)
    ensures
        content_length_matches(finished(request_headers, status, fragment, body)),
        body is Empty ==> finished(request_headers, status, fragment, body).headers[content_length_name()]
            == decimal(0),
        body matches BodyView::Plain(t) ==> (!gzip_applies(body, accepted_value(request_headers))
            ==> finished(request_headers, status, fragment, body).headers[content_length_name()]
            == decimal(t.len())),
        body matches BodyView::Plain(t) ==> (gzip_applies(body, accepted_value(request_headers))
            ==> finished(request_headers, status, fragment, body).headers[content_length_name()]
            == decimal(gzip_of(t).len())),
{
}

/// The bytes that follow the head on the wire are exactly the body's bytes,
/// so a `Content-Length` equal to the body's byte count frames it.
pub proof fn lemma_wire_ends_with_body(
    version: Seq<u8>,
    status: StatusCode,
    entries: Seq<crate::headers::HeaderSpec>,
    body: BodyView,
)
    ensures
        ({
            let w = crate::response::wire(version, status, entries, body);
            let n = body_bytes(body).len();
            n <= w.len() && w.subrange(w.len() - n, w.len() as int) == body_bytes(body)
        }),
{
    let w = crate::response::wire(version, status, entries, body);
    let n = body_bytes(body).len();
    assert(w.subrange(w.len() - n, w.len() as int) =~= body_bytes(body));
}

/// Encoding follows negotiation. When the client lists gzip (for instance
/// `Accept-Encoding: gzip`), a plain body is sent as its gzip compression
/// under `Content-Encoding: gzip`. When it does not (an unsupported scheme,
/// or no `Accept-Encoding` at all), the body is sent as it was and no
/// `Content-Encoding` header is present. Handlers never set that header
/// themselves.
pub proof fn lemma_encoding_negotiation(
    request_headers: Map<Seq<u8>, Seq<u8>>,
    status: StatusCode,
    fragment: Map<Seq<u8>, Seq<u8>>,
    body: BodyView,
)
    requires
        !fragment.contains_key(content_encoding_name()),
    ensures
        accepted_value(request_headers) == gzip_word() ==> client_encodings(
            accepted_value(request_headers),
        ).contains(gzip_word()),
        !request_headers.contains_key(crate::encoding::accept_encoding_name()) ==> !client_encodings(
            accepted_value(request_headers),
        ).contains(gzip_word()),
        client_encodings(accepted_value(request_headers)).contains(gzip_word()) ==> (
        body matches BodyView::Plain(t) ==> finished(request_headers, status, fragment, body).body
            == BodyView::Encoded(gzip_of(t)) && finished(
            request_headers,
            status,
            fragment,
            body,
        ).headers[content_encoding_name()] == gzip_word()),
        !client_encodings(accepted_value(request_headers)).contains(gzip_word()) ==> finished(
            request_headers,
            status,
            fragment,
            body,
        ).body == body && !finished(
            request_headers,
            status,
            fragment,
            body,
        ).headers.contains_key(content_encoding_name()),
{
    let accept = accepted_value(request_headers);
    lemma_gzip_chosen(accept);
    lemma_length_and_encoding_names();
    reveal_strlit(", ");
    reveal_strlit("gzip");
    let sep = crate::encoding::encoding_list_sep();
    assert(sep =~= seq![44u8, 32u8]);
    assert(gzip_word() =~= seq![103u8, 122u8, 105u8, 112u8]);
    if accept == gzip_word() {
        assert forall|k: int| !#[trigger] crate::text::occurs_at(accept, sep, k) by {
            if crate::text::occurs_at(accept, sep, k) {
                assert(accept.subrange(k, k + 2)[0] == accept[k]);
            }
        }
        crate::text::lemma_split_none(accept, sep);
        assert(client_encodings(accept)[0] == gzip_word());
    }
    if !request_headers.contains_key(crate::encoding::accept_encoding_name()) {
        crate::text::lemma_split_none(accept, sep);
        if client_encodings(accept).contains(gzip_word()) {
            assert(client_encodings(accept)[0] == Seq::<u8>::empty());
        }
    }
}

/// Where an exchange stands after the request has been read.
pub enum Exchange {
    /// The response is ready.
    Reply(HttpResponse),
    /// The file at `path` is to be read as text.
    ReadFile { request: HttpRequest, path: Vec<u8> },
    /// `contents` are to be written to the file at `path`, replacing it.
    WriteFile { request: HttpRequest, path: Vec<u8>, contents: Vec<u8> },
}

/// Finishes a handler's outcome: encodes the body as the request negotiates
/// and sets `Content-Length` from the final body.
pub fn respond(
    http_request: &HttpRequest,
    status: StatusCode,
    headers: HeaderMap,
    body: ResponseBody,
) -> (r: HttpResponse)
    ensures
        r@ == finished(http_request@.headers, status, headers@, body@),
        content_length_matches(r@),
{
    let mut headers = headers;
    let body = encode_body(http_request, &mut headers, body);
    let mut length: Vec<u8> = Vec::new();
    push_decimal(&mut length, body.len());
    assert(length@ =~= decimal(body_bytes(body@).len()));
    proof {
        reveal_strlit("Content-Length");
    }
    headers.insert(ascii_vec("Content-Length"), length);
    HttpResponse { status_line: StatusLine::new(status), headers, response_body: body }
}

/// `400 Bad Request` with an empty body, for a request that could not be
/// parsed.
pub fn bad_request() -> (r: HttpResponse)
    ensures
        r@ == bad_request_view(),
        content_length_matches(r@),
{
    let mut headers = HeaderMap::new();
    let mut length: Vec<u8> = Vec::new();
    push_decimal(&mut length, 0);
    proof {
        reveal_strlit("Content-Length");
    }
    headers.insert(ascii_vec("Content-Length"), length);
    HttpResponse {
        status_line: StatusLine::new(StatusCode::BadRequest),
        headers,
        response_body: ResponseBody::Empty,
    }
}

/// Reads a request from its bytes and takes it as far as it goes without
/// file I/O: a parse failure is answered `400 Bad Request`; file routes stop
/// at the read or write that they need; every other route is answered.
pub fn start_exchange(raw: &[u8], storage_dir: &[u8]) -> (r: Exchange)
    ensures
        match request_of(raw@) {
            Err(_) => r matches Exchange::Reply(resp) && resp@ == bad_request_view(),
            Ok(req) => match route_of(req.method, req.target) {
                Route::FileRead => r matches Exchange::ReadFile { request, path } && request@
                    == req && path@ == storage_dir@ + file_name(req.target),
                Route::FileWrite => match req.body {
                    Some(b) => r matches Exchange::WriteFile { request, path, contents }
                        && request@ == req && path@ == storage_dir@ + file_name(req.target)
                        && contents@ == b,
                    None => r matches Exchange::Reply(resp) && resp@ == finished(
                        req.headers,
                        StatusCode::NotFound,
                        Map::empty(),
                        BodyView::Empty,
                    ),
                },
                _ => r matches Exchange::Reply(resp) && resp@ == finished(
                    req.headers,
                    handled(req).0,
                    handled(req).1,
                    handled(req).2,
                ),
            },
        },
        r matches Exchange::Reply(resp) ==> content_length_matches(resp@),
{
    let http_request = match HttpRequest::from_bytes(raw) {
        Ok(req) => req,
        Err(_) => {
            return Exchange::Reply(bad_request());
        },
    };
    let target = &http_request.request_line.request_target;
    match route(http_request.request_line.http_method, target.as_slice()) {
        Route::RootProbe => {
            let response = respond(
                &http_request,
                StatusCode::OK,
                HeaderMap::new(),
                ResponseBody::Empty,
            );
            Exchange::Reply(response)
        },
        Route::Echo => {
            let (headers, body) = echo_page(&http_request);
            Exchange::Reply(respond(&http_request, StatusCode::OK, headers, body))
        },
        Route::UserAgent => match user_agent_page(&http_request) {
            Some((headers, body)) => {
                Exchange::Reply(respond(&http_request, StatusCode::OK, headers, body))
            },
            None => {
                let response = respond(
                    &http_request,
                    StatusCode::BadRequest,
                    HeaderMap::new(),
                    ResponseBody::Empty,
                );
                Exchange::Reply(response)
            },
        },
        Route::FileRead => {
            let path = file_path(storage_dir, target.as_slice());
            Exchange::ReadFile { request: http_request, path }
        },
        Route::FileWrite => {
            let path = file_path(storage_dir, target.as_slice());
            match &http_request.request_body {
                Some(b) => {
                    let contents = crate::text::copy_range(b.as_slice(), 0, b.len());
                    assert(contents@ =~= b@);
                    Exchange::WriteFile { request: http_request, path, contents }
                },
                None => {
                    let response = respond(
                        &http_request,
                        StatusCode::NotFound,
                        HeaderMap::new(),
                        ResponseBody::Empty,
                    );
                    Exchange::Reply(response)
                },
            }
        },
        Route::NotFoundRoute => {
            let response = respond(
                &http_request,
                StatusCode::NotFound,
                HeaderMap::new(),
                ResponseBody::Empty,
            );
            Exchange::Reply(response)
        },
    }
}

/// Resumes an exchange after the file read: `content` is the file's text, or
/// `None` when it could not be read.
pub fn finish_read(http_request: &HttpRequest, content: Option<Vec<u8>>) -> (r: HttpResponse)
    ensures
        r@ == finished(
            http_request@.headers,
            read_outcome(contents_view(content)).0,
            read_outcome(contents_view(content)).1,
            read_outcome(contents_view(content)).2,
        ),
        content_length_matches(r@),
{
    match content {
        Some(c) => {
            let (headers, body) = get_file_page(c);
            respond(http_request, StatusCode::OK, headers, body)
        },
        None => respond(http_request, StatusCode::NotFound, HeaderMap::new(), ResponseBody::Empty),
    }
}

/// Resumes an exchange after the file write: `written` tells whether it
/// succeeded.
pub fn finish_write(http_request: &HttpRequest, written: bool) -> (r: HttpResponse)
    ensures
        r@ == finished(
            http_request@.headers,
            write_outcome(written).0,
            write_outcome(written).1,
            write_outcome(written).2,
        ),
        content_length_matches(r@),
{
    if written {
        respond(http_request, StatusCode::Created, HeaderMap::new(), ResponseBody::Empty)
    } else {
        respond(http_request, StatusCode::NotFound, HeaderMap::new(), ResponseBody::Empty)
    }
}

} // verus!
