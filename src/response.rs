//! Responses: status codes with their reason phrases, bodies, and the wire
//! form `status line CRLF header lines CRLF body`.
use vstd::prelude::*;

use crate::headers::{names_unique, HeaderMap, HeaderSpec};
use crate::request::header_sep;
use crate::text::{ascii_bytes, ascii_vec, decimal, push_decimal, CR, LF};

verus! {

/// Carriage return and line feed.
pub open spec fn crlf() -> Seq<u8> {
    seq![CR, LF]
}

/// The protocol version that responses carry.
pub open spec fn http_1_1() -> Seq<u8> {
    ascii_bytes("HTTP/1.1"@)
}

/// Appends all of `s` to `out`.
pub fn push_all(out: &mut Vec<u8>, s: &[u8])
    ensures
        final(out)@ == old(out)@ + s@,
{
    let mut i: usize = 0;
    while i < s.len()
        invariant
            i <= s@.len(),
            out@ == old(out)@ + s@.subrange(0, i as int),
        decreases s@.len() - i,
    {
        out.push(s[i]);
        assert(s@.subrange(0, i + 1) =~= s@.subrange(0, i as int).push(s@[i as int]));
        i += 1;
    }
    assert(s@.subrange(0, i as int) =~= s@);
}

/// Appends carriage return and line feed to `out`.
pub fn push_crlf(out: &mut Vec<u8>)
    ensures
        final(out)@ == old(out)@ + crlf(),
{
    out.push(CR);
    out.push(LF);
    assert(out@ =~= old(out)@ + crlf());
}

/// The status codes that the server sends. Each has a number and a reason
/// phrase that always go together.
#[derive(PartialEq, Eq, Structural, Clone, Copy, Debug)]
pub enum StatusCode {
    OK,
    Created,
    BadRequest,
    NotFound,
}

impl StatusCode {
    /// The numeric code.
    pub open spec fn code(self) -> nat {
        match self {
            StatusCode::OK => 200,
            StatusCode::Created => 201,
            StatusCode::BadRequest => 400,
            StatusCode::NotFound => 404,
        }
    }

    /// The reason phrase.
    pub open spec fn reason(self) -> Seq<u8> {
        match self {
            StatusCode::OK => ascii_bytes("OK"@),
            StatusCode::Created => ascii_bytes("Created"@),
            StatusCode::BadRequest => ascii_bytes("Bad Request"@),
            StatusCode::NotFound => ascii_bytes("Not Found"@),
        }
    }

    /// The numeric code.
    pub fn as_u16(&self) -> (r: u16)
        ensures
            r == self.code(),
    {
        match self {
            StatusCode::OK => 200,
            StatusCode::Created => 201,
            StatusCode::BadRequest => 400,
            StatusCode::NotFound => 404,
        }
    }

    /// The reason phrase.
    pub fn reason_phrase(&self) -> (r: Vec<u8>)
        ensures
            r@ == self.reason(),
    {
        proof {
            reveal_strlit("OK");
            reveal_strlit("Created");
            reveal_strlit("Bad Request");
            reveal_strlit("Not Found");
        }
        match self {
            StatusCode::OK => ascii_vec("OK"),
            StatusCode::Created => ascii_vec("Created"),
            StatusCode::BadRequest => ascii_vec("Bad Request"),
            StatusCode::NotFound => ascii_vec("Not Found"),
        }
    }
}

/// The text of a status line: version, code and reason phrase, separated by
/// single spaces.
pub open spec fn status_line_text(version: Seq<u8>, status: StatusCode) -> Seq<u8> {
    version + seq![32u8] + decimal(status.code()) + seq![32u8] + status.reason()
}

/// A status line: protocol version and status code.
pub struct StatusLine {
    pub http_version: Vec<u8>,
    pub status_code: StatusCode,
}

impl StatusLine {
    /// A status line for `status_code` with version `HTTP/1.1`.
    pub fn new(status_code: StatusCode) -> (r: StatusLine)
        ensures
            r.http_version@ == http_1_1(),
            r.status_code == status_code,
    {
        proof {
            reveal_strlit("HTTP/1.1");
        }
        StatusLine { http_version: ascii_vec("HTTP/1.1"), status_code }
    }

    /// The text of the status line, such as `HTTP/1.1 404 Not Found`.
    pub fn render(&self) -> (r: Vec<u8>)
        ensures
            r@ == status_line_text(self.http_version@, self.status_code),
    {
        let mut out: Vec<u8> = Vec::new();
        push_all(&mut out, self.http_version.as_slice());
        out.push(32);
        push_decimal(&mut out, self.status_code.as_u16() as usize);
        out.push(32);
        let reason = self.status_code.reason_phrase();
        push_all(&mut out, reason.as_slice());
        assert(out@ =~= status_line_text(self.http_version@, self.status_code));
        out
    }
}

/// A response body as mathematical values.
pub enum BodyView {
    Plain(Seq<u8>),
    Encoded(Seq<u8>),
    Empty,
}

/// The bytes that a body puts on the wire.
pub open spec fn body_bytes(b: BodyView) -> Seq<u8> {
    match b {
        BodyView::Plain(t) => t,
        BodyView::Encoded(e) => e,
        BodyView::Empty => Seq::empty(),
    }
}

/// A response body: text, encoded bytes, or nothing.
pub enum ResponseBody {
    Plain(Vec<u8>),
    Encoded(Vec<u8>),
    Empty,
}

impl View for ResponseBody {
    type V = BodyView;

    open spec fn view(&self) -> BodyView {
        match self {
            ResponseBody::Plain(t) => BodyView::Plain(t@),
            ResponseBody::Encoded(e) => BodyView::Encoded(e@),
            ResponseBody::Empty => BodyView::Empty,
        }
    }
}

/// The decimal numbers of `s`, separated by a comma and a space.
pub open spec fn number_list(s: Seq<u8>) -> Seq<u8>
    decreases s.len(),
{
    if s.len() == 0 {
        Seq::empty()
    } else if s.len() == 1 {
        decimal(s[0] as nat)
    } else {
        number_list(s.drop_last()) + seq![44u8, 32u8] + decimal(s.last() as nat)
    }
}

/// The readable text of a body: text as it is, encoded bytes as a bracketed
/// list of numbers, nothing for an empty body.
pub open spec fn body_text(b: BodyView) -> Seq<u8> {
    match b {
        BodyView::Plain(t) => t,
        BodyView::Encoded(e) => seq![91u8] + number_list(e) + seq![93u8],
        BodyView::Empty => Seq::empty(),
    }
}

impl ResponseBody {
    /// The number of bytes that the body puts on the wire.
    pub fn len(&self) -> (r: usize)
        ensures
            r == body_bytes(self@).len(),
    {
        match self {
            ResponseBody::Plain(text) => text.len(),
            ResponseBody::Encoded(bytes) => bytes.len(),
            ResponseBody::Empty => 0,
        }
    }

    /// The bytes that the body puts on the wire.
    pub fn into_bytes(self) -> (r: Vec<u8>)
        ensures
            r@ == body_bytes(self@),
    {
        match self {
            ResponseBody::Plain(text) => text,
            ResponseBody::Encoded(bytes) => bytes,
            ResponseBody::Empty => Vec::new(),
        }
    }

    /// The readable text of the body.
    pub fn render(&self) -> (r: Vec<u8>)
        ensures
            r@ == body_text(self@),
    {
        match self {
            ResponseBody::Plain(text) => {
                let mut out: Vec<u8> = Vec::new();
                push_all(&mut out, text.as_slice());
                assert(out@ =~= text@);
                out
            },
            ResponseBody::Encoded(bytes) => {
                let mut out: Vec<u8> = Vec::new();
                out.push(91);
                let mut i: usize = 0;
                while i < bytes.len()
                    invariant
                        i <= bytes@.len(),
                        out@ == seq![91u8] + number_list(bytes@.subrange(0, i as int)),
                    decreases bytes@.len() - i,
                {
                    let ghost before = out@;
                    if i > 0 {
                        out.push(44);
                        out.push(32);
                    }
                    push_decimal(&mut out, bytes[i] as usize);
                    let ghost prefix = bytes@.subrange(0, i + 1);
                    assert(prefix.drop_last() =~= bytes@.subrange(0, i as int));
                    assert(out@ =~= seq![91u8] + number_list(prefix));
                    i += 1;
                }
                out.push(93);
                assert(bytes@.subrange(0, i as int) =~= bytes@);
                assert(out@ =~= body_text(self@));
                out
            },
            ResponseBody::Empty => {
                let out: Vec<u8> = Vec::new();
                assert(out@ =~= body_text(self@));
                out
            },
        }
    }
}

/// A header as it is written: name, separator, value, line end.
pub open spec fn header_line(h: HeaderSpec) -> Seq<u8> {
    h.0 + header_sep() + h.1 + crlf()
}

/// The header lines of a sequence of headers, one after another.
pub open spec fn header_block(e: Seq<HeaderSpec>) -> Seq<u8>
    decreases e.len(),
{
    if e.len() == 0 {
        Seq::empty()
    } else {
        header_block(e.drop_last()) + header_line(e.last())
    }
}

/// The header lines of a header map, in its order.
pub fn join_headers(headers: &HeaderMap) -> (r: Vec<u8>)
    ensures
        r@ == header_block(headers.entries()),
        names_unique(headers.entries()),
{
    proof {
        reveal_strlit(": ");
    }
    let sep = ascii_vec(": ");
    let mut out: Vec<u8> = Vec::new();
    let mut i: usize = 0;
    let n = headers.len();
    assert(headers.entries().subrange(0, 0) =~= Seq::<HeaderSpec>::empty());
    while i < n
        invariant
            n == headers.entries().len(),
            i <= n,
            sep@ == header_sep(),
            out@ == header_block(headers.entries().subrange(0, i as int)),
        decreases n - i,
    {
        let (name, value) = headers.entry_at(i);
        push_all(&mut out, name.as_slice());
        push_all(&mut out, sep.as_slice());
        push_all(&mut out, value.as_slice());
        push_crlf(&mut out);
        let ghost prefix = headers.entries().subrange(0, i + 1);
        assert(prefix.drop_last() =~= headers.entries().subrange(0, i as int));
        assert(out@ =~= header_block(prefix));
        i += 1;
    }
    assert(headers.entries().subrange(0, i as int) =~= headers.entries());
    out
}

/// The wire form of a response.
pub open spec fn wire(
    version: Seq<u8>,
    status: StatusCode,
    entries: Seq<HeaderSpec>,
    body: BodyView,
) -> Seq<u8> {
    status_line_text(version, status) + crlf() + header_block(entries) + crlf() + body_bytes(body)
}

/// A response as mathematical values.
pub struct ResponseView {
    pub version: Seq<u8>,
    pub status: StatusCode,
    pub headers: Map<Seq<u8>, Seq<u8>>,
    pub body: BodyView,
}

/// A response: status line, headers and body.
pub struct HttpResponse {
    pub status_line: StatusLine,
    pub headers: HeaderMap,
    pub response_body: ResponseBody,
}

impl View for HttpResponse {
    type V = ResponseView;

    open spec fn view(&self) -> ResponseView {
        ResponseView {
            version: self.status_line.http_version@,
            status: self.status_line.status_code,
            headers: self.headers@,
            body: self.response_body@,
        }
    }
}

impl HttpResponse {
    /// `HTTP/1.1 404 Not Found` with no headers and no body.
    pub fn not_found() -> (r: HttpResponse)
        ensures
            r@.version == http_1_1(),
            r@.status == StatusCode::NotFound,
            r.headers.entries() == Seq::<HeaderSpec>::empty(),
            r@.headers == Map::<Seq<u8>, Seq<u8>>::empty(),
            r@.body == BodyView::Empty,
    {
        HttpResponse {
            status_line: StatusLine::new(StatusCode::NotFound),
            headers: HeaderMap::new(),
            response_body: ResponseBody::Empty,
        }
    }

    /// The bytes of the response as they go on the wire.
    pub fn into_bytes(self) -> (r: Vec<u8>)
        ensures
            r@ == wire(
                self.status_line.http_version@,
                self.status_line.status_code,
                self.headers.entries(),
                self.response_body@,
            ),
            names_unique(self.headers.entries()),
    {
        let mut bytes = self.status_line.render();
        push_crlf(&mut bytes);
        let mut headers = join_headers(&self.headers);
        bytes.append(&mut headers);
        push_crlf(&mut bytes);
        let mut body = self.response_body.into_bytes();
        bytes.append(&mut body);
        bytes
    }

    /// The readable text of the response: the wire form, with an encoded body
    /// shown as a list of numbers.
    pub fn render(&self) -> (r: Vec<u8>)
        ensures
            r@ == status_line_text(self.status_line.http_version@, self.status_line.status_code)
                + crlf() + header_block(self.headers.entries()) + crlf() + body_text(
                self.response_body@,
            ),
    {
        let mut out = self.status_line.render();
        push_crlf(&mut out);
        let mut headers = join_headers(&self.headers);
        out.append(&mut headers);
        push_crlf(&mut out);
        let mut body = self.response_body.render();
        out.append(&mut body);
        out
    }
}

} // verus!
