//! Request parsing: the request line, the header block and the optional
//! single body line.
use vstd::prelude::*;
use vstd::utf8::valid_utf8;

use crate::headers::{map_of, HeaderMap, HeaderSpec};
use crate::text::{
    ascii_bytes, ascii_vec, bytes_eq, copy_range, lines_of, split_lines, split_on, split_on_exec,
    split_tokens, tokens_of, views,
};
use crate::trusted::string_from_utf8;

verus! {

/// The request methods that the server knows.
#[derive(PartialEq, Eq, Structural, Clone, Copy, Debug)]
pub enum HttpMethod {
    Get,
    Post,
}

/// Why a request could not be parsed.
#[derive(PartialEq, Eq, Structural, Clone, Copy, Debug)]
pub enum HttpError {
    /// The request bytes are not UTF-8 text.
    InvalidEncoding,
    /// The request line is missing, or lacks its target or version.
    MalformedRequestLine,
    /// The method is neither `GET` nor `POST`.
    UnknownMethod,
}

/// The method word `GET`.
pub open spec fn get_word() -> Seq<u8> {
    ascii_bytes("GET"@)
}

/// The method word `POST`.
pub open spec fn post_word() -> Seq<u8> {
    ascii_bytes("POST"@)
}

/// The method that a word names, if any.
pub open spec fn method_of(word: Seq<u8>) -> Option<HttpMethod> {
    if word == get_word() {
        Some(HttpMethod::Get)
    } else if word == post_word() {
        Some(HttpMethod::Post)
    } else {
        None
    }
}

/// The request line that a line of text gives: method, target and version
/// are its first three whitespace-separated words. A line without words, or
/// with a known method but fewer than three words, is malformed; an unknown
/// first word is an unknown method.
pub open spec fn request_line_of(line: Seq<u8>) -> Result<(HttpMethod, Seq<u8>, Seq<u8>), HttpError> {
    let words = tokens_of(line);
    if words.len() == 0 {
        Err(HttpError::MalformedRequestLine)
    } else {
        match method_of(words[0]) {
            None => Err(HttpError::UnknownMethod),
            Some(m) => if words.len() < 3 {
                Err(HttpError::MalformedRequestLine)
            } else {
                Ok((m, words[1], words[2]))
            },
        }
    }
}

/// The separator between a header's name and its value.
pub open spec fn header_sep() -> Seq<u8> {
    ascii_bytes(": "@)
}

/// A header line holds the separator at least once.
pub open spec fn is_header_line(line: Seq<u8>) -> bool {
    split_on(line, header_sep()).len() >= 2
}

/// The header of a header line: the text before the first separator, and the
/// text between the first and the second (a value is cut at a second
/// separator).
pub open spec fn header_at(line: Seq<u8>) -> HeaderSpec {
    let parts = split_on(line, header_sep());
    (parts[0], parts[1])
}

/// The index of the first line from `i` on that is not a header line, or the
/// number of lines if every one is.
pub open spec fn header_block_end(lines: Seq<Seq<u8>>, i: int) -> int
    decreases lines.len() - i,
{
    if 0 <= i < lines.len() && is_header_line(lines[i]) {
        header_block_end(lines, i + 1)
    } else {
        i
    }
}

/// The headers of the lines from `from` up to `to`, in order.
pub open spec fn header_entries(lines: Seq<Seq<u8>>, from: int, to: int) -> Seq<HeaderSpec> {
    Seq::new((to - from) as nat, |j: int| header_at(lines[from + j]))
}

/// A parsed request as mathematical values.
pub struct RequestView {
    pub method: HttpMethod,
    pub target: Seq<u8>,
    pub version: Seq<u8>,
    pub headers: Map<Seq<u8>, Seq<u8>>,
    pub body: Option<Seq<u8>>,
}

/// The request that a sequence of lines gives: the request line first, then
/// header lines up to the first line that is not one, and the line after that
/// one, if there is such a line, as the body.
pub open spec fn request_of_lines(lines: Seq<Seq<u8>>) -> Result<RequestView, HttpError> {
    if lines.len() == 0 {
        Err(HttpError::MalformedRequestLine)
    } else {
        match request_line_of(lines[0]) {
            Err(e) => Err(e),
            Ok((method, target, version)) => {
                let end = header_block_end(lines, 1);
                Ok(
                    RequestView {
                        method,
                        target,
                        version,
                        headers: map_of(header_entries(lines, 1, end)),
                        body: if end + 1 < lines.len() {
                            Some(lines[end + 1])
                        } else {
                            None
                        },
                    },
                )
            },
        }
    }
}

/// The request that raw bytes give: they must be UTF-8 text, read line by line.
pub open spec fn request_of(bytes: Seq<u8>) -> Result<RequestView, HttpError> {
    if !valid_utf8(bytes) {
        Err(HttpError::InvalidEncoding)
    } else {
        request_of_lines(lines_of(bytes))
    }
}

/// A request line: method, target (as sent, never decoded) and version.
pub struct RequestLine {
    pub http_method: HttpMethod,
    pub request_target: Vec<u8>,
    pub http_version: Vec<u8>,
}

impl View for RequestLine {
    type V = (HttpMethod, Seq<u8>, Seq<u8>);

    open spec fn view(&self) -> (HttpMethod, Seq<u8>, Seq<u8>) {
        (self.http_method, self.request_target@, self.http_version@)
    }
}

/// A parsed request. The body is the single line after the header block, if
/// the client sent one.
pub struct HttpRequest {
    pub request_line: RequestLine,
    pub headers: HeaderMap,
    pub request_body: Option<Vec<u8>>,
}

impl View for HttpRequest {
    type V = RequestView;

    open spec fn view(&self) -> RequestView {
        RequestView {
            method: self.request_line.http_method,
            target: self.request_line.request_target@,
            version: self.request_line.http_version@,
            headers: self.headers@,
            body: match self.request_body {
                Some(b) => Some(b@),
                None => None,
            },
        }
    }
}

impl HttpMethod {
    /// The method that `s` names.
    pub fn from_str(s: &[u8]) -> (r: Result<HttpMethod, HttpError>)
        ensures
            match method_of(s@) {
                Some(m) => r == Ok::<HttpMethod, HttpError>(m),
                None => r == Err::<HttpMethod, HttpError>(HttpError::UnknownMethod),
            },
    {
        proof {
            reveal_strlit("GET");
            reveal_strlit("POST");
        }
        let get = ascii_vec("GET");
        let post = ascii_vec("POST");
        if bytes_eq(s, get.as_slice()) {
            Ok(HttpMethod::Get)
        } else if bytes_eq(s, post.as_slice()) {
            Ok(HttpMethod::Post)
        } else {
            Err(HttpError::UnknownMethod)
        }
    }
}

impl RequestLine {
    /// Parses a request line.
    pub fn from_str(request_line: &[u8]) -> (r: Result<RequestLine, HttpError>)
        ensures
            match r {
                Ok(line) => request_line_of(request_line@) == Ok::<
                    (HttpMethod, Seq<u8>, Seq<u8>),
                    HttpError,
                >(line@),
                Err(e) => request_line_of(request_line@) == Err::<
                    (HttpMethod, Seq<u8>, Seq<u8>),
                    HttpError,
                >(e),
            },
    {
        let words = split_tokens(request_line);
        assert(views(words@).len() == words@.len());
        if words.len() == 0 {
            return Err(HttpError::MalformedRequestLine);
        }
        assert(views(words@)[0] == words@[0]@);
        let http_method = match HttpMethod::from_str(words[0].as_slice()) {
            Ok(m) => m,
            Err(e) => {
                return Err(e);
            },
        };
        if words.len() < 3 {
            return Err(HttpError::MalformedRequestLine);
        }
        assert(views(words@)[1] == words@[1]@);
        assert(views(words@)[2] == words@[2]@);
        let request_target = copy_range(words[1].as_slice(), 0, words[1].len());
        let http_version = copy_range(words[2].as_slice(), 0, words[2].len());
        assert(request_target@ =~= words@[1]@);
        assert(http_version@ =~= words@[2]@);
        Ok(RequestLine { http_method, request_target, http_version })
    }
}

/// Splits a header line into its name and value.
pub fn parse_header(header: &[u8]) -> (r: Option<(Vec<u8>, Vec<u8>)>)
    ensures
        r.is_some() == is_header_line(header@),
        r matches Some((name, value)) ==> (name@, value@) == header_at(header@),
{
    proof {
        reveal_strlit(": ");
    }
    let sep = ascii_vec(": ");
    let parts = split_on_exec(header, sep.as_slice());
    assert(views(parts@).len() == parts@.len());
    if parts.len() < 2 {
        return None;
    }
    assert(views(parts@)[0] == parts@[0]@);
    assert(views(parts@)[1] == parts@[1]@);
    let name = copy_range(parts[0].as_slice(), 0, parts[0].len());
    let value = copy_range(parts[1].as_slice(), 0, parts[1].len());
    assert(name@ =~= parts@[0]@);
    assert(value@ =~= parts@[1]@);
    Some((name, value))
}

/// Where every line in `[i, end)` is a header line and the line at `end` is
/// not (or there is none), the header block from `i` ends at `end`.
pub proof fn lemma_header_block_end(lines: Seq<Seq<u8>>, i: int, end: int)
    requires
        0 <= i <= end <= lines.len(),
        forall|j: int| i <= j < end ==> is_header_line(#[trigger] lines[j]),
        end == lines.len() || !is_header_line(lines[end]),
    ensures
        header_block_end(lines, i) == end,
    decreases end - i,
{
    if i < end {
        lemma_header_block_end(lines, i + 1, end);
    }
}

impl HttpRequest {
    /// Parses the bytes of a request.
    pub fn from_bytes(bytes: &[u8]) -> (r: Result<HttpRequest, HttpError>)
        ensures
            match r {
                Ok(req) => request_of(bytes@) == Ok::<RequestView, HttpError>(req@),
                Err(e) => request_of(bytes@) == Err::<RequestView, HttpError>(e),
            },
    {
        let owned = copy_range(bytes, 0, bytes.len());
        assert(owned@ =~= bytes@);
        let text = match string_from_utf8(owned) {
            Some(t) => t,
            None => {
                return Err(HttpError::InvalidEncoding);
            },
        };
        let data: &[u8] = text.as_str().as_bytes();
        assert(data@ == bytes@);
        let lines = split_lines(data);
        let ghost ls = views(lines@);
        assert(ls.len() == lines@.len());
        if lines.len() == 0 {
            return Err(HttpError::MalformedRequestLine);
        }
        assert(ls[0] == lines@[0]@);
        let request_line = match RequestLine::from_str(lines[0].as_slice()) {
            Ok(l) => l,
            Err(e) => {
                return Err(e);
            },
        };
        let mut headers = HeaderMap::new();
        let mut index: usize = 1;
        assert(header_entries(ls, 1, 1) =~= Seq::<HeaderSpec>::empty());
        while index < lines.len()
            invariant
                ls == views(lines@),
                ls.len() == lines@.len(),
                1 <= index <= lines@.len(),
                forall|j: int| 1 <= j < index ==> is_header_line(#[trigger] ls[j]),
                headers@ == map_of(header_entries(ls, 1, index as int)),
            ensures
                1 <= index <= lines@.len(),
                forall|j: int| 1 <= j < index ==> is_header_line(#[trigger] ls[j]),
                headers@ == map_of(header_entries(ls, 1, index as int)),
                index == lines@.len() || !is_header_line(ls[index as int]),
            decreases lines@.len() - index,
        {
            assert(ls[index as int] == lines@[index as int]@);
            match parse_header(lines[index].as_slice()) {
                Some((name, value)) => {
                    headers.insert(name, value);
                    assert(header_entries(ls, 1, index + 1).drop_last() =~= header_entries(
                        ls,
                        1,
                        index as int,
                    ));
                    index += 1;
                },
                None => {
                    break ;
                },
            }
        }
        proof {
            lemma_header_block_end(ls, 1, index as int);
        }
        let request_body = if lines.len() - index > 1 {
            let line = &lines[index + 1];
            assert(ls[index + 1] == line@);
            let copy = copy_range(line.as_slice(), 0, line.len());
            assert(copy@ =~= line@);
            Some(copy)
        } else {
            None
        };
        Ok(HttpRequest { request_line, headers, request_body })
    }
}

} // verus!
