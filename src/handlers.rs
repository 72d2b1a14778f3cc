//! The handlers: each gives a header fragment and a body. File handlers are
//! split around their I/O: the path to use is computed here, and the outcome
//! of the read is turned into a page here.
use vstd::prelude::*;

use crate::headers::HeaderMap;
use crate::request::HttpRequest;
use crate::response::{BodyView, ResponseBody};
use crate::router::files_prefix;
use crate::text::{
    ascii_bytes, ascii_vec, copy_range, has_prefix, lemma_no_byte, lemma_split_cons,
    lemma_split_scan_nonempty, split_on, split_on_exec, views,
};

verus! {

/// The path separator `/`.
pub open spec fn slash() -> Seq<u8> {
    seq![47u8]
}

/// The last `/`-separated segment of a target.
pub open spec fn last_segment(target: Seq<u8>) -> Seq<u8> {
    split_on(target, slash()).last()
}

/// The file name of a target under `/files/`: its third `/`-separated
/// segment, the text after `/files/` up to the next `/`.
pub open spec fn file_name(target: Seq<u8>) -> Seq<u8> {
    split_on(target, slash())[2]
}

/// The header name `Content-Type`.
pub open spec fn content_type_name() -> Seq<u8> {
    ascii_bytes("Content-Type"@)
}

/// The content type `text/plain`.
pub open spec fn text_plain() -> Seq<u8> {
    ascii_bytes("text/plain"@)
}

/// The content type `application/octet-stream`.
pub open spec fn octet_stream() -> Seq<u8> {
    ascii_bytes("application/octet-stream"@)
}

/// The header name `User-Agent`.
pub open spec fn user_agent_name() -> Seq<u8> {
    ascii_bytes("User-Agent"@)
}

/// A header fragment holding only a content type.
pub open spec fn content_type(t: Seq<u8>) -> Map<Seq<u8>, Seq<u8>> {
    Map::empty().insert(content_type_name(), t)
}

/// A header map with the given content type alone.
fn content_type_headers(t: &str) -> (r: HeaderMap)
    requires
        t.is_ascii(),
    ensures
        r@ == content_type(ascii_bytes(t@)),
{
    proof {
        reveal_strlit("Content-Type");
    }
    let mut headers = HeaderMap::new();
    headers.insert(ascii_vec("Content-Type"), ascii_vec(t));
    headers
}

/// The echo page: the last segment of the target, as plain text.
pub fn echo_page(http_request: &HttpRequest) -> (r: (HeaderMap, ResponseBody))
    ensures
        r.0@ == content_type(text_plain()),
        r.1@ == BodyView::Plain(last_segment(http_request@.target)),
{
    let target = &http_request.request_line.request_target;
    let sep: Vec<u8> = vec![47u8];
    assert(sep@ =~= slash());
    let parts = split_on_exec(target.as_slice(), sep.as_slice());
    proof {
        lemma_split_scan_nonempty(target@, slash(), 0, 0);
    }
    assert(views(parts@).len() == parts@.len());
    let last = &parts[parts.len() - 1];
    assert(views(parts@).last() == last@);
    let text = copy_range(last.as_slice(), 0, last.len());
    assert(text@ =~= last@);
    proof {
        reveal_strlit("text/plain");
    }
    let headers = content_type_headers("text/plain");
    (headers, ResponseBody::Plain(text))
}

/// The client-identification page: the `User-Agent` header's value as plain
/// text, or nothing when the request has no such header.
pub fn user_agent_page(http_request: &HttpRequest) -> (r: Option<(HeaderMap, ResponseBody)>)
    ensures
        r.is_some() == http_request@.headers.contains_key(user_agent_name()),
        r matches Some((headers, body)) ==> headers@ == content_type(text_plain()) && body@
            == BodyView::Plain(http_request@.headers[user_agent_name()]),
{
    proof {
        reveal_strlit("User-Agent");
        reveal_strlit("text/plain");
    }
    let name = ascii_vec("User-Agent");
    match http_request.headers.get(name.as_slice()) {
        Some(value) => {
            let text = copy_range(value.as_slice(), 0, value.len());
            assert(text@ =~= value@);
            Some((content_type_headers("text/plain"), ResponseBody::Plain(text)))
        },
        None => None,
    }
}

/// The file page for contents that were read: the contents as an octet
/// stream.
pub fn get_file_page(content: Vec<u8>) -> (r: (HeaderMap, ResponseBody))
    ensures
        r.0@ == content_type(octet_stream()),
        r.1@ == BodyView::Plain(content@),
{
    proof {
        reveal_strlit("application/octet-stream");
    }
    (content_type_headers("application/octet-stream"), ResponseBody::Plain(content))
}

/// A target under `/files/` has a file name segment: it is the first piece of
/// what follows the prefix.
pub proof fn lemma_file_name(target: Seq<u8>)
    requires
        has_prefix(target, files_prefix()),
    ensures
        split_on(target, slash()).len() >= 3,
        file_name(target) == split_on(target.subrange(7, target.len() as int), slash())[0],
{
    reveal_strlit("/files/");
    let rest = target.subrange(7, target.len() as int);
    let files = seq![102u8, 105u8, 108u8, 101u8, 115u8];
    assert(files_prefix() =~= seq![47u8, 102u8, 105u8, 108u8, 101u8, 115u8, 47u8]);
    assert(target.subrange(0, 7) == files_prefix());
    assert(target =~= target.subrange(0, 7) + rest);
    assert(target =~= Seq::<u8>::empty() + slash() + (files + slash() + rest));
    lemma_split_cons(Seq::<u8>::empty(), slash(), files + slash() + rest);
    lemma_no_byte(files, 47u8, rest);
    assert(!files.contains(47u8)) by {
        if files.contains(47u8) {
            let k = choose|k: int| 0 <= k < files.len() && files[k] == 47u8;
        }
    }
    lemma_split_cons(files, slash(), rest);
    lemma_split_scan_nonempty(rest, slash(), 0, 0);
}

/// The path of the file that a target under `/files/` names: the storage
/// directory followed by the file name.
pub fn file_path(storage_dir: &[u8], target: &[u8]) -> (r: Vec<u8>)
    requires
        has_prefix(target@, files_prefix()),
    ensures
        r@ == storage_dir@ + file_name(target@),
{
    proof {
        lemma_file_name(target@);
    }
    let sep: Vec<u8> = vec![47u8];
    assert(sep@ =~= slash());
    let parts = split_on_exec(target, sep.as_slice());
    assert(views(parts@).len() == parts@.len());
    assert(views(parts@)[2] == parts@[2]@);
    let mut path = copy_range(storage_dir, 0, storage_dir.len());
    let name = &parts[2];
    let mut i: usize = 0;
    while i < name.len()
        invariant
            i <= name@.len(),
            path@ == storage_dir@ + name@.subrange(0, i as int),
        decreases name@.len() - i,
    {
        path.push(name[i]);
        assert(name@.subrange(0, i + 1) =~= name@.subrange(0, i as int).push(name@[i as int]));
        i += 1;
    }
    assert(name@.subrange(0, i as int) =~= name@);
    assert(storage_dir@.subrange(0, storage_dir@.len() as int) =~= storage_dir@);
    path
}

} // verus!
