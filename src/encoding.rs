//! Content-encoding negotiation and compression of plain bodies.
use vstd::prelude::*;

use crate::headers::HeaderMap;
use crate::request::HttpRequest;
use crate::response::{BodyView, ResponseBody};
use crate::text::{ascii_bytes, ascii_vec, bytes_eq, copy_range, split_on, split_on_exec, views};
use crate::trusted::{gzip_encoding, gzip_of};

verus! {

/// The encoding name `gzip`.
pub open spec fn gzip_word() -> Seq<u8> {
    ascii_bytes("gzip"@)
}

/// The encodings that the server supports, in its order of preference.
pub open spec fn supported_encodings() -> Seq<Seq<u8>> {
    seq![gzip_word()]
}

/// The separator of the client's list of encodings.
pub open spec fn encoding_list_sep() -> Seq<u8> {
    ascii_bytes(", "@)
}

/// The header name `Accept-Encoding`.
pub open spec fn accept_encoding_name() -> Seq<u8> {
    ascii_bytes("Accept-Encoding"@)
}

/// The header name `Content-Encoding`.
pub open spec fn content_encoding_name() -> Seq<u8> {
    ascii_bytes("Content-Encoding"@)
}

/// The elements of `server` that also occur in `client`, in `server`'s order.
pub open spec fn common_elements(server: Seq<Seq<u8>>, client: Seq<Seq<u8>>) -> Seq<Seq<u8>>
    decreases server.len(),
{
    if server.len() == 0 {
        Seq::empty()
    } else {
        let init = common_elements(server.drop_last(), client);
        if client.contains(server.last()) {
            init.push(server.last())
        } else {
            init
        }
    }
}

/// The value of the `Accept-Encoding` header, or empty text without one.
pub open spec fn accepted_value(headers: Map<Seq<u8>, Seq<u8>>) -> Seq<u8> {
    if headers.contains_key(accept_encoding_name()) {
        headers[accept_encoding_name()]
    } else {
        Seq::empty()
    }
}

/// The encodings that a client lists.
pub open spec fn client_encodings(accept: Seq<u8>) -> Seq<Seq<u8>> {
    split_on(accept, encoding_list_sep())
}

/// The first encoding, in the server's order, that the client also lists.
pub open spec fn chosen_encoding(accept: Seq<u8>) -> Option<Seq<u8>> {
    let common = common_elements(supported_encodings(), client_encodings(accept));
    if common.len() > 0 {
        Some(common[0])
    } else {
        None
    }
}

/// The body is compressed: it is plain text, and gzip was negotiated.
pub open spec fn gzip_applies(body: BodyView, accept: Seq<u8>) -> bool {
    body is Plain && chosen_encoding(accept) == Some(gzip_word())
}

/// The body after negotiation: compressed where gzip applies, else as it was.
pub open spec fn encoded_body(body: BodyView, accept: Seq<u8>) -> BodyView {
    match body {
        BodyView::Plain(t) => if chosen_encoding(accept) == Some(gzip_word()) {
            BodyView::Encoded(gzip_of(t))
        } else {
            body
        },
        _ => body,
    }
}

/// The header fragment after negotiation: `Content-Encoding: gzip` added
/// where gzip applies.
pub open spec fn encoded_headers(
    headers: Map<Seq<u8>, Seq<u8>>,
    body: BodyView,
    accept: Seq<u8>,
) -> Map<Seq<u8>, Seq<u8>> {
    if gzip_applies(body, accept) {
        headers.insert(content_encoding_name(), gzip_word())
    } else {
        headers
    }
}

/// Gzip is chosen exactly when the client lists it.
pub proof fn lemma_gzip_chosen(accept: Seq<u8>)
    ensures
        (chosen_encoding(accept) == Some(gzip_word())) <==> client_encodings(accept).contains(
            gzip_word(),
        ),
        chosen_encoding(accept) is None <==> !client_encodings(accept).contains(gzip_word()),
{
    let server = supported_encodings();
    assert(server.drop_last() =~= Seq::<Seq<u8>>::empty());
    assert(common_elements(server.drop_last(), client_encodings(accept)) =~= Seq::<
        Seq<u8>,
    >::empty());
}

/// Tests whether `list` holds `s`.
fn contains_bytes(list: &[Vec<u8>], s: &[u8]) -> (r: bool)
    ensures
        r == views(list@).contains(s@),
{
    let mut i: usize = 0;
    while i < list.len()
        invariant
            i <= list@.len(),
            forall|j: int| 0 <= j < i ==> list@[j]@ != s@,
        decreases list@.len() - i,
    {
        if bytes_eq(list[i].as_slice(), s) {
            assert(views(list@)[i as int] == s@);
            return true;
        }
        i += 1;
    }
    assert forall|j: int| 0 <= j < views(list@).len() implies views(list@)[j] != s@ by {
        assert(views(list@)[j] == list@[j]@);
    }
    false
}

/// The elements of `server` that also occur in `client`, in `server`'s order.
pub fn common_str_elements(server: &[Vec<u8>], client: &[Vec<u8>]) -> (r: Vec<Vec<u8>>)
    ensures
        views(r@) == common_elements(views(server@), views(client@)),
{
    let mut result: Vec<Vec<u8>> = Vec::new();
    let mut i: usize = 0;
    assert(views(server@).subrange(0, 0) =~= Seq::<Seq<u8>>::empty());
    while i < server.len()
        invariant
            i <= server@.len(),
            views(result@) == common_elements(
                views(server@).subrange(0, i as int),
                views(client@),
            ),
        decreases server@.len() - i,
    {
        let s = &server[i];
        let ghost prefix = views(server@).subrange(0, i + 1);
        assert(prefix.drop_last() =~= views(server@).subrange(0, i as int));
        assert(prefix.last() == s@);
        if contains_bytes(client, s.as_slice()) {
            let copy = copy_range(s.as_slice(), 0, s.len());
            assert(copy@ =~= s@);
            let ghost before = result@;
            result.push(copy);
            assert(views(result@) =~= views(before).push(copy@));
        }
        i += 1;
    }
    assert(views(server@).subrange(0, i as int) =~= views(server@));
    result
}

/// Compresses a plain body where the request's `Accept-Encoding` lists gzip,
/// and records the encoding in `headers`. Other bodies pass unchanged.
pub fn encode_body(http_request: &HttpRequest, headers: &mut HeaderMap, body: ResponseBody) -> (r:
    ResponseBody)
    ensures
        r@ == encoded_body(body@, accepted_value(http_request@.headers)),
        final(headers)@ == encoded_headers(
            old(headers)@,
            body@,
            accepted_value(http_request@.headers),
        ),
{
    let text = match body {
        ResponseBody::Plain(t) => t,
        other => {
            return other;
        },
    };
    proof {
        reveal_strlit("Accept-Encoding");
        reveal_strlit(", ");
        reveal_strlit("gzip");
        reveal_strlit("Content-Encoding");
    }
    let accept = match http_request.headers.get(ascii_vec("Accept-Encoding").as_slice()) {
        Some(v) => copy_range(v.as_slice(), 0, v.len()),
        None => Vec::new(),
    };
    assert(accept@ =~= accepted_value(http_request@.headers));
    let client = split_on_exec(accept.as_slice(), ascii_vec(", ").as_slice());
    let gzip = ascii_vec("gzip");
    let mut supported: Vec<Vec<u8>> = Vec::new();
    supported.push(ascii_vec("gzip"));
    assert(views(supported@) =~= supported_encodings());
    let common = common_str_elements(supported.as_slice(), client.as_slice());
    assert(views(common@).len() == common@.len());
    if common.len() > 0 && bytes_eq(common[0].as_slice(), gzip.as_slice()) {
        assert(views(common@)[0] == common@[0]@);
        headers.insert(ascii_vec("Content-Encoding"), gzip);
        ResponseBody::Encoded(gzip_encoding(text.as_slice()))
    } else {
        proof {
            if common@.len() > 0 {
                assert(views(common@)[0] == common@[0]@);
            }
        }
        ResponseBody::Plain(text)
    }
}

} // verus!
