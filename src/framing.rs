//! Reading a serialized response back: its status line and header block,
//! read with the same line and header rules as requests, give back the
//! status and the headers that were written.
use vstd::prelude::*;

use crate::headers::{map_of, HeaderSpec};
use crate::request::{
    header_at, header_block_end, header_entries, header_sep, is_header_line,
    lemma_header_block_end,
};
use crate::response::{
    body_bytes, header_block, header_line, http_1_1, status_line_text, wire, BodyView,
    StatusCode,
};
use crate::text::{
    decimal, lemma_no_byte, lemma_split_cons, lemma_split_none,
    lemma_split_scan_nonempty, lines_of, occurs_at, split_on, strip_cr, CR, LF,
};

verus! {

/// The status whose status line `line` is, if any.
pub open spec fn status_of_line(line: Seq<u8>) -> Option<StatusCode> {
    if line == status_line_text(http_1_1(), StatusCode::OK) {
        Some(StatusCode::OK)
    } else if line == status_line_text(http_1_1(), StatusCode::Created) {
        Some(StatusCode::Created)
    } else if line == status_line_text(http_1_1(), StatusCode::BadRequest) {
        Some(StatusCode::BadRequest)
    } else if line == status_line_text(http_1_1(), StatusCode::NotFound) {
        Some(StatusCode::NotFound)
    } else {
        None
    }
}

/// The status and headers that the head of a serialized response gives: the
/// first line is the status line, and header lines follow up to the first
/// line that is not one.
pub open spec fn response_head_of(bytes: Seq<u8>) -> Option<(StatusCode, Map<Seq<u8>, Seq<u8>>)> {
    let lines = lines_of(bytes);
    if lines.len() == 0 {
        None
    } else {
        match status_of_line(lines[0]) {
            None => None,
            Some(status) => Some(
                (status, map_of(header_entries(lines, 1, header_block_end(lines, 1)))),
            ),
        }
    }
}

/// A header that survives the trip through the wire: neither its name nor
/// its value holds a line feed or the name-value separator.
pub open spec fn framable(h: HeaderSpec) -> bool {
    &&& !h.0.contains(LF)
    &&& !h.1.contains(LF)
    &&& forall|k: int| !#[trigger] occurs_at(h.0, header_sep(), k)
    &&& forall|k: int| !#[trigger] occurs_at(h.1, header_sep(), k)
}

/// A header line without its line end.
pub open spec fn header_text(h: HeaderSpec) -> Seq<u8> {
    h.0 + header_sep() + h.1
}

/// The pieces that the header lines of `e` give when cut at line feeds.
pub open spec fn header_pieces(e: Seq<HeaderSpec>) -> Seq<Seq<u8>> {
    Seq::new(e.len(), |i: int| header_text(e[i]) + seq![CR])
}

/// The decimal forms of the status codes.
proof fn lemma_code_digits()
    ensures
        decimal(200) == seq![50u8, 48u8, 48u8],
        decimal(201) == seq![50u8, 48u8, 49u8],
        decimal(400) == seq![52u8, 48u8, 48u8],
        decimal(404) == seq![52u8, 48u8, 52u8],
{
    assert(decimal(2) == seq![50u8]);
    assert(decimal(4) == seq![52u8]);
    assert(decimal(20) =~= seq![50u8, 48u8]);
    assert(decimal(40) =~= seq![52u8, 48u8]);
    assert(decimal(200) =~= seq![50u8, 48u8, 48u8]);
    assert(decimal(201) =~= seq![50u8, 48u8, 49u8]);
    assert(decimal(400) =~= seq![52u8, 48u8, 48u8]);
    assert(decimal(404) =~= seq![52u8, 48u8, 52u8]);
}

/// The protocol version's bytes.
proof fn lemma_version_bytes()
    ensures
        http_1_1() == seq![72u8, 84u8, 84u8, 80u8, 47u8, 49u8, 46u8, 49u8],
{
    reveal_strlit("HTTP/1.1");
    assert(http_1_1() =~= seq![72u8, 84u8, 84u8, 80u8, 47u8, 49u8, 46u8, 49u8]);
}

/// The reason phrases hold no line feed.
proof fn lemma_reason_no_lf(status: StatusCode)
    ensures
        !status.reason().contains(LF),
{
    reveal_strlit("OK");
    reveal_strlit("Created");
    reveal_strlit("Bad Request");
    reveal_strlit("Not Found");
    let r = status.reason();
    assert forall|k: int| 0 <= k < r.len() implies r[k] != LF by {
        match status {
            StatusCode::OK => {
                assert(r =~= seq![79u8, 75u8]);
            },
            StatusCode::Created => {
                assert(r =~= seq![67u8, 114u8, 101u8, 97u8, 116u8, 101u8, 100u8]);
            },
            StatusCode::BadRequest => {
                assert(r =~= seq![66u8, 97u8, 100u8, 32u8, 82u8, 101u8, 113u8, 117u8, 101u8, 115u8, 116u8]);
            },
            StatusCode::NotFound => {
                assert(r =~= seq![78u8, 111u8, 116u8, 32u8, 70u8, 111u8, 117u8, 110u8, 100u8]);
            },
        }
    }
}

/// A status line holds no line feed, and gives back its status.
pub proof fn lemma_status_line(status: StatusCode)
    ensures
        !status_line_text(http_1_1(), status).contains(LF),
        status_of_line(status_line_text(http_1_1(), status)) == Some(status),
{
    lemma_code_digits();
    lemma_version_bytes();
    lemma_reason_no_lf(status);
    let s = status_line_text(http_1_1(), status);
    let d = decimal(status.code());
    assert(d.len() == 3);
    assert forall|k: int| 0 <= k < s.len() implies s[k] != LF by {
        if k >= 13 {
            assert(s[k] == status.reason()[k - 13]);
        }
    }
    assert forall|other: StatusCode| #[trigger]
        status_line_text(http_1_1(), other) == s implies other == status by {
        let t = status_line_text(http_1_1(), other);
        assert(t[9] == decimal(other.code())[0] && s[9] == d[0]);
        assert(t[11] == decimal(other.code())[2] && s[11] == d[2]);
    }
}

/// A framable header line is a header line, and gives back its header.
proof fn lemma_header_text(h: HeaderSpec)
    requires
        framable(h),
    ensures
        is_header_line(header_text(h)),
        header_at(header_text(h)) == h,
{
    reveal_strlit(": ");
    let sep = header_sep();
    assert(sep =~= seq![58u8, 32u8]);
    let s = h.0 + sep + h.1;
    assert forall|k: int| 0 <= k < h.0.len() implies !#[trigger] occurs_at(s, sep, k) by {
        if k + 2 <= h.0.len() {
            assert(s.subrange(k, k + 2) =~= h.0.subrange(k, k + 2));
            assert(!occurs_at(h.0, sep, k));
        } else {
            assert(s[k + 1] == 58u8);
            assert(s.subrange(k, k + 2)[1] == s[k + 1]);
        }
    }
    lemma_split_cons(h.0, sep, h.1);
    lemma_split_none(h.1, sep);
}

/// Cutting header lines at line feeds gives one piece per header.
proof fn lemma_header_pieces(e: Seq<HeaderSpec>, t: Seq<u8>)
    requires
        forall|i: int| 0 <= i < e.len() ==> framable(#[trigger] e[i]),
    ensures
        split_on(header_block(e) + t, seq![LF]) == header_pieces(e) + split_on(t, seq![LF]),
    decreases e.len(),
{
    if e.len() == 0 {
        assert(header_block(e) + t =~= t);
        assert(header_pieces(e) + split_on(t, seq![LF]) =~= split_on(t, seq![LF]));
    } else {
        let init = e.drop_last();
        let h = e.last();
        assert(framable(e[e.len() - 1]));
        let text = header_text(h) + seq![CR];
        let rest = text + seq![LF] + t;
        assert(header_line(h) + t =~= rest);
        assert(header_block(e) + t =~= header_block(init) + rest);
        lemma_header_pieces(init, rest);
        assert(!text.contains(LF)) by {
            reveal_strlit(": ");
            assert(header_sep() =~= seq![58u8, 32u8]);
            assert forall|k: int| 0 <= k < text.len() implies text[k] != LF by {
                if k < h.0.len() {
                    assert(text[k] == h.0[k]);
                } else if k >= h.0.len() + 2 && k < h.0.len() + 2 + h.1.len() {
                    assert(text[k] == h.1[k - h.0.len() - 2]);
                }
            }
        }
        lemma_no_byte(text, LF, t);
        lemma_split_cons(text, seq![LF], t);
        assert(header_pieces(e) =~= header_pieces(init).push(text));
        assert(header_pieces(init) + (seq![text] + split_on(t, seq![LF])) =~= header_pieces(e)
            + split_on(t, seq![LF]));
    }
}

/// A status line with a version that holds no line feed holds none.
pub proof fn lemma_status_line_no_lf(version: Seq<u8>, status: StatusCode)
    requires
        !version.contains(LF),
    ensures
        !status_line_text(version, status).contains(LF),
{
    lemma_code_digits();
    lemma_reason_no_lf(status);
    let s = status_line_text(version, status);
    let v = version.len() as int;
    let d = decimal(status.code());
    assert(d.len() == 3);
    assert forall|k: int| 0 <= k < s.len() implies s[k] != LF by {
        if k < v {
            assert(s[k] == version[k]);
        } else if v + 1 <= k < v + 4 {
            assert(s[k] == d[k - v - 1]);
        } else if k >= v + 5 {
            assert(s[k] == status.reason()[k - v - 5]);
        }
    }
}

/// Reading header lines back gives the headers that were written: the lines
/// of `join_headers`' output are one header line per entry, in order, and each
/// parses to its entry. This holds for headers whose names and values hold no
/// line feed and no `": "`.
pub proof fn lemma_header_block_round_trip(entries: Seq<HeaderSpec>)
    requires
        forall|i: int| 0 <= i < entries.len() ==> framable(#[trigger] entries[i]),
    ensures
        lines_of(header_block(entries)).len() == entries.len(),
        header_block_end(lines_of(header_block(entries)), 0) == entries.len(),
        header_entries(lines_of(header_block(entries)), 0, entries.len() as int) == entries,
        map_of(header_entries(lines_of(header_block(entries)), 0, entries.len() as int))
            == map_of(entries),
{
    let n = entries.len() as int;
    let lf = seq![LF];
    let empty = Seq::<u8>::empty();
    lemma_header_pieces(entries, empty);
    assert(header_block(entries) + empty =~= header_block(entries));
    assert forall|k: int| !#[trigger] occurs_at(empty, lf, k) by {}
    lemma_split_none(empty, lf);
    let pieces = split_on(header_block(entries), lf);
    assert(pieces =~= header_pieces(entries) + seq![empty]);
    let lines = lines_of(header_block(entries));
    assert(pieces.drop_last() =~= header_pieces(entries));
    assert(lines.len() == n);
    assert forall|i: int| 0 <= i < n implies #[trigger] lines[i] == header_text(entries[i]) by {
        assert(strip_cr(header_text(entries[i]) + seq![CR]) =~= header_text(entries[i]));
    }
    assert forall|j: int| 0 <= j < n implies is_header_line(#[trigger] lines[j]) by {
        lemma_header_text(entries[j]);
    }
    lemma_header_block_end(lines, 0, n);
    assert forall|i: int| 0 <= i < n implies #[trigger] header_entries(lines, 0, n)[i]
        == entries[i] by {
        lemma_header_text(entries[i]);
    }
    assert(header_entries(lines, 0, n) =~= entries);
}

/// Reading a serialized response back gives the status and the headers that
/// were written. Written with a version that holds no line feed, status
/// `status`, headers `entries` in that order, and any body, the wire form's
/// first line is the status line, which names `status` with its reason
/// phrase; the header lines that follow give `entries` again, in order; the
/// block ends at the empty line; and so, with version `HTTP/1.1`, the head
/// read back is `status` with the headers' mapping. This holds for headers
/// whose names and values hold no line feed and no `": "`.
pub proof fn lemma_framing_round_trip(
    version: Seq<u8>,
    status: StatusCode,
    entries: Seq<HeaderSpec>,
    body: BodyView,
)
    requires
        !version.contains(LF),
        forall|i: int| 0 <= i < entries.len() ==> framable(#[trigger] entries[i]),
    ensures
        lines_of(wire(version, status, entries, body))[0] == status_line_text(version, status),
        header_block_end(lines_of(wire(version, status, entries, body)), 1) == entries.len()
            + 1,
        header_entries(
            lines_of(wire(version, status, entries, body)),
            1,
            entries.len() + 1 as int,
        ) == entries,
        version == http_1_1() ==> response_head_of(wire(version, status, entries, body)) == Some(
            (status, map_of(entries)),
        ),
{
    let n = entries.len() as int;
    let s = status_line_text(version, status);
    let b = body_bytes(body);
    let w = wire(version, status, entries, body);
    let lf = seq![LF];
    lemma_status_line_no_lf(version, status);
    lemma_status_line(status);
    // The status line.
    let first = s + seq![CR];
    let after_status = header_block(entries) + (seq![CR] + lf + b);
    assert(w =~= first + lf + after_status);
    assert(!first.contains(LF)) by {
        assert forall|k: int| 0 <= k < first.len() implies first[k] != LF by {
            if k < s.len() {
                assert(first[k] == s[k]);
            }
        }
    }
    lemma_no_byte(first, LF, after_status);
    lemma_split_cons(first, lf, after_status);
    // The header lines.
    lemma_header_pieces(entries, seq![CR] + lf + b);
    // The empty line.
    assert(!seq![CR].contains(LF)) by {
        assert forall|k: int| 0 <= k < 1 implies seq![CR][k] != LF by {}
    }
    lemma_no_byte(seq![CR], LF, b);
    lemma_split_cons(seq![CR], lf, b);
    lemma_split_scan_nonempty(b, lf, 0, 0);
    let pieces = split_on(w, lf);
    let tail = split_on(b, lf);
    assert(pieces =~= seq![first] + header_pieces(entries) + seq![seq![CR]] + tail);
    let lines = lines_of(w);
    assert(pieces.len() >= n + 3);
    assert forall|k: int| 0 <= k < pieces.len() - 1 implies #[trigger] lines[k] == strip_cr(
        pieces[k],
    ) by {
        let init = pieces.drop_last().map_values(|p: Seq<u8>| strip_cr(p));
        assert(init[k] == strip_cr(pieces[k]));
    }
    assert(lines.len() >= n + 2);
    assert(lines[0] == strip_cr(pieces[0]));
    assert(strip_cr(first) =~= s);
    assert forall|i: int| 0 <= i < n implies #[trigger] lines[1 + i] == header_text(entries[i]) by {
        assert(lines[1 + i] == strip_cr(pieces[1 + i]));
        assert(pieces[1 + i] == header_text(entries[i]) + seq![CR]);
        assert(strip_cr(header_text(entries[i]) + seq![CR]) =~= header_text(entries[i]));
    }
    assert(lines[n + 1] == strip_cr(pieces[n + 1]));
    assert(strip_cr(seq![CR]) =~= Seq::<u8>::empty());
    assert forall|j: int| 1 <= j < n + 1 implies is_header_line(#[trigger] lines[j]) by {
        assert(lines[1 + (j - 1)] == header_text(entries[j - 1]));
        lemma_header_text(entries[j - 1]);
    }
    assert(!is_header_line(lines[n + 1])) by {
        reveal_strlit(": ");
        assert(header_sep() =~= seq![58u8, 32u8]);
        lemma_split_none(Seq::<u8>::empty(), header_sep());
    }
    lemma_header_block_end(lines, 1, n + 1);
    assert forall|i: int| 0 <= i < n implies #[trigger] header_entries(lines, 1, n + 1)[i]
        == entries[i] by {
        assert(lines[1 + i] == header_text(entries[i]));
        lemma_header_text(entries[i]);
    }
    assert(header_entries(lines, 1, n + 1) =~= entries);
}

} // verus!
