//! Byte-level text utilities shared by the request parser and the response
//! serializer: ASCII words, separator splitting, line splitting, whitespace
//! tokens and decimal rendering.
use vstd::prelude::*;
use vstd::utf8::{decode_utf8, encode_utf8_decode_utf8, valid_utf8};

use crate::trusted::string_from_utf8;

verus! {

/// Line feed.
pub const LF: u8 = 10;

/// Carriage return.
pub const CR: u8 = 13;

/// The bytes of an ASCII character sequence.
pub open spec fn ascii_bytes(s: Seq<char>) -> Seq<u8> {
    s.map_values(|c: char| c as u8)
}

/// The views of a sequence of byte vectors.
pub open spec fn views(v: Seq<Vec<u8>>) -> Seq<Seq<u8>> {
    v.map_values(|p: Vec<u8>| p@)
}

/// Copies an ASCII string literal into a byte vector.
pub fn ascii_vec(s: &str) -> (r: Vec<u8>)
    requires
        s.is_ascii(),
    ensures
        r@ == ascii_bytes(s@),
{
    broadcast use vstd::string::is_ascii_spec_bytes;

    let v = vstd::slice::slice_to_vec(s.as_bytes());
    assert(v@ =~= ascii_bytes(s@));
    v
}

/// The text that UTF-8 bytes encode.
pub fn byte_array_to_hex_string(arr: Vec<u8>) -> (r: String)
    requires
        valid_utf8(arr@),
    ensures
        r@ == decode_utf8(arr@),
{
    match string_from_utf8(arr) {
        Some(s) => {
            proof {
                encode_utf8_decode_utf8(s@);
            }
            s
        },
        None => {
            assert(false);
            String::new()
        },
    }
}

/// Copies a range of a byte slice into a vector.
pub fn copy_range(s: &[u8], from: usize, to: usize) -> (r: Vec<u8>)
    requires
        from <= to <= s@.len(),
    ensures
        r@ == s@.subrange(from as int, to as int),
{
    vstd::slice::slice_to_vec(vstd::slice::slice_subrange(s, from, to))
}

/// Byte-wise equality of two slices.
pub fn bytes_eq(a: &[u8], b: &[u8]) -> (r: bool)
    ensures
        r == (a@ == b@),
{
    if a.len() != b.len() {
        return false;
    }
    let mut i: usize = 0;
    while i < a.len()
        invariant
            a@.len() == b@.len(),
            i <= a@.len(),
            a@.subrange(0, i as int) == b@.subrange(0, i as int),
        decreases a@.len() - i,
    {
        if a[i] != b[i] {
            assert(a@[i as int] != b@[i as int]);
            return false;
        }
        assert(a@.subrange(0, i + 1) =~= a@.subrange(0, i as int).push(a@[i as int]));
        assert(b@.subrange(0, i + 1) =~= b@.subrange(0, i as int).push(b@[i as int]));
        i += 1;
    }
    assert(a@ =~= a@.subrange(0, i as int));
    assert(b@ =~= b@.subrange(0, i as int));
    true
}

/// True when `sep` stands in `s` at position `i`.
pub open spec fn occurs_at(s: Seq<u8>, sep: Seq<u8>, i: int) -> bool {
    0 <= i && i + sep.len() <= s.len() && s.subrange(i, i + sep.len()) == sep
}

/// True when `s` begins with `p`.
pub open spec fn has_prefix(s: Seq<u8>, p: Seq<u8>) -> bool {
    occurs_at(s, p, 0)
}

/// Tests whether `sep` stands in `s` at position `i`.
pub fn occurs_at_exec(s: &[u8], sep: &[u8], i: usize) -> (r: bool)
    ensures
        r == occurs_at(s@, sep@, i as int),
{
    if i > s.len() || sep.len() > s.len() - i {
        return false;
    }
    let mut k: usize = 0;
    while k < sep.len()
        invariant
            i + sep@.len() <= s@.len(),
            s@.len() <= usize::MAX,
            k <= sep@.len(),
            s@.subrange(i as int, i + k) == sep@.subrange(0, k as int),
        decreases sep@.len() - k,
    {
        if s[i + k] != sep[k] {
            assert(s@.subrange(i as int, i + sep@.len())[k as int] != sep@[k as int]);
            return false;
        }
        assert(s@.subrange(i as int, i + k + 1) =~= s@.subrange(i as int, i + k).push(s@[i + k]));
        assert(sep@.subrange(0, k + 1) =~= sep@.subrange(0, k as int).push(sep@[k as int]));
        k += 1;
    }
    assert(sep@ =~= sep@.subrange(0, k as int));
    true
}

/// Tests whether `s` begins with `p`.
pub fn starts_with(s: &[u8], p: &[u8]) -> (r: bool)
    ensures
        r == has_prefix(s@, p@),
{
    occurs_at_exec(s, p, 0)
}

/// The pieces of `s` between non-overlapping occurrences of `sep`, found
/// left to right; `start` is where the current piece began and `i` is where
/// the search for the next occurrence stands.
pub open spec fn split_scan(s: Seq<u8>, sep: Seq<u8>, start: int, i: int) -> Seq<Seq<u8>>
    decreases s.len() - i,
{
    if sep.len() == 0 || i < 0 || i + sep.len() > s.len() {
        seq![s.subrange(start, s.len() as int)]
    } else if occurs_at(s, sep, i) {
        seq![s.subrange(start, i)] + split_scan(s, sep, i + sep.len(), i + sep.len())
    } else {
        split_scan(s, sep, start, i + 1)
    }
}

/// `s` cut at each occurrence of the non-empty separator `sep`: an input
/// without `sep` gives one piece, and each occurrence adds one more.
pub open spec fn split_on(s: Seq<u8>, sep: Seq<u8>) -> Seq<Seq<u8>> {
    split_scan(s, sep, 0, 0)
}

/// A split always yields at least one piece.
pub proof fn lemma_split_scan_nonempty(s: Seq<u8>, sep: Seq<u8>, start: int, i: int)
    ensures
        split_scan(s, sep, start, i).len() >= 1,
    decreases s.len() - i,
{
    if sep.len() == 0 || i < 0 || i + sep.len() > s.len() {
    } else if occurs_at(s, sep, i) {
        lemma_split_scan_nonempty(s, sep, i + sep.len(), i + sep.len());
    } else {
        lemma_split_scan_nonempty(s, sep, start, i + 1);
    }
}

/// Cuts `s` at each occurrence of `sep`, as `str::split` does.
pub fn split_on_exec(s: &[u8], sep: &[u8]) -> (r: Vec<Vec<u8>>)
    requires
        sep@.len() > 0,
    ensures
        views(r@) == split_on(s@, sep@),
{
    let mut out: Vec<Vec<u8>> = Vec::new();
    let mut start: usize = 0;
    let mut i: usize = 0;
    while i < s.len() && sep.len() <= s.len() - i
        invariant
            sep@.len() > 0,
            start <= i <= s@.len(),
            views(out@) + split_scan(s@, sep@, start as int, i as int) == split_on(s@, sep@),
        decreases s@.len() - i,
    {
        if occurs_at_exec(s, sep, i) {
            let piece = copy_range(s, start, i);
            let ghost before = out@;
            out.push(piece);
            assert(views(out@) =~= views(before).push(piece@));
            i = i + sep.len();
            start = i;
        } else {
            i = i + 1;
        }
    }
    let ghost before = out@;
    let last = copy_range(s, start, s.len());
    out.push(last);
    assert(views(out@) =~= views(before).push(last@));
    assert(views(out@) =~= views(before) + split_scan(s@, sep@, start as int, i as int));
    out
}

/// Where no occurrence of `sep` starts in `[i, j)` and one starts at `j`, the
/// scan from `i` closes the current piece at `j`.
pub proof fn lemma_split_scan_skip(s: Seq<u8>, sep: Seq<u8>, start: int, i: int, j: int)
    requires
        sep.len() > 0,
        0 <= start <= i <= j,
        occurs_at(s, sep, j),
        forall|k: int| i <= k < j ==> !#[trigger] occurs_at(s, sep, k),
    ensures
        split_scan(s, sep, start, i) == seq![s.subrange(start, j)] + split_scan(
            s,
            sep,
            j + sep.len(),
            j + sep.len(),
        ),
    decreases j - i,
{
    if i < j {
        assert(!occurs_at(s, sep, i));
        lemma_split_scan_skip(s, sep, start, i + 1, j);
    }
}

/// Where no occurrence of `sep` starts from `i` on, the scan from `i` gives
/// the rest of `s` as its last piece.
pub proof fn lemma_split_scan_rest(s: Seq<u8>, sep: Seq<u8>, start: int, i: int)
    requires
        sep.len() > 0,
        0 <= start <= i,
        forall|k: int| i <= k ==> !#[trigger] occurs_at(s, sep, k),
    ensures
        split_scan(s, sep, start, i) == seq![s.subrange(start, s.len() as int)],
    decreases s.len() - i,
{
    if i + sep.len() <= s.len() {
        assert(!occurs_at(s, sep, i));
        lemma_split_scan_rest(s, sep, start, i + 1);
    }
}

/// Scanning `p + y` past `p` is scanning `y`.
pub proof fn lemma_split_scan_shift(p: Seq<u8>, y: Seq<u8>, sep: Seq<u8>, a: int, b: int)
    requires
        sep.len() > 0,
        0 <= a <= b <= y.len(),
    ensures
        split_scan(p + y, sep, p.len() + a, p.len() + b) == split_scan(y, sep, a, b),
    decreases y.len() - b,
{
    let s = p + y;
    let i = p.len() + b;
    if i + sep.len() > s.len() {
        assert(s.subrange(p.len() + a, s.len() as int) =~= y.subrange(a, y.len() as int));
    } else {
        assert(s.subrange(i, i + sep.len()) =~= y.subrange(b, b + sep.len()));
        if occurs_at(s, sep, i) {
            assert(s.subrange(p.len() + a, i) =~= y.subrange(a, b));
            lemma_split_scan_shift(p, y, sep, b + sep.len(), b + sep.len());
        } else {
            lemma_split_scan_shift(p, y, sep, a, b + 1);
        }
    }
}

/// Where no occurrence of `sep` starts inside `x`, splitting `x + sep + y`
/// gives `x` and then the pieces of `y`.
pub proof fn lemma_split_cons(x: Seq<u8>, sep: Seq<u8>, y: Seq<u8>)
    requires
        sep.len() > 0,
        forall|k: int| 0 <= k < x.len() ==> !#[trigger] occurs_at(x + sep + y, sep, k),
    ensures
        split_on(x + sep + y, sep) == seq![x] + split_on(y, sep),
{
    let s = x + sep + y;
    assert(s.subrange(x.len() as int, (x.len() + sep.len()) as int) =~= sep);
    lemma_split_scan_skip(s, sep, 0, 0, x.len() as int);
    assert(s.subrange(0, x.len() as int) =~= x);
    assert(s =~= (x + sep) + y);
    lemma_split_scan_shift(x + sep, y, sep, 0, 0);
}

/// Where `sep` does not occur in `x`, splitting `x` gives `x` alone.
pub proof fn lemma_split_none(x: Seq<u8>, sep: Seq<u8>)
    requires
        sep.len() > 0,
        forall|k: int| !#[trigger] occurs_at(x, sep, k),
    ensures
        split_on(x, sep) == seq![x],
{
    lemma_split_scan_rest(x, sep, 0, 0);
    assert(x.subrange(0, x.len() as int) =~= x);
}

/// A sequence without the byte `b` has no occurrence of `seq![b]`, also when
/// something follows it.
pub proof fn lemma_no_byte(x: Seq<u8>, b: u8, y: Seq<u8>)
    requires
        !x.contains(b),
    ensures
        forall|k: int| 0 <= k < x.len() ==> !#[trigger] occurs_at(x + seq![b] + y, seq![b], k),
{
    assert forall|k: int| 0 <= k < x.len() implies !#[trigger] occurs_at(
        x + seq![b] + y,
        seq![b],
        k,
    ) by {
        if occurs_at(x + seq![b] + y, seq![b], k) {
            assert((x + seq![b] + y).subrange(k, k + 1)[0] == x[k]);
            assert(x.contains(b));
        }
    }
}

/// `l` without one trailing carriage return.
pub open spec fn strip_cr(l: Seq<u8>) -> Seq<u8> {
    if l.len() > 0 && l.last() == CR {
        l.drop_last()
    } else {
        l
    }
}

/// The lines of `s`, as `str::lines` gives them: cut at each line feed, a
/// carriage return just before the line feed dropped, and no empty line after
/// a final line feed.
pub open spec fn lines_of(s: Seq<u8>) -> Seq<Seq<u8>> {
    let pieces = split_on(s, seq![LF]);
    let init = pieces.drop_last().map_values(|p: Seq<u8>| strip_cr(p));
    if pieces.last().len() == 0 {
        init
    } else {
        init.push(pieces.last())
    }
}

/// Splits `s` into lines.
pub fn split_lines(s: &[u8]) -> (r: Vec<Vec<u8>>)
    ensures
        views(r@) == lines_of(s@),
{
    let sep: Vec<u8> = vec![LF];
    assert(sep@ =~= seq![LF]);
    let pieces = split_on_exec(s, sep.as_slice());
    proof {
        lemma_split_scan_nonempty(s@, seq![LF], 0, 0);
    }
    let n = pieces.len();
    let mut out: Vec<Vec<u8>> = Vec::new();
    let mut k: usize = 0;
    while k + 1 < n
        invariant
            n == pieces@.len(),
            n >= 1,
            k + 1 <= n,
            views(pieces@) == split_on(s@, seq![LF]),
            views(out@) =~= views(pieces@).subrange(0, k as int).map_values(
                |p: Seq<u8>| strip_cr(p),
            ),
        decreases n - k,
    {
        let p = &pieces[k];
        let plen = p.len();
        let stripped = if plen > 0 && p[plen - 1] == CR {
            copy_range(p.as_slice(), 0, plen - 1)
        } else {
            copy_range(p.as_slice(), 0, plen)
        };
        assert(stripped@ =~= strip_cr(p@));
        let ghost before = out@;
        out.push(stripped);
        assert(views(out@) =~= views(before).push(stripped@));
        k += 1;
    }
    let last = &pieces[n - 1];
    if last.len() > 0 {
        let ghost before = out@;
        let copy = copy_range(last.as_slice(), 0, last.len());
        assert(copy@ =~= last@);
        out.push(copy);
        assert(views(out@) =~= views(before).push(last@));
    }
    out
}

/// An ASCII whitespace byte: space, tab, line feed, vertical tab, form feed or
/// carriage return.
pub open spec fn is_space(b: u8) -> bool {
    b == 32 || (9 <= b && b <= 13)
}

/// A two-byte UTF-8 whitespace character: U+0085 or U+00A0.
pub open spec fn is_space2(a: u8, b: u8) -> bool {
    a == 0xC2 && (b == 0x85 || b == 0xA0)
}

/// A three-byte UTF-8 whitespace character: U+1680, U+2000 to U+200A,
/// U+2028, U+2029, U+202F, U+205F or U+3000.
pub open spec fn is_space3(a: u8, b: u8, c: u8) -> bool {
    (a == 0xE1 && b == 0x9A && c == 0x80) || (a == 0xE2 && b == 0x80 && ((0x80 <= c && c
        <= 0x8A) || c == 0xA8 || c == 0xA9 || c == 0xAF)) || (a == 0xE2 && b == 0x81 && c
        == 0x9F) || (a == 0xE3 && b == 0x80 && c == 0x80)
}

/// The byte length of the whitespace character that starts at `i` in `s`,
/// or 0 where none does. These are the characters that `char::is_whitespace`
/// accepts, in their UTF-8 form; no other character's encoding starts with
/// one of these sequences, so in UTF-8 text a match is always a whole
/// character.
pub open spec fn space_len(s: Seq<u8>, i: int) -> int {
    if 0 <= i < s.len() && is_space(s[i]) {
        1
    } else if 0 <= i && i + 1 < s.len() && is_space2(s[i], s[i + 1]) {
        2
    } else if 0 <= i && i + 2 < s.len() && is_space3(s[i], s[i + 1], s[i + 2]) {
        3
    } else {
        0
    }
}

/// Computes `space_len(s@, i)`.
pub fn space_len_exec(s: &[u8], i: usize) -> (r: usize)
    ensures
        r == space_len(s@, i as int),
{
    let n = s.len();
    if i >= n {
        return 0;
    }
    let a = s[i];
    if a == 32 || (9 <= a && a <= 13) {
        return 1;
    }
    if n - i >= 2 {
        let b = s[i + 1];
        if a == 0xC2 && (b == 0x85 || b == 0xA0) {
            return 2;
        }
        if n - i >= 3 {
            let c = s[i + 2];
            if (a == 0xE1 && b == 0x9A && c == 0x80) || (a == 0xE2 && b == 0x80 && ((0x80 <= c
                && c <= 0x8A) || c == 0xA8 || c == 0xA9 || c == 0xAF)) || (a == 0xE2 && b
                == 0x81 && c == 0x9F) || (a == 0xE3 && b == 0x80 && c == 0x80) {
                return 3;
            }
        }
    }
    0
}

/// The maximal runs of non-whitespace text of `s` from `i` on, where the
/// current run began at `start`.
pub open spec fn tokens_scan(s: Seq<u8>, start: int, i: int) -> Seq<Seq<u8>>
    decreases s.len() - i,
{
    if i < 0 || i >= s.len() {
        if start < s.len() {
            seq![s.subrange(start, s.len() as int)]
        } else {
            seq![]
        }
    } else if space_len(s, i) > 0 {
        (if start < i {
            seq![s.subrange(start, i)]
        } else {
            seq![]
        }) + tokens_scan(s, i + space_len(s, i), i + space_len(s, i))
    } else {
        tokens_scan(s, start, i + 1)
    }
}

/// The whitespace-separated words of `s`, as `str::split_whitespace` gives
/// them for UTF-8 text: runs of text between whitespace characters, ASCII or
/// Unicode, with no empty words.
pub open spec fn tokens_of(s: Seq<u8>) -> Seq<Seq<u8>> {
    tokens_scan(s, 0, 0)
}

/// Splits `s` into its whitespace-separated words.
pub fn split_tokens(s: &[u8]) -> (r: Vec<Vec<u8>>)
    ensures
        views(r@) == tokens_of(s@),
{
    let mut out: Vec<Vec<u8>> = Vec::new();
    let mut start: usize = 0;
    let mut i: usize = 0;
    while i < s.len()
        invariant
            start <= i <= s@.len(),
            views(out@) + tokens_scan(s@, start as int, i as int) == tokens_of(s@),
        decreases s@.len() - i,
    {
        let w = space_len_exec(s, i);
        if w > 0 {
            if start < i {
                let piece = copy_range(s, start, i);
                let ghost before = out@;
                out.push(piece);
                assert(views(out@) =~= views(before).push(piece@));
            } else {
                assert(views(out@) + seq![] =~= views(out@));
            }
            i = i + w;
            start = i;
        } else {
            i = i + 1;
        }
    }
    if start < s.len() {
        let ghost before = out@;
        let piece = copy_range(s, start, s.len());
        out.push(piece);
        assert(views(out@) =~= views(before).push(piece@));
    } else {
        assert(views(out@) + seq![] =~= views(out@));
    }
    out
}

/// The decimal digits of `n`, most significant first, without leading zeros.
pub open spec fn decimal(n: nat) -> Seq<u8>
    decreases n,
{
    if n < 10 {
        seq![(48 + n) as u8]
    } else {
        decimal(n / 10).push((48 + n % 10) as u8)
    }
}

/// Appends the decimal digits of `n` to `out`.
pub fn push_decimal(out: &mut Vec<u8>, n: usize)
    ensures
        final(out)@ == old(out)@ + decimal(n as nat),
    decreases n,
{
    if n >= 10 {
        push_decimal(out, n / 10);
    }
    let digit: u8 = (48 + n % 10) as u8;
    out.push(digit);
    assert(out@ =~= old(out)@ + decimal(n as nat));
}

} // verus!
