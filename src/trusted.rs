//! The calls that this library makes into code it does not verify: std's
//! UTF-8 validation and flate2's gzip encoder. Each contract below is taken
//! on trust.
use vstd::prelude::*;
use vstd::utf8::{encode_utf8, valid_utf8};

use flate2::write::GzEncoder;
use flate2::Compression;
use std::io::Write;

verus! {

/// Relies on `String::from_utf8`: it accepts exactly the well-formed UTF-8
/// byte sequences, and the string it returns is made of those bytes.
#[verifier::external_body]
pub(crate) fn string_from_utf8(bytes: Vec<u8>) -> (r: Option<String>)
    ensures
        r.is_some() == valid_utf8(bytes@),
        r matches Some(s) ==> encode_utf8(s@) == bytes@,
{
    String::from_utf8(bytes).ok()
}

/// The gzip member that flate2 writes for `data` at the default compression
/// level, with the default header (no file name, no time stamp, unknown
/// operating system).
pub uninterp spec fn gzip_of(data: Seq<u8>) -> Seq<u8>;

/// Relies on flate2's `GzEncoder` (`new`, `write_all`, `finish`) over a
/// `Vec<u8>`: the output is the gzip member for `data`; writing into a vector
/// does not fail.
#[verifier::external_body]
pub(crate) fn gzip_encoding(data: &[u8]) -> (r: Vec<u8>)
    ensures
        r@ == gzip_of(data@),
{
    let mut encoder = GzEncoder::new(Vec::new(), Compression::default());
    encoder.write_all(data).expect("writing into a vector does not fail");
    encoder.finish().expect("writing into a vector does not fail")
}

} // verus!
