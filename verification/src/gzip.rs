//! The one decompression layer that resolution may unwrap.

use vstd::prelude::*;

verus! {

/// The bytes that gzip decompression yields for `data`, or `None` where
/// `data` is not a well-formed gzip stream. Decompression is a function of
/// the input bytes alone; its value is named here, not spelled out.
pub uninterp spec fn gunzip_of(data: Seq<u8>) -> Option<Seq<u8>>;

/// Relies on `flate2::read::MultiGzDecoder`: reading it to the end yields the
/// decompressed bytes of every member of the gzip stream, or an error where
/// the stream is not well-formed gzip. The result depends on `data` alone.
#[verifier::external_body]
pub(crate) fn gunzip(data: &Vec<u8>) -> (r: Option<Vec<u8>>)
    ensures
        (match r {
            Some(v) => gunzip_of(data@) == Some(v@),
            None => gunzip_of(data@) is None,
        }),
{
    let mut out: Vec<u8> = Vec::new();
    let mut decoder = flate2::read::MultiGzDecoder::new(data.as_slice());
    match std::io::Read::read_to_end(&mut decoder, &mut out) {
        Ok(_) => Some(out),
        Err(_) => None,
    }
}

} // verus!
