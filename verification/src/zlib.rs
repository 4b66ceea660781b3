use vstd::prelude::*;

verus! {

/// What `inflate::inflate_bytes_zlib` makes of a zlib stream: the
/// decompressed bytes, or `None` where it rejects the stream.
pub uninterp spec fn zlib_inflated(data: Seq<u8>) -> Option<Seq<u8>>;

/// Decompresses a zlib stream with `inflate::inflate_bytes_zlib`. Nothing is
/// proved of the decompressor: the contract only gives its result a name,
/// on the ground that the result depends on the bytes handed in and on
/// nothing else. The error text of a rejected stream is dropped.
#[verifier::external_body]
pub(crate) fn inflate_zlib(data: &Vec<u8>) -> (r: Option<Vec<u8>>)
    ensures
        match r {
            Some(bytes) => zlib_inflated(data@) == Some(bytes@),
            None => zlib_inflated(data@) is None,
        },
{
    match inflate::inflate_bytes_zlib(data.as_slice()) {
        Ok(bytes) => Some(bytes),
        Err(_) => None,
    }
}

} // verus!
