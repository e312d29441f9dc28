//! Gzip inflation of tile blocks, done by libdeflater.
use libdeflater::{DecompressionError, Decompressor};
use vstd::prelude::*;

verus! {

/// libdeflater's gzip decoder; each reader owns one.
#[verifier::external_type_specification]
#[verifier::external_body]
pub struct ExDecompressor(Decompressor);

/// The error that libdeflater's decoder reports; only its presence is used.
#[verifier::external_type_specification]
#[verifier::external_body]
pub struct ExDecompressionError(DecompressionError);

/// Relies on libdeflater::Decompressor::new: it allocates a decoder (and
/// panics only when memory runs out); nothing is claimed of the result.
pub assume_specification[ Decompressor::new ]() -> Decompressor;

/// What a gzip member inflates to when the output may take at most `room`
/// bytes: `None` where the decoder refuses the data or it needs more room.
pub uninterp spec fn gzip_inflated(data: Seq<u8>, room: nat) -> Option<Seq<u8>>;

/// Relies on libdeflater::Decompressor::gzip_decompress: it inflates `data`
/// into the front of `out`, which keeps its length, and returns how many bytes
/// it wrote; the outcome depends on the data and the room alone.
#[verifier::external_body]
pub(crate) fn gzip_into(d: &mut Decompressor, data: &[u8], out: &mut Vec<u8>) -> (r: Result<
    usize,
    DecompressionError,
>)
    ensures
        final(out)@.len() == old(out)@.len(),
        r is Ok <==> gzip_inflated(data@, old(out)@.len() as nat) is Some,
        r matches Ok(n) ==> gzip_inflated(data@, old(out)@.len() as nat) == Some(
            final(out)@.subrange(0, n as int),
        ) && n <= old(out)@.len(),
{
    d.gzip_decompress(data, out.as_mut_slice())
}

} // verus!
