//! LZ4 compression of cache values (crate `lz4_flex`, raw blocks).
//!
//! A compressed value is the original length as a big-endian `u32` (modulo
//! 2^32) followed by the LZ4 block of the bytes; the length tells the decoder
//! how much to allocate.
use vstd::prelude::*;
use crate::serializers::binary::{be32, get_be32, lemma_be32, push_all, push_be32, read_be32};
use crate::utils::error::{BlazeCacheError, Result};
use vstd::slice::slice_subrange;

verus! {

/// The LZ4 block that `lz4_flex::compress` makes of `data`.
pub uninterp spec fn lz4_block(data: Seq<u8>) -> Seq<u8>;

/// What `lz4_flex::decompress` makes of a block given the size to allocate:
/// the decompressed bytes, or `None` when it reports an error.
pub uninterp spec fn lz4_unblock(block: Seq<u8>, size: nat) -> Option<Seq<u8>>;

/// Compresses with `lz4_flex::compress`.
///
/// Trusted: the block is a function of the input; it holds at least the
/// block's final token; and decompressing it with `lz4_flex::decompress`,
/// given the input's length as the size, gives the input back.
#[verifier::external_body]
fn lz4_compress_block(data: &[u8]) -> (r: Vec<u8>)
    ensures
        r@ == lz4_block(data@),
        r@.len() >= 1,
        lz4_unblock(r@, data@.len()) == Some(data@),
{
    lz4_flex::compress(data)
}

/// Decompresses a block with `lz4_flex::decompress`, allocating `size`
/// bytes; an error is returned as its text.
///
/// Trusted: success and the bytes are a function of the block and the size;
/// the error text is not stated. The crate documents that a size smaller than
/// the data may panic; its safe decoder, the default, checks every write
/// against the allocation and reports `OutputTooSmall` instead. A size asking
/// for more memory than the machine has aborts the process; that bound
/// depends on the machine and is not stated.
#[verifier::external_body]
fn lz4_decompress_block(block: &[u8], size: usize) -> (r: core::result::Result<Vec<u8>, String>)
    ensures
        match lz4_unblock(block@, size as nat) {
            Some(d) => r matches Ok(v) && v@ == d,
            None => r is Err,
        },
{
    lz4_flex::decompress(block, size).map_err(|e| e.to_string())
}

/// The compressed form of `data`: its length modulo 2^32, big-endian, then
/// its LZ4 block.
pub open spec fn packed(data: Seq<u8>) -> Seq<u8> {
    be32((data.len() % 0x1_0000_0000) as nat) + lz4_block(data)
}

/// What decompressing `data` gives: nothing for four bytes or fewer (no
/// block follows the length); otherwise the LZ4 block after the length,
/// decoded into as many bytes as the length says.
pub open spec fn unpacked(data: Seq<u8>) -> Option<Seq<u8>> {
    if data.len() <= 4 {
        None
    } else {
        lz4_unblock(data.subrange(4, data.len() as int), read_be32(data, 0) as nat)
    }
}

/// Compresses `data`: its length as a big-endian `u32`, then its LZ4 block.
/// Data shorter than 2^32 bytes decompresses back to itself.
pub fn compress(data: &[u8]) -> (r: Result<Vec<u8>>)
    ensures
        r matches Ok(v) && v@ == packed(data@),
        r matches Ok(v) && v@.len() > 4,
        data@.len() < 0x1_0000_0000 ==> (r matches Ok(v) && unpacked(v@) == Some(data@)),
{
    let block = lz4_compress_block(data);
    let mut out: Vec<u8> = Vec::new();
    push_be32(&mut out, data.len() as u64);
    push_all(&mut out, block.as_slice());
    proof {
        let v = out@;
        assert(v.subrange(0, 4) =~= be32((data@.len() % 0x1_0000_0000) as nat));
        assert(v.subrange(4, v.len() as int) =~= block@);
        if data@.len() < 0x1_0000_0000 {
            lemma_be32((data@.len() % 0x1_0000_0000) as nat, v, 0);
        }
    }
    Ok(out)
}

/// Decompresses data made by [`compress`]; data that does not decode gives
/// a `CompressionError`.
///
/// Data of at most four bytes holds no LZ4 sequence after its length, so
/// decoding it fails whatever the length says (with the error `lz4_flex`
/// reports for it); it is refused before the length is allocated.
pub fn decompress(data: &[u8]) -> (r: Result<Vec<u8>>)
    ensures
        match unpacked(data@) {
            Some(d) => r matches Ok(v) && v@ == d,
            None => r matches Err(BlazeCacheError::CompressionError(_)),
        },
{
    if data.len() <= 4 {
        return Err(BlazeCacheError::CompressionError(String::from_str("expected another byte, found none")));
    }
    let size = get_be32(data, 0);
    let block = slice_subrange(data, 4, data.len());
    match lz4_decompress_block(block, size as usize) {
        Ok(v) => Ok(v),
        Err(e) => Err(BlazeCacheError::CompressionError(e)),
    }
}

/// Values larger than 1 KiB are worth compressing.
pub fn should_compress(data: &[u8]) -> (r: bool)
    ensures
        r == (data@.len() > 1024),
{
    data.len() > 1024
}

} // verus!
