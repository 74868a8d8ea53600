//! MGZIP block framing.
//!
//! MGZIP is a multi-gzip format: each block is a self-contained gzip member
//! whose extra field carries the total block length, so that a reader can
//! split the stream into blocks without inflating them.
use vstd::prelude::*;

use crate::check::{crc32_of, Check, Crc32};
use crate::codec;
use crate::codec::{deflate_cap, deflate_of, Compressor};
use crate::deflate::{output_buffer_size, spec_xfl, xfl_value};
use crate::endian;
use crate::{BlockFormatSpec, GzpError};

verus! {

/// The size of one MGZIP block header.
pub const MGZIP_HEADER_SIZE: usize = 20;

/// The size of one MGZIP block trailer: the CRC-32 and the original length.
pub const MGZIP_FOOTER_SIZE: usize = 8;

/// The extra room one deflated block may need beyond its input.
pub fn extra_amount(input_len: usize) -> (r: usize)
    ensures
        r as nat == crate::codec::extra_of(input_len as nat),
{
    if input_len / 10 > 128 {
        input_len / 10
    } else {
        128
    }
}

/// The 20-byte MGZIP block header: a gzip header with the extra-field flag
/// set and an `IG` subfield holding the total block size, header and trailer
/// included.
pub open spec fn spec_mgzip_header(level: u32, compressed_size: nat) -> Seq<u8> {
    seq![
        31u8,
        139u8,
        8u8,
        4u8,
        0u8,
        0u8,
        0u8,
        0u8,
        spec_xfl(level),
        255u8,
        8u8,
        0u8,
        73u8,
        71u8,
        4u8,
        0u8,
    ] + endian::le_bytes(compressed_size + 28, 4)
}

/// One whole MGZIP frame for a block: header, deflated payload, CRC-32 of the
/// uncompressed bytes, and their count.
pub open spec fn spec_mgzip_frame(input: Seq<u8>, level: u32) -> Seq<u8> {
    let d = deflate_of(input, None, level, true);
    spec_mgzip_header(level, d.len()) + d + endian::le_bytes(crc32_of(input) as nat, 4)
        + endian::le_bytes(input.len(), 4)
}

/// Whether a block's deflated payload fits MGZIP's 32-bit size field.
pub open spec fn spec_mgzip_fits(input: Seq<u8>, level: u32) -> bool {
    deflate_of(input, None, level, true).len() + 28 <= u32::MAX
}

/// Create an MGZIP style header declaring the given deflated payload size.
pub fn header_inner(compression_level: u32, compressed_size: u32) -> (r: Vec<u8>)
    requires
        compressed_size + 28 <= u32::MAX,
    ensures
        r@ == spec_mgzip_header(compression_level, compressed_size as nat),
{
    let mut header: Vec<u8> = Vec::new();
    header.push(31);  // magic byte
    header.push(139);  // magic byte
    header.push(8);  // compression method
    header.push(4);  // extra-field flag
    header.push(0);  // mtime
    header.push(0);
    header.push(0);
    header.push(0);
    header.push(xfl_value(compression_level));  // compression value
    header.push(255);  // OS
    header.push(8);  // extra field length
    header.push(0);
    header.push(73);  // subfield ID: I
    header.push(71);  // subfield ID: G
    header.push(4);  // subfield length
    header.push(0);
    endian::append_le_u32(&mut header, compressed_size + 28);  // total block size
    proof {
        assert(header@ =~= spec_mgzip_header(compression_level, compressed_size as nat));
    }
    header
}

/// Compress one block into a self-contained MGZIP frame.
pub fn compress(input: &[u8], encoder: &mut Compressor, compression_level: u32) -> (r: Result<
    Vec<u8>,
    GzpError,
>)
    requires
        input@.len() <= u32::MAX,
        deflate_cap(input@.len()) <= usize::MAX - 28,
        old(encoder).ready(),
        old(encoder).pending_dict() is None,
        old(encoder).spec_level() == compression_level,
    ensures
        final(encoder).spec_level() == old(encoder).spec_level(),
        r is Ok <==> spec_mgzip_fits(input@, compression_level),
        r matches Ok(v) ==> {
            &&& v@ == spec_mgzip_frame(input@, compression_level)
            &&& final(encoder).ready()
            &&& final(encoder).pending_dict() is None
        },
        r matches Err(e) ==> e matches GzpError::BlockSizeExceeded(found, max) && found
            == deflate_of(input@, None, compression_level, true).len() && max == (u32::MAX
            - 28) as usize,
{
    let cap = output_buffer_size(input.len());
    let mut deflated = match codec::deflate_finish(encoder, input, cap) {
        Ok(v) => v,
        Err(e) => {
            return Err(e);
        },
    };
    if deflated.len() > (u32::MAX - 28) as usize {
        return Err(GzpError::BlockSizeExceeded(deflated.len(), (u32::MAX - 28) as usize));
    }
    let mut check = Crc32::new();
    check.update(input);
    let mut out = header_inner(compression_level, deflated.len() as u32);
    out.append(&mut deflated);
    endian::append_le_u32(&mut out, check.sum());
    endian::append_le_u32(&mut out, input.len() as u32);
    proof {
        assert(out@ =~= spec_mgzip_frame(input@, compression_level));
    }
    Ok(out)
}

/// Every MGZIP frame the compressor emits parses back as exactly one block:
/// its header validates, its declared size is the frame's own length, and its
/// trailer stores the checksum and length of the uncompressed block.
pub proof fn lemma_mgzip_frame_parses(input: Seq<u8>, level: u32)
    requires
        spec_mgzip_fits(input, level),
        input.len() <= u32::MAX,
    ensures
        crate::par::decompress::spec_split_ok(crate::deflate::Mgzip {  }, spec_mgzip_frame(input, level)),
        crate::par::decompress::spec_decode_stream(crate::deflate::Mgzip {  }, spec_mgzip_frame(input, level))
            == crate::par::decompress::spec_decoded_block(spec_mgzip_frame(input, level).skip(20)),
        crate::par::decompress::spec_payload_sum(spec_mgzip_frame(input, level).skip(20))
            == crc32_of(input),
        crate::par::decompress::spec_payload_amount(spec_mgzip_frame(input, level).skip(20))
            == input.len(),
{
    let m = crate::deflate::Mgzip {  };
    let d = deflate_of(input, None, level, true);
    let h = spec_mgzip_header(level, d.len());
    let frame = spec_mgzip_frame(input, level);
    endian::lemma_le_bytes_len(d.len() + 28, 4);
    endian::lemma_le_bytes_len(crc32_of(input) as nat, 4);
    endian::lemma_le_bytes_len(input.len(), 4);
    assert(h.len() == 20);
    assert(frame.len() == d.len() + 28);
    assert(frame.take(20) =~= h);
    assert(h[3] == 4u8);
    assert(4u8 & 4u8 == 4u8) by (bit_vector);
    assert(m.spec_header_ok(frame.take(20)));
    assert(h.subrange(16, 20) =~= endian::le_bytes(d.len() + 28, 4));
    endian::lemma_le_val_le_bytes(d.len() + 28, 4);
    assert(endian::pow256(4) == 0x100000000) by {
        reveal_with_fuel(endian::pow256, 5);
    }
    vstd::arithmetic::div_mod::lemma_small_mod(d.len() + 28, 0x100000000);
    assert(frame.take(20).subrange(16, 20) =~= h.subrange(16, 20));
    assert(m.spec_block_size(frame.take(20)) == d.len() + 28);
    let payload = frame.skip(20);
    assert(payload.len() == d.len() + 8);
    assert(payload.subrange(payload.len() - 8, payload.len() - 4) =~= endian::le_bytes(
        crc32_of(input) as nat,
        4,
    ));
    assert(payload.subrange(payload.len() - 4, payload.len() as int) =~= endian::le_bytes(
        input.len(),
        4,
    ));
    endian::lemma_le_val_le_bytes(crc32_of(input) as nat, 4);
    vstd::arithmetic::div_mod::lemma_small_mod(crc32_of(input) as nat, 0x100000000);
    endian::lemma_le_val_le_bytes(input.len(), 4);
    vstd::arithmetic::div_mod::lemma_small_mod(input.len(), 0x100000000);
    assert(frame.skip(frame.len() as int) =~= Seq::<u8>::empty());
    assert(crate::par::decompress::spec_split_ok(m, Seq::<u8>::empty()));
    assert(frame.subrange(20, frame.len() as int) =~= payload);
    assert(crate::par::decompress::spec_decode_stream(m, frame)
        == crate::par::decompress::spec_decoded_block(payload) + crate::par::decompress::spec_decode_stream(
        m,
        frame.skip(frame.len() as int),
    ));
    assert(crate::par::decompress::spec_decoded_block(payload) + Seq::<u8>::empty()
        =~= crate::par::decompress::spec_decoded_block(payload));
}

} // verus!
