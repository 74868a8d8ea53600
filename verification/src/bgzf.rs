//! BGZF block framing.
//!
//! BGZF is a multi-gzip format whose extra field carries the total block size
//! minus one in sixteen bits, which caps a framed block at 64 KiB. A
//! canonical 28-byte empty block marks the end of the stream.
use vstd::prelude::*;

use crate::check::{crc32_of, Check, Crc32};
use crate::codec;
use crate::codec::{deflate_cap, deflate_of, Compressor};
use crate::deflate::{output_buffer_size, spec_xfl, xfl_value};
use crate::endian;
use crate::{BlockFormatSpec, FormatSpec, GzpError};

verus! {

/// The most uncompressed bytes one BGZF block may carry.
pub const BGZF_BLOCK_SIZE: usize = 65280;

/// The most bytes one framed BGZF block may occupy.
pub const MAX_BGZF_BLOCK_SIZE: usize = 65536;

/// The size of one BGZF block header.
pub const BGZF_HEADER_SIZE: usize = 18;

/// The size of one BGZF block trailer: the CRC-32 and the original length.
pub const BGZF_FOOTER_SIZE: usize = 8;

/// The extra room one deflated block may need beyond its input.
pub fn extra_amount(input_len: usize) -> (r: usize)
    ensures
        r as nat == crate::codec::extra_of(input_len as nat),
{
    if input_len / 10 > 128 {
        input_len / 10
    } else {
        128
    }
}

/// The 18-byte BGZF block header: a gzip header with the extra-field flag set
/// and a `BC` subfield holding the total block size minus one.
pub open spec fn spec_bgzf_header(level: u32, compressed_size: nat) -> Seq<u8> {
    seq![
        31u8,
        139u8,
        8u8,
        4u8,
        0u8,
        0u8,
        0u8,
        0u8,
        spec_xfl(level),
        255u8,
        6u8,
        0u8,
        66u8,
        67u8,
        2u8,
        0u8,
    ] + endian::le_bytes(compressed_size + 25, 2)
}

/// The canonical 28-byte empty BGZF block that ends a stream.
pub open spec fn spec_bgzf_eof() -> Seq<u8> {
    seq![
        0x1fu8,
        0x8bu8,
        0x08u8,
        0x04u8,
        0x00u8,
        0x00u8,
        0x00u8,
        0x00u8,
        0x00u8,
        0xffu8,
        0x06u8,
        0x00u8,
        0x42u8,
        0x43u8,
        0x02u8,
        0x00u8,
        0x1bu8,
        0x00u8,
        0x03u8,
        0x00u8,
        0x00u8,
        0x00u8,
        0x00u8,
        0x00u8,
        0x00u8,
        0x00u8,
        0x00u8,
        0x00u8,
    ]
}

/// The canonical 28-byte empty BGZF block that ends a stream.
pub fn bgzf_eof() -> (r: Vec<u8>)
    ensures
        r@ == spec_bgzf_eof(),
{
    let mut r: Vec<u8> = Vec::new();
    r.push(0x1f);  // ID1, ID2
    r.push(0x8b);
    r.push(0x08);  // CM = DEFLATE
    r.push(0x04);  // FLG = FEXTRA
    r.push(0x00);  // MTIME = 0
    r.push(0x00);
    r.push(0x00);
    r.push(0x00);
    r.push(0x00);  // XFL = 0
    r.push(0xff);  // OS = 255 (unknown)
    r.push(0x06);  // XLEN = 6
    r.push(0x00);
    r.push(0x42);  // SI1, SI2
    r.push(0x43);
    r.push(0x02);  // SLEN = 2
    r.push(0x00);
    r.push(0x1b);  // BSIZE = 27
    r.push(0x00);
    r.push(0x03);  // CDATA
    r.push(0x00);
    r.push(0x00);  // CRC32 = 0
    r.push(0x00);
    r.push(0x00);
    r.push(0x00);
    r.push(0x00);  // ISIZE = 0
    r.push(0x00);
    r.push(0x00);
    r.push(0x00);
    proof {
        assert(r@ =~= spec_bgzf_eof());
    }
    r
}

/// One whole BGZF frame for a block: header, deflated payload, CRC-32 of the
/// uncompressed bytes, and their count.
pub open spec fn spec_bgzf_frame(input: Seq<u8>, level: u32) -> Seq<u8> {
    let d = deflate_of(input, None, level, true);
    spec_bgzf_header(level, d.len()) + d + endian::le_bytes(crc32_of(input) as nat, 4)
        + endian::le_bytes(input.len(), 4)
}

/// Whether a block's deflated payload fits BGZF's 64 KiB framed cap.
pub open spec fn spec_bgzf_fits(input: Seq<u8>, level: u32) -> bool {
    deflate_of(input, None, level, true).len() + 26 <= MAX_BGZF_BLOCK_SIZE
}

/// Create a BGZF style header declaring the given deflated payload size.
pub fn header_inner(compression_level: u32, compressed_size: u16) -> (r: Vec<u8>)
    requires
        compressed_size + 26 <= MAX_BGZF_BLOCK_SIZE,
    ensures
        r@ == spec_bgzf_header(compression_level, compressed_size as nat),
{
    let mut header: Vec<u8> = Vec::new();
    header.push(31);  // magic byte
    header.push(139);  // magic byte
    header.push(8);  // compression method
    header.push(4);  // extra-field flag
    header.push(0);  // mtime
    header.push(0);
    header.push(0);
    header.push(0);
    header.push(xfl_value(compression_level));  // compression value
    header.push(255);  // OS
    header.push(6);  // extra field length
    header.push(0);
    header.push(66);  // subfield ID: B
    header.push(67);  // subfield ID: C
    header.push(2);  // subfield length
    header.push(0);
    endian::append_le_u16(&mut header, compressed_size + 25);  // block size - 1
    proof {
        assert(header@ =~= spec_bgzf_header(compression_level, compressed_size as nat));
    }
    header
}

/// Compress one block into a self-contained BGZF frame, or report that the
/// deflated payload exceeds the 64 KiB framed cap.
pub fn compress(input: &[u8], encoder: &mut Compressor, compression_level: u32) -> (r: Result<
    Vec<u8>,
    GzpError,
>)
    requires
        input@.len() <= BGZF_BLOCK_SIZE,
        old(encoder).ready(),
        old(encoder).pending_dict() is None,
        old(encoder).spec_level() == compression_level,
    ensures
        final(encoder).spec_level() == old(encoder).spec_level(),
        r is Ok <==> spec_bgzf_fits(input@, compression_level),
        r matches Ok(v) ==> {
            &&& v@ == spec_bgzf_frame(input@, compression_level)
            &&& final(encoder).ready()
            &&& final(encoder).pending_dict() is None
        },
        r matches Err(e) ==> e matches GzpError::BlockSizeExceeded(found, max) && found
            == deflate_of(input@, None, compression_level, true).len() && max
            == MAX_BGZF_BLOCK_SIZE,
{
    let cap = output_buffer_size(input.len());
    let mut deflated = match codec::deflate_finish(encoder, input, cap) {
        Ok(v) => v,
        Err(e) => {
            return Err(e);
        },
    };
    if deflated.len() > MAX_BGZF_BLOCK_SIZE - 26 {
        return Err(GzpError::BlockSizeExceeded(deflated.len(), MAX_BGZF_BLOCK_SIZE));
    }
    let mut check = Crc32::new();
    check.update(input);
    let mut out = header_inner(compression_level, deflated.len() as u16);
    out.append(&mut deflated);
    endian::append_le_u32(&mut out, check.sum());
    endian::append_le_u32(&mut out, input.len() as u32);
    proof {
        assert(out@ =~= spec_bgzf_frame(input@, compression_level));
    }
    Ok(out)
}

/// Every BGZF frame the compressor emits parses back as exactly one block:
/// its header validates, its declared size is the frame's own length, and its
/// trailer stores the checksum and length of the uncompressed block.
pub proof fn lemma_bgzf_frame_parses(input: Seq<u8>, level: u32)
    requires
        spec_bgzf_fits(input, level),
        input.len() <= u32::MAX,
    ensures
        crate::par::decompress::spec_split_ok(crate::deflate::Bgzf {  }, spec_bgzf_frame(input, level)),
        crate::par::decompress::spec_decode_stream(crate::deflate::Bgzf {  }, spec_bgzf_frame(input, level))
            == crate::par::decompress::spec_decoded_block(spec_bgzf_frame(input, level).skip(18)),
        crate::par::decompress::spec_payload_sum(spec_bgzf_frame(input, level).skip(18))
            == crc32_of(input),
        crate::par::decompress::spec_payload_amount(spec_bgzf_frame(input, level).skip(18))
            == input.len(),
{
    let m = crate::deflate::Bgzf {  };
    let d = deflate_of(input, None, level, true);
    let h = spec_bgzf_header(level, d.len());
    let frame = spec_bgzf_frame(input, level);
    endian::lemma_le_bytes_len(d.len() + 25, 2);
    endian::lemma_le_bytes_len(crc32_of(input) as nat, 4);
    endian::lemma_le_bytes_len(input.len(), 4);
    assert(h.len() == 18);
    assert(frame.len() == d.len() + 26);
    assert(frame.take(18) =~= h);
    assert(h[3] == 4u8);
    assert(4u8 & 4u8 == 4u8) by (bit_vector);
    assert(m.spec_header_ok(frame.take(18)));
    assert(h.subrange(16, 18) =~= endian::le_bytes(d.len() + 25, 2));
    endian::lemma_le_val_le_bytes(d.len() + 25, 2);
    assert(endian::pow256(2) == 0x10000) by {
        reveal_with_fuel(endian::pow256, 3);
    }
    vstd::arithmetic::div_mod::lemma_small_mod(d.len() + 25, 0x10000);
    assert(frame.take(18).subrange(16, 18) =~= h.subrange(16, 18));
    assert(m.spec_block_size(frame.take(18)) == d.len() + 26);
    let payload = frame.skip(18);
    assert(payload.len() == d.len() + 8);
    assert(payload.subrange(payload.len() - 8, payload.len() - 4) =~= endian::le_bytes(
        crc32_of(input) as nat,
        4,
    ));
    assert(payload.subrange(payload.len() - 4, payload.len() as int) =~= endian::le_bytes(
        input.len(),
        4,
    ));
    endian::lemma_le_val_le_bytes(crc32_of(input) as nat, 4);
    endian::lemma_le_val_le_bytes(input.len(), 4);
    assert(endian::pow256(4) == 0x100000000) by {
        reveal_with_fuel(endian::pow256, 5);
    }
    vstd::arithmetic::div_mod::lemma_small_mod(crc32_of(input) as nat, 0x100000000);
    vstd::arithmetic::div_mod::lemma_small_mod(input.len(), 0x100000000);
    assert(frame.skip(frame.len() as int) =~= Seq::<u8>::empty());
    assert(crate::par::decompress::spec_split_ok(m, Seq::<u8>::empty()));
    assert(frame.subrange(18, frame.len() as int) =~= payload);
    assert(crate::par::decompress::spec_decode_stream(m, frame)
        == crate::par::decompress::spec_decoded_block(payload) + crate::par::decompress::spec_decode_stream(
        m,
        frame.skip(frame.len() as int),
    ));
    assert(crate::par::decompress::spec_decoded_block(payload) + Seq::<u8>::empty()
        =~= crate::par::decompress::spec_decoded_block(payload));
}

/// The canonical empty BGZF block is accepted whole: it parses as one block,
/// decodes to nothing, and its stored zero checksum matches the CRC-32 of no
/// bytes.
pub proof fn lemma_bgzf_eof_parses()
    ensures
        crate::par::decompress::spec_split_ok(crate::deflate::Bgzf {  }, spec_bgzf_eof()),
        crate::par::decompress::spec_decode_stream(crate::deflate::Bgzf {  }, spec_bgzf_eof())
            == Seq::<u8>::empty(),
        crate::par::decompress::spec_scan(crate::deflate::Bgzf {  }, spec_bgzf_eof())
            == crate::par::decompress::ScanOutcome::Done,
{
    let m = crate::deflate::Bgzf {  };
    let e = spec_bgzf_eof();
    assert(e.len() == 28);
    assert(e[3] == 4u8);
    assert(4u8 & 4u8 == 4u8) by (bit_vector);
    assert(m.spec_header_ok(e.take(18)));
    let h = e.take(18);
    assert(h.subrange(16, 18) =~= seq![0x1bu8, 0x00u8]);
    assert(endian::le_val(seq![0x1bu8, 0x00u8]) == 27) by {
        reveal_with_fuel(endian::le_val, 3);
        assert(seq![0x1bu8, 0x00u8].skip(1) =~= seq![0x00u8]);
        assert(seq![0x00u8].skip(1) =~= Seq::<u8>::empty());
    }
    assert(m.spec_block_size(e.take(18)) == 28);
    assert(e.skip(28) =~= Seq::<u8>::empty());
    assert(crate::par::decompress::spec_split_ok(m, Seq::<u8>::empty()));
    let payload = e.subrange(18, 28);
    assert(payload.subrange(payload.len() - 4, payload.len() as int) =~= seq![
        0x00u8,
        0x00u8,
        0x00u8,
        0x00u8,
    ]);
    assert(crate::par::decompress::spec_payload_amount(payload) == 0) by {
        reveal_with_fuel(endian::le_val, 5);
        assert(seq![0x00u8, 0x00u8, 0x00u8, 0x00u8].skip(1) =~= seq![0x00u8, 0x00u8, 0x00u8]);
        assert(seq![0x00u8, 0x00u8, 0x00u8].skip(1) =~= seq![0x00u8, 0x00u8]);
        assert(seq![0x00u8, 0x00u8].skip(1) =~= seq![0x00u8]);
        assert(seq![0x00u8].skip(1) =~= Seq::<u8>::empty());
    }
    assert(crate::par::decompress::spec_decoded_block(payload) =~= Seq::<u8>::empty());
    assert(payload.subrange(payload.len() - 8, payload.len() - 4) =~= seq![
        0x00u8,
        0x00u8,
        0x00u8,
        0x00u8,
    ]);
    assert(crate::par::decompress::spec_payload_sum(payload) == 0) by {
        reveal_with_fuel(endian::le_val, 5);
        assert(seq![0x00u8, 0x00u8, 0x00u8, 0x00u8].skip(1) =~= seq![0x00u8, 0x00u8, 0x00u8]);
        assert(seq![0x00u8, 0x00u8, 0x00u8].skip(1) =~= seq![0x00u8, 0x00u8]);
        assert(seq![0x00u8, 0x00u8].skip(1) =~= seq![0x00u8]);
        assert(seq![0x00u8].skip(1) =~= Seq::<u8>::empty());
    }
    assert(crate::par::decompress::spec_block_check_ok(payload));
    assert(crate::par::decompress::spec_block_decode_ok(payload));
    assert(crate::par::decompress::spec_scan(m, Seq::<u8>::empty())
        == crate::par::decompress::ScanOutcome::Done);
    assert(crate::par::decompress::spec_decode_stream(m, Seq::<u8>::empty()) == Seq::<
        u8,
    >::empty());
    assert(e.subrange(18, 28) =~= payload);
    assert(crate::par::decompress::spec_decode_stream(m, e)
        == crate::par::decompress::spec_decoded_block(payload) + crate::par::decompress::spec_decode_stream(
        m,
        e.skip(28),
    ));
    assert(crate::par::decompress::spec_decoded_block(payload) + Seq::<u8>::empty()
        =~= Seq::<u8>::empty());
}

/// Every finished BGZF stream ends with the canonical 28-byte empty block.
pub proof fn lemma_bgzf_stream_ends_with_eof(input: Seq<u8>, level: u32, bsize: nat)
    ensures
        ({
            let s = crate::par::compress::spec_compress_stream(
                crate::deflate::Bgzf {  },
                input,
                level,
                bsize,
            );
            s.len() >= 28 && s.skip(s.len() - 28) == spec_bgzf_eof()
        }),
{
    let m = crate::deflate::Bgzf {  };
    lemma_bgzf_blocks_end_with_eof(input, None, level, bsize);
    let blocks = crate::par::compress::spec_encode_blocks(m, input, None, level, bsize);
    let s = crate::par::compress::spec_compress_stream(m, input, level, bsize);
    assert(s =~= blocks);
    assert(s.skip(s.len() - 28) =~= blocks.skip(blocks.len() - 28));
}

proof fn lemma_bgzf_blocks_end_with_eof(rest: Seq<u8>, dict: Option<Seq<u8>>, level: u32, bsize: nat)
    ensures
        ({
            let s = crate::par::compress::spec_encode_blocks(
                crate::deflate::Bgzf {  },
                rest,
                dict,
                level,
                bsize,
            );
            s.len() >= 28 && s.skip(s.len() - 28) == spec_bgzf_eof()
        }),
    decreases rest.len(),
{
    let m = crate::deflate::Bgzf {  };
    let s = crate::par::compress::spec_encode_blocks(m, rest, dict, level, bsize);
    if rest.len() < bsize || bsize == 0 {
        let frame = spec_bgzf_frame(rest, level);
        assert(s == frame + spec_bgzf_eof());
        assert(spec_bgzf_eof().len() == 28);
        assert(s.skip(s.len() - 28) =~= spec_bgzf_eof());
    } else {
        let head = m.spec_encode(rest.take(bsize as int), dict, level, false);
        let tail = crate::par::compress::spec_encode_blocks(
            m,
            rest.skip(bsize as int),
            crate::par::compress::spec_next_dict(m, rest.take(bsize as int)),
            level,
            bsize,
        );
        lemma_bgzf_blocks_end_with_eof(
            rest.skip(bsize as int),
            crate::par::compress::spec_next_dict(m, rest.take(bsize as int)),
            level,
            bsize,
        );
        assert(s == head + tail);
        assert(s.skip(s.len() - 28) =~= tail.skip(tail.len() - 28));
    }
}

} // verus!
