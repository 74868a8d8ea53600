//! DEFLATE-based compression formats: gzip, zlib, raw deflate, and the
//! block-framed MGZIP and BGZF variants.
use vstd::prelude::*;

use crate::check::{adler32_of, crc32_of, Adler32, Crc32, PassThroughCheck};
use crate::check::Check;
use crate::codec;
use crate::codec::{deflate_cap, deflate_of, Compressor};
use crate::endian;
use crate::codec::Decompressor;
use crate::{bgzf, mgzip};
use crate::{dict_view, read_footer_values, BlockFormatSpec, FooterValues, FormatSpec, GzpError,
    BUFSIZE};

verus! {

/// The XFL byte gzip-style headers carry: two for the best level, four for
/// the fastest, zero otherwise.
pub open spec fn spec_xfl(level: u32) -> u8 {
    if level >= 9 {
        2
    } else if level <= 1 {
        4
    } else {
        0
    }
}

/// The XFL byte for a compression level.
pub fn xfl_value(compression_level: u32) -> (r: u8)
    ensures
        r == spec_xfl(compression_level),
{
    if compression_level >= 9 {
        2
    } else if compression_level <= 1 {
        4
    } else {
        0
    }
}

/// How much room to give the codec for one deflated block.
pub fn output_buffer_size(input_len: usize) -> (r: usize)
    requires
        deflate_cap(input_len as nat) <= usize::MAX,
    ensures
        r as nat == deflate_cap(input_len as nat),
{
    let extra = if input_len / 10 > 128 {
        input_len / 10
    } else {
        128
    };
    input_len + extra
}

/// Encode one block of a streaming DEFLATE format: preset the dictionary if
/// one is carried over, then deflate with `Sync` flush, or `Finish` on the
/// last block.
fn encode_deflate_block(
    input: &[u8],
    encoder: &mut Compressor,
    dict: Option<&Vec<u8>>,
    is_last: bool,
) -> (r: Result<Vec<u8>, GzpError>)
    requires
        input@.len() <= u32::MAX,
        deflate_cap(input@.len()) <= usize::MAX,
        old(encoder).ready(),
        old(encoder).pending_dict() is None,
    ensures
        final(encoder).spec_level() == old(encoder).spec_level(),
        r is Ok,
        r matches Ok(v) ==> {
            &&& v@ == deflate_of(input@, dict_view(dict), old(encoder).spec_level(), is_last)
            &&& final(encoder).ready()
            &&& final(encoder).pending_dict() is None
        },
{
    let cap = output_buffer_size(input.len());
    match dict {
        Some(d) => {
            match codec::set_dictionary(encoder, d) {
                Ok(_) => {},
                Err(e) => {
                    return Err(e);
                },
            }
        },
        None => {},
    }
    if is_last {
        codec::deflate_finish(encoder, input, cap)
    } else {
        codec::deflate_sync(encoder, input, cap)
    }
}

/// Gzip: a DEFLATE stream with a gzip header and a CRC-32 trailer.
#[derive(Copy, Clone, Debug)]
pub struct Gzip {}

impl FormatSpec for Gzip {
    type C = Crc32;

    open spec fn spec_input_ok(&self, len: nat) -> bool {
        len <= u32::MAX && deflate_cap(len) <= usize::MAX
    }

    proof fn lemma_input_ok_mono(&self, a: nat, b: nat) {
        codec::lemma_deflate_cap_mono(a, b);
    }

    fn input_ok(&self, len: usize) -> (r: bool) {
        let extra = if len / 10 > 128 {
            len / 10
        } else {
            128
        };
        len <= (u32::MAX as usize) && len <= usize::MAX - extra
    }

    open spec fn spec_needs_dict(&self) -> bool {
        true
    }

    open spec fn spec_header(&self, level: u32) -> Seq<u8> {
        seq![0x1fu8, 0x8bu8, 8u8, 0u8, 0u8, 0u8, 0u8, 0u8, spec_xfl(level), 255u8]
    }

    open spec fn spec_footer(&self, data: Seq<u8>) -> Seq<u8> {
        endian::le_bytes(crc32_of(data) as nat, 4) + endian::le_bytes(data.len() % 0x100000000, 4)
    }

    open spec fn spec_encode(
        &self,
        input: Seq<u8>,
        dict: Option<Seq<u8>>,
        level: u32,
        is_last: bool,
    ) -> Seq<u8> {
        deflate_of(input, dict, level, is_last)
    }

    open spec fn spec_encode_ok(&self, input: Seq<u8>, level: u32, is_last: bool) -> bool {
        true
    }

    open spec fn spec_default_bufsize(&self) -> nat {
        BUFSIZE as nat
    }

    fn new() -> Self {
        Gzip {  }
    }

    fn needs_dict(&self) -> (r: bool) {
        true
    }

    fn default_buffer_size(&self) -> (r: usize) {
        BUFSIZE
    }

    fn create_check(&self) -> (r: Crc32) {
        Crc32::new()
    }

    fn create_compressor(&self, compression_level: u32) -> (r: Result<Compressor, GzpError>) {
        Ok(codec::new_compressor(compression_level))
    }

    fn encode(
        &self,
        input: &[u8],
        encoder: &mut Compressor,
        compression_level: u32,
        dict: Option<&Vec<u8>>,
        is_last: bool,
    ) -> (r: Result<Vec<u8>, GzpError>) {
        encode_deflate_block(input, encoder, dict, is_last)
    }

    fn header(&self, compression_level: u32) -> (r: Vec<u8>) {
        let comp_value = xfl_value(compression_level);
        let mut r: Vec<u8> = Vec::new();
        r.push(31);  // magic byte
        r.push(139);  // magic byte
        r.push(8);  // deflate
        r.push(0);  // name / comment
        r.push(0);  // mtime
        r.push(0);
        r.push(0);
        r.push(0);
        r.push(comp_value);  // compression level clue
        r.push(255);  // OS
        proof {
            assert(r@ =~= self.spec_header(compression_level));
        }
        r
    }

    fn footer(&self, check: &Crc32) -> (r: Vec<u8>) {
        let mut r: Vec<u8> = Vec::new();
        endian::append_le_u32(&mut r, check.sum());
        endian::append_le_u32(&mut r, check.amount());
        proof {
            assert(r@ =~= self.spec_footer(check.fed()));
        }
        r
    }
}

/// The two-byte zlib stream header for a compression level: `0x78` for a
/// 32 KiB DEFLATE window, a two-bit level clue, and a check value that makes
/// the whole a multiple of 31.
pub open spec fn spec_zlib_head(level: u32) -> nat {
    let comp_value: nat = if level >= 9 {
        3 * 64
    } else if level == 1 {
        0
    } else if level >= 6 {
        64
    } else {
        2 * 64
    };
    let head = 0x7800 + comp_value;
    (head + 31 - (head % 31)) as nat
}

/// Zlib: a DEFLATE stream with a zlib header and an Adler-32 trailer.
#[derive(Copy, Clone, Debug)]
pub struct Zlib {}

impl FormatSpec for Zlib {
    type C = Adler32;

    open spec fn spec_input_ok(&self, len: nat) -> bool {
        len <= u32::MAX && deflate_cap(len) <= usize::MAX
    }

    proof fn lemma_input_ok_mono(&self, a: nat, b: nat) {
        codec::lemma_deflate_cap_mono(a, b);
    }

    fn input_ok(&self, len: usize) -> (r: bool) {
        let extra = if len / 10 > 128 {
            len / 10
        } else {
            128
        };
        len <= (u32::MAX as usize) && len <= usize::MAX - extra
    }

    open spec fn spec_needs_dict(&self) -> bool {
        true
    }

    open spec fn spec_header(&self, level: u32) -> Seq<u8> {
        endian::be_bytes(spec_zlib_head(level), 2)
    }

    open spec fn spec_footer(&self, data: Seq<u8>) -> Seq<u8> {
        endian::be_bytes(adler32_of(data) as nat, 4)
    }

    open spec fn spec_encode(
        &self,
        input: Seq<u8>,
        dict: Option<Seq<u8>>,
        level: u32,
        is_last: bool,
    ) -> Seq<u8> {
        deflate_of(input, dict, level, is_last)
    }

    open spec fn spec_encode_ok(&self, input: Seq<u8>, level: u32, is_last: bool) -> bool {
        true
    }

    open spec fn spec_default_bufsize(&self) -> nat {
        BUFSIZE as nat
    }

    fn new() -> Self {
        Zlib {  }
    }

    fn needs_dict(&self) -> (r: bool) {
        true
    }

    fn default_buffer_size(&self) -> (r: usize) {
        BUFSIZE
    }

    fn create_check(&self) -> (r: Adler32) {
        Adler32::new()
    }

    fn create_compressor(&self, compression_level: u32) -> (r: Result<Compressor, GzpError>) {
        Ok(codec::new_compressor(compression_level))
    }

    fn encode(
        &self,
        input: &[u8],
        encoder: &mut Compressor,
        compression_level: u32,
        dict: Option<&Vec<u8>>,
        is_last: bool,
    ) -> (r: Result<Vec<u8>, GzpError>) {
        encode_deflate_block(input, encoder, dict, is_last)
    }

    fn header(&self, compression_level: u32) -> (r: Vec<u8>) {
        let comp_value: u32 = if compression_level >= 9 {
            3 * 64
        } else if compression_level == 1 {
            0
        } else if compression_level >= 6 {
            64
        } else {
            2 * 64
        };
        let mut head: u32 = 0x7800 + comp_value;
        head = head + 31 - (head % 31);
        let mut r: Vec<u8> = Vec::new();
        endian::append_be_u16(&mut r, head as u16);
        r
    }

    fn footer(&self, check: &Adler32) -> (r: Vec<u8>) {
        let mut r: Vec<u8> = Vec::new();
        endian::append_be_u32(&mut r, check.sum());
        proof {
            assert(r@ =~= self.spec_footer(check.fed()));
        }
        r
    }
}

/// Raw DEFLATE: the bare stream, with no header and no trailer.
#[derive(Copy, Clone, Debug)]
pub struct RawDeflate {}

impl FormatSpec for RawDeflate {
    type C = PassThroughCheck;

    open spec fn spec_input_ok(&self, len: nat) -> bool {
        len <= u32::MAX && deflate_cap(len) <= usize::MAX
    }

    proof fn lemma_input_ok_mono(&self, a: nat, b: nat) {
        codec::lemma_deflate_cap_mono(a, b);
    }

    fn input_ok(&self, len: usize) -> (r: bool) {
        let extra = if len / 10 > 128 {
            len / 10
        } else {
            128
        };
        len <= (u32::MAX as usize) && len <= usize::MAX - extra
    }

    open spec fn spec_needs_dict(&self) -> bool {
        true
    }

    open spec fn spec_header(&self, level: u32) -> Seq<u8> {
        Seq::empty()
    }

    open spec fn spec_footer(&self, data: Seq<u8>) -> Seq<u8> {
        Seq::empty()
    }

    open spec fn spec_encode(
        &self,
        input: Seq<u8>,
        dict: Option<Seq<u8>>,
        level: u32,
        is_last: bool,
    ) -> Seq<u8> {
        deflate_of(input, dict, level, is_last)
    }

    open spec fn spec_encode_ok(&self, input: Seq<u8>, level: u32, is_last: bool) -> bool {
        true
    }

    open spec fn spec_default_bufsize(&self) -> nat {
        BUFSIZE as nat
    }

    fn new() -> Self {
        RawDeflate {  }
    }

    fn needs_dict(&self) -> (r: bool) {
        true
    }

    fn default_buffer_size(&self) -> (r: usize) {
        BUFSIZE
    }

    fn create_check(&self) -> (r: PassThroughCheck) {
        PassThroughCheck::new()
    }

    fn create_compressor(&self, compression_level: u32) -> (r: Result<Compressor, GzpError>) {
        Ok(codec::new_compressor(compression_level))
    }

    fn encode(
        &self,
        input: &[u8],
        encoder: &mut Compressor,
        compression_level: u32,
        dict: Option<&Vec<u8>>,
        is_last: bool,
    ) -> (r: Result<Vec<u8>, GzpError>) {
        encode_deflate_block(input, encoder, dict, is_last)
    }

    fn header(&self, compression_level: u32) -> (r: Vec<u8>) {
        Vec::new()
    }

    fn footer(&self, check: &PassThroughCheck) -> (r: Vec<u8>) {
        Vec::new()
    }
}

/// MGZIP: independent gzip-member blocks whose extra field carries the total
/// block size in 32 bits.
#[derive(Copy, Clone, Debug)]
pub struct Mgzip {}

impl FormatSpec for Mgzip {
    type C = PassThroughCheck;

    open spec fn spec_input_ok(&self, len: nat) -> bool {
        len <= u32::MAX && deflate_cap(len) <= usize::MAX - 28
    }

    proof fn lemma_input_ok_mono(&self, a: nat, b: nat) {
        codec::lemma_deflate_cap_mono(a, b);
    }

    fn input_ok(&self, len: usize) -> (r: bool) {
        let extra = if len / 10 > 128 {
            len / 10
        } else {
            128
        };
        len <= (u32::MAX as usize) && len <= usize::MAX - 28 - extra
    }

    open spec fn spec_needs_dict(&self) -> bool {
        false
    }

    open spec fn spec_header(&self, level: u32) -> Seq<u8> {
        Seq::empty()
    }

    open spec fn spec_footer(&self, data: Seq<u8>) -> Seq<u8> {
        Seq::empty()
    }

    open spec fn spec_encode(
        &self,
        input: Seq<u8>,
        dict: Option<Seq<u8>>,
        level: u32,
        is_last: bool,
    ) -> Seq<u8> {
        mgzip::spec_mgzip_frame(input, level)
    }

    open spec fn spec_encode_ok(&self, input: Seq<u8>, level: u32, is_last: bool) -> bool {
        mgzip::spec_mgzip_fits(input, level)
    }

    open spec fn spec_default_bufsize(&self) -> nat {
        BUFSIZE as nat
    }

    fn new() -> Self {
        Mgzip {  }
    }

    fn needs_dict(&self) -> (r: bool) {
        false
    }

    fn default_buffer_size(&self) -> (r: usize) {
        BUFSIZE
    }

    fn create_check(&self) -> (r: PassThroughCheck) {
        PassThroughCheck::new()
    }

    fn create_compressor(&self, compression_level: u32) -> (r: Result<Compressor, GzpError>) {
        Ok(codec::new_compressor(compression_level))
    }

    fn encode(
        &self,
        input: &[u8],
        encoder: &mut Compressor,
        compression_level: u32,
        dict: Option<&Vec<u8>>,
        is_last: bool,
    ) -> (r: Result<Vec<u8>, GzpError>) {
        mgzip::compress(input, encoder, compression_level)
    }

    fn header(&self, compression_level: u32) -> (r: Vec<u8>) {
        Vec::new()
    }

    fn footer(&self, check: &PassThroughCheck) -> (r: Vec<u8>) {
        Vec::new()
    }
}

impl BlockFormatSpec for Mgzip {
    open spec fn spec_header_size(&self) -> nat {
        20
    }

    open spec fn spec_sid_ok(&self, h: Seq<u8>) -> bool {
        h[12] == 73u8 && h[13] == 71u8
    }

    open spec fn spec_header_ok(&self, h: Seq<u8>) -> bool {
        crate::spec_magic_ok(h) && crate::spec_flag_ok(h) && self.spec_sid_ok(h)
    }

    open spec fn spec_block_size(&self, h: Seq<u8>) -> nat {
        endian::le_val(h.subrange(16, 20))
    }

    fn header_size(&self) -> (r: usize) {
        mgzip::MGZIP_HEADER_SIZE
    }

    fn check_header(&self, bytes: &[u8]) -> (r: Result<(), GzpError>) {
        if bytes[0] != 31 || bytes[1] != 139 {
            Err(GzpError::InvalidHeader("Bad magic"))
        } else if bytes[3] & 4 != 4 {
            Err(GzpError::InvalidHeader("Extra field flag not set"))
        } else if bytes[12] != 73 || bytes[13] != 71 {
            Err(GzpError::InvalidHeader("Bad SID"))
        } else {
            Ok(())
        }
    }

    fn get_block_size(&self, bytes: &[u8]) -> (r: Result<usize, GzpError>) {
        Ok(endian::read_le_u32(bytes, 16) as usize)
    }

    fn get_footer_values(&self, input: &[u8]) -> (r: FooterValues) {
        read_footer_values(input)
    }

    fn create_decompressor(&self) -> (r: Decompressor) {
        codec::new_decompressor()
    }

    fn decode_block(
        &self,
        decoder: &mut Decompressor,
        input: &[u8],
        orig_size: usize,
    ) -> (r: Result<Vec<u8>, GzpError>) {
        codec::inflate_block(decoder, input, orig_size)
    }
}

/// BGZF: independent gzip-member blocks whose extra field carries the total
/// block size minus one in 16 bits, ended by a canonical empty block.
#[derive(Copy, Clone, Debug)]
pub struct Bgzf {}

impl FormatSpec for Bgzf {
    type C = PassThroughCheck;

    open spec fn spec_input_ok(&self, len: nat) -> bool {
        len <= bgzf::BGZF_BLOCK_SIZE
    }

    proof fn lemma_input_ok_mono(&self, a: nat, b: nat) {
    }

    fn input_ok(&self, len: usize) -> (r: bool) {
        len <= bgzf::BGZF_BLOCK_SIZE
    }

    open spec fn spec_needs_dict(&self) -> bool {
        false
    }

    open spec fn spec_header(&self, level: u32) -> Seq<u8> {
        Seq::empty()
    }

    open spec fn spec_footer(&self, data: Seq<u8>) -> Seq<u8> {
        Seq::empty()
    }

    open spec fn spec_encode(
        &self,
        input: Seq<u8>,
        dict: Option<Seq<u8>>,
        level: u32,
        is_last: bool,
    ) -> Seq<u8> {
        if is_last {
            bgzf::spec_bgzf_frame(input, level) + bgzf::spec_bgzf_eof()
        } else {
            bgzf::spec_bgzf_frame(input, level)
        }
    }

    open spec fn spec_encode_ok(&self, input: Seq<u8>, level: u32, is_last: bool) -> bool {
        bgzf::spec_bgzf_fits(input, level)
    }

    open spec fn spec_default_bufsize(&self) -> nat {
        bgzf::BGZF_BLOCK_SIZE as nat
    }

    fn new() -> Self {
        Bgzf {  }
    }

    fn needs_dict(&self) -> (r: bool) {
        false
    }

    fn default_buffer_size(&self) -> (r: usize) {
        bgzf::BGZF_BLOCK_SIZE
    }

    fn create_check(&self) -> (r: PassThroughCheck) {
        PassThroughCheck::new()
    }

    fn create_compressor(&self, compression_level: u32) -> (r: Result<Compressor, GzpError>) {
        Ok(codec::new_compressor(compression_level))
    }

    fn encode(
        &self,
        input: &[u8],
        encoder: &mut Compressor,
        compression_level: u32,
        dict: Option<&Vec<u8>>,
        is_last: bool,
    ) -> (r: Result<Vec<u8>, GzpError>) {
        let mut bytes = match bgzf::compress(input, encoder, compression_level) {
            Ok(v) => v,
            Err(e) => {
                return Err(e);
            },
        };
        if is_last {
            let mut eof = bgzf::bgzf_eof();
            bytes.append(&mut eof);
        }
        Ok(bytes)
    }

    fn header(&self, compression_level: u32) -> (r: Vec<u8>) {
        Vec::new()
    }

    fn footer(&self, check: &PassThroughCheck) -> (r: Vec<u8>) {
        Vec::new()
    }
}

impl BlockFormatSpec for Bgzf {
    open spec fn spec_header_size(&self) -> nat {
        18
    }

    open spec fn spec_sid_ok(&self, h: Seq<u8>) -> bool {
        h[12] == 66u8 && h[13] == 67u8
    }

    open spec fn spec_header_ok(&self, h: Seq<u8>) -> bool {
        crate::spec_magic_ok(h) && crate::spec_flag_ok(h) && self.spec_sid_ok(h)
    }

    open spec fn spec_block_size(&self, h: Seq<u8>) -> nat {
        endian::le_val(h.subrange(16, 18)) + 1
    }

    fn header_size(&self) -> (r: usize) {
        bgzf::BGZF_HEADER_SIZE
    }

    fn check_header(&self, bytes: &[u8]) -> (r: Result<(), GzpError>) {
        if bytes[0] != 31 || bytes[1] != 139 {
            Err(GzpError::InvalidHeader("Bad magic"))
        } else if bytes[3] & 4 != 4 {
            Err(GzpError::InvalidHeader("Extra field flag not set"))
        } else if bytes[12] != 66 || bytes[13] != 67 {
            Err(GzpError::InvalidHeader("Bad SID"))
        } else {
            Ok(())
        }
    }

    fn get_block_size(&self, bytes: &[u8]) -> (r: Result<usize, GzpError>) {
        Ok(endian::read_le_u16(bytes, 16) as usize + 1)
    }

    fn get_footer_values(&self, input: &[u8]) -> (r: FooterValues) {
        read_footer_values(input)
    }

    fn create_decompressor(&self) -> (r: Decompressor) {
        codec::new_decompressor()
    }

    fn decode_block(
        &self,
        decoder: &mut Decompressor,
        input: &[u8],
        orig_size: usize,
    ) -> (r: Result<Vec<u8>, GzpError>) {
        codec::inflate_block(decoder, input, orig_size)
    }
}

} // verus!
