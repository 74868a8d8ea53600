//! Parallel block-oriented compression and decompression for DEFLATE-family
//! wire formats (gzip, zlib, raw deflate, MGZIP, BGZF) and the Snappy frame
//! format.
//!
//! Input bytes are sliced into fixed-size blocks, each block is compressed as
//! an independent unit, and the compressed chunks are emitted in strict input
//! order together with format-specific framing: headers, trailers, per-block
//! checksums and a running whole-stream checksum.
use vstd::prelude::*;

use crate::check::Check;

pub mod bgzf;
pub mod check;
pub mod codec;
pub mod deflate;
pub mod endian;
pub mod mgzip;
pub mod par;
pub mod parsnap;
pub mod snap;

verus! {

/// 128 KiB default buffer size.
pub const BUFSIZE: usize = 131072;

/// 32 KiB dictionary size: the DEFLATE window carried over between blocks.
pub const DICT_SIZE: usize = 32768;

/// The kind of an input/output failure, mirroring the platform's own
/// classification so that callers can match on it.
#[derive(Debug, Clone, Copy, PartialEq, Eq, Structural)]
pub enum IoKind {
    NotFound,
    PermissionDenied,
    ConnectionRefused,
    ConnectionReset,
    ConnectionAborted,
    NotConnected,
    BrokenPipe,
    AlreadyExists,
    WouldBlock,
    InvalidInput,
    InvalidData,
    TimedOut,
    WriteZero,
    Interrupted,
    Unsupported,
    UnexpectedEof,
    OutOfMemory,
    Other,
}

/// Errors reported by the compression and decompression pipelines.
#[derive(Debug)]
pub enum GzpError {
    /// The selected buffer size is below the required minimum.
    BufferSize(usize, usize),
    /// A compressed block exceeds the maximum the format can frame.
    BlockSizeExceeded(usize, usize),
    /// A pipeline channel was closed before the send completed.
    ChannelSend,
    /// The underlying codec failed to compress a block.
    DeflateCompress,
    /// The underlying codec failed to decompress a block.
    DecompressError,
    /// A framed block declares a size its surrounding stream cannot hold.
    InvalidBlockSize(&'static str),
    /// A per-block checksum did not match the recomputed value.
    InvalidCheck { found: u32, expected: u32 },
    /// A block header failed validation.
    InvalidHeader(&'static str),
    /// Zero worker threads were requested.
    NumThreads(usize),
    /// An input/output error, with its kind and message.
    Io(IoKind, String),
}

/// A header or footer field: `value` written as `num_bytes` bytes,
/// little-endian, or big-endian when `num_bytes` is negative.
#[derive(Debug)]
pub struct Pair {
    pub num_bytes: isize,
    pub value: usize,
}

/// The bytes that one [`Pair`] stands for.
pub open spec fn spec_pair_bytes(p: Pair) -> Seq<u8> {
    if p.num_bytes < 0 {
        endian::be_bytes(p.value as nat, (-p.num_bytes) as nat)
    } else {
        endian::le_bytes(p.value as nat, p.num_bytes as nat)
    }
}

/// The bytes that a list of [`Pair`]s stands for, in order.
pub open spec fn spec_pairs_bytes(ps: Seq<Pair>) -> Seq<u8>
    decreases ps.len(),
{
    if ps.len() == 0 {
        Seq::empty()
    } else {
        spec_pair_bytes(ps[0]) + spec_pairs_bytes(ps.skip(1))
    }
}

fn append_le_field(out: &mut Vec<u8>, v: usize, n: usize)
    ensures
        final(out)@ == old(out)@ + endian::le_bytes(v as nat, n as nat),
    decreases n,
{
    if n > 0 {
        out.push((v % 256) as u8);
        append_le_field(out, v / 256, n - 1);
        proof {
            assert(final(out)@ =~= old(out)@ + endian::le_bytes(v as nat, n as nat));
        }
    }
}

fn append_be_field(out: &mut Vec<u8>, v: usize, n: usize)
    ensures
        final(out)@ == old(out)@ + endian::be_bytes(v as nat, n as nat),
    decreases n,
{
    if n > 0 {
        append_be_field(out, v / 256, n - 1);
        out.push((v % 256) as u8);
        proof {
            assert(final(out)@ =~= old(out)@ + endian::be_bytes(v as nat, n as nat));
        }
    }
}

/// Render a list of header or footer fields as bytes. A field is at most
/// eight bytes wide: as wide as the machine word that carries its value.
pub fn to_bytes(pairs: &Vec<Pair>) -> (r: Vec<u8>)
    requires
        forall|i: int| 0 <= i < pairs@.len() ==> -8 <= #[trigger] pairs@[i].num_bytes <= 8,
    ensures
        r@ == spec_pairs_bytes(pairs@),
{
    let mut buffer: Vec<u8> = Vec::new();
    let mut i: usize = 0;
    while i < pairs.len()
        invariant
            i <= pairs@.len(),
            forall|j: int| 0 <= j < pairs@.len() ==> -8 <= #[trigger] pairs@[j].num_bytes <= 8,
            buffer@ == spec_pairs_bytes(pairs@.take(i as int)),
        decreases pairs@.len() - i,
    {
        proof {
            lemma_pairs_bytes_snoc(pairs@, i as int);
        }
        let p = &pairs[i];
        if p.num_bytes < 0 {
            append_be_field(&mut buffer, p.value, (-p.num_bytes) as usize);
        } else {
            append_le_field(&mut buffer, p.value, p.num_bytes as usize);
        }
        i = i + 1;
    }
    proof {
        assert(pairs@.take(pairs@.len() as int) =~= pairs@);
    }
    buffer
}

proof fn lemma_pairs_bytes_snoc(ps: Seq<Pair>, i: int)
    requires
        0 <= i < ps.len(),
    ensures
        spec_pairs_bytes(ps.take(i + 1)) == spec_pairs_bytes(ps.take(i)) + spec_pair_bytes(ps[i]),
    decreases i,
{
    if i == 0 {
        reveal_with_fuel(spec_pairs_bytes, 3);
        assert(ps.take(1).len() == 1);
        assert(ps.take(1)[0] == ps[0]);
        assert(ps.take(1).skip(1) =~= Seq::<Pair>::empty());
        assert(ps.take(0) =~= Seq::<Pair>::empty());
        assert(spec_pairs_bytes(ps.take(1)) == spec_pair_bytes(ps[0]) + Seq::<u8>::empty());
        assert(spec_pair_bytes(ps[0]) + Seq::<u8>::empty() =~= spec_pair_bytes(ps[0]));
        assert(Seq::<u8>::empty() + spec_pair_bytes(ps[0]) =~= spec_pair_bytes(ps[0]));
    } else {
        lemma_pairs_bytes_snoc(ps.skip(1), i - 1);
        assert(ps.take(i + 1).skip(1) =~= ps.skip(1).take(i));
        assert(ps.take(i).skip(1) =~= ps.skip(1).take(i - 1));
        assert(ps.take(i + 1)[0] == ps[0]);
        assert(ps.take(i)[0] == ps[0]);
        assert(ps.skip(1)[i - 1] == ps[i]);
        assert(spec_pair_bytes(ps[0]) + (spec_pairs_bytes(ps.skip(1).take(i - 1)) + spec_pair_bytes(
            ps[i],
        )) =~= (spec_pair_bytes(ps[0]) + spec_pairs_bytes(ps.skip(1).take(i - 1)))
            + spec_pair_bytes(ps[i]));
    }
}

/// The per-block checksum and byte count read from a framed block's trailer.
#[derive(Debug, Copy, Clone)]
pub struct FooterValues {
    /// The stored checksum.
    pub sum: u32,
    /// The stored count of bytes that went into the checksum.
    pub amount: u32,
}

/// Maps an optional dictionary to its view.
pub open spec fn dict_view(dict: Option<&Vec<u8>>) -> Option<Seq<u8>> {
    match dict {
        Some(d) => Some(d@),
        None => None,
    }
}

/// How one format frames a compressed stream: its header and trailer bytes
/// and its block-encode primitive.
pub trait FormatSpec: Sized {
    /// The whole-stream check this format folds per-block checks into.
    type C: check::Check;

    /// Which block lengths this format can encode.
    spec fn spec_input_ok(&self, len: nat) -> bool;

    /// Any block length below an encodable one is itself encodable.
    proof fn lemma_input_ok_mono(&self, a: nat, b: nat)
        requires
            a <= b,
            self.spec_input_ok(b),
        ensures
            self.spec_input_ok(a),
    ;

    /// Whether this format can encode a block of `len` bytes.
    fn input_ok(&self, len: usize) -> (r: bool)
        ensures
            r == self.spec_input_ok(len as nat),
    ;

    /// Whether blocks are chained through a 32 KiB dictionary.
    spec fn spec_needs_dict(&self) -> bool;

    /// The stream header.
    spec fn spec_header(&self, level: u32) -> Seq<u8>;

    /// The stream trailer, as a function of the whole uncompressed input.
    spec fn spec_footer(&self, data: Seq<u8>) -> Seq<u8>;

    /// The encoded bytes of one block.
    spec fn spec_encode(
        &self,
        input: Seq<u8>,
        dict: Option<Seq<u8>>,
        level: u32,
        is_last: bool,
    ) -> Seq<u8>;

    /// Whether the encoded block fits the format's framing limits.
    spec fn spec_encode_ok(&self, input: Seq<u8>, level: u32, is_last: bool) -> bool;

    /// The buffer size used when the caller picks none.
    spec fn spec_default_bufsize(&self) -> nat;

    /// Create this format descriptor.
    fn new() -> Self;

    /// Whether blocks are chained through a 32 KiB dictionary.
    fn needs_dict(&self) -> (r: bool)
        ensures
            r == self.spec_needs_dict(),
    ;

    /// The buffer size used when the caller picks none.
    fn default_buffer_size(&self) -> (r: usize)
        ensures
            r as nat == self.spec_default_bufsize(),
            DICT_SIZE <= r <= BUFSIZE,
    ;

    /// Create a fresh per-worker check.
    fn create_check(&self) -> (r: Self::C)
        ensures
            r.fed() == Seq::<u8>::empty(),
    ;

    /// Create a per-worker block compressor for this format.
    fn create_compressor(&self, compression_level: u32) -> (r: Result<codec::Compressor, GzpError>)
        requires
            compression_level <= 9,
        ensures
            r matches Ok(c) ==> {
                &&& c.spec_level() == compression_level
                &&& c.ready()
                &&& c.pending_dict() is None
            },
            r is Ok,
    ;

    /// Encode one block, with `Sync` flush between blocks and `Finish` on the
    /// last block of formats that stream, and with self-contained framing for
    /// block-framed formats.
    fn encode(
        &self,
        input: &[u8],
        encoder: &mut codec::Compressor,
        compression_level: u32,
        dict: Option<&Vec<u8>>,
        is_last: bool,
    ) -> (r: Result<Vec<u8>, GzpError>)
        requires
            self.spec_input_ok(input@.len()),
            old(encoder).ready(),
            old(encoder).pending_dict() is None,
            old(encoder).spec_level() == compression_level,
            compression_level <= 9,
        ensures
            final(encoder).spec_level() == compression_level,
            r is Ok <==> self.spec_encode_ok(input@, compression_level, is_last),
            r matches Ok(v) ==> {
                &&& v@ == self.spec_encode(input@, dict_view(dict), compression_level, is_last)
                &&& final(encoder).ready()
                &&& final(encoder).pending_dict() is None
            },
            r matches Err(e) ==> e matches GzpError::BlockSizeExceeded(_, _),
    ;

    /// The stream header.
    fn header(&self, compression_level: u32) -> (r: Vec<u8>)
        requires
            compression_level <= 9,
        ensures
            r@ == self.spec_header(compression_level),
    ;

    /// The stream trailer for the bytes the check was fed.
    fn footer(&self, check: &Self::C) -> (r: Vec<u8>)
        ensures
            r@ == self.spec_footer(check.fed()),
    ;
}

/// Whether a block header starts with the gzip magic bytes.
pub open spec fn spec_magic_ok(h: Seq<u8>) -> bool {
    h[0] == 31u8 && h[1] == 139u8
}

/// Whether a block header has the extra-field flag set.
pub open spec fn spec_flag_ok(h: Seq<u8>) -> bool {
    h[3] & 4 == 4
}

/// The added surface of formats whose blocks are self-contained frames that
/// carry their own size, per-block checksum, and original length.
pub trait BlockFormatSpec: FormatSpec {
    /// The size of one block header.
    spec fn spec_header_size(&self) -> nat;

    /// Whether a block header carries this format's subfield identifier.
    spec fn spec_sid_ok(&self, h: Seq<u8>) -> bool;

    /// Whether a block header is valid: magic bytes, the extra-field flag,
    /// and the subfield identifier.
    spec fn spec_header_ok(&self, h: Seq<u8>) -> bool;

    /// The total block size, header and trailer included, that a header
    /// declares.
    spec fn spec_block_size(&self, h: Seq<u8>) -> nat;

    /// The size of one block header.
    fn header_size(&self) -> (r: usize)
        ensures
            r as nat == self.spec_header_size(),
            16 <= r <= 32,
    ;

    /// Validate a block header: the magic bytes, then the extra-field flag,
    /// then the subfield identifier, each fault with its own message.
    fn check_header(&self, bytes: &[u8]) -> (r: Result<(), GzpError>)
        requires
            bytes@.len() >= self.spec_header_size(),
        ensures
            r is Ok <==> self.spec_header_ok(bytes@),
            !spec_magic_ok(bytes@) ==> r == Err::<(), GzpError>(
                GzpError::InvalidHeader("Bad magic"),
            ),
            spec_magic_ok(bytes@) && !spec_flag_ok(bytes@) ==> r == Err::<(), GzpError>(
                GzpError::InvalidHeader("Extra field flag not set"),
            ),
            spec_magic_ok(bytes@) && spec_flag_ok(bytes@) && !self.spec_sid_ok(bytes@) ==> r
                == Err::<(), GzpError>(GzpError::InvalidHeader("Bad SID")),
            r matches Err(e) ==> e matches GzpError::InvalidHeader(_),
    ;

    /// Read the declared total block size out of a valid header.
    fn get_block_size(&self, bytes: &[u8]) -> (r: Result<usize, GzpError>)
        requires
            bytes@.len() >= self.spec_header_size(),
        ensures
            r matches Ok(n) ==> n as nat == self.spec_block_size(bytes@),
            r is Ok,
    ;

    /// Read the stored checksum and original length from the last eight bytes
    /// of a block.
    fn get_footer_values(&self, input: &[u8]) -> (r: FooterValues)
        requires
            input@.len() >= 8,
        ensures
            r.sum as nat == endian::le_val(
                input@.subrange(input@.len() - 8, input@.len() - 4),
            ),
            r.amount as nat == endian::le_val(input@.subrange(input@.len() - 4, input@.len() as int)),
    ;

    /// Create a per-worker block decompressor for this format.
    fn create_decompressor(&self) -> (r: codec::Decompressor)
        ensures
            r.ready(),
    ;

    /// Decode the DEFLATE body of one block into a buffer of the original
    /// size.
    fn decode_block(
        &self,
        decoder: &mut codec::Decompressor,
        input: &[u8],
        orig_size: usize,
    ) -> (r: Result<Vec<u8>, GzpError>)
        requires
            old(decoder).ready(),
        ensures
            r is Ok <==> codec::inflate_ok(input@, orig_size as nat),
            r matches Ok(v) ==> {
                &&& v@ == codec::inflate_of(input@, orig_size as nat)
                &&& v@.len() <= orig_size
                &&& final(decoder).ready()
            },
            r matches Err(e) ==> e matches GzpError::DecompressError,
    ;
}

/// Read the stored checksum and original length from the last eight bytes of
/// a framed block.
pub fn read_footer_values(input: &[u8]) -> (r: FooterValues)
    requires
        input@.len() >= 8,
    ensures
        r.sum as nat == endian::le_val(input@.subrange(input@.len() - 8, input@.len() - 4)),
        r.amount as nat == endian::le_val(input@.subrange(input@.len() - 4, input@.len() as int)),
{
    let n = input.len();
    let sum = endian::read_le_u32(input, n - 8);
    let amount = endian::read_le_u32(input, n - 4);
    FooterValues { sum, amount }
}

} // verus!
