//! Ordered block decompression for block-framed formats.
//!
//! The stream is scanned block by block: each block's header is validated,
//! its declared size read, its payload inflated to the stored original size,
//! and the stored per-block CRC-32 verified against the decoded bytes.
use vstd::prelude::*;

use crate::check::{crc32_of, Check, Crc32};
use crate::codec::{inflate_of, inflate_ok, Decompressor};
use crate::endian::le_val;
use crate::{BlockFormatSpec, GzpError, BUFSIZE, DICT_SIZE};

verus! {

/// The [`ParDecompress`] configuration: buffer size, worker count, and
/// optional CPU pinning. The threaded runtime around the pipeline consumes
/// the validated fields.
#[derive(Debug)]
pub struct ParDecompressBuilder<F>
    where F: BlockFormatSpec
{
    /// The size of the output buffer.
    pub buffer_size: usize,
    /// The number of worker threads the pipeline may use.
    pub num_threads: usize,
    /// The input format.
    pub format: F,
    /// Whether to pin workers to CPUs, and the first CPU to pin at.
    pub pin_threads: Option<usize>,
}

impl<F> ParDecompressBuilder<F>
    where F: BlockFormatSpec
{
    /// Create a builder with the default buffer size and one worker.
    pub fn new() -> (r: Self)
        ensures
            r.buffer_size == BUFSIZE,
            r.num_threads == 1,
            r.pin_threads is None,
    {
        ParDecompressBuilder { buffer_size: BUFSIZE, num_threads: 1, format: F::new(), pin_threads: None }
    }

    /// Set the buffer size, which must hold at least one dictionary.
    pub fn buffer_size(self, buffer_size: usize) -> (r: Result<Self, GzpError>)
        ensures
            buffer_size < DICT_SIZE <==> (r matches Err(GzpError::BufferSize(b, d)) && b
                == buffer_size && d == DICT_SIZE),
            r matches Ok(b) ==> b == (ParDecompressBuilder { buffer_size, ..self }),
    {
        if buffer_size < DICT_SIZE {
            return Err(GzpError::BufferSize(buffer_size, DICT_SIZE));
        }
        Ok(ParDecompressBuilder { buffer_size, ..self })
    }

    /// Set the number of worker threads, which must be at least one.
    pub fn num_threads(self, num_threads: usize) -> (r: Result<Self, GzpError>)
        ensures
            num_threads == 0 <==> (r matches Err(GzpError::NumThreads(n)) && n == 0),
            r matches Ok(b) ==> b == (ParDecompressBuilder { num_threads, ..self }),
    {
        if num_threads == 0 {
            return Err(GzpError::NumThreads(num_threads));
        }
        Ok(ParDecompressBuilder { num_threads, ..self })
    }

    /// Set the number of worker threads without validation; zero means the
    /// caller will fall back to a synchronous reader.
    pub fn maybe_num_threads(self, num_threads: usize) -> (r: Self)
        ensures
            r == (ParDecompressBuilder { num_threads, ..self }),
    {
        ParDecompressBuilder { num_threads, ..self }
    }

    /// Set whether to pin workers to CPUs, and the first CPU to pin at.
    pub fn pin_threads(self, pin_threads: Option<usize>) -> (r: Self)
        ensures
            r == (ParDecompressBuilder { pin_threads, ..self }),
    {
        ParDecompressBuilder { pin_threads, ..self }
    }
}

/// The stored CRC-32 in a block payload's trailer.
pub open spec fn spec_payload_sum(p: Seq<u8>) -> nat {
    le_val(p.subrange(p.len() - 8, p.len() - 4))
}

/// The stored original length in a block payload's trailer.
pub open spec fn spec_payload_amount(p: Seq<u8>) -> nat {
    le_val(p.subrange(p.len() - 4, p.len() as int))
}

/// The bytes one block payload decodes to: nothing for an empty block, else
/// its DEFLATE body inflated to the stored original length.
pub open spec fn spec_decoded_block(p: Seq<u8>) -> Seq<u8> {
    if spec_payload_amount(p) == 0 {
        Seq::empty()
    } else {
        inflate_of(p.take(p.len() - 8), spec_payload_amount(p))
    }
}

/// Whether the stored CRC-32 matches the decoded bytes.
pub open spec fn spec_block_check_ok(p: Seq<u8>) -> bool {
    crc32_of(spec_decoded_block(p)) == spec_payload_sum(p)
}

/// Whether one block payload's DEFLATE body decodes: trivially for an empty
/// block, else as the codec accepts it into the stored original length.
pub open spec fn spec_block_decode_ok(p: Seq<u8>) -> bool {
    spec_payload_amount(p) == 0 || inflate_ok(p.take(p.len() - 8), spec_payload_amount(p))
}

/// Decode one block payload (header already stripped) and verify its stored
/// CRC-32 against the decoded bytes.
pub fn decode_block_checked<F: BlockFormatSpec>(
    format: &F,
    decoder: &mut Decompressor,
    payload: &[u8],
) -> (r: Result<Vec<u8>, GzpError>)
    requires
        payload@.len() >= 8,
        old(decoder).ready(),
    ensures
        r is Ok <==> spec_block_decode_ok(payload@) && spec_block_check_ok(payload@),
        r matches Ok(v) ==> {
            &&& v@ == spec_decoded_block(payload@)
            &&& final(decoder).ready()
        },
        r matches Err(GzpError::InvalidCheck { found, expected }) ==> {
            &&& spec_block_decode_ok(payload@)
            &&& !spec_block_check_ok(payload@)
            &&& found == crc32_of(spec_decoded_block(payload@))
            &&& expected == spec_payload_sum(payload@)
            &&& final(decoder).ready()
        },
        r matches Err(GzpError::DecompressError) ==> !spec_block_decode_ok(payload@),
        r matches Err(e) ==> (e matches GzpError::DecompressError || e
            matches GzpError::InvalidCheck { found: _, expected: _ }),
{
    let footer_vals = format.get_footer_values(payload);
    let n = payload.len();
    let result: Vec<u8> = if footer_vals.amount != 0 {
        let body = vstd::slice::slice_subrange(payload, 0, n - 8);
        proof {
            assert(body@ =~= payload@.take(n - 8));
        }
        match format.decode_block(decoder, body, footer_vals.amount as usize) {
            Ok(v) => v,
            Err(e) => {
                return Err(e);
            },
        }
    } else {
        Vec::new()
    };
    let mut check = Crc32::new();
    check.update(result.as_slice());
    let found = check.sum();
    if found != footer_vals.sum {
        return Err(GzpError::InvalidCheck { found, expected: footer_vals.sum });
    }
    Ok(result)
}

/// Whether a byte stream splits into whole framed blocks: each block starts
/// with a valid header whose declared size covers its header and trailer and
/// stays within the stream.
pub open spec fn spec_split_ok<F: BlockFormatSpec>(f: F, data: Seq<u8>) -> bool
    decreases data.len(),
{
    if data.len() == 0 {
        true
    } else if data.len() < f.spec_header_size() {
        false
    } else {
        let size = f.spec_block_size(data.take(f.spec_header_size() as int));
        &&& f.spec_header_ok(data.take(f.spec_header_size() as int))
        &&& size >= f.spec_header_size() + 8
        &&& size <= data.len()
        &&& spec_split_ok(f, data.skip(size as int))
    }
}

/// The bytes a block-framed stream decodes to, block by block in order.
pub open spec fn spec_decode_stream<F: BlockFormatSpec>(f: F, data: Seq<u8>) -> Seq<u8>
    decreases data.len(),
{
    if data.len() < f.spec_header_size() || data.len() == 0 {
        Seq::empty()
    } else {
        let hs = f.spec_header_size() as int;
        let size = f.spec_block_size(data.take(hs));
        if f.spec_header_ok(data.take(hs)) && size >= f.spec_header_size() + 8 && size
            <= data.len() {
            spec_decoded_block(data.subrange(hs, size as int)) + spec_decode_stream(
                f,
                data.skip(size as int),
            )
        } else {
            Seq::empty()
        }
    }
}

/// Whether every block's stored CRC-32 matches its decoded bytes, over the
/// stream's parseable prefix.
pub open spec fn spec_checks_ok<F: BlockFormatSpec>(f: F, data: Seq<u8>) -> bool
    decreases data.len(),
{
    if data.len() < f.spec_header_size() || data.len() == 0 {
        true
    } else {
        let hs = f.spec_header_size() as int;
        let size = f.spec_block_size(data.take(hs));
        if f.spec_header_ok(data.take(hs)) && size >= f.spec_header_size() + 8 && size
            <= data.len() {
            spec_block_check_ok(data.subrange(hs, size as int)) && spec_checks_ok(
                f,
                data.skip(size as int),
            )
        } else {
            true
        }
    }
}

/// Block-framed independence: a run of whole framed blocks followed by more
/// framed data decodes to what the two parts decode to on their own,
/// concatenated. Dropping or inserting whole blocks therefore never disturbs
/// how the remaining blocks decode.
pub proof fn lemma_block_stream_concat<F: BlockFormatSpec>(f: F, a: Seq<u8>, b: Seq<u8>)
    requires
        spec_split_ok(f, a),
    ensures
        spec_split_ok(f, a + b) <==> spec_split_ok(f, b),
        spec_split_ok(f, b) ==> spec_decode_stream(f, a + b) == spec_decode_stream(f, a)
            + spec_decode_stream(f, b),
        spec_split_ok(f, b) ==> (spec_checks_ok(f, a + b) <==> spec_checks_ok(f, a)
            && spec_checks_ok(f, b)),
    decreases a.len(),
{
    if a.len() == 0 {
        assert(a + b =~= b);
        assert(spec_decode_stream(f, a) =~= Seq::<u8>::empty());
        assert(Seq::<u8>::empty() + spec_decode_stream(f, b) =~= spec_decode_stream(f, b));
    } else {
        let hs = f.spec_header_size() as int;
        let size = f.spec_block_size(a.take(hs)) as int;
        assert((a + b).take(hs) =~= a.take(hs));
        assert((a + b).subrange(hs, size) =~= a.subrange(hs, size));
        assert((a + b).skip(size) =~= a.skip(size) + b);
        lemma_block_stream_concat(f, a.skip(size), b);
        if spec_split_ok(f, b) {
            assert(spec_decode_stream(f, a + b) == spec_decoded_block(a.subrange(hs, size))
                + (spec_decode_stream(f, a.skip(size)) + spec_decode_stream(f, b)));
            assert(spec_decoded_block(a.subrange(hs, size)) + (spec_decode_stream(f, a.skip(size))
                + spec_decode_stream(f, b)) =~= (spec_decoded_block(a.subrange(hs, size))
                + spec_decode_stream(f, a.skip(size))) + spec_decode_stream(f, b));
        }
    }
}

/// How a scan of a block-framed stream ends: cleanly at the stream's end, or
/// at the first malformed header, misdeclared block size, undecodable block
/// body, or mismatched checksum.
#[derive(PartialEq, Eq, Structural)]
pub enum ScanOutcome {
    Done,
    BadHeader,
    BadSize,
    BadDecode,
    BadCheck,
}

/// The first fault a block-by-block scan of `data` meets, or `Done` when
/// every block parses, decodes, and checks out to the stream's end.
pub open spec fn spec_scan<F: BlockFormatSpec>(f: F, data: Seq<u8>) -> ScanOutcome
    decreases data.len(),
{
    if data.len() == 0 {
        ScanOutcome::Done
    } else if data.len() < f.spec_header_size() {
        ScanOutcome::BadHeader
    } else if !f.spec_header_ok(data.take(f.spec_header_size() as int)) {
        ScanOutcome::BadHeader
    } else {
        let hs = f.spec_header_size() as int;
        let size = f.spec_block_size(data.take(hs));
        if size < f.spec_header_size() + 8 || size > data.len() {
            ScanOutcome::BadSize
        } else if !spec_block_decode_ok(data.subrange(hs, size as int)) {
            ScanOutcome::BadDecode
        } else if !spec_block_check_ok(data.subrange(hs, size as int)) {
            ScanOutcome::BadCheck
        } else {
            spec_scan(f, data.skip(size as int))
        }
    }
}

/// Decompress a whole block-framed stream in one pass: the reference pipeline
/// that the threaded runtime reproduces. Blocks are decoded in stream order;
/// every header is validated and every per-block CRC-32 verified.
pub fn decompress_all<F: BlockFormatSpec>(format: &F, data: &[u8]) -> (r: Result<
    Vec<u8>,
    GzpError,
>)
    ensures
        r is Ok <==> spec_scan(*format, data@) == ScanOutcome::Done,
        r matches Ok(v) ==> {
            &&& v@ == spec_decode_stream(*format, data@)
            &&& spec_split_ok(*format, data@)
            &&& spec_checks_ok(*format, data@)
        },
        (r matches Err(GzpError::InvalidHeader(_))) <==> spec_scan(*format, data@)
            == ScanOutcome::BadHeader,
        (r matches Err(GzpError::InvalidBlockSize(_))) <==> spec_scan(*format, data@)
            == ScanOutcome::BadSize,
        (r matches Err(GzpError::DecompressError)) <==> spec_scan(*format, data@)
            == ScanOutcome::BadDecode,
        (r matches Err(GzpError::InvalidCheck { found: _, expected: _ })) <==> spec_scan(
            *format,
            data@,
        ) == ScanOutcome::BadCheck,
        r matches Err(GzpError::InvalidHeader(_)) ==> !spec_split_ok(*format, data@),
        r matches Err(GzpError::InvalidBlockSize(_)) ==> !spec_split_ok(*format, data@),
        r matches Err(GzpError::InvalidCheck { found: _, expected: _ }) ==> !spec_checks_ok(
            *format,
            data@,
        ),
{
    let hs = format.header_size();
    let mut decoder = format.create_decompressor();
    let mut out: Vec<u8> = Vec::new();
    let mut pos: usize = 0;
    proof {
        assert(data@.skip(0) =~= data@);
    }
    while pos < data.len()
        invariant
            pos <= data@.len(),
            hs as nat == format.spec_header_size(),
            16 <= hs <= 32,
            decoder.ready(),
            spec_split_ok(*format, data@) <==> spec_split_ok(*format, data@.skip(pos as int)),
            spec_checks_ok(*format, data@) <==> spec_checks_ok(*format, data@.skip(pos as int)),
            spec_scan(*format, data@) == spec_scan(*format, data@.skip(pos as int)),
            out@ + spec_decode_stream(*format, data@.skip(pos as int)) == spec_decode_stream(
                *format,
                data@,
            ),
        decreases data@.len() - pos,
    {
        let ghost rest = data@.skip(pos as int);
        if data.len() - pos < hs {
            return Err(GzpError::InvalidHeader("Unexpected end of stream"));
        }
        let header = vstd::slice::slice_subrange(data, pos, pos + hs);
        proof {
            assert(header@ =~= rest.take(hs as int));
        }
        match format.check_header(header) {
            Ok(_) => {},
            Err(e) => {
                return Err(e);
            },
        }
        let size = match format.get_block_size(header) {
            Ok(s) => s,
            Err(e) => {
                return Err(e);
            },
        };
        if size < hs + 8 {
            return Err(GzpError::InvalidBlockSize("Block cannot hold its own framing"));
        }
        if size > data.len() - pos {
            return Err(GzpError::InvalidBlockSize("Block size does not match available bytes"));
        }
        let payload = vstd::slice::slice_subrange(data, pos + hs, pos + size);
        proof {
            assert(payload@ =~= rest.subrange(hs as int, size as int));
        }
        let mut decoded = match decode_block_checked(format, &mut decoder, payload) {
            Ok(v) => v,
            Err(e) => {
                return Err(e);
            },
        };
        out.append(&mut decoded);
        pos = pos + size;
        proof {
            assert(rest.skip(size as int) =~= data@.skip(pos as int));
        }
    }
    proof {
        assert(data@.skip(pos as int) =~= Seq::<u8>::empty());
        assert(out@ + Seq::<u8>::empty() =~= out@);
    }
    Ok(out)
}

} // verus!
