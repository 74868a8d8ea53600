//! Block encode and decode primitives, backed by the outside DEFLATE codec.
//!
//! Each worker owns one [`Compressor`] or [`Decompressor`]; the codec state is
//! reset after every block, so what a call returns depends on the arguments
//! alone. The dictionary handed to the codec before a block is mirrored by a
//! ghost field so that contracts can name it.
use vstd::prelude::*;

use crate::GzpError;

verus! {

#[verifier::external_type_specification]
#[verifier::external_body]
pub struct ExCompress(flate2::Compress);

#[verifier::external_type_specification]
#[verifier::external_body]
pub struct ExDecompress(flate2::Decompress);

/// What the DEFLATE encoder produces for one whole block: a function of the
/// block bytes, the dictionary set beforehand, the compression level, and the
/// flush mode (`Finish` on the last block of a stream, `Sync` otherwise).
pub uninterp spec fn deflate_of(
    input: Seq<u8>,
    dict: Option<Seq<u8>>,
    level: u32,
    last: bool,
) -> Seq<u8>;

/// What the DEFLATE decoder produces for one whole block when it inflates
/// `input` into a buffer of capacity `cap`.
pub uninterp spec fn inflate_of(input: Seq<u8>, cap: nat) -> Seq<u8>;

/// Whether the DEFLATE decoder accepts `input` as one whole block when it
/// inflates into a buffer of capacity `cap`: a function of the arguments
/// alone, since the codec is reset between blocks.
pub uninterp spec fn inflate_ok(input: Seq<u8>, cap: nat) -> bool;

/// The extra room one deflated block may need beyond its input: a tenth of
/// the input or a small constant, which covers DEFLATE's stored-block
/// expansion.
pub open spec fn extra_of(n: nat) -> nat {
    if n / 10 > 128 {
        n / 10
    } else {
        128
    }
}

/// The worst-case room one deflated block may need.
pub open spec fn deflate_cap(n: nat) -> nat {
    n + extra_of(n)
}

/// A shorter block needs no more room than a longer one.
pub proof fn lemma_deflate_cap_mono(a: nat, b: nat)
    requires
        a <= b,
    ensures
        deflate_cap(a) <= deflate_cap(b),
{
    vstd::arithmetic::div_mod::lemma_div_is_ordered(a as int, b as int, 10);
}

/// Per-worker DEFLATE compression state with a reset-between-blocks contract.
///
/// `ready` models that the inner codec is in its freshly-reset state, and
/// `dict` the dictionary set on it since that reset; both are maintained only
/// through the trusted wrappers below.
pub struct Compressor {
    inner: flate2::Compress,
    level: u32,
    dict: Ghost<Option<Seq<u8>>>,
    ready: Ghost<bool>,
}

impl Compressor {
    /// The compression level this codec was created with.
    pub closed spec fn spec_level(&self) -> u32 {
        self.level
    }

    /// The dictionary set on the codec since the last reset.
    pub closed spec fn pending_dict(&self) -> Option<Seq<u8>> {
        self.dict@
    }

    /// Whether the codec is reset and ready to encode a block.
    pub closed spec fn ready(&self) -> bool {
        self.ready@
    }

    pub fn level(&self) -> (r: u32)
        ensures
            r == self.spec_level(),
    {
        self.level
    }
}

/// Relies on `flate2::Compress::new`: a fresh raw-DEFLATE encoder at the
/// given level, which panics above level nine.
#[verifier::external_body]
fn compress_new(level: u32) -> flate2::Compress
    requires
        level <= 9,
{
    flate2::Compress::new(flate2::Compression::new(level), false)
}

/// Create a per-worker DEFLATE compressor for the given level.
pub fn new_compressor(level: u32) -> (r: Compressor)
    requires
        level <= 9,
    ensures
        r.spec_level() == level,
        r.pending_dict() is None,
        r.ready(),
{
    Compressor { inner: compress_new(level), level, dict: Ghost(None), ready: Ghost(true) }
}

/// Relies on `flate2::Compress::set_dictionary`: presets the 32 KiB DEFLATE
/// window before a block is encoded. On a freshly reset raw stream the codec
/// accepts any dictionary, so the call succeeds.
#[verifier::external_body]
pub fn set_dictionary(c: &mut Compressor, dict: &Vec<u8>) -> (r: Result<(), GzpError>)
    requires
        old(c).ready(),
        old(c).pending_dict() is None,
    ensures
        final(c).spec_level() == old(c).spec_level(),
        r is Ok,
        r matches Ok(_) ==> final(c).ready() && final(c).pending_dict() == Some(dict@),
{
    match c.inner.set_dictionary(dict.as_slice()) {
        Ok(_) => Ok(()),
        Err(_) => Err(GzpError::DeflateCompress),
    }
}

/// Relies on `flate2::Compress::compress_vec` with a `Sync` flush, and
/// `flate2::Compress::reset`: encodes one whole block into a buffer with
/// `cap` bytes of spare room, then resets the codec. One call hands the codec
/// at most 32 bits' worth of input, which the block cap keeps; with the room
/// that [`deflate_cap`] gives, the codec consumes the whole block, and on a
/// freshly reset stream with output room the call cannot fail.
#[verifier::external_body]
pub fn deflate_sync(c: &mut Compressor, input: &[u8], cap: usize) -> (r: Result<
    Vec<u8>,
    GzpError,
>)
    requires
        old(c).ready(),
        input@.len() <= u32::MAX,
        cap >= deflate_cap(input@.len()),
    ensures
        final(c).spec_level() == old(c).spec_level(),
        r is Ok,
        r matches Ok(v) ==> {
            &&& v@ == deflate_of(input@, old(c).pending_dict(), old(c).spec_level(), false)
            &&& final(c).ready()
            &&& final(c).pending_dict() is None
        },
{
    let mut buffer = Vec::with_capacity(cap);
    match c.inner.compress_vec(input, &mut buffer, flate2::FlushCompress::Sync) {
        Ok(_) => {
            c.inner.reset();
            Ok(buffer)
        },
        Err(_) => Err(GzpError::DeflateCompress),
    }
}

/// Relies on `flate2::Compress::compress_vec` with a `Finish` flush, and
/// `flate2::Compress::reset`: as [`deflate_sync`], but closes the DEFLATE
/// stream.
#[verifier::external_body]
pub fn deflate_finish(c: &mut Compressor, input: &[u8], cap: usize) -> (r: Result<
    Vec<u8>,
    GzpError,
>)
    requires
        old(c).ready(),
        input@.len() <= u32::MAX,
        cap >= deflate_cap(input@.len()),
    ensures
        final(c).spec_level() == old(c).spec_level(),
        r is Ok,
        r matches Ok(v) ==> {
            &&& v@ == deflate_of(input@, old(c).pending_dict(), old(c).spec_level(), true)
            &&& final(c).ready()
            &&& final(c).pending_dict() is None
        },
{
    let mut buffer = Vec::with_capacity(cap);
    match c.inner.compress_vec(input, &mut buffer, flate2::FlushCompress::Finish) {
        Ok(_) => {
            c.inner.reset();
            Ok(buffer)
        },
        Err(_) => Err(GzpError::DeflateCompress),
    }
}

/// Per-worker DEFLATE decompression state with a reset-between-blocks
/// contract.
pub struct Decompressor {
    inner: flate2::Decompress,
    ready: Ghost<bool>,
}

impl Decompressor {
    /// Whether the codec is reset and ready to decode a block.
    pub closed spec fn ready(&self) -> bool {
        self.ready@
    }
}

/// Relies on `flate2::Decompress::new`: a fresh raw-DEFLATE decoder.
#[verifier::external_body]
fn decompress_new() -> flate2::Decompress {
    flate2::Decompress::new(false)
}

/// Create a per-worker DEFLATE decompressor.
pub fn new_decompressor() -> (r: Decompressor)
    ensures
        r.ready(),
{
    Decompressor { inner: decompress_new(), ready: Ghost(true) }
}

/// Relies on `flate2::Decompress::decompress_vec` with a `Finish` flush, and
/// `flate2::Decompress::reset`: inflates one whole block into a buffer of
/// capacity `cap`, truncated back to `cap` bytes in case the allocator gave
/// more room than asked for, then resets the codec. Whether the codec
/// accepts the block depends on the block bytes and `cap` alone.
#[verifier::external_body]
pub fn inflate_block(d: &mut Decompressor, input: &[u8], cap: usize) -> (r: Result<
    Vec<u8>,
    GzpError,
>)
    requires
        old(d).ready(),
    ensures
        r is Ok <==> inflate_ok(input@, cap as nat),
        r matches Ok(v) ==> {
            &&& v@ == inflate_of(input@, cap as nat)
            &&& v@.len() <= cap
            &&& final(d).ready()
        },
        r matches Err(e) ==> e matches GzpError::DecompressError,
{
    let mut buffer = Vec::with_capacity(cap);
    match d.inner.decompress_vec(input, &mut buffer, flate2::FlushDecompress::Finish) {
        Ok(_) => {
            d.inner.reset(false);
            buffer.truncate(cap);
            Ok(buffer)
        },
        Err(_) => Err(GzpError::DecompressError),
    }
}

} // verus!
