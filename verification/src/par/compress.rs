//! Ordered block compression.
//!
//! Input bytes are sliced into blocks of a configured size. Each block is
//! encoded as an independent unit, with the last 32 KiB of the previous block
//! carried over as a dictionary when the format asks for one, and the encoded
//! blocks are emitted in input order between the stream header and trailer.
use vstd::prelude::*;

use crate::check::Check;
use crate::codec;
use crate::codec::Compressor;
use crate::{dict_view, FormatSpec, GzpError, DICT_SIZE};

verus! {

/// The [`ParCompress`] configuration: block size, worker count, compression
/// level, and optional CPU pinning. The threaded runtime around the pipeline
/// consumes the validated fields.
#[derive(Debug)]
pub struct ParCompressBuilder<F>
    where F: FormatSpec
{
    /// How many bytes to accumulate before a block is dispatched.
    pub buffer_size: usize,
    /// The number of worker threads the pipeline may use.
    pub num_threads: usize,
    /// The compression level of the output.
    pub compression_level: u32,
    /// The output format.
    pub format: F,
    /// Whether to pin workers to CPUs, and the first CPU to pin at.
    pub pin_threads: Option<usize>,
}

impl<F> ParCompressBuilder<F>
    where F: FormatSpec
{
    /// Create a builder with the format's default buffer size, one worker,
    /// and compression level three.
    pub fn new() -> (r: Self)
        ensures
            r.buffer_size as nat == r.format.spec_default_bufsize(),
            DICT_SIZE <= r.buffer_size,
            r.num_threads == 1,
            r.compression_level == 3,
            r.pin_threads is None,
    {
        let format = F::new();
        let buffer_size = format.default_buffer_size();
        ParCompressBuilder { buffer_size, num_threads: 1, compression_level: 3, format, pin_threads: None }
    }

    /// Set the block size. Blocks must hold at least one dictionary.
    pub fn buffer_size(self, buffer_size: usize) -> (r: Result<Self, GzpError>)
        ensures
            buffer_size < DICT_SIZE <==> (r matches Err(GzpError::BufferSize(b, d)) && b
                == buffer_size && d == DICT_SIZE),
            r matches Ok(b) ==> b == (ParCompressBuilder { buffer_size, ..self }),
    {
        if buffer_size < DICT_SIZE {
            return Err(GzpError::BufferSize(buffer_size, DICT_SIZE));
        }
        Ok(ParCompressBuilder { buffer_size, ..self })
    }

    /// Set the number of worker threads, which must be at least one.
    pub fn num_threads(self, num_threads: usize) -> (r: Result<Self, GzpError>)
        ensures
            num_threads == 0 <==> (r matches Err(GzpError::NumThreads(n)) && n == 0),
            r matches Ok(b) ==> b == (ParCompressBuilder { num_threads, ..self }),
    {
        if num_threads == 0 {
            return Err(GzpError::NumThreads(num_threads));
        }
        Ok(ParCompressBuilder { num_threads, ..self })
    }

    /// Set the compression level, zero through nine.
    pub fn compression_level(self, compression_level: u32) -> (r: Self)
        requires
            compression_level <= 9,
        ensures
            r == (ParCompressBuilder { compression_level, ..self }),
    {
        ParCompressBuilder { compression_level, ..self }
    }

    /// Set whether to pin workers to CPUs, and the first CPU to pin at.
    pub fn pin_threads(self, pin_threads: Option<usize>) -> (r: Self)
        ensures
            r == (ParCompressBuilder { pin_threads, ..self }),
    {
        ParCompressBuilder { pin_threads, ..self }
    }
}

/// One block handed to a worker: the uncompressed bytes, the dictionary
/// carried over from the previous block, and whether this block ends the
/// stream.
#[derive(Debug)]
pub struct BlockJob {
    /// The uncompressed block.
    pub data: Vec<u8>,
    /// The last 32 KiB of the previous block, when the format asks for it.
    pub dictionary: Option<Vec<u8>>,
    /// Whether this block ends the stream.
    pub is_last: bool,
}

/// The view of an optional owned byte buffer.
pub open spec fn opt_view(d: Option<Vec<u8>>) -> Option<Seq<u8>> {
    match d {
        Some(v) => Some(v@),
        None => None,
    }
}

/// The dictionary a block hands to its successor: its last 32 KiB, when the
/// format chains blocks and the block is big enough to fill a window.
pub open spec fn spec_next_dict<F: FormatSpec>(f: F, block: Seq<u8>) -> Option<Seq<u8>> {
    if f.spec_needs_dict() && block.len() >= DICT_SIZE {
        Some(block.subrange(block.len() - DICT_SIZE, block.len() as int))
    } else {
        None
    }
}

/// The encoded bytes of everything after the stream header: `rest` sliced
/// into blocks of `bsize`, each encoded with the dictionary its predecessor
/// left, the last block (possibly smaller, possibly empty) closing the
/// stream.
pub open spec fn spec_encode_blocks<F: FormatSpec>(
    f: F,
    rest: Seq<u8>,
    dict: Option<Seq<u8>>,
    level: u32,
    bsize: nat,
) -> Seq<u8>
    decreases rest.len(),
{
    if rest.len() < bsize || bsize == 0 {
        f.spec_encode(rest, dict, level, true)
    } else {
        f.spec_encode(rest.take(bsize as int), dict, level, false) + spec_encode_blocks(
            f,
            rest.skip(bsize as int),
            spec_next_dict(f, rest.take(bsize as int)),
            level,
            bsize,
        )
    }
}

/// One whole compressed stream: header, the blocks in input order, and the
/// trailer over the whole uncompressed input.
pub open spec fn spec_compress_stream<F: FormatSpec>(
    f: F,
    input: Seq<u8>,
    level: u32,
    bsize: nat,
) -> Seq<u8> {
    f.spec_header(level) + spec_encode_blocks(f, input, None, level, bsize) + f.spec_footer(input)
}

/// Whether every block of `rest`, sliced as [`spec_encode_blocks`] slices it,
/// fits its format's framing limits, so that the whole stream can be encoded.
pub open spec fn spec_blocks_ok<F: FormatSpec>(
    f: F,
    rest: Seq<u8>,
    level: u32,
    bsize: nat,
) -> bool
    decreases rest.len(),
{
    if rest.len() < bsize || bsize == 0 {
        f.spec_encode_ok(rest, level, true)
    } else {
        f.spec_encode_ok(rest.take(bsize as int), level, false) && spec_blocks_ok(
            f,
            rest.skip(bsize as int),
            level,
            bsize,
        )
    }
}

/// For a format whose blocks always fit its framing — gzip, zlib, raw
/// deflate, and Snappy — every stream can be encoded, whatever the input.
pub proof fn lemma_blocks_ok_always<F: FormatSpec>(f: F, rest: Seq<u8>, level: u32, bsize: nat)
    requires
        forall|s: Seq<u8>, last: bool| #[trigger] f.spec_encode_ok(s, level, last),
    ensures
        spec_blocks_ok(f, rest, level, bsize),
    decreases rest.len(),
{
    if !(rest.len() < bsize || bsize == 0) {
        lemma_blocks_ok_always(f, rest.skip(bsize as int), level, bsize);
    }
}

/// What one worker does with one block: encode it and compute the per-block
/// check of the uncompressed bytes.
pub fn encode_job<F: FormatSpec>(
    format: &F,
    encoder: &mut Compressor,
    compression_level: u32,
    job: &BlockJob,
) -> (r: Result<(F::C, Vec<u8>), GzpError>)
    requires
        format.spec_input_ok(job.data@.len()),
        compression_level <= 9,
        old(encoder).ready(),
        old(encoder).pending_dict() is None,
        old(encoder).spec_level() == compression_level,
    ensures
        final(encoder).spec_level() == compression_level,
        r is Ok <==> format.spec_encode_ok(job.data@, compression_level, job.is_last),
        r matches Ok((c, v)) ==> {
            &&& v@ == format.spec_encode(
                job.data@,
                opt_view(job.dictionary),
                compression_level,
                job.is_last,
            )
            &&& c.fed() == job.data@
            &&& final(encoder).ready()
            &&& final(encoder).pending_dict() is None
        },
        r matches Err(e) ==> e matches GzpError::BlockSizeExceeded(_, _),
{
    let dict_ref = job.dictionary.as_ref();
    proof {
        assert(crate::dict_view(dict_ref) == opt_view(job.dictionary));
    }
    let encoded = match format.encode(
        job.data.as_slice(),
        encoder,
        compression_level,
        dict_ref,
        job.is_last,
    ) {
        Ok(v) => v,
        Err(e) => {
            return Err(e);
        },
    };
    let mut check = format.create_check();
    check.update(job.data.as_slice());
    Ok((check, encoded))
}

/// The uncompressed bytes of a run of jobs, in dispatch order.
pub open spec fn spec_jobs_data(jobs: Seq<BlockJob>) -> Seq<u8>
    decreases jobs.len(),
{
    if jobs.len() == 0 {
        Seq::empty()
    } else {
        jobs[0].data@ + spec_jobs_data(jobs.skip(1))
    }
}

/// Whether a run of jobs carries its dictionaries correctly: the first job
/// holds the dictionary carried in, and every later job holds the last
/// 32 KiB of its predecessor.
pub open spec fn spec_jobs_chained<F: FormatSpec>(
    f: F,
    jobs: Seq<BlockJob>,
    d0: Option<Seq<u8>>,
) -> bool {
    forall|i: int|
        0 <= i < jobs.len() ==> #[trigger] opt_view(jobs[i].dictionary) == (if i == 0 {
            d0
        } else {
            spec_next_dict(f, jobs[i - 1].data@)
        })
}

proof fn lemma_jobs_data_snoc(jobs: Seq<BlockJob>, j: BlockJob)
    ensures
        spec_jobs_data(jobs.push(j)) == spec_jobs_data(jobs) + j.data@,
    decreases jobs.len(),
{
    if jobs.len() == 0 {
        assert(jobs.push(j).skip(1) =~= Seq::<BlockJob>::empty());
        assert(jobs.push(j)[0] == j);
        assert(spec_jobs_data(jobs.push(j)) =~= j.data@ + spec_jobs_data(
            jobs.push(j).skip(1),
        ));
        assert(j.data@ + Seq::<u8>::empty() =~= j.data@);
        assert(spec_jobs_data(jobs) + j.data@ =~= j.data@);
    } else {
        lemma_jobs_data_snoc(jobs.skip(1), j);
        assert(jobs.push(j).skip(1) =~= jobs.skip(1).push(j));
        assert(jobs.push(j)[0] == jobs[0]);
        assert(jobs[0].data@ + (spec_jobs_data(jobs.skip(1)) + j.data@) =~= (jobs[0].data@
            + spec_jobs_data(jobs.skip(1))) + j.data@);
    }
}

/// The block dispatcher: the state machine at the heart of the parallel
/// writer. It accumulates written bytes, slices off one job per full block,
/// and carries the last 32 KiB of each dispatched block to the next when the
/// format chains blocks. The threaded runtime sends each returned job to a
/// worker and the job's reply slot to the writer, in the same order.
pub struct BlockDispatcher<F>
    where F: FormatSpec
{
    format: F,
    buffer: Vec<u8>,
    dictionary: Option<Vec<u8>>,
    buffer_size: usize,
    finished: bool,
}

impl<F> BlockDispatcher<F>
    where F: FormatSpec
{
    /// The format blocks are dispatched for.
    pub closed spec fn fmt(&self) -> F {
        self.format
    }

    /// The bytes accepted but not yet dispatched.
    pub closed spec fn buffered(&self) -> Seq<u8> {
        self.buffer@
    }

    /// The dictionary the next dispatched block will carry.
    pub closed spec fn carried_dict(&self) -> Option<Seq<u8>> {
        opt_view(self.dictionary)
    }

    /// The configured block size.
    pub closed spec fn block_size(&self) -> nat {
        self.buffer_size as nat
    }

    /// Whether the stream has been finished.
    pub closed spec fn is_finished(&self) -> bool {
        self.finished
    }

    /// Create a dispatcher for a fresh stream.
    pub fn new(format: F, buffer_size: usize) -> (r: Self)
        requires
            buffer_size >= DICT_SIZE,
        ensures
            r.fmt() == format,
            r.buffered() == Seq::<u8>::empty(),
            r.carried_dict() is None,
            r.block_size() == buffer_size as nat,
            !r.is_finished(),
    {
        BlockDispatcher {
            format,
            buffer: Vec::new(),
            dictionary: None,
            buffer_size,
            finished: false,
        }
    }

    /// Slice the first `take` buffered bytes off as one job, moving the
    /// carried dictionary into it and carrying the block's own tail onward.
    fn dispatch_one(&mut self, take: usize, is_last: bool) -> (j: BlockJob)
        requires
            take <= old(self).buffered().len(),
            old(self).block_size() >= DICT_SIZE,
        ensures
            final(self).fmt() == old(self).fmt(),
            final(self).block_size() == old(self).block_size(),
            final(self).is_finished() == old(self).is_finished(),
            j.data@ == old(self).buffered().take(take as int),
            j.is_last == is_last,
            opt_view(j.dictionary) == old(self).carried_dict(),
            final(self).buffered() == old(self).buffered().skip(take as int),
            final(self).carried_dict() == (if is_last {
                None::<Seq<u8>>
            } else {
                spec_next_dict(old(self).fmt(), j.data@)
            }),
    {
        let mut rest = self.buffer.split_off(take);
        core::mem::swap(&mut self.buffer, &mut rest);
        let block = rest;
        let mut d: Option<Vec<u8>> = None;
        core::mem::swap(&mut self.dictionary, &mut d);
        if !is_last && self.format.needs_dict() && take >= DICT_SIZE {
            self.dictionary = Some(
                vstd::slice::slice_to_vec(
                    vstd::slice::slice_subrange(block.as_slice(), take - DICT_SIZE, take),
                ),
            );
        }
        BlockJob { data: block, dictionary: d, is_last }
    }

    /// Accept written bytes and dispatch one job for every full block,
    /// leaving strictly less than one block's worth buffered. Writing to a
    /// finished stream fails the way a closed pipeline channel does.
    pub fn write(&mut self, buf: &[u8]) -> (r: Result<Vec<BlockJob>, GzpError>)
        requires
            old(self).block_size() >= DICT_SIZE,
        ensures
            final(self).fmt() == old(self).fmt(),
            final(self).block_size() == old(self).block_size(),
            old(self).is_finished() ==> (r matches Err(GzpError::ChannelSend)) && *final(self)
                == *old(self),
            !old(self).is_finished() ==> (r matches Ok(jobs) && {
                &&& !final(self).is_finished()
                &&& spec_jobs_data(jobs@) + final(self).buffered() == old(self).buffered() + buf@
                &&& final(self).buffered().len() < old(self).block_size()
                &&& forall|i: int|
                    0 <= i < jobs@.len() ==> (#[trigger] jobs@[i].data@.len()) == old(
                        self,
                    ).block_size() && !jobs@[i].is_last
                &&& spec_jobs_chained(old(self).fmt(), jobs@, old(self).carried_dict())
                &&& final(self).carried_dict() == (if jobs@.len() == 0 {
                    old(self).carried_dict()
                } else {
                    spec_next_dict(old(self).fmt(), jobs@.last().data@)
                })
            }),
    {
        if self.finished {
            return Err(GzpError::ChannelSend);
        }
        self.buffer.extend_from_slice(buf);
        let mut jobs: Vec<BlockJob> = Vec::new();
        while self.buffer.len() >= self.buffer_size
            invariant
                self.buffer_size == old(self).block_size(),
                self.buffer_size >= DICT_SIZE,
                self.format == old(self).fmt(),
                self.finished == false,
                spec_jobs_data(jobs@) + self.buffer@ == old(self).buffered() + buf@,
                forall|i: int|
                    0 <= i < jobs@.len() ==> (#[trigger] jobs@[i].data@.len()) == old(
                        self,
                    ).block_size() && !jobs@[i].is_last,
                spec_jobs_chained(old(self).fmt(), jobs@, old(self).carried_dict()),
                opt_view(self.dictionary) == (if jobs@.len() == 0 {
                    old(self).carried_dict()
                } else {
                    spec_next_dict(old(self).fmt(), jobs@.last().data@)
                }),
            decreases self.buffer@.len(),
        {
            let ghost buffer_before = self.buffer@;
            let ghost jobs_before = jobs@;
            let j = self.dispatch_one(self.buffer_size, false);
            proof {
                lemma_jobs_data_snoc(jobs_before, j);
                assert((spec_jobs_data(jobs_before) + j.data@) + self.buffer@
                    =~= spec_jobs_data(jobs_before) + (j.data@ + self.buffer@));
                assert(j.data@ + self.buffer@ =~= buffer_before);
            }
            jobs.push(j);
        }
        Ok(jobs)
    }

    /// Dispatch everything still buffered as one job: between calls the
    /// accumulator holds strictly less than one block.
    fn dispatch_rest(&mut self, is_last: bool) -> (j: BlockJob)
        requires
            !old(self).is_finished(),
            old(self).block_size() >= DICT_SIZE,
            old(self).buffered().len() < old(self).block_size(),
        ensures
            final(self).fmt() == old(self).fmt(),
            final(self).block_size() == old(self).block_size(),
            final(self).is_finished() == old(self).is_finished(),
            final(self).buffered() == Seq::<u8>::empty(),
            j.data@ == old(self).buffered(),
            j.is_last == is_last,
            opt_view(j.dictionary) == old(self).carried_dict(),
            final(self).carried_dict() == (if is_last {
                None::<Seq<u8>>
            } else {
                spec_next_dict(old(self).fmt(), j.data@)
            }),
    {
        let take = self.buffer.len();
        let j = self.dispatch_one(take, is_last);
        proof {
            assert(j.data@ =~= old(self).buffered());
            assert(final(self).buffered() =~= Seq::<u8>::empty());
        }
        j
    }

    /// Dispatch everything buffered without closing the stream; even an empty
    /// buffer yields one empty job, which keeps the pipeline's block count in
    /// step with the reply slots already queued. Flushing a finished stream
    /// fails the way a closed pipeline channel does.
    pub fn flush(&mut self) -> (r: Result<Vec<BlockJob>, GzpError>)
        requires
            old(self).block_size() >= DICT_SIZE,
            old(self).buffered().len() < old(self).block_size(),
        ensures
            final(self).fmt() == old(self).fmt(),
            final(self).block_size() == old(self).block_size(),
            old(self).is_finished() ==> (r matches Err(GzpError::ChannelSend)) && *final(self)
                == *old(self),
            !old(self).is_finished() ==> (r matches Ok(jobs) && {
                &&& !final(self).is_finished()
                &&& final(self).buffered() == Seq::<u8>::empty()
                &&& jobs@.len() == 1
                &&& jobs@[0].data@ == old(self).buffered()
                &&& !jobs@[0].is_last
                &&& opt_view(jobs@[0].dictionary) == old(self).carried_dict()
                &&& final(self).carried_dict() == spec_next_dict(
                    old(self).fmt(),
                    jobs@[0].data@,
                )
            }),
    {
        if self.finished {
            return Err(GzpError::ChannelSend);
        }
        let j = self.dispatch_rest(false);
        let mut jobs: Vec<BlockJob> = Vec::new();
        jobs.push(j);
        Ok(jobs)
    }

    /// Close the stream: dispatch everything still buffered as the stream's
    /// last job. Finishing twice is harmless: the second call succeeds again
    /// and dispatches nothing.
    pub fn finish(&mut self) -> (r: Result<Vec<BlockJob>, GzpError>)
        requires
            old(self).block_size() >= DICT_SIZE,
            old(self).buffered().len() < old(self).block_size(),
        ensures
            final(self).fmt() == old(self).fmt(),
            final(self).block_size() == old(self).block_size(),
            final(self).is_finished(),
            r is Ok,
            old(self).is_finished() ==> (r matches Ok(jobs) && jobs@.len() == 0) && *final(self)
                == *old(self),
            !old(self).is_finished() ==> (r matches Ok(jobs) && {
                &&& final(self).buffered() == Seq::<u8>::empty()
                &&& jobs@.len() == 1
                &&& jobs@[0].data@ == old(self).buffered()
                &&& jobs@[0].data@.len() < old(self).block_size()
                &&& jobs@[0].is_last
                &&& opt_view(jobs@[0].dictionary) == old(self).carried_dict()
            }),
    {
        if self.finished {
            return Ok(Vec::new());
        }
        let j = self.dispatch_rest(true);
        self.finished = true;
        let mut jobs: Vec<BlockJob> = Vec::new();
        jobs.push(j);
        Ok(jobs)
    }
}

/// The bytes a run of jobs encodes to, in dispatch order.
pub open spec fn spec_jobs_encoded<F: FormatSpec>(f: F, jobs: Seq<BlockJob>, level: u32) -> Seq<u8>
    decreases jobs.len(),
{
    if jobs.len() == 0 {
        Seq::empty()
    } else {
        f.spec_encode(jobs[0].data@, opt_view(jobs[0].dictionary), level, jobs[0].is_last)
            + spec_jobs_encoded(f, jobs.skip(1), level)
    }
}

/// Ordered reassembly: encoding, in dispatch order, the jobs that a run of
/// writes followed by `finish` dispatched yields exactly the block section of
/// the one-pass stream specification. Workers may complete these jobs in any
/// order; emitting their results in dispatch order reproduces the reference
/// stream.
pub proof fn lemma_jobs_reassemble_stream<F: FormatSpec>(
    f: F,
    jobs: Seq<BlockJob>,
    d0: Option<Seq<u8>>,
    level: u32,
    bsize: nat,
)
    requires
        bsize > 0,
        jobs.len() >= 1,
        forall|i: int| 0 <= i < jobs.len() - 1 ==> (#[trigger] jobs[i].data@.len()) == bsize,
        jobs.last().data@.len() < bsize,
        forall|i: int|
            0 <= i < jobs.len() ==> ((#[trigger] jobs[i].is_last) <==> i == jobs.len() - 1),
        spec_jobs_chained(f, jobs, d0),
    ensures
        spec_jobs_encoded(f, jobs, level) == spec_encode_blocks(
            f,
            spec_jobs_data(jobs),
            d0,
            level,
            bsize,
        ),
    decreases jobs.len(),
{
    let input = spec_jobs_data(jobs);
    if jobs.len() == 1 {
        reveal_with_fuel(spec_jobs_data, 3);
        reveal_with_fuel(spec_jobs_encoded, 3);
        assert(jobs.skip(1) =~= Seq::<BlockJob>::empty());
        assert(input =~= jobs[0].data@);
        assert(opt_view(jobs[0].dictionary) == d0);
        assert(jobs[0].is_last);
        assert(spec_jobs_encoded(f, jobs, level) =~= f.spec_encode(jobs[0].data@, d0, level, true));
    } else {
        let rest = jobs.skip(1);
        reveal_with_fuel(spec_jobs_data, 3);
        reveal_with_fuel(spec_jobs_encoded, 3);
        assert(rest.last() == jobs.last());
        // The head block is full, so the stream holds at least one more block.
        assert(jobs[0].data@.len() == bsize);
        assert(input == jobs[0].data@ + spec_jobs_data(rest));
        assert(input.len() >= bsize);
        assert(input.take(bsize as int) =~= jobs[0].data@);
        assert(input.skip(bsize as int) =~= spec_jobs_data(rest));
        let d1 = spec_next_dict(f, jobs[0].data@);
        assert(opt_view(jobs[0].dictionary) == d0);
        assert(!jobs[0].is_last);
        // The tail is itself a valid run that carries the head's dictionary.
        assert(opt_view(rest[0].dictionary) == opt_view(jobs[1].dictionary));
        assert forall|i: int| 0 <= i < rest.len() implies #[trigger] opt_view(rest[i].dictionary)
            == (if i == 0 {
            d1
        } else {
            spec_next_dict(f, rest[i - 1].data@)
        }) by {
            assert(rest[i] == jobs[i + 1]);
            assert(opt_view(jobs[i + 1].dictionary) == spec_next_dict(f, jobs[i].data@));
            if i > 0 {
                assert(rest[i - 1] == jobs[i]);
            }
        }
        assert forall|i: int| 0 <= i < rest.len() - 1 implies (#[trigger] rest[i].data@.len())
            == bsize by {
            assert(rest[i] == jobs[i + 1]);
            assert(jobs[i + 1].data@.len() == bsize);
        }
        assert(rest.last().data@.len() < bsize);
        assert forall|i: int| 0 <= i < rest.len() implies ((#[trigger] rest[i].is_last) <==> i
            == rest.len() - 1) by {
            assert(rest[i] == jobs[i + 1]);
            assert(jobs[i + 1].is_last <==> i + 1 == jobs.len() - 1);
        }
        lemma_jobs_reassemble_stream(f, rest, d1, level, bsize);
        assert(spec_encode_blocks(f, input, d0, level, bsize) == f.spec_encode(
            jobs[0].data@,
            d0,
            level,
            false,
        ) + spec_encode_blocks(f, spec_jobs_data(rest), d1, level, bsize));
    }
}

/// Compress a whole input in one pass: the reference pipeline that the
/// threaded runtime reproduces, block for block and byte for byte.
///
/// The output is the stream header, then every block's encoding in input
/// order, then the trailer; workers may finish out of order, but nothing out
/// of input order is ever emitted.
pub fn compress_all<F: FormatSpec>(
    format: &F,
    input: &[u8],
    compression_level: u32,
    buffer_size: usize,
) -> (r: Result<Vec<u8>, GzpError>)
    requires
        compression_level <= 9,
        DICT_SIZE <= buffer_size,
        format.spec_input_ok(buffer_size as nat),
        format.spec_input_ok(input@.len()),
    ensures
        r is Ok <==> spec_blocks_ok(*format, input@, compression_level, buffer_size as nat),
        r matches Ok(v) ==> v@ == spec_compress_stream(
            *format,
            input@,
            compression_level,
            buffer_size as nat,
        ),
        r matches Err(e) ==> e matches GzpError::BlockSizeExceeded(_, _),
{
    let ghost total = spec_encode_blocks(
        *format,
        input@,
        None,
        compression_level,
        buffer_size as nat,
    );
    let mut encoder = match format.create_compressor(compression_level) {
        Ok(c) => c,
        Err(e) => {
            return Err(e);
        },
    };
    let mut check = format.create_check();
    let mut out = format.header(compression_level);
    let mut dict: Option<Vec<u8>> = None;
    let mut pos: usize = 0;
    proof {
        assert(input@.skip(0) =~= input@);
        assert(input@.take(0) =~= Seq::<u8>::empty());
    }
    while input.len() - pos >= buffer_size
        invariant
            pos <= input@.len(),
            compression_level <= 9,
            DICT_SIZE <= buffer_size,
            format.spec_input_ok(buffer_size as nat),
            format.spec_input_ok(input@.len()),
            encoder.ready(),
            encoder.pending_dict() is None,
            encoder.spec_level() == compression_level,
            check.fed() == input@.take(pos as int),
            spec_blocks_ok(*format, input@, compression_level, buffer_size as nat)
                <==> spec_blocks_ok(
                *format,
                input@.skip(pos as int),
                compression_level,
                buffer_size as nat,
            ),
            out@ + spec_encode_blocks(
                *format,
                input@.skip(pos as int),
                opt_view(dict),
                compression_level,
                buffer_size as nat,
            ) == format.spec_header(compression_level) + total,
        decreases input@.len() - pos,
    {
        let end = pos + buffer_size;
        let block = vstd::slice::slice_subrange(input, pos, end);
        let ghost rest = input@.skip(pos as int);
        let ghost dict_old_view = opt_view(dict);
        proof {
            assert(rest.take(buffer_size as int) =~= block@);
            assert(rest.skip(buffer_size as int) =~= input@.skip(end as int));
        }
        let dict_ref = dict.as_ref();
        proof {
            assert(dict_view(dict_ref) == opt_view(dict));
        }
        let mut encoded = match format.encode(
            block,
            &mut encoder,
            compression_level,
            dict_ref,
            false,
        ) {
            Ok(v) => v,
            Err(e) => {
                proof {
                    assert(!spec_blocks_ok(*format, rest, compression_level, buffer_size as nat));
                }
                return Err(e);
            },
        };
        proof {
            assert((input@.take(pos as int) + block@) =~= input@.take(end as int));
            assert(spec_blocks_ok(*format, rest, compression_level, buffer_size as nat)
                <==> spec_blocks_ok(
                *format,
                input@.skip(end as int),
                compression_level,
                buffer_size as nat,
            ));
        }
        check.update(block);
        let ghost out_before = out@;
        let ghost encoded_view = encoded@;
        out.append(&mut encoded);
        dict = if format.needs_dict() {
            Some(vstd::slice::slice_to_vec(vstd::slice::slice_subrange(
                block,
                buffer_size - DICT_SIZE,
                buffer_size,
            )))
        } else {
            None
        };
        proof {
            assert(opt_view(dict) == spec_next_dict(*format, block@));
            assert(spec_encode_blocks(
                *format,
                rest,
                dict_old_view,
                compression_level,
                buffer_size as nat,
            ) == encoded_view + spec_encode_blocks(
                *format,
                input@.skip(end as int),
                opt_view(dict),
                compression_level,
                buffer_size as nat,
            ));
            assert(out@ + spec_encode_blocks(
                *format,
                input@.skip(end as int),
                opt_view(dict),
                compression_level,
                buffer_size as nat,
            ) =~= out_before + (encoded_view + spec_encode_blocks(
                *format,
                input@.skip(end as int),
                opt_view(dict),
                compression_level,
                buffer_size as nat,
            )));
        }
        pos = end;
    }
    let block = vstd::slice::slice_subrange(input, pos, input.len());
    let ghost rest = input@.skip(pos as int);
    proof {
        format.lemma_input_ok_mono(block@.len(), buffer_size as nat);
        assert(rest =~= block@);
    }
    let dict_ref = dict.as_ref();
    proof {
        assert(dict_view(dict_ref) == opt_view(dict));
    }
    let mut encoded = match format.encode(
        block,
        &mut encoder,
        compression_level,
        dict_ref,
        true,
    ) {
        Ok(v) => v,
        Err(e) => {
            proof {
                assert(!spec_blocks_ok(*format, rest, compression_level, buffer_size as nat));
            }
            return Err(e);
        },
    };
    proof {
        assert(spec_blocks_ok(*format, rest, compression_level, buffer_size as nat));
    }
    proof {
        assert((input@.take(pos as int) + block@) =~= input@);
    }
    check.update(block);
    let ghost out_before = out@;
    let ghost encoded_view = encoded@;
    out.append(&mut encoded);
    proof {
        assert(spec_encode_blocks(
            *format,
            rest,
            opt_view(dict),
            compression_level,
            buffer_size as nat,
        ) == encoded_view);
        assert(out@ =~= out_before + encoded_view);
        assert(out@ == format.spec_header(compression_level) + total);
    }
    let mut trailer = format.footer(&check);
    out.append(&mut trailer);
    proof {
        assert(check.fed() =~= input@);
        assert(out@ =~= spec_compress_stream(
            *format,
            input@,
            compression_level,
            buffer_size as nat,
        ));
    }
    Ok(out)
}

} // verus!
