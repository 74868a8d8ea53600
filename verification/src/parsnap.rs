//! Configuration of the stand-alone Snappy compression pipeline, which slices
//! written bytes into blocks and emits one Snappy frame per block.
use vstd::prelude::*;

use crate::BUFSIZE;

verus! {

/// The Snappy pipeline's configuration around a writer.
pub struct ParSnapBuilder<W> {
    /// How many bytes to accumulate before a block is dispatched.
    pub buffer_size: usize,
    /// The sink the compressed frames go to.
    pub writer: W,
    /// The number of worker threads the pipeline may use.
    pub num_threads: usize,
}

impl<W> ParSnapBuilder<W> {
    /// Create a builder around a writer, with the default buffer size and one
    /// worker.
    pub fn new(writer: W) -> (r: Self)
        ensures
            r.buffer_size == BUFSIZE,
            r.num_threads == 1,
    {
        ParSnapBuilder { buffer_size: BUFSIZE, writer, num_threads: 1 }
    }

    /// Set the buffer size, which must not be zero.
    pub fn buffer_size(self, buffer_size: usize) -> (r: Self)
        requires
            buffer_size > 0,
        ensures
            r.buffer_size == buffer_size,
            r.writer == self.writer,
            r.num_threads == self.num_threads,
    {
        ParSnapBuilder { buffer_size, ..self }
    }

    /// Set the number of worker threads, which must not be zero.
    pub fn num_threads(self, num_threads: usize) -> (r: Self)
        requires
            num_threads > 0,
        ensures
            r.num_threads == num_threads,
            r.writer == self.writer,
            r.buffer_size == self.buffer_size,
    {
        ParSnapBuilder { num_threads, ..self }
    }
}

} // verus!
