//! The Snappy frame format: one self-contained frame per block, no stream
//! header or trailer.
use vstd::prelude::*;

use crate::check::{Check, PassThroughCheck};
use crate::codec;
use crate::codec::Compressor;
use crate::{dict_view, FormatSpec, GzpError, BUFSIZE};

verus! {

/// What the Snappy frame encoder produces for one block: a function of the
/// block bytes alone.
pub uninterp spec fn snappy_frame_of(input: Seq<u8>) -> Seq<u8>;

/// Relies on `snap::read::FrameEncoder` driven by `std::io::Read::read_to_end`:
/// encodes one block as one Snappy frame; the result depends on the block
/// bytes alone, and a frame encoder over an in-memory slice cannot fail.
#[verifier::external_body]
fn snappy_encode(input: &[u8]) -> (r: Result<Vec<u8>, GzpError>)
    ensures
        r is Ok,
        r matches Ok(v) ==> v@ == snappy_frame_of(input@),
{
    let mut buffer = Vec::with_capacity(input.len());
    let mut encoder = snap::read::FrameEncoder::new(input);
    match std::io::Read::read_to_end(&mut encoder, &mut buffer) {
        Ok(_) => Ok(buffer),
        Err(e) => Err(GzpError::Io(crate::IoKind::Other, format!("{}", e))),
    }
}

/// Snappy: a stream of independent Snappy frames, one per block.
#[derive(Copy, Clone, Debug)]
pub struct Snap {}

impl FormatSpec for Snap {
    type C = PassThroughCheck;

    open spec fn spec_input_ok(&self, len: nat) -> bool {
        true
    }

    proof fn lemma_input_ok_mono(&self, a: nat, b: nat) {
    }

    fn input_ok(&self, len: usize) -> (r: bool) {
        true
    }

    open spec fn spec_needs_dict(&self) -> bool {
        false
    }

    open spec fn spec_header(&self, level: u32) -> Seq<u8> {
        Seq::empty()
    }

    open spec fn spec_footer(&self, data: Seq<u8>) -> Seq<u8> {
        Seq::empty()
    }

    open spec fn spec_encode(
        &self,
        input: Seq<u8>,
        dict: Option<Seq<u8>>,
        level: u32,
        is_last: bool,
    ) -> Seq<u8> {
        snappy_frame_of(input)
    }

    open spec fn spec_encode_ok(&self, input: Seq<u8>, level: u32, is_last: bool) -> bool {
        true
    }

    open spec fn spec_default_bufsize(&self) -> nat {
        BUFSIZE as nat
    }

    fn new() -> Self {
        Snap {  }
    }

    fn needs_dict(&self) -> (r: bool) {
        false
    }

    fn default_buffer_size(&self) -> (r: usize) {
        BUFSIZE
    }

    fn create_check(&self) -> (r: PassThroughCheck) {
        PassThroughCheck::new()
    }

    fn create_compressor(&self, compression_level: u32) -> (r: Result<Compressor, GzpError>) {
        Ok(codec::new_compressor(compression_level))
    }

    fn encode(
        &self,
        input: &[u8],
        encoder: &mut Compressor,
        compression_level: u32,
        dict: Option<&Vec<u8>>,
        is_last: bool,
    ) -> (r: Result<Vec<u8>, GzpError>) {
        snappy_encode(input)
    }

    fn header(&self, compression_level: u32) -> (r: Vec<u8>) {
        Vec::new()
    }

    fn footer(&self, check: &PassThroughCheck) -> (r: Vec<u8>) {
        Vec::new()
    }
}

} // verus!
