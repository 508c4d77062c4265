//! The framed wire protocol spoken to persistent evaluation daemons.
//!
//! A request is three little-endian `u32` header fields — timeout in
//! milliseconds, context length, code length — followed by the context bytes
//! and the code bytes, with no padding. A response is one little-endian
//! `u32` length followed by that many payload bytes; the client truncates
//! the declared length to `MAX_PAYLOAD` before allocating or reading.

use vstd::bytes::{spec_u32_from_le_bytes, spec_u32_to_le_bytes, u32_from_le_bytes, u32_to_le_bytes};
use vstd::prelude::*;
use vstd::slice::slice_to_vec;

verus! {

/// Cap on the response payload: the client never reads or allocates more
/// than this many body bytes, whatever length the daemon declares.
pub const MAX_PAYLOAD: u32 = 1024;

/// One request to a persistent daemon, ready for framing.
#[derive(Debug, Clone, PartialEq)]
pub struct Req {
    /// Wall-clock limit in milliseconds; 0 means "no timeout".
    pub timeout_ms: u32,
    /// Opaque per-conversation key; empty when the caller supplied none.
    pub context: Vec<u8>,
    /// The (already wrapped) source code to evaluate.
    pub code: Vec<u8>,
}

impl Req {
    /// Both bodies must be describable by the `u32` header fields.
    pub open spec fn wf(self) -> bool {
        self.context@.len() <= u32::MAX && self.code@.len() <= u32::MAX
    }

    /// The exact on-wire form: a 12-byte prefix of three little-endian
    /// `u32` values, then the context bytes, then the code bytes.
    pub open spec fn spec_bytes(self) -> Seq<u8> {
        spec_u32_to_le_bytes(self.timeout_ms)
            + spec_u32_to_le_bytes(self.context@.len() as u32)
            + spec_u32_to_le_bytes(self.code@.len() as u32) + self.context@ + self.code@
    }

    /// Frames the request for the wire.
    pub fn to_bytes(&self) -> (r: Vec<u8>)
        requires
            self.wf(),
        ensures
            r@ == self.spec_bytes(),
            r@.len() == 12 + self.context@.len() + self.code@.len(),
    {
        proof {
            vstd::bytes::lemma_auto_spec_u32_to_from_le_bytes();
        }
        let mut r = u32_to_le_bytes(self.timeout_ms);
        let mut clen = u32_to_le_bytes(self.context.len() as u32);
        let mut klen = u32_to_le_bytes(self.code.len() as u32);
        let mut ctx = slice_to_vec(self.context.as_slice());
        let mut code = slice_to_vec(self.code.as_slice());
        r.append(&mut clen);
        r.append(&mut klen);
        r.append(&mut ctx);
        r.append(&mut code);
        proof {
            assert(r@ =~= self.spec_bytes());
        }
        r
    }
}

/// How many payload bytes to read after the 4-byte response length: the
/// declared little-endian length, truncated to `MAX_PAYLOAD`.
pub fn payload_len(len_bytes: &[u8]) -> (r: usize)
    requires
        len_bytes@.len() == 4,
    ensures
        r == vstd::math::min(spec_u32_from_le_bytes(len_bytes@) as int, MAX_PAYLOAD as int),
        r <= MAX_PAYLOAD,
{
    let declared = u32_from_le_bytes(len_bytes);
    if declared < MAX_PAYLOAD {
        declared as usize
    } else {
        MAX_PAYLOAD as usize
    }
}

} // verus!
