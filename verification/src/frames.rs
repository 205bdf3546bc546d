//! The deterministic byte-level framing used before compressing two buffers
//! together.  The `Frame64` join is `u64_le(len(x)) || x || u64_le(len(y)) || y`;
//! the length prefixes keep the buffer boundary recoverable, so distinct pairs
//! never share a concatenation.

use vstd::bytes::{spec_u64_to_le_bytes, u64_to_le_bytes};
use vstd::prelude::*;
use vstd::slice::slice_to_vec;

use crate::Join;

verus! {

/// One framed buffer: its length as 8 little-endian bytes, then the bytes.
pub open spec fn frame64_spec(data: Seq<u8>) -> Seq<u8> {
    spec_u64_to_le_bytes(data.len() as u64) + data
}

/// The joined buffer that a pair `(x, y)` is compressed as.
pub open spec fn joined_spec(x: Seq<u8>, y: Seq<u8>, join: Join) -> Seq<u8> {
    match join {
        Join::Frame64 => frame64_spec(x) + frame64_spec(y),
    }
}

/// Frame one buffer: 8 little-endian length bytes, then the buffer.
pub fn frame64_bytes(data: &[u8]) -> (out: Vec<u8>)
    ensures
        out@ == frame64_spec(data@),
{
    let mut out = u64_to_le_bytes(data.len() as u64);
    let mut rest = slice_to_vec(data);
    out.append(&mut rest);
    out
}

/// Join two buffers per `join`, framing each so the boundary stays recoverable.
pub fn join_bytes(x: &[u8], y: &[u8], join: Join) -> (out: Vec<u8>)
    ensures
        out@ == joined_spec(x@, y@, join),
{
    match join {
        Join::Frame64 => {
            let mut out = frame64_bytes(x);
            let mut fy = frame64_bytes(y);
            out.append(&mut fy);
            out
        },
    }
}

} // verus!
