//! Frames: a packet's bytes preceded by their length as four big-endian
//! bytes.
//!
//! A frame is taken from the read buffer as soon as all of its bytes have
//! arrived.
use crate::connect::error::{Error, Result};
use crate::wire::error::Error as WireError;
use crate::endian::{get_u32, lemma_u32_roundtrip, put_slice, put_u32, u32_bytes, u32_of};
use crate::wire::codec::Wire;
use crate::wire::de::{decode_all, from_bytes, lemma_decode_all_roundtrip};
use crate::wire::ser::to_vec;
use vstd::prelude::*;
use vstd::slice::slice_subrange;

verus! {

/// The frame around `payload`: its length, truncated to 32 bits, then the payload.
pub open spec fn frame_bytes(payload: Seq<u8>) -> Seq<u8> {
    u32_bytes(payload.len() as u32, false) + payload
}

/// How many payload bytes the frame at the start of `buf` holds, once the
/// whole frame has arrived.
pub open spec fn frame_len(buf: Seq<u8>) -> Option<int> {
    if buf.len() < 4 {
        None
    } else {
        let total = u32_of(buf.take(4), false) as int;
        if buf.len() - 4 < total {
            None
        } else {
            Some(total)
        }
    }
}

/// The frame of the big-endian wire form of `value`.
pub fn encode_frame<T: Wire>(value: &T) -> (r: Vec<u8>)
    ensures
        r@ == frame_bytes(T::wire_bytes(value@, false)),
{
    let bytes = to_vec(value);
    let mut out: Vec<u8> = Vec::new();
    put_u32(&mut out, bytes.len() as u32);
    put_slice(&mut out, bytes.as_slice());
    assert(out@ =~= frame_bytes(T::wire_bytes(value@, false)));
    out
}

/// What taking the first frame from `buffer` gives: `Ok(None)` while the frame
/// is incomplete, otherwise the decoded payload with the frame's length, or the
/// decoding error.
pub open spec fn next_frame_spec<T: Wire>(buffer: Seq<u8>, r: Result<Option<(T, usize)>>) -> bool {
    match frame_len(buffer) {
        None => r matches Ok(None),
        Some(total) => match decode_all::<T>(buffer.subrange(4, 4 + total), false) {
            Ok(v) => r matches Ok(Some((x, n))) && x@ == v && n == 4 + total,
            Err(e) => r == Err::<Option<(T, usize)>, Error>(Error::Serde(e)),
        },
    }
}

/// Takes the first frame from `buffer`: `None` while more bytes are needed,
/// otherwise the value its payload holds and the number of bytes the frame
/// takes.
pub fn next_frame<T: Wire>(buffer: &[u8]) -> (r: Result<Option<(T, usize)>>)
    ensures
        next_frame_spec::<T>(buffer@, r),
{
    if buffer.len() < 4 {
        return Ok(None);
    }
    let total = get_u32(buffer);
    let rest = buffer.len() - 4;
    if (rest as u64) < (total as u64) {
        return Ok(None);
    }
    let total = total as usize;
    let input = slice_subrange(buffer, 4, 4 + total);
    match from_bytes::<T>(input) {
        Ok(v) => Ok(Some((v, 4 + total))),
        Err(e) => Err(Error::Serde(e)),
    }
}

/// A frame around a valid value, with any bytes after it, is taken whole and
/// reads back as the value.
pub proof fn lemma_frame_roundtrip<T: Wire>(v: T::V, extra: Seq<u8>)
    requires
        T::wire_valid(v),
        T::wire_bytes(v, false).len() <= u32::MAX,
    ensures
        ({
            let payload = T::wire_bytes(v, false);
            let buf = frame_bytes(payload) + extra;
            &&& frame_len(buf) == Some(payload.len() as int)
            &&& buf.subrange(4, 4 + payload.len() as int) == payload
            &&& decode_all::<T>(buf.subrange(4, 4 + payload.len() as int), false)
                == Ok::<T::V, WireError>(v)
        }),
{
    let payload = T::wire_bytes(v, false);
    let buf = frame_bytes(payload) + extra;
    let len = payload.len() as u32;
    lemma_u32_roundtrip(len, false);
    assert(buf.take(4) =~= u32_bytes(len, false));
    assert(buf.subrange(4, 4 + payload.len() as int) =~= payload);
    lemma_decode_all_roundtrip::<T>(v, false);
}

/// What the read side takes from the buffer gives back what the write side
/// framed: on the frame of a valid value, with any bytes after it, `next_frame`
/// returns that value and the frame's length.
pub proof fn lemma_next_frame_reads_back<T: Wire>(
    v: T::V,
    extra: Seq<u8>,
    buffer: Seq<u8>,
    r: Result<Option<(T, usize)>>,
)
    requires
        T::wire_valid(v),
        T::wire_bytes(v, false).len() <= u32::MAX,
        buffer == frame_bytes(T::wire_bytes(v, false)) + extra,
        next_frame_spec::<T>(buffer, r),
    ensures
        r matches Ok(Some((x, n))) && x@ == v && n == frame_bytes(T::wire_bytes(v, false)).len(),
{
    let payload = T::wire_bytes(v, false);
    lemma_frame_roundtrip::<T>(v, extra);
    lemma_u32_roundtrip(payload.len() as u32, false);
    assert(frame_bytes(payload).len() == 4 + payload.len());
}

} // verus!
