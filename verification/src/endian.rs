//! Byte-order encodings of fixed-width integers, and the calls into the
//! `bytes` crate that read and write them.
use bytes::{Buf, BufMut};
use vstd::bytes::*;
use vstd::prelude::*;

verus! {

/// The two bytes of `v`, little-endian when `le` holds, big-endian otherwise.
pub open spec fn u16_bytes(v: u16, le: bool) -> Seq<u8> {
    if le {
        spec_u16_to_le_bytes(v)
    } else {
        spec_u16_to_le_bytes(v).reverse()
    }
}

/// The four bytes of `v` in the chosen byte order.
pub open spec fn u32_bytes(v: u32, le: bool) -> Seq<u8> {
    if le {
        spec_u32_to_le_bytes(v)
    } else {
        spec_u32_to_le_bytes(v).reverse()
    }
}

/// The eight bytes of `v` in the chosen byte order.
pub open spec fn u64_bytes(v: u64, le: bool) -> Seq<u8> {
    if le {
        spec_u64_to_le_bytes(v)
    } else {
        spec_u64_to_le_bytes(v).reverse()
    }
}

/// The `u16` that two bytes stand for in the chosen byte order.
pub open spec fn u16_of(s: Seq<u8>, le: bool) -> u16 {
    if le {
        spec_u16_from_le_bytes(s)
    } else {
        spec_u16_from_le_bytes(s.reverse())
    }
}

/// The `u32` that four bytes stand for in the chosen byte order.
pub open spec fn u32_of(s: Seq<u8>, le: bool) -> u32 {
    if le {
        spec_u32_from_le_bytes(s)
    } else {
        spec_u32_from_le_bytes(s.reverse())
    }
}

/// The `u64` that eight bytes stand for in the chosen byte order.
pub open spec fn u64_of(s: Seq<u8>, le: bool) -> u64 {
    if le {
        spec_u64_from_le_bytes(s)
    } else {
        spec_u64_from_le_bytes(s.reverse())
    }
}

/// Reading back the bytes of a `u16` gives the `u16`.
pub proof fn lemma_u16_roundtrip(v: u16, le: bool)
    ensures
        u16_bytes(v, le).len() == 2,
        u16_of(u16_bytes(v, le), le) == v,
{
    lemma_auto_spec_u16_to_from_le_bytes();
    assert(spec_u16_to_le_bytes(v).reverse().reverse() =~= spec_u16_to_le_bytes(v));
}

/// Reading back the bytes of a `u32` gives the `u32`.
pub proof fn lemma_u32_roundtrip(v: u32, le: bool)
    ensures
        u32_bytes(v, le).len() == 4,
        u32_of(u32_bytes(v, le), le) == v,
{
    lemma_auto_spec_u32_to_from_le_bytes();
    assert(spec_u32_to_le_bytes(v).reverse().reverse() =~= spec_u32_to_le_bytes(v));
}

/// Reading back the bytes of a `u64` gives the `u64`.
pub proof fn lemma_u64_roundtrip(v: u64, le: bool)
    ensures
        u64_bytes(v, le).len() == 8,
        u64_of(u64_bytes(v, le), le) == v,
{
    lemma_auto_spec_u64_to_from_le_bytes();
    assert(spec_u64_to_le_bytes(v).reverse().reverse() =~= spec_u64_to_le_bytes(v));
}

/// `BufMut::put_u8` on a `Vec<u8>`: appends the byte.
#[verifier::external_body]
pub(crate) fn put_u8(buf: &mut Vec<u8>, v: u8)
    ensures
        final(buf)@ == old(buf)@.push(v),
{
    buf.put_u8(v)
}

/// `BufMut::put_u16` on a `Vec<u8>`: appends the two big-endian bytes of `v`.
#[verifier::external_body]
pub(crate) fn put_u16(buf: &mut Vec<u8>, v: u16)
    ensures
        final(buf)@ == old(buf)@ + u16_bytes(v, false),
{
    buf.put_u16(v)
}

/// `BufMut::put_u16_le` on a `Vec<u8>`: appends the two little-endian bytes of `v`.
#[verifier::external_body]
pub(crate) fn put_u16_le(buf: &mut Vec<u8>, v: u16)
    ensures
        final(buf)@ == old(buf)@ + u16_bytes(v, true),
{
    buf.put_u16_le(v)
}

/// `BufMut::put_u32` on a `Vec<u8>`: appends the four big-endian bytes of `v`.
#[verifier::external_body]
pub(crate) fn put_u32(buf: &mut Vec<u8>, v: u32)
    ensures
        final(buf)@ == old(buf)@ + u32_bytes(v, false),
{
    buf.put_u32(v)
}

/// `BufMut::put_u32_le` on a `Vec<u8>`: appends the four little-endian bytes of `v`.
#[verifier::external_body]
pub(crate) fn put_u32_le(buf: &mut Vec<u8>, v: u32)
    ensures
        final(buf)@ == old(buf)@ + u32_bytes(v, true),
{
    buf.put_u32_le(v)
}

/// `BufMut::put_u64` on a `Vec<u8>`: appends the eight big-endian bytes of `v`.
#[verifier::external_body]
pub(crate) fn put_u64(buf: &mut Vec<u8>, v: u64)
    ensures
        final(buf)@ == old(buf)@ + u64_bytes(v, false),
{
    buf.put_u64(v)
}

/// `BufMut::put_u64_le` on a `Vec<u8>`: appends the eight little-endian bytes of `v`.
#[verifier::external_body]
pub(crate) fn put_u64_le(buf: &mut Vec<u8>, v: u64)
    ensures
        final(buf)@ == old(buf)@ + u64_bytes(v, true),
{
    buf.put_u64_le(v)
}

/// `BufMut::put_slice` on a `Vec<u8>`: appends the bytes of `src`.
#[verifier::external_body]
pub(crate) fn put_slice(buf: &mut Vec<u8>, src: &[u8])
    ensures
        final(buf)@ == old(buf)@ + src@,
{
    buf.put_slice(src)
}

/// `Buf::get_u8` on a byte slice: the first byte. The crate panics on an
/// empty slice, which `requires` leaves out.
#[verifier::external_body]
pub(crate) fn get_u8(src: &[u8]) -> (r: u8)
    requires
        src@.len() >= 1,
    ensures
        r == src@[0],
{
    let mut s: &[u8] = src;
    s.get_u8()
}

/// `Buf::get_u16` on a byte slice: the first two bytes read big-endian.
#[verifier::external_body]
pub(crate) fn get_u16(src: &[u8]) -> (r: u16)
    requires
        src@.len() >= 2,
    ensures
        r == u16_of(src@.take(2), false),
{
    let mut s: &[u8] = src;
    s.get_u16()
}

/// `Buf::get_u16_le` on a byte slice: the first two bytes read little-endian.
#[verifier::external_body]
pub(crate) fn get_u16_le(src: &[u8]) -> (r: u16)
    requires
        src@.len() >= 2,
    ensures
        r == u16_of(src@.take(2), true),
{
    let mut s: &[u8] = src;
    s.get_u16_le()
}

/// `Buf::get_u32` on a byte slice: the first four bytes read big-endian.
#[verifier::external_body]
pub(crate) fn get_u32(src: &[u8]) -> (r: u32)
    requires
        src@.len() >= 4,
    ensures
        r == u32_of(src@.take(4), false),
{
    let mut s: &[u8] = src;
    s.get_u32()
}

/// `Buf::get_u32_le` on a byte slice: the first four bytes read little-endian.
#[verifier::external_body]
pub(crate) fn get_u32_le(src: &[u8]) -> (r: u32)
    requires
        src@.len() >= 4,
    ensures
        r == u32_of(src@.take(4), true),
{
    let mut s: &[u8] = src;
    s.get_u32_le()
}

/// `Buf::get_u64` on a byte slice: the first eight bytes read big-endian.
#[verifier::external_body]
pub(crate) fn get_u64(src: &[u8]) -> (r: u64)
    requires
        src@.len() >= 8,
    ensures
        r == u64_of(src@.take(8), false),
{
    let mut s: &[u8] = src;
    s.get_u64()
}

/// `Buf::get_u64_le` on a byte slice: the first eight bytes read little-endian.
#[verifier::external_body]
pub(crate) fn get_u64_le(src: &[u8]) -> (r: u64)
    requires
        src@.len() >= 8,
    ensures
        r == u64_of(src@.take(8), true),
{
    let mut s: &[u8] = src;
    s.get_u64_le()
}

} // verus!
