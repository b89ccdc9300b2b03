//! The encoding half of the wire format.
//!
//! Unsigned integers take a variable-length form: a value up to `0xFC` is a
//! single byte; larger values are a tag byte (`0xFD`, `0xFE` or `0xFF`)
//! followed by the value as a `u16`, `u32` or `u64` in the serializer's byte
//! order. Signed integers are zigzag-mapped to unsigned ones first. Byte
//! strings and text are a length followed by the bytes, options a flag byte.
use crate::endian::{
    put_slice, put_u16, put_u16_le, put_u32, put_u32_le, put_u64, put_u64_le, put_u8, u16_bytes, u32_bytes,
    u64_bytes,
};
use crate::wire::codec::Wire;
use vstd::prelude::*;
use vstd::utf8::*;

verus! {

/// The variable-length encoding of `v`.
///
/// Values from `0x1_0000` to `0xFF_FF00` take the eight-byte form, as the
/// encoder has always written them; the decoder reads every form back.
#[verifier::opaque]
pub open spec fn varint_bytes(v: u64, le: bool) -> Seq<u8> {
    if v <= 0xFC {
        seq![v as u8]
    } else if v <= 0xFFFF {
        seq![0xFDu8] + u16_bytes(v as u16, le)
    } else if 0xFF_FF01 <= v && v <= 0xFFFF_FFFF {
        seq![0xFEu8] + u32_bytes(v as u32, le)
    } else {
        seq![0xFFu8] + u64_bytes(v, le)
    }
}

/// The zigzag map from signed to unsigned integers: 0, -1, 1, -2, ... go to
/// 0, 1, 2, 3, ...
pub open spec fn zigzag(v: i64) -> u64 {
    if v >= 0 {
        (2 * v) as u64
    } else {
        (-2 * v - 1) as u64
    }
}

/// The inverse of [`zigzag`].
pub open spec fn unzigzag(v: u64) -> i64 {
    if v % 2 == 0 {
        (v / 2) as i64
    } else {
        (-(v / 2) - 1) as i64
    }
}

/// A boolean is one byte, 1 for true and 0 for false.
#[verifier::opaque]
pub open spec fn bool_bytes(b: bool) -> Seq<u8> {
    seq![if b { 1u8 } else { 0u8 }]
}

/// A signed integer is the variable-length form of its zigzag image.
#[verifier::opaque]
pub open spec fn signed_bytes(v: i64, le: bool) -> Seq<u8> {
    varint_bytes(zigzag(v), le)
}

/// A byte string is its length followed by its bytes.
#[verifier::opaque]
pub open spec fn byte_string_bytes(b: Seq<u8>, le: bool) -> Seq<u8> {
    varint_bytes(b.len() as u64, le) + b
}

/// Text is the byte string of its UTF-8 encoding.
#[verifier::opaque]
pub open spec fn str_bytes(s: Seq<char>, le: bool) -> Seq<u8> {
    byte_string_bytes(encode_utf8(s), le)
}

/// Writes values in the wire format into a growing byte buffer.
pub struct Serializer {
    le: bool,
    output: Vec<u8>,
}

impl View for Serializer {
    type V = Seq<u8>;

    closed spec fn view(&self) -> Seq<u8> {
        self.output@
    }
}

impl Serializer {
    /// Whether multi-byte integers are written little-endian.
    pub closed spec fn is_le(&self) -> bool {
        self.le
    }

    /// A serializer that writes big-endian, with nothing written yet.
    pub fn new() -> (s: Self)
        ensures
            s@ == Seq::<u8>::empty(),
            !s.is_le(),
    {
        Serializer { le: false, output: Vec::with_capacity(1024) }
    }

    /// A serializer that writes little-endian, with nothing written yet.
    pub fn new_le() -> (s: Self)
        ensures
            s@ == Seq::<u8>::empty(),
            s.is_le(),
    {
        Serializer { le: true, output: Vec::with_capacity(64) }
    }

    /// Whether multi-byte integers are written little-endian.
    pub fn little_endian(&self) -> (r: bool)
        ensures
            r == self.is_le(),
    {
        self.le
    }

    /// The bytes written so far.
    pub fn into_bytes(self) -> (r: Vec<u8>)
        ensures
            r@ == self@,
    {
        self.output
    }

    /// Appends bytes as they are, for values whose encoding is computed elsewhere.
    pub fn append_raw(&mut self, bytes: &[u8])
        ensures
            final(self)@ == old(self)@ + bytes@,
            final(self).is_le() == old(self).is_le(),
    {
        put_slice(&mut self.output, bytes);
    }

    fn serialize_signed(&mut self, val: i64)
        ensures
            final(self)@ == old(self)@ + signed_bytes(val, old(self).is_le()),
            final(self).is_le() == old(self).is_le(),
    {
        proof {
            reveal(signed_bytes);
        }
        let val = self.zigzag_encode(val);
        self.serialize_unsigned(val)
    }

    /// Appends the variable-length encoding of `val`.
    pub fn serialize_unsigned(&mut self, val: u64)
        ensures
            final(self)@ == old(self)@ + varint_bytes(val, old(self).is_le()),
            final(self).is_le() == old(self).is_le(),
    {
        proof {
            reveal(varint_bytes);
        }
        if val <= 0xFC {
            put_u8(&mut self.output, val as u8);
        } else if val <= 0xFFFF {
            put_u8(&mut self.output, 0xFD);
            if self.le {
                put_u16_le(&mut self.output, val as u16)
            } else {
                put_u16(&mut self.output, val as u16)
            }
        } else if 0xFF_FF01 <= val && val <= 0xFFFF_FFFF {
            put_u8(&mut self.output, 0xFE);
            if self.le {
                put_u32_le(&mut self.output, val as u32)
            } else {
                put_u32(&mut self.output, val as u32)
            }
        } else {
            put_u8(&mut self.output, 0xFF);
            if self.le {
                put_u64_le(&mut self.output, val)
            } else {
                put_u64(&mut self.output, val)
            }
        }
        assert(self.output@ =~= old(self)@ + varint_bytes(val, self.le));
    }

    fn zigzag_encode(&self, val: i64) -> (r: u64)
        ensures
            r == zigzag(val),
            val >= 0 ==> r == 2 * val,
            val < 0 ==> r == -2 * val - 1,
    {
        let r = ((val << 1) ^ (val >> 63)) as u64;
        assert(((val << 1) ^ (val >> 63)) as u64 == if val >= 0 {
            (2 * val) as u64
        } else {
            (-2 * val - 1) as u64
        }) by (bit_vector);
        r
    }

    /// Appends one byte: 1 for true, 0 for false.
    pub fn serialize_bool(&mut self, v: bool)
        ensures
            final(self)@ == old(self)@ + bool_bytes(v),
            final(self).is_le() == old(self).is_le(),
    {
        proof {
            reveal(bool_bytes);
        }
        put_u8(&mut self.output, if v { 1 } else { 0 });
        assert(self.output@ =~= old(self)@ + bool_bytes(v));
    }

    /// Appends an `i8` as a zigzag varint.
    pub fn serialize_i8(&mut self, v: i8)
        ensures
            final(self)@ == old(self)@ + signed_bytes(v as i64, old(self).is_le()),
            final(self).is_le() == old(self).is_le(),
    {
        self.serialize_signed(v as i64)
    }

    /// Appends an `i16` as a zigzag varint.
    pub fn serialize_i16(&mut self, v: i16)
        ensures
            final(self)@ == old(self)@ + signed_bytes(v as i64, old(self).is_le()),
            final(self).is_le() == old(self).is_le(),
    {
        self.serialize_signed(v as i64)
    }

    /// Appends an `i32` as a zigzag varint.
    pub fn serialize_i32(&mut self, v: i32)
        ensures
            final(self)@ == old(self)@ + signed_bytes(v as i64, old(self).is_le()),
            final(self).is_le() == old(self).is_le(),
    {
        self.serialize_signed(v as i64)
    }

    /// Appends an `i64` as a zigzag varint.
    pub fn serialize_i64(&mut self, v: i64)
        ensures
            final(self)@ == old(self)@ + signed_bytes(v, old(self).is_le()),
            final(self).is_le() == old(self).is_le(),
    {
        self.serialize_signed(v)
    }

    /// Appends a `u8` as a varint.
    pub fn serialize_u8(&mut self, v: u8)
        ensures
            final(self)@ == old(self)@ + varint_bytes(v as u64, old(self).is_le()),
            final(self).is_le() == old(self).is_le(),
    {
        self.serialize_unsigned(v as u64)
    }

    /// Appends a `u16` as a varint.
    pub fn serialize_u16(&mut self, v: u16)
        ensures
            final(self)@ == old(self)@ + varint_bytes(v as u64, old(self).is_le()),
            final(self).is_le() == old(self).is_le(),
    {
        self.serialize_unsigned(v as u64)
    }

    /// Appends a `u32` as a varint.
    pub fn serialize_u32(&mut self, v: u32)
        ensures
            final(self)@ == old(self)@ + varint_bytes(v as u64, old(self).is_le()),
            final(self).is_le() == old(self).is_le(),
    {
        self.serialize_unsigned(v as u64)
    }

    /// Appends a `u64` as a varint.
    pub fn serialize_u64(&mut self, v: u64)
        ensures
            final(self)@ == old(self)@ + varint_bytes(v, old(self).is_le()),
            final(self).is_le() == old(self).is_le(),
    {
        self.serialize_unsigned(v)
    }

    /// Appends a byte string: its length, then its bytes.
    pub fn serialize_bytes(&mut self, v: &[u8])
        ensures
            final(self)@ == old(self)@ + byte_string_bytes(v@, old(self).is_le()),
            final(self).is_le() == old(self).is_le(),
    {
        proof {
            reveal(byte_string_bytes);
        }
        self.serialize_u64(v.len() as u64);
        put_slice(&mut self.output, v);
        assert(self.output@ =~= old(self)@ + byte_string_bytes(v@, self.le));
    }

    /// Appends text as the byte string of its UTF-8 encoding.
    pub fn serialize_str(&mut self, v: &str)
        ensures
            final(self)@ == old(self)@ + str_bytes(v@, old(self).is_le()),
            final(self).is_le() == old(self).is_le(),
    {
        proof {
            reveal(str_bytes);
        }
        let bytes = v.as_bytes();
        self.serialize_bytes(bytes)
    }

    /// Appends the flag of an absent option.
    pub fn serialize_none(&mut self)
        ensures
            final(self)@ == old(self)@ + bool_bytes(false),
            final(self).is_le() == old(self).is_le(),
    {
        self.serialize_bool(false)
    }

    /// Appends the flag of a present option; its value follows.
    pub fn serialize_some(&mut self)
        ensures
            final(self)@ == old(self)@ + bool_bytes(true),
            final(self).is_le() == old(self).is_le(),
    {
        self.serialize_bool(true)
    }

    /// Starts a sequence of known length: appends the length; the elements follow.
    pub fn serialize_seq(&mut self, len: usize)
        ensures
            final(self)@ == old(self)@ + varint_bytes(len as u64, old(self).is_le()),
            final(self).is_le() == old(self).is_le(),
    {
        self.serialize_u64(len as u64)
    }

    /// Starts a map of known length: appends the number of entries; keys and
    /// values follow in turn.
    pub fn serialize_map(&mut self, len: usize)
        ensures
            final(self)@ == old(self)@ + varint_bytes(len as u64, old(self).is_le()),
            final(self).is_le() == old(self).is_le(),
    {
        self.serialize_seq(len)
    }

    /// Starts a tuple: appends its length, as for a sequence.
    pub fn serialize_tuple(&mut self, len: usize)
        ensures
            final(self)@ == old(self)@ + varint_bytes(len as u64, old(self).is_le()),
            final(self).is_le() == old(self).is_le(),
    {
        self.serialize_seq(len)
    }
}

/// The big-endian wire form of `value`.
pub fn to_vec<T: Wire>(value: &T) -> (r: Vec<u8>)
    ensures
        r@ == T::wire_bytes(value@, false),
{
    let mut serializer = Serializer::new();
    value.serialize(&mut serializer);
    assert(serializer@ =~= T::wire_bytes(value@, false));
    serializer.into_bytes()
}

/// The little-endian wire form of `value`.
pub fn to_vec_le<T: Wire>(value: &T) -> (r: Vec<u8>)
    ensures
        r@ == T::wire_bytes(value@, true),
{
    let mut serializer = Serializer::new_le();
    value.serialize(&mut serializer);
    assert(serializer@ =~= T::wire_bytes(value@, true));
    serializer.into_bytes()
}

} // verus!
