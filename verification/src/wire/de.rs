//! The decoding half of the wire format.
use crate::endian::{
    get_u16, get_u16_le, get_u32, get_u32_le, get_u64, get_u64_le, get_u8, lemma_u16_roundtrip,
    lemma_u32_roundtrip, lemma_u64_roundtrip, u16_bytes, u16_of, u32_bytes, u32_of, u64_bytes, u64_of,
};
use crate::wire::codec::Wire;
use crate::wire::error::{Error, Result};
use crate::wire::ser::{
    bool_bytes, byte_string_bytes, signed_bytes, str_bytes, unzigzag, varint_bytes, zigzag,
};
use std::string::FromUtf8Error;
use vstd::prelude::*;
use vstd::slice::{slice_subrange, slice_to_vec};
use vstd::utf8::{decode_utf8, encode_utf8, valid_utf8};

verus! {

/// `std::string::FromUtf8Error`, the error of `String::from_utf8`.
#[verifier::external_type_specification]
#[verifier::external_body]
pub struct ExFromUtf8Error(FromUtf8Error);

/// `String::from_utf8`: succeeds exactly on well-formed UTF-8 and then holds
/// the characters those bytes encode, as std documents.
#[verifier::external_body]
fn string_from_utf8(bytes: Vec<u8>) -> (r: core::result::Result<String, FromUtf8Error>)
    ensures
        r is Ok <==> valid_utf8(bytes@),
        r matches Ok(s) ==> s@ == decode_utf8(bytes@),
{
    String::from_utf8(bytes)
}

/// What the variable-length form at the start of `s` decodes to, with the
/// number of bytes it takes.
#[verifier::opaque]
pub open spec fn parse_unsigned_spec(s: Seq<u8>, le: bool) -> Result<(u64, int)> {
    if s.len() == 0 {
        Err(Error::Eof)
    } else if s[0] == 0xFF {
        if s.len() - 1 < 8 {
            Err(Error::Eof)
        } else {
            Ok((u64_of(s.subrange(1, 9), le), 9))
        }
    } else if s[0] == 0xFE {
        if s.len() - 1 < 4 {
            Err(Error::Eof)
        } else {
            Ok((u32_of(s.subrange(1, 5), le) as u64, 5))
        }
    } else if s[0] == 0xFD {
        if s.len() - 1 < 2 {
            Err(Error::Eof)
        } else {
            Ok((u16_of(s.subrange(1, 3), le) as u64, 3))
        }
    } else {
        Ok((s[0] as u64, 1))
    }
}

/// How far a failed read of a varint gets: past the tag byte, if there is one.
pub open spec fn varint_error_advance(s: Seq<u8>) -> int {
    if s.len() == 0 {
        0
    } else {
        1
    }
}

/// How far a failed read of a byte string gets: as far as a failed length,
/// or past a length that announces more bytes than there are.
pub open spec fn bytes_error_advance(s: Seq<u8>, le: bool) -> int {
    match parse_unsigned_spec(s, le) {
        Ok((_, k)) => k,
        Err(_) => varint_error_advance(s),
    }
}

/// How far a failed read of text gets: as far as a failed byte string, or
/// past bytes that are not UTF-8.
pub open spec fn string_error_advance(s: Seq<u8>, le: bool) -> int {
    match parse_bytes_spec(s, le) {
        Ok((_, n)) => n,
        Err(_) => bytes_error_advance(s, le),
    }
}

/// What a boolean at the start of `s` decodes to: any non-zero byte is true.
#[verifier::opaque]
pub open spec fn parse_bool_spec(s: Seq<u8>) -> Result<(bool, int)> {
    if s.len() == 0 {
        Err(Error::Eof)
    } else {
        Ok((s[0] != 0, 1))
    }
}

/// What a signed integer at the start of `s` decodes to.
#[verifier::opaque]
pub open spec fn parse_signed_spec(s: Seq<u8>, le: bool) -> Result<(i64, int)> {
    match parse_unsigned_spec(s, le) {
        Ok((v, n)) => Ok((unzigzag(v), n)),
        Err(e) => Err(e),
    }
}

/// What a byte string at the start of `s` decodes to.
#[verifier::opaque]
pub open spec fn parse_bytes_spec(s: Seq<u8>, le: bool) -> Result<(Seq<u8>, int)> {
    match parse_unsigned_spec(s, le) {
        Ok((len, k)) => {
            let n = (len as usize) as int;
            if s.len() - k < n {
                Err(Error::Eof)
            } else {
                Ok((s.subrange(k, k + n), k + n))
            }
        },
        Err(e) => Err(e),
    }
}

/// What text at the start of `s` decodes to.
#[verifier::opaque]
pub open spec fn parse_string_spec(s: Seq<u8>, le: bool) -> Result<(Seq<char>, int)> {
    match parse_bytes_spec(s, le) {
        Ok((b, n)) => if valid_utf8(b) {
            Ok((decode_utf8(b), n))
        } else {
            Err(Error::Format)
        },
        Err(e) => Err(e),
    }
}

/// Reads values in the wire format from a byte slice, front to back.
pub struct Deserializer<'de> {
    input: &'de [u8],
    pos: usize,
    le: bool,
}

impl<'de> Deserializer<'de> {
    #[verifier::type_invariant]
    spec fn inv(&self) -> bool {
        self.pos <= self.input@.len()
    }

    /// All the bytes the deserializer was made with.
    pub closed spec fn input(&self) -> Seq<u8> {
        self.input@
    }

    /// How many bytes have been read.
    pub closed spec fn pos(&self) -> int {
        self.pos as int
    }

    /// Whether multi-byte integers are read little-endian.
    pub closed spec fn is_le(&self) -> bool {
        self.le
    }

    /// The bytes not read yet.
    pub open spec fn rest(&self) -> Seq<u8> {
        self.input().skip(self.pos())
    }

    /// This deserializer is `old` after reading `n` more bytes.
    pub open spec fn advanced_from(&self, old: Self, n: int) -> bool {
        &&& self.input() == old.input()
        &&& self.is_le() == old.is_le()
        &&& 0 <= n <= old.rest().len()
        &&& self.pos() == old.pos() + n
        &&& self.rest() == old.rest().skip(n)
    }

    /// Reading `n` bytes and then `m` more is reading `n + m` bytes.
    pub proof fn lemma_advanced_trans(a: Self, b: Self, c: Self, n: int, m: int)
        requires
            b.advanced_from(a, n),
            c.advanced_from(b, m),
        ensures
            c.advanced_from(a, n + m),
    {
        assert(a.rest().skip(n).skip(m) =~= a.rest().skip(n + m));
    }

    /// How many bytes have been read; never more than the input holds.
    pub fn position(&self) -> (r: usize)
        ensures
            r == self.pos(),
            r <= self.input().len(),
    {
        proof {
            use_type_invariant(self);
        }
        self.pos
    }

    /// A big-endian deserializer at the start of `input`.
    pub fn from_bytes(input: &'de [u8]) -> (d: Self)
        ensures
            d.input() == input@,
            d.pos() == 0,
            !d.is_le(),
    {
        Deserializer { input, pos: 0, le: false }
    }

    /// A little-endian deserializer at the start of `input`.
    pub fn from_bytes_le(input: &'de [u8]) -> (d: Self)
        ensures
            d.input() == input@,
            d.pos() == 0,
            d.is_le(),
    {
        Deserializer { input, pos: 0, le: true }
    }

    /// Whether multi-byte integers are read little-endian.
    pub fn little_endian(&self) -> (r: bool)
        ensures
            r == self.is_le(),
    {
        self.le
    }

    /// Whether bytes are left to read.
    pub fn has_remaining(&self) -> (r: bool)
        ensures
            r == (self.rest().len() > 0),
    {
        proof {
            use_type_invariant(self);
        }
        self.pos < self.input.len()
    }

    fn remaining_slice(&self) -> (r: &'de [u8])
        ensures
            r@ == self.rest(),
    {
        proof {
            use_type_invariant(self);
        }
        slice_subrange(self.input, self.pos, self.input.len())
    }

    fn advance(&mut self, n: usize)
        requires
            n <= old(self).rest().len(),
        ensures
            final(self).input() == old(self).input(),
            final(self).is_le() == old(self).is_le(),
            final(self).advanced_from(*old(self), n as int),
    {
        proof {
            use_type_invariant(&*self);
            assert(self.input@.skip(self.pos as int).len() == self.input@.len() - self.pos);
        }
        let _len = self.input.len();
        self.pos = self.pos + n;
        assert(self.input@.skip(self.pos as int) =~= old(self).rest().skip(n as int));
    }

    /// The zigzag decoding of `val`.
    pub fn zigzag_decode(&self, val: u64) -> (r: i64)
        ensures
            r == unzigzag(val),
            val % 2 == 0 ==> 2 * r == val,
            val % 2 == 1 ==> 2 * r == -val - 1,
    {
        let ret = (val >> 1) as i64;
        let low = (val as i64) & 1;
        assert(low == 0 || low == 1) by (bit_vector)
            requires
                low == (val as i64) & 1,
        ;
        let neg = -low;
        let r = ret ^ neg;
        assert(r == unzigzag(val)) by (bit_vector)
            requires
                ret == (val >> 1) as i64,
                low == (val as i64) & 1,
                neg == -low,
                r == ret ^ neg,
        ;
        r
    }

    /// Reads a boolean: one byte, true unless zero.
    pub fn parse_bool(&mut self) -> (r: Result<bool>)
        ensures
            final(self).input() == old(self).input(),
            final(self).is_le() == old(self).is_le(),
            match parse_bool_spec(old(self).rest()) {
                Ok((v, n)) => r == Ok::<bool, Error>(v) && final(self).advanced_from(*old(self), n),
                Err(e) => r == Err::<bool, Error>(e) && final(self).pos() == old(self).pos(),
            },
    {
        proof {
            reveal(parse_bool_spec);
        }
        if !self.has_remaining() {
            return Err(Error::Eof);
        }
        let rest = self.remaining_slice();
        let b = get_u8(rest);
        self.advance(1);
        if b == 0 {
            Ok(false)
        } else {
            Ok(true)
        }
    }

    /// Reads an unsigned integer in its variable-length form.
    ///
    /// On an error the tag byte, if there was one, has been read.
    pub fn parse_unsigned(&mut self) -> (r: Result<u64>)
        ensures
            final(self).input() == old(self).input(),
            final(self).is_le() == old(self).is_le(),
            match parse_unsigned_spec(old(self).rest(), old(self).is_le()) {
                Ok((v, n)) => r == Ok::<u64, Error>(v) && final(self).advanced_from(*old(self), n),
                Err(e) => r == Err::<u64, Error>(e) && final(self).pos() == old(self).pos()
                    + varint_error_advance(old(self).rest()),
            },
    {
        proof {
            reveal(parse_unsigned_spec);
        }
        proof {
            use_type_invariant(&*self);
        }
        if !self.has_remaining() {
            return Err(Error::Eof);
        }
        let rest = self.remaining_slice();
        let tag = get_u8(rest);
        let ghost s = rest@;
        let ghost d0 = *self;
        self.advance(1);
        let ghost d1 = *self;
        let rest = self.remaining_slice();
        proof {
            use_type_invariant(&*self);
            assert(rest@ =~= s.subrange(1, s.len() as int));
        }
        if tag == 0xff {
            if rest.len() < 8 {
                return Err(Error::Eof);
            }
            let v = if self.le {
                get_u64_le(rest)
            } else {
                get_u64(rest)
            };
            assert(rest@.take(8) =~= s.subrange(1, 9));
            self.advance(8);
            proof {
                Self::lemma_advanced_trans(d0, d1, *self, 1, 8);
            }
            Ok(v)
        } else if tag == 0xfe {
            if rest.len() < 4 {
                return Err(Error::Eof);
            }
            let v = if self.le {
                get_u32_le(rest)
            } else {
                get_u32(rest)
            };
            assert(rest@.take(4) =~= s.subrange(1, 5));
            self.advance(4);
            proof {
                Self::lemma_advanced_trans(d0, d1, *self, 1, 4);
            }
            Ok(v as u64)
        } else if tag == 0xfd {
            if rest.len() < 2 {
                return Err(Error::Eof);
            }
            let v = if self.le {
                get_u16_le(rest)
            } else {
                get_u16(rest)
            };
            assert(rest@.take(2) =~= s.subrange(1, 3));
            self.advance(2);
            proof {
                Self::lemma_advanced_trans(d0, d1, *self, 1, 2);
            }
            Ok(v as u64)
        } else {
            Ok(tag as u64)
        }
    }

    /// Reads a signed integer: a varint, zigzag-decoded.
    pub fn parse_signed(&mut self) -> (r: Result<i64>)
        ensures
            final(self).input() == old(self).input(),
            final(self).is_le() == old(self).is_le(),
            match parse_signed_spec(old(self).rest(), old(self).is_le()) {
                Ok((v, n)) => r == Ok::<i64, Error>(v) && final(self).advanced_from(*old(self), n),
                Err(e) => r == Err::<i64, Error>(e) && final(self).pos() == old(self).pos() + varint_error_advance(old(self).rest()),
            },
    {
        proof {
            reveal(parse_signed_spec);
        }
        let unsigned = self.parse_unsigned()?;
        Ok(self.zigzag_decode(unsigned))
    }

    /// Reads a byte string: a length, then that many bytes.
    pub fn parse_bytes(&mut self) -> (r: Result<Vec<u8>>)
        ensures
            final(self).input() == old(self).input(),
            final(self).is_le() == old(self).is_le(),
            match parse_bytes_spec(old(self).rest(), old(self).is_le()) {
                Ok((v, n)) => r matches Ok(b) && b@ == v && final(self).advanced_from(*old(self), n),
                Err(e) => r == Err::<Vec<u8>, Error>(e) && final(self).pos() == old(self).pos() + bytes_error_advance(old(self).rest(), old(self).is_le()),
            },
    {
        proof {
            reveal(parse_bytes_spec);
        }
        let ghost s = old(self).rest();
        proof {
            use_type_invariant(&*self);
        }
        let ghost d0 = *self;
        let len = self.parse_unsigned()?;
        let ghost d1 = *self;
        let len = len as usize;
        let rest = self.remaining_slice();
        proof {
            use_type_invariant(&*self);
            let k = parse_unsigned_spec(s, self.le)->Ok_0.1;
            assert(rest@ =~= s.subrange(k, s.len() as int));
        }
        if rest.len() < len {
            return Err(Error::Eof);
        }
        let bytes = slice_to_vec(slice_subrange(rest, 0, len));
        self.advance(len);
        proof {
            let k = parse_unsigned_spec(s, self.le)->Ok_0.1;
            Self::lemma_advanced_trans(d0, d1, *self, k, len as int);
            assert(bytes@ =~= s.subrange(k, k + len));
        }
        Ok(bytes)
    }

    /// Reads text: a byte string that must be UTF-8.
    pub fn parse_string(&mut self) -> (r: Result<String>)
        ensures
            final(self).input() == old(self).input(),
            final(self).is_le() == old(self).is_le(),
            match parse_string_spec(old(self).rest(), old(self).is_le()) {
                Ok((v, n)) => r matches Ok(t) && t@ == v && final(self).advanced_from(*old(self), n),
                Err(e) => r matches Err(x) && x == e && final(self).pos() == old(self).pos() + string_error_advance(old(self).rest(), old(self).is_le()),
            },
    {
        proof {
            reveal(parse_string_spec);
        }
        let bytes = self.parse_bytes()?;
        match string_from_utf8(bytes) {
            Ok(s) => Ok(s),
            Err(_) => Err(Error::Format),
        }
    }

    /// Reads an unsigned integer and keeps its low 8 bits.
    pub fn deserialize_u8(&mut self) -> (r: Result<u8>)
        ensures
            final(self).input() == old(self).input(),
            final(self).is_le() == old(self).is_le(),
            match parse_unsigned_spec(old(self).rest(), old(self).is_le()) {
                Ok((v, n)) => r == Ok::<u8, Error>(v as u8) && final(self).advanced_from(*old(self), n),
                Err(e) => r == Err::<u8, Error>(e) && final(self).pos() == old(self).pos() + varint_error_advance(old(self).rest()),
            },
    {
        Ok(self.parse_unsigned()? as u8)
    }

    /// Reads an unsigned integer and keeps its low 16 bits.
    pub fn deserialize_u16(&mut self) -> (r: Result<u16>)
        ensures
            final(self).input() == old(self).input(),
            final(self).is_le() == old(self).is_le(),
            match parse_unsigned_spec(old(self).rest(), old(self).is_le()) {
                Ok((v, n)) => r == Ok::<u16, Error>(v as u16) && final(self).advanced_from(*old(self), n),
                Err(e) => r == Err::<u16, Error>(e) && final(self).pos() == old(self).pos() + varint_error_advance(old(self).rest()),
            },
    {
        Ok(self.parse_unsigned()? as u16)
    }

    /// Reads an unsigned integer and keeps its low 32 bits.
    pub fn deserialize_u32(&mut self) -> (r: Result<u32>)
        ensures
            final(self).input() == old(self).input(),
            final(self).is_le() == old(self).is_le(),
            match parse_unsigned_spec(old(self).rest(), old(self).is_le()) {
                Ok((v, n)) => r == Ok::<u32, Error>(v as u32) && final(self).advanced_from(*old(self), n),
                Err(e) => r == Err::<u32, Error>(e) && final(self).pos() == old(self).pos() + varint_error_advance(old(self).rest()),
            },
    {
        Ok(self.parse_unsigned()? as u32)
    }

    /// Reads an unsigned integer.
    pub fn deserialize_u64(&mut self) -> (r: Result<u64>)
        ensures
            final(self).input() == old(self).input(),
            final(self).is_le() == old(self).is_le(),
            match parse_unsigned_spec(old(self).rest(), old(self).is_le()) {
                Ok((v, n)) => r == Ok::<u64, Error>(v) && final(self).advanced_from(*old(self), n),
                Err(e) => r == Err::<u64, Error>(e) && final(self).pos() == old(self).pos() + varint_error_advance(old(self).rest()),
            },
    {
        self.parse_unsigned()
    }

    /// Reads a signed integer and keeps its low 8 bits.
    pub fn deserialize_i8(&mut self) -> (r: Result<i8>)
        ensures
            final(self).input() == old(self).input(),
            final(self).is_le() == old(self).is_le(),
            match parse_signed_spec(old(self).rest(), old(self).is_le()) {
                Ok((v, n)) => r == Ok::<i8, Error>(v as i8) && final(self).advanced_from(*old(self), n),
                Err(e) => r == Err::<i8, Error>(e) && final(self).pos() == old(self).pos() + varint_error_advance(old(self).rest()),
            },
    {
        Ok(self.parse_signed()? as i8)
    }

    /// Reads a signed integer and keeps its low 16 bits.
    pub fn deserialize_i16(&mut self) -> (r: Result<i16>)
        ensures
            final(self).input() == old(self).input(),
            final(self).is_le() == old(self).is_le(),
            match parse_signed_spec(old(self).rest(), old(self).is_le()) {
                Ok((v, n)) => r == Ok::<i16, Error>(v as i16) && final(self).advanced_from(*old(self), n),
                Err(e) => r == Err::<i16, Error>(e) && final(self).pos() == old(self).pos() + varint_error_advance(old(self).rest()),
            },
    {
        Ok(self.parse_signed()? as i16)
    }

    /// Reads a signed integer and keeps its low 32 bits.
    pub fn deserialize_i32(&mut self) -> (r: Result<i32>)
        ensures
            final(self).input() == old(self).input(),
            final(self).is_le() == old(self).is_le(),
            match parse_signed_spec(old(self).rest(), old(self).is_le()) {
                Ok((v, n)) => r == Ok::<i32, Error>(v as i32) && final(self).advanced_from(*old(self), n),
                Err(e) => r == Err::<i32, Error>(e) && final(self).pos() == old(self).pos() + varint_error_advance(old(self).rest()),
            },
    {
        Ok(self.parse_signed()? as i32)
    }

    /// Reads a signed integer.
    pub fn deserialize_i64(&mut self) -> (r: Result<i64>)
        ensures
            final(self).input() == old(self).input(),
            final(self).is_le() == old(self).is_le(),
            match parse_signed_spec(old(self).rest(), old(self).is_le()) {
                Ok((v, n)) => r == Ok::<i64, Error>(v) && final(self).advanced_from(*old(self), n),
                Err(e) => r == Err::<i64, Error>(e) && final(self).pos() == old(self).pos() + varint_error_advance(old(self).rest()),
            },
    {
        self.parse_signed()
    }

    /// Reads the length that starts a sequence or a map.
    pub fn parse_len(&mut self) -> (r: Result<usize>)
        ensures
            final(self).input() == old(self).input(),
            final(self).is_le() == old(self).is_le(),
            match parse_unsigned_spec(old(self).rest(), old(self).is_le()) {
                Ok((v, n)) => r == Ok::<usize, Error>(v as usize) && final(self).advanced_from(*old(self), n),
                Err(e) => r == Err::<usize, Error>(e) && final(self).pos() == old(self).pos() + varint_error_advance(old(self).rest()),
            },
    {
        Ok(self.parse_unsigned()? as usize)
    }

    /// Reads `n` bytes as they are, for values whose decoding is done elsewhere.
    pub fn take_raw(&mut self, n: usize) -> (r: Result<&'de [u8]>)
        ensures
            final(self).input() == old(self).input(),
            final(self).is_le() == old(self).is_le(),
            n <= old(self).rest().len() ==> (r matches Ok(b) && b@ == old(self).rest().take(n as int)
                && final(self).advanced_from(*old(self), n as int)),
            n > old(self).rest().len() ==> r == Err::<&[u8], Error>(Error::Eof) && final(self).pos()
                == old(self).pos(),
    {
        let rest = self.remaining_slice();
        if rest.len() < n {
            return Err(Error::Eof);
        }
        let bytes = slice_subrange(rest, 0, n);
        self.advance(n);
        Ok(bytes)
    }
}

/// Counts off the elements of a sequence or the entries of a map whose
/// length was read up front.
pub struct TypeSeparated {
    len: usize,
    pos: usize,
}

impl TypeSeparated {
    /// The number of elements announced.
    pub closed spec fn spec_len(&self) -> usize {
        self.len
    }

    /// The number of elements taken so far.
    pub closed spec fn spec_pos(&self) -> usize {
        self.pos
    }

    /// A counter for `len` elements, none taken yet.
    pub fn new(len: usize) -> (t: Self)
        ensures
            t.spec_len() == len,
            t.spec_pos() == 0,
    {
        TypeSeparated { len, pos: 0 }
    }

    /// Whether a sequence element follows; taking it counts it.
    pub fn next_element(&mut self) -> (r: bool)
        ensures
            r == (old(self).spec_pos() < old(self).spec_len()),
            final(self).spec_len() == old(self).spec_len(),
            final(self).spec_pos() == if r {
                old(self).spec_pos() + 1
            } else {
                old(self).spec_pos() as int
            },
    {
        if self.pos < self.len {
            self.pos = self.pos + 1;
            true
        } else {
            false
        }
    }

    /// Whether a map entry follows; its key does not count yet.
    pub fn next_key(&self) -> (r: bool)
        ensures
            r == (self.spec_pos() < self.spec_len()),
    {
        self.pos < self.len
    }

    /// Counts the entry whose value is read now. More than `usize::MAX`
    /// entries would overflow the count, which `requires` leaves out.
    pub fn next_value(&mut self)
        requires
            old(self).spec_pos() < usize::MAX,
        ensures
            final(self).spec_len() == old(self).spec_len(),
            final(self).spec_pos() == old(self).spec_pos() + 1,
    {
        self.pos = self.pos + 1;
    }

    /// The number of elements announced.
    pub fn size_hint(&self) -> (r: usize)
        ensures
            r == self.spec_len(),
    {
        self.len
    }

    /// The number of elements taken so far.
    pub fn position(&self) -> (r: usize)
        ensures
            r == self.spec_pos(),
    {
        self.pos
    }
}

/// What reading a whole byte string as a `T` gives: the value, if it
/// takes every byte.
pub open spec fn decode_all<T: Wire>(s: Seq<u8>, le: bool) -> Result<T::V> {
    match T::wire_parse(s, le) {
        Ok((v, n)) => if n < s.len() {
            Err(Error::TrailingBytes)
        } else {
            Ok(v)
        },
        Err(e) => Err(e),
    }
}

fn decode_whole<T: Wire>(mut deserializer: Deserializer) -> (r: Result<T>)
    requires
        deserializer.pos() == 0,
    ensures
        match decode_all::<T>(deserializer.input(), deserializer.is_le()) {
            Ok(v) => r matches Ok(x) && x@ == v,
            Err(e) => r matches Err(x) && x == e,
        },
{
    let ghost d0 = deserializer;
    assert(d0.rest() =~= d0.input());
    let t = T::deserialize(&mut deserializer)?;
    if deserializer.has_remaining() {
        Err(Error::TrailingBytes)
    } else {
        Ok(t)
    }
}

/// Reads a `T` in big-endian form from the whole of `input`; bytes left
/// over are an error.
pub fn from_bytes<T: Wire>(input: &[u8]) -> (r: Result<T>)
    ensures
        match decode_all::<T>(input@, false) {
            Ok(v) => r matches Ok(x) && x@ == v,
            Err(e) => r matches Err(x) && x == e,
        },
{
    decode_whole(Deserializer::from_bytes(input))
}

/// Reads a `T` in little-endian form from the whole of `input`; bytes left
/// over are an error.
pub fn from_bytes_le<T: Wire>(input: &[u8]) -> (r: Result<T>)
    ensures
        match decode_all::<T>(input@, true) {
            Ok(v) => r matches Ok(x) && x@ == v,
            Err(e) => r matches Err(x) && x == e,
        },
{
    decode_whole(Deserializer::from_bytes_le(input))
}

/// What the encoder writes for a valid value, the decoder reads back whole.
pub proof fn lemma_decode_all_roundtrip<T: Wire>(v: T::V, le: bool)
    requires
        T::wire_valid(v),
    ensures
        decode_all::<T>(T::wire_bytes(v, le), le) == Ok::<T::V, Error>(v),
{
    T::lemma_wire_roundtrip(v, le, Seq::empty());
    assert(T::wire_bytes(v, le) + Seq::<u8>::empty() =~= T::wire_bytes(v, le));
}

/// Bytes after a valid value make reading it whole fail with `TrailingBytes`.
pub proof fn lemma_decode_all_trailing<T: Wire>(v: T::V, le: bool, rest: Seq<u8>)
    requires
        T::wire_valid(v),
        rest.len() > 0,
    ensures
        decode_all::<T>(T::wire_bytes(v, le) + rest, le) == Err::<T::V, Error>(
            Error::TrailingBytes,
        ),
{
    T::lemma_wire_roundtrip(v, le, rest);
}

/// The variable-length form of `v` reads back as `v`, whatever follows it.
pub proof fn lemma_varint_roundtrip(v: u64, le: bool, rest: Seq<u8>)
    ensures
        parse_unsigned_spec(varint_bytes(v, le) + rest, le) == Ok::<(u64, int), Error>(
            (v, varint_bytes(v, le).len() as int),
        ),
{
    reveal(varint_bytes);
    reveal(parse_unsigned_spec);
    let b = varint_bytes(v, le);
    let s = b + rest;
    if v <= 0xFC {
        assert(s[0] == v as u8);
    } else if v <= 0xFFFF {
        lemma_u16_roundtrip(v as u16, le);
        assert(s.subrange(1, 3) =~= u16_bytes(v as u16, le));
    } else if 0xFF_FF01 <= v && v <= 0xFFFF_FFFF {
        lemma_u32_roundtrip(v as u32, le);
        assert(s.subrange(1, 5) =~= u32_bytes(v as u32, le));
    } else {
        lemma_u64_roundtrip(v, le);
        assert(s.subrange(1, 9) =~= u64_bytes(v, le));
    }
}

/// The zigzag map is a bijection between `i64` and `u64`.
pub proof fn lemma_zigzag_inverse(v: i64, u: u64)
    ensures
        unzigzag(zigzag(v)) == v,
        zigzag(unzigzag(u)) == u,
{
}

/// The zigzag map in closed form: a non-negative `v` goes to `2 * v`, a
/// negative one to `-2 * v - 1`; so an even image is twice the value and an
/// odd one is `-2 * v - 1`, and a signed integer is written as the varint of
/// that image.
pub proof fn lemma_zigzag_closed_form(v: i64, u: u64, le: bool)
    ensures
        v >= 0 ==> zigzag(v) == 2 * v,
        v < 0 ==> zigzag(v) == -2 * v - 1,
        u % 2 == 0 ==> 2 * unzigzag(u) == u,
        u % 2 == 1 ==> 2 * unzigzag(u) == -u - 1,
        signed_bytes(v, le) == varint_bytes(
            (if v >= 0 {
                2 * v
            } else {
                -2 * v - 1
            }) as u64,
            le,
        ),
{
    reveal(signed_bytes);
}

/// A signed integer reads back as itself, whatever follows it.
pub proof fn lemma_signed_roundtrip(v: i64, le: bool, rest: Seq<u8>)
    ensures
        parse_signed_spec(signed_bytes(v, le) + rest, le) == Ok::<(i64, int), Error>(
            (v, signed_bytes(v, le).len() as int),
        ),
{
    reveal(signed_bytes);
    reveal(parse_signed_spec);
    lemma_varint_roundtrip(zigzag(v), le, rest);
    lemma_zigzag_inverse(v, 0);
}

/// A boolean reads back as itself, whatever follows it.
pub proof fn lemma_bool_roundtrip(b: bool, rest: Seq<u8>)
    ensures
        parse_bool_spec(bool_bytes(b) + rest) == Ok::<(bool, int), Error>((b, 1)),
{
    reveal(bool_bytes);
    reveal(parse_bool_spec);
    assert((bool_bytes(b) + rest)[0] == bool_bytes(b)[0]);
}

/// A byte string reads back as itself, whatever follows it.
pub proof fn lemma_bytes_roundtrip(b: Seq<u8>, le: bool, rest: Seq<u8>)
    requires
        b.len() <= usize::MAX,
    ensures
        parse_bytes_spec(byte_string_bytes(b, le) + rest, le) == Ok::<(Seq<u8>, int), Error>(
            (b, byte_string_bytes(b, le).len() as int),
        ),
{
    reveal(byte_string_bytes);
    reveal(parse_bytes_spec);
    let h = varint_bytes(b.len() as u64, le);
    let s = byte_string_bytes(b, le) + rest;
    assert(s =~= h + (b + rest));
    lemma_varint_roundtrip(b.len() as u64, le, b + rest);
    assert(s.subrange(h.len() as int, (h.len() + b.len()) as int) =~= b);
}

/// Text reads back as itself, whatever follows it.
pub proof fn lemma_string_roundtrip(c: Seq<char>, le: bool, rest: Seq<u8>)
    requires
        encode_utf8(c).len() <= usize::MAX,
    ensures
        parse_string_spec(str_bytes(c, le) + rest, le) == Ok::<(Seq<char>, int), Error>(
            (c, str_bytes(c, le).len() as int),
        ),
{
    reveal(str_bytes);
    reveal(parse_string_spec);
    broadcast use vstd::utf8::group_utf8_lib;

    lemma_bytes_roundtrip(encode_utf8(c), le, rest);
}

} // verus!
