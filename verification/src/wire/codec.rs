//! Values that have a form in the wire format.
use crate::wire::de::Deserializer;
use crate::wire::error::{Error, Result};
use crate::wire::ser::Serializer;
use vstd::prelude::*;

verus! {

/// A type whose values the library writes and reads in the wire format.
///
/// `wire_bytes` is what a value is written as, `wire_parse` what a byte
/// string that starts with a value reads as, and the two agree on every valid
/// value, whatever bytes follow it.
pub trait Wire: View + Sized {
    /// Whether a value can be written and read back: its lengths fit the
    /// machine and, where it holds a map, no key occurs twice.
    spec fn wire_valid(v: Self::V) -> bool;

    /// The bytes that stand for `v`.
    spec fn wire_bytes(v: Self::V, le: bool) -> Seq<u8>;

    /// What the bytes at the start of `s` read as, with how many bytes that takes.
    spec fn wire_parse(s: Seq<u8>, le: bool) -> Result<(Self::V, int)>;

    /// A valid value reads back as itself, whatever bytes follow it.
    proof fn lemma_wire_roundtrip(v: Self::V, le: bool, rest: Seq<u8>)
        requires
            Self::wire_valid(v),
        ensures
            Self::wire_parse(Self::wire_bytes(v, le) + rest, le) == Ok::<(Self::V, int), Error>(
                (v, Self::wire_bytes(v, le).len() as int),
            ),
    ;

    /// Appends the bytes of this value.
    fn serialize(&self, s: &mut Serializer)
        ensures
            final(s)@ == old(s)@ + Self::wire_bytes(self@, old(s).is_le()),
            final(s).is_le() == old(s).is_le(),
    ;

    /// Reads a value from the deserializer's remaining bytes.
    fn deserialize(d: &mut Deserializer) -> (r: Result<Self>)
        ensures
            final(d).input() == old(d).input(),
            final(d).is_le() == old(d).is_le(),
            match Self::wire_parse(old(d).rest(), old(d).is_le()) {
                Ok((v, n)) => r matches Ok(x) && x@ == v && final(d).advanced_from(*old(d), n),
                Err(e) => r matches Err(x) && x == e,
            },
    ;
}

} // verus!
