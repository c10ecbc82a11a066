//! Plain old data: fixed-size values decoded from little-endian bytes.
use vstd::prelude::*;
use vstd::slice::slice_subrange;

use crate::bytes::{le_u16, le_u32, le_u64, read_array, read_u16_le, read_u32_le, read_u64_le};
use crate::error::PodError;

verus! {

pub type PodResult<T> = Result<T, PodError>;

/// A value of fixed size with a byte encoding.
///
/// Every value is decoded from a copy of its little-endian bytes, so the
/// position and alignment of the bytes in memory play no part.
pub trait Pod: Sized + Copy {
    /// The size of the encoding, in bytes.
    spec fn spec_size_of() -> nat;

    /// The value that the bytes `bytes` (of length `spec_size_of()`) encode.
    spec fn spec_decode(bytes: Seq<u8>) -> Self;

    fn size_of() -> (n: usize)
        ensures
            n as nat == Self::spec_size_of(),
    ;

    fn decode(bytes: &[u8]) -> (v: Self)
        requires
            bytes@.len() == Self::spec_size_of(),
        ensures
            v == Self::spec_decode(bytes@),
    ;

    /// Decodes a value from the front of `bytes` and returns it with the
    /// bytes that follow it, or an error if `bytes` is too short.
    fn from_bytes(bytes: &[u8]) -> (r: PodResult<(Self, &[u8])>)
        ensures
            r is Ok <==> bytes@.len() >= Self::spec_size_of(),
            r matches Ok((v, rest)) ==> v == Self::spec_decode(
                bytes@.take(Self::spec_size_of() as int),
            ) && rest@ == bytes@.skip(Self::spec_size_of() as int),
            r matches Err(e) ==> e == (PodError::SizeOfMismatch {
                length: bytes@.len() as usize,
                size_of: Self::spec_size_of() as usize,
            }),
    {
        let n = Self::size_of();
        if bytes.len() < n {
            return Err(PodError::SizeOfMismatch { length: bytes.len(), size_of: n });
        }
        let head = slice_subrange(bytes, 0, n);
        let rest = slice_subrange(bytes, n, bytes.len());
        assert(head@ == bytes@.take(n as int));
        assert(rest@ == bytes@.skip(n as int));
        Ok((Self::decode(head), rest))
    }
}

impl Pod for u8 {
    open spec fn spec_size_of() -> nat {
        1
    }

    open spec fn spec_decode(bytes: Seq<u8>) -> u8 {
        bytes[0]
    }

    fn size_of() -> (n: usize) {
        1
    }

    fn decode(bytes: &[u8]) -> (v: u8) {
        bytes[0]
    }
}

impl Pod for u16 {
    open spec fn spec_size_of() -> nat {
        2
    }

    open spec fn spec_decode(bytes: Seq<u8>) -> u16 {
        le_u16(bytes, 0)
    }

    fn size_of() -> (n: usize) {
        2
    }

    fn decode(bytes: &[u8]) -> (v: u16) {
        read_u16_le(bytes, 0)
    }
}

impl Pod for u32 {
    open spec fn spec_size_of() -> nat {
        4
    }

    open spec fn spec_decode(bytes: Seq<u8>) -> u32 {
        le_u32(bytes, 0)
    }

    fn size_of() -> (n: usize) {
        4
    }

    fn decode(bytes: &[u8]) -> (v: u32) {
        read_u32_le(bytes, 0)
    }
}

impl Pod for u64 {
    open spec fn spec_size_of() -> nat {
        8
    }

    open spec fn spec_decode(bytes: Seq<u8>) -> u64 {
        le_u64(bytes, 0)
    }

    fn size_of() -> (n: usize) {
        8
    }

    fn decode(bytes: &[u8]) -> (v: u64) {
        read_u64_le(bytes, 0)
    }
}

impl Pod for [u8; 64] {
    open spec fn spec_size_of() -> nat {
        64
    }

    open spec fn spec_decode(bytes: Seq<u8>) -> [u8; 64] {
        choose|a: [u8; 64]| a@ == bytes
    }

    fn size_of() -> (n: usize) {
        64
    }

    fn decode(bytes: &[u8]) -> (v: [u8; 64]) {
        let a: [u8; 64] = read_array(bytes, 0);
        assert(a@ == bytes@);
        proof {
            let c = choose|b: [u8; 64]| b@ == bytes@;
            assert(c@ == a@);
        }
        a
    }
}

} // verus!
