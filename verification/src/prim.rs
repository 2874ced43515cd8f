use vstd::prelude::*;
use vstd::bytes::{
    spec_u16_from_le_bytes, spec_u16_to_le_bytes, spec_u32_from_le_bytes, spec_u32_to_le_bytes,
    spec_u64_from_le_bytes, spec_u64_to_le_bytes, spec_u128_from_le_bytes,
    spec_u128_to_le_bytes,
};

verus! {

/// A primitive integer type that guest memory can hold, with its
/// little-endian encoding.
pub trait Prim: Sized + Copy {
    /// Number of bytes of the encoding.
    spec fn spec_size() -> nat;

    /// The little-endian bytes of a value.
    spec fn spec_to_le(self) -> Seq<u8>;

    /// The value that a sequence of little-endian bytes encodes.
    spec fn spec_from_le(bytes: Seq<u8>) -> Self;

    fn size() -> (n: usize)
        ensures
            n == Self::spec_size(),
            1 <= n <= 16,
    ;

    fn to_bytes_le(self) -> (bytes: Vec<u8>)
        ensures
            bytes@ == self.spec_to_le(),
            bytes@.len() == Self::spec_size(),
    ;

    fn from_bytes_le(bytes: &[u8]) -> (v: Self)
        requires
            bytes@.len() == Self::spec_size(),
        ensures
            v == Self::spec_from_le(bytes@),
    ;

    /// Decoding the encoding of a value gives the value back.
    proof fn lemma_le_roundtrip(v: Self)
        ensures
            v.spec_to_le().len() == Self::spec_size(),
            Self::spec_from_le(v.spec_to_le()) == v,
    ;
}

impl Prim for u8 {
    open spec fn spec_size() -> nat {
        1
    }

    open spec fn spec_to_le(self) -> Seq<u8> {
        seq![self]
    }

    open spec fn spec_from_le(bytes: Seq<u8>) -> u8 {
        bytes[0]
    }

    fn size() -> (n: usize) {
        1
    }

    fn to_bytes_le(self) -> (bytes: Vec<u8>) {
        let mut v: Vec<u8> = Vec::new();
        v.push(self);
        assert(v@ =~= seq![self]);
        v
    }

    fn from_bytes_le(bytes: &[u8]) -> (v: u8) {
        bytes[0]
    }

    proof fn lemma_le_roundtrip(v: u8) {
    }
}

impl Prim for i8 {
    open spec fn spec_size() -> nat {
        1
    }

    open spec fn spec_to_le(self) -> Seq<u8> {
        seq![self as u8]
    }

    open spec fn spec_from_le(bytes: Seq<u8>) -> i8 {
        bytes[0] as i8
    }

    fn size() -> (n: usize) {
        1
    }

    fn to_bytes_le(self) -> (bytes: Vec<u8>) {
        let mut v: Vec<u8> = Vec::new();
        v.push(self as u8);
        assert(v@ =~= seq![self as u8]);
        v
    }

    fn from_bytes_le(bytes: &[u8]) -> (v: i8) {
        bytes[0] as i8
    }

    proof fn lemma_le_roundtrip(v: i8) {
        assert((v as u8) as i8 == v) by (bit_vector);
    }
}

impl Prim for u16 {
    open spec fn spec_size() -> nat {
        2
    }

    open spec fn spec_to_le(self) -> Seq<u8> {
        spec_u16_to_le_bytes(self)
    }

    open spec fn spec_from_le(bytes: Seq<u8>) -> u16 {
        spec_u16_from_le_bytes(bytes)
    }

    fn size() -> (n: usize) {
        2
    }

    fn to_bytes_le(self) -> (bytes: Vec<u8>) {
        vstd::bytes::u16_to_le_bytes(self)
    }

    fn from_bytes_le(bytes: &[u8]) -> (v: u16) {
        vstd::bytes::u16_from_le_bytes(bytes)
    }

    proof fn lemma_le_roundtrip(v: u16) {
        vstd::bytes::lemma_auto_spec_u16_to_from_le_bytes();
        assert(spec_u16_to_le_bytes(v).len() == 2);
    }
}

impl Prim for i16 {
    open spec fn spec_size() -> nat {
        2
    }

    open spec fn spec_to_le(self) -> Seq<u8> {
        spec_u16_to_le_bytes(self as u16)
    }

    open spec fn spec_from_le(bytes: Seq<u8>) -> i16 {
        spec_u16_from_le_bytes(bytes) as i16
    }

    fn size() -> (n: usize) {
        2
    }

    fn to_bytes_le(self) -> (bytes: Vec<u8>) {
        vstd::bytes::u16_to_le_bytes(self as u16)
    }

    fn from_bytes_le(bytes: &[u8]) -> (v: i16) {
        vstd::bytes::u16_from_le_bytes(bytes) as i16
    }

    proof fn lemma_le_roundtrip(v: i16) {
        vstd::bytes::lemma_auto_spec_u16_to_from_le_bytes();
        assert(spec_u16_to_le_bytes(v as u16).len() == 2);
        assert((v as u16) as i16 == v) by (bit_vector);
    }
}

impl Prim for u32 {
    open spec fn spec_size() -> nat {
        4
    }

    open spec fn spec_to_le(self) -> Seq<u8> {
        spec_u32_to_le_bytes(self)
    }

    open spec fn spec_from_le(bytes: Seq<u8>) -> u32 {
        spec_u32_from_le_bytes(bytes)
    }

    fn size() -> (n: usize) {
        4
    }

    fn to_bytes_le(self) -> (bytes: Vec<u8>) {
        vstd::bytes::u32_to_le_bytes(self)
    }

    fn from_bytes_le(bytes: &[u8]) -> (v: u32) {
        vstd::bytes::u32_from_le_bytes(bytes)
    }

    proof fn lemma_le_roundtrip(v: u32) {
        vstd::bytes::lemma_auto_spec_u32_to_from_le_bytes();
        assert(spec_u32_to_le_bytes(v).len() == 4);
    }
}

impl Prim for i32 {
    open spec fn spec_size() -> nat {
        4
    }

    open spec fn spec_to_le(self) -> Seq<u8> {
        spec_u32_to_le_bytes(self as u32)
    }

    open spec fn spec_from_le(bytes: Seq<u8>) -> i32 {
        spec_u32_from_le_bytes(bytes) as i32
    }

    fn size() -> (n: usize) {
        4
    }

    fn to_bytes_le(self) -> (bytes: Vec<u8>) {
        vstd::bytes::u32_to_le_bytes(self as u32)
    }

    fn from_bytes_le(bytes: &[u8]) -> (v: i32) {
        vstd::bytes::u32_from_le_bytes(bytes) as i32
    }

    proof fn lemma_le_roundtrip(v: i32) {
        vstd::bytes::lemma_auto_spec_u32_to_from_le_bytes();
        assert(spec_u32_to_le_bytes(v as u32).len() == 4);
        assert((v as u32) as i32 == v) by (bit_vector);
    }
}

impl Prim for u64 {
    open spec fn spec_size() -> nat {
        8
    }

    open spec fn spec_to_le(self) -> Seq<u8> {
        spec_u64_to_le_bytes(self)
    }

    open spec fn spec_from_le(bytes: Seq<u8>) -> u64 {
        spec_u64_from_le_bytes(bytes)
    }

    fn size() -> (n: usize) {
        8
    }

    fn to_bytes_le(self) -> (bytes: Vec<u8>) {
        vstd::bytes::u64_to_le_bytes(self)
    }

    fn from_bytes_le(bytes: &[u8]) -> (v: u64) {
        vstd::bytes::u64_from_le_bytes(bytes)
    }

    proof fn lemma_le_roundtrip(v: u64) {
        vstd::bytes::lemma_auto_spec_u64_to_from_le_bytes();
    }
}

impl Prim for i64 {
    open spec fn spec_size() -> nat {
        8
    }

    open spec fn spec_to_le(self) -> Seq<u8> {
        spec_u64_to_le_bytes(self as u64)
    }

    open spec fn spec_from_le(bytes: Seq<u8>) -> i64 {
        spec_u64_from_le_bytes(bytes) as i64
    }

    fn size() -> (n: usize) {
        8
    }

    fn to_bytes_le(self) -> (bytes: Vec<u8>) {
        vstd::bytes::u64_to_le_bytes(self as u64)
    }

    fn from_bytes_le(bytes: &[u8]) -> (v: i64) {
        vstd::bytes::u64_from_le_bytes(bytes) as i64
    }

    proof fn lemma_le_roundtrip(v: i64) {
        vstd::bytes::lemma_auto_spec_u64_to_from_le_bytes();
        assert(spec_u64_to_le_bytes(v as u64).len() == 8);
        assert((v as u64) as i64 == v) by (bit_vector);
    }
}

impl Prim for usize {
    open spec fn spec_size() -> nat {
        8
    }

    open spec fn spec_to_le(self) -> Seq<u8> {
        spec_u64_to_le_bytes(self as u64)
    }

    open spec fn spec_from_le(bytes: Seq<u8>) -> usize {
        spec_u64_from_le_bytes(bytes) as usize
    }

    fn size() -> (n: usize) {
        8
    }

    fn to_bytes_le(self) -> (bytes: Vec<u8>) {
        vstd::bytes::u64_to_le_bytes(self as u64)
    }

    fn from_bytes_le(bytes: &[u8]) -> (v: usize) {
        vstd::bytes::u64_from_le_bytes(bytes) as usize
    }

    proof fn lemma_le_roundtrip(v: usize) {
        vstd::bytes::lemma_auto_spec_u64_to_from_le_bytes();
        assert(spec_u64_to_le_bytes(v as u64).len() == 8);
    }
}

impl Prim for isize {
    open spec fn spec_size() -> nat {
        8
    }

    open spec fn spec_to_le(self) -> Seq<u8> {
        spec_u64_to_le_bytes(self as u64)
    }

    open spec fn spec_from_le(bytes: Seq<u8>) -> isize {
        spec_u64_from_le_bytes(bytes) as isize
    }

    fn size() -> (n: usize) {
        8
    }

    fn to_bytes_le(self) -> (bytes: Vec<u8>) {
        vstd::bytes::u64_to_le_bytes(self as u64)
    }

    fn from_bytes_le(bytes: &[u8]) -> (v: isize) {
        vstd::bytes::u64_from_le_bytes(bytes) as isize
    }

    proof fn lemma_le_roundtrip(v: isize) {
        vstd::bytes::lemma_auto_spec_u64_to_from_le_bytes();
        assert(spec_u64_to_le_bytes(v as u64).len() == 8);
        assert((v as u64) as isize == v) by (bit_vector);
    }
}

impl Prim for u128 {
    open spec fn spec_size() -> nat {
        16
    }

    open spec fn spec_to_le(self) -> Seq<u8> {
        spec_u128_to_le_bytes(self)
    }

    open spec fn spec_from_le(bytes: Seq<u8>) -> u128 {
        spec_u128_from_le_bytes(bytes)
    }

    fn size() -> (n: usize) {
        16
    }

    fn to_bytes_le(self) -> (bytes: Vec<u8>) {
        vstd::bytes::u128_to_le_bytes(self)
    }

    fn from_bytes_le(bytes: &[u8]) -> (v: u128) {
        vstd::bytes::u128_from_le_bytes(bytes)
    }

    proof fn lemma_le_roundtrip(v: u128) {
        vstd::bytes::lemma_auto_spec_u128_to_from_le_bytes();
        assert(spec_u128_to_le_bytes(v).len() == 16);
    }
}

impl Prim for i128 {
    open spec fn spec_size() -> nat {
        16
    }

    open spec fn spec_to_le(self) -> Seq<u8> {
        spec_u128_to_le_bytes(self as u128)
    }

    open spec fn spec_from_le(bytes: Seq<u8>) -> i128 {
        spec_u128_from_le_bytes(bytes) as i128
    }

    fn size() -> (n: usize) {
        16
    }

    fn to_bytes_le(self) -> (bytes: Vec<u8>) {
        vstd::bytes::u128_to_le_bytes(self as u128)
    }

    fn from_bytes_le(bytes: &[u8]) -> (v: i128) {
        vstd::bytes::u128_from_le_bytes(bytes) as i128
    }

    proof fn lemma_le_roundtrip(v: i128) {
        vstd::bytes::lemma_auto_spec_u128_to_from_le_bytes();
        assert(spec_u128_to_le_bytes(v as u128).len() == 16);
        assert((v as u128) as i128 == v) by (bit_vector);
    }
}

} // verus!
