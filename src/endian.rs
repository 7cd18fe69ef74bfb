//! Integers held as their little-endian bytes, so that their layout in a buffer does not
//! depend on the host's byte order.
use crate::le::{
    le_bytes, le_decode, le_encode, le_value, lemma_le_bytes_of_value, lemma_le_value_bound,
    lemma_le_value_of_bytes,
};
use crate::pod::{lemma_concat_bytes_u8, Pod};
use vstd::arithmetic::power::pow;
use vstd::prelude::*;

verus! {

/// An `i16` held as the two little-endian bytes of its two's complement form.
#[derive(Clone, Copy)]
pub struct I16 {
    le: [u8; 2],
}

impl View for I16 {
    type V = i16;

    closed spec fn view(&self) -> i16 {
        (le_value(self.le@) as u16) as i16
    }
}

impl I16 {
    /// Encodes `value` as little-endian bytes.
    pub fn new(value: i16) -> (r: Self)
        ensures
            r@ == value,
            r.pod_bytes() == le_bytes(value as u16 as nat, 2),
    {
        let r = I16 { le: le_encode::<2>(value as u16 as u64) };
        proof {
            reveal_with_fuel(pow, 3);
            lemma_le_value_of_bytes(value as u16 as nat, 2);
            assert((value as u16) as i16 == value) by (bit_vector);
        }
        r
    }

    /// Decodes the stored bytes.
    pub fn as_i16(&self) -> (r: i16)
        ensures
            r == self@,
    {
        le_decode(&self.le) as u16 as i16
    }

    /// The bytes of any value are the little-endian encoding of what it stands for.
    pub proof fn lemma_le_layout(self)
        ensures
            self.pod_bytes() == le_bytes(self@ as u16 as nat, 2),
    {
        reveal_with_fuel(pow, 3);
        lemma_le_value_bound(self.le@);
        lemma_le_bytes_of_value(self.le@);
        let u = le_value(self.le@) as u16;
        assert((u as i16) as u16 == u) by (bit_vector);
    }
}

impl Pod for I16 {
    open spec fn pod_size() -> nat {
        2
    }

    closed spec fn pod_bytes(&self) -> Seq<u8> {
        self.le@
    }

    proof fn lemma_pod_bytes_len(v: Self) {
    }

    proof fn lemma_pod_bytes_injective(a: Self, b: Self) {
        if a.le@ == b.le@ {
            assert(a.le =~= b.le);
        }
    }

    fn byte_size() -> (r: Option<usize>) {
        Some(2)
    }

    fn zeroed() -> (r: Self) {
        let r = I16 { le: [0u8; 2] };
        assert(r.le@ =~= Seq::new(2, |i: int| 0u8));
        r
    }

    fn load(src: &[u8], at: usize) -> (r: Self) {
        let le = <[u8; 2] as Pod>::load(src, at);
        proof {
            lemma_concat_bytes_u8(le@);
        }
        I16 { le }
    }

    fn store(&self, dst: &mut [u8], at: usize) {
        proof {
            lemma_concat_bytes_u8(self.le@);
        }
        self.le.store(dst, at);
    }
}

impl From<i16> for I16 {
    fn from(value: i16) -> (r: Self) {
        let r = Self::new(value);
        proof {
            let w = choose|w: I16| w@ == value;
            w.lemma_le_layout();
            r.lemma_le_layout();
            I16::lemma_pod_bytes_injective(w, r);
        }
        r
    }
}

impl vstd::std_specs::convert::FromSpecImpl<i16> for I16 {
    open spec fn obeys_from_spec() -> bool {
        true
    }

    /// The one wrapper that stands for `value`.
    open spec fn from_spec(value: i16) -> I16 {
        choose|w: I16| w@ == value
    }
}

impl From<I16> for i16 {
    fn from(value: I16) -> (r: Self) {
        value.as_i16()
    }
}

impl vstd::std_specs::convert::FromSpecImpl<I16> for i16 {
    open spec fn obeys_from_spec() -> bool {
        true
    }

    open spec fn from_spec(value: I16) -> i16 {
        value@
    }
}

/// A `u16` held as its two little-endian bytes.
#[derive(Clone, Copy)]
pub struct U16 {
    le: [u8; 2],
}

impl View for U16 {
    type V = u16;

    closed spec fn view(&self) -> u16 {
        le_value(self.le@) as u16
    }
}

impl U16 {
    /// Encodes `value` as little-endian bytes.
    pub fn new(value: u16) -> (r: Self)
        ensures
            r@ == value,
            r.pod_bytes() == le_bytes(value as nat, 2),
    {
        let r = U16 { le: le_encode::<2>(value as u64) };
        proof {
            reveal_with_fuel(pow, 3);
            lemma_le_value_of_bytes(value as nat, 2);
        }
        r
    }

    /// Decodes the stored bytes.
    pub fn as_u16(&self) -> (r: u16)
        ensures
            r == self@,
    {
        le_decode(&self.le) as u16
    }

    /// The bytes of any value are the little-endian encoding of what it stands for.
    pub proof fn lemma_le_layout(self)
        ensures
            self.pod_bytes() == le_bytes(self@ as nat, 2),
    {
        reveal_with_fuel(pow, 3);
        lemma_le_value_bound(self.le@);
        lemma_le_bytes_of_value(self.le@);
    }
}

impl Pod for U16 {
    open spec fn pod_size() -> nat {
        2
    }

    closed spec fn pod_bytes(&self) -> Seq<u8> {
        self.le@
    }

    proof fn lemma_pod_bytes_len(v: Self) {
    }

    proof fn lemma_pod_bytes_injective(a: Self, b: Self) {
        if a.le@ == b.le@ {
            assert(a.le =~= b.le);
        }
    }

    fn byte_size() -> (r: Option<usize>) {
        Some(2)
    }

    fn zeroed() -> (r: Self) {
        let r = U16 { le: [0u8; 2] };
        assert(r.le@ =~= Seq::new(2, |i: int| 0u8));
        r
    }

    fn load(src: &[u8], at: usize) -> (r: Self) {
        let le = <[u8; 2] as Pod>::load(src, at);
        proof {
            lemma_concat_bytes_u8(le@);
        }
        U16 { le }
    }

    fn store(&self, dst: &mut [u8], at: usize) {
        proof {
            lemma_concat_bytes_u8(self.le@);
        }
        self.le.store(dst, at);
    }
}

impl From<u16> for U16 {
    fn from(value: u16) -> (r: Self) {
        let r = Self::new(value);
        proof {
            let w = choose|w: U16| w@ == value;
            w.lemma_le_layout();
            r.lemma_le_layout();
            U16::lemma_pod_bytes_injective(w, r);
        }
        r
    }
}

impl vstd::std_specs::convert::FromSpecImpl<u16> for U16 {
    open spec fn obeys_from_spec() -> bool {
        true
    }

    /// The one wrapper that stands for `value`.
    open spec fn from_spec(value: u16) -> U16 {
        choose|w: U16| w@ == value
    }
}

impl From<U16> for u16 {
    fn from(value: U16) -> (r: Self) {
        value.as_u16()
    }
}

impl vstd::std_specs::convert::FromSpecImpl<U16> for u16 {
    open spec fn obeys_from_spec() -> bool {
        true
    }

    open spec fn from_spec(value: U16) -> u16 {
        value@
    }
}

/// An `i32` held as the four little-endian bytes of its two's complement form.
#[derive(Clone, Copy)]
pub struct I32 {
    le: [u8; 4],
}

impl View for I32 {
    type V = i32;

    closed spec fn view(&self) -> i32 {
        (le_value(self.le@) as u32) as i32
    }
}

impl I32 {
    /// Encodes `value` as little-endian bytes.
    pub fn new(value: i32) -> (r: Self)
        ensures
            r@ == value,
            r.pod_bytes() == le_bytes(value as u32 as nat, 4),
    {
        let r = I32 { le: le_encode::<4>(value as u32 as u64) };
        proof {
            reveal_with_fuel(pow, 5);
            lemma_le_value_of_bytes(value as u32 as nat, 4);
            assert((value as u32) as i32 == value) by (bit_vector);
        }
        r
    }

    /// Decodes the stored bytes.
    pub fn as_i32(&self) -> (r: i32)
        ensures
            r == self@,
    {
        le_decode(&self.le) as u32 as i32
    }

    /// The bytes of any value are the little-endian encoding of what it stands for.
    pub proof fn lemma_le_layout(self)
        ensures
            self.pod_bytes() == le_bytes(self@ as u32 as nat, 4),
    {
        reveal_with_fuel(pow, 5);
        lemma_le_value_bound(self.le@);
        lemma_le_bytes_of_value(self.le@);
        let u = le_value(self.le@) as u32;
        assert((u as i32) as u32 == u) by (bit_vector);
    }
}

impl Pod for I32 {
    open spec fn pod_size() -> nat {
        4
    }

    closed spec fn pod_bytes(&self) -> Seq<u8> {
        self.le@
    }

    proof fn lemma_pod_bytes_len(v: Self) {
    }

    proof fn lemma_pod_bytes_injective(a: Self, b: Self) {
        if a.le@ == b.le@ {
            assert(a.le =~= b.le);
        }
    }

    fn byte_size() -> (r: Option<usize>) {
        Some(4)
    }

    fn zeroed() -> (r: Self) {
        let r = I32 { le: [0u8; 4] };
        assert(r.le@ =~= Seq::new(4, |i: int| 0u8));
        r
    }

    fn load(src: &[u8], at: usize) -> (r: Self) {
        let le = <[u8; 4] as Pod>::load(src, at);
        proof {
            lemma_concat_bytes_u8(le@);
        }
        I32 { le }
    }

    fn store(&self, dst: &mut [u8], at: usize) {
        proof {
            lemma_concat_bytes_u8(self.le@);
        }
        self.le.store(dst, at);
    }
}

impl From<i32> for I32 {
    fn from(value: i32) -> (r: Self) {
        let r = Self::new(value);
        proof {
            let w = choose|w: I32| w@ == value;
            w.lemma_le_layout();
            r.lemma_le_layout();
            I32::lemma_pod_bytes_injective(w, r);
        }
        r
    }
}

impl vstd::std_specs::convert::FromSpecImpl<i32> for I32 {
    open spec fn obeys_from_spec() -> bool {
        true
    }

    /// The one wrapper that stands for `value`.
    open spec fn from_spec(value: i32) -> I32 {
        choose|w: I32| w@ == value
    }
}

impl From<I32> for i32 {
    fn from(value: I32) -> (r: Self) {
        value.as_i32()
    }
}

impl vstd::std_specs::convert::FromSpecImpl<I32> for i32 {
    open spec fn obeys_from_spec() -> bool {
        true
    }

    open spec fn from_spec(value: I32) -> i32 {
        value@
    }
}

/// A `u32` held as its four little-endian bytes.
#[derive(Clone, Copy)]
pub struct U32 {
    le: [u8; 4],
}

impl View for U32 {
    type V = u32;

    closed spec fn view(&self) -> u32 {
        le_value(self.le@) as u32
    }
}

impl U32 {
    /// Encodes `value` as little-endian bytes.
    pub fn new(value: u32) -> (r: Self)
        ensures
            r@ == value,
            r.pod_bytes() == le_bytes(value as nat, 4),
    {
        let r = U32 { le: le_encode::<4>(value as u64) };
        proof {
            reveal_with_fuel(pow, 5);
            lemma_le_value_of_bytes(value as nat, 4);
        }
        r
    }

    /// Decodes the stored bytes.
    pub fn as_u32(&self) -> (r: u32)
        ensures
            r == self@,
    {
        le_decode(&self.le) as u32
    }

    /// The bytes of any value are the little-endian encoding of what it stands for.
    pub proof fn lemma_le_layout(self)
        ensures
            self.pod_bytes() == le_bytes(self@ as nat, 4),
    {
        reveal_with_fuel(pow, 5);
        lemma_le_value_bound(self.le@);
        lemma_le_bytes_of_value(self.le@);
    }
}

impl Pod for U32 {
    open spec fn pod_size() -> nat {
        4
    }

    closed spec fn pod_bytes(&self) -> Seq<u8> {
        self.le@
    }

    proof fn lemma_pod_bytes_len(v: Self) {
    }

    proof fn lemma_pod_bytes_injective(a: Self, b: Self) {
        if a.le@ == b.le@ {
            assert(a.le =~= b.le);
        }
    }

    fn byte_size() -> (r: Option<usize>) {
        Some(4)
    }

    fn zeroed() -> (r: Self) {
        let r = U32 { le: [0u8; 4] };
        assert(r.le@ =~= Seq::new(4, |i: int| 0u8));
        r
    }

    fn load(src: &[u8], at: usize) -> (r: Self) {
        let le = <[u8; 4] as Pod>::load(src, at);
        proof {
            lemma_concat_bytes_u8(le@);
        }
        U32 { le }
    }

    fn store(&self, dst: &mut [u8], at: usize) {
        proof {
            lemma_concat_bytes_u8(self.le@);
        }
        self.le.store(dst, at);
    }
}

impl From<u32> for U32 {
    fn from(value: u32) -> (r: Self) {
        let r = Self::new(value);
        proof {
            let w = choose|w: U32| w@ == value;
            w.lemma_le_layout();
            r.lemma_le_layout();
            U32::lemma_pod_bytes_injective(w, r);
        }
        r
    }
}

impl vstd::std_specs::convert::FromSpecImpl<u32> for U32 {
    open spec fn obeys_from_spec() -> bool {
        true
    }

    /// The one wrapper that stands for `value`.
    open spec fn from_spec(value: u32) -> U32 {
        choose|w: U32| w@ == value
    }
}

impl From<U32> for u32 {
    fn from(value: U32) -> (r: Self) {
        value.as_u32()
    }
}

impl vstd::std_specs::convert::FromSpecImpl<U32> for u32 {
    open spec fn obeys_from_spec() -> bool {
        true
    }

    open spec fn from_spec(value: U32) -> u32 {
        value@
    }
}

/// An `i64` held as the eight little-endian bytes of its two's complement form.
#[derive(Clone, Copy)]
pub struct I64 {
    le: [u8; 8],
}

impl View for I64 {
    type V = i64;

    closed spec fn view(&self) -> i64 {
        (le_value(self.le@) as u64) as i64
    }
}

impl I64 {
    /// Encodes `value` as little-endian bytes.
    pub fn new(value: i64) -> (r: Self)
        ensures
            r@ == value,
            r.pod_bytes() == le_bytes(value as u64 as nat, 8),
    {
        let r = I64 { le: le_encode::<8>(value as u64 as u64) };
        proof {
            reveal_with_fuel(pow, 9);
            lemma_le_value_of_bytes(value as u64 as nat, 8);
            assert((value as u64) as i64 == value) by (bit_vector);
        }
        r
    }

    /// Decodes the stored bytes.
    pub fn as_i64(&self) -> (r: i64)
        ensures
            r == self@,
    {
        le_decode(&self.le) as u64 as i64
    }

    /// The bytes of any value are the little-endian encoding of what it stands for.
    pub proof fn lemma_le_layout(self)
        ensures
            self.pod_bytes() == le_bytes(self@ as u64 as nat, 8),
    {
        reveal_with_fuel(pow, 9);
        lemma_le_value_bound(self.le@);
        lemma_le_bytes_of_value(self.le@);
        let u = le_value(self.le@) as u64;
        assert((u as i64) as u64 == u) by (bit_vector);
    }
}

impl Pod for I64 {
    open spec fn pod_size() -> nat {
        8
    }

    closed spec fn pod_bytes(&self) -> Seq<u8> {
        self.le@
    }

    proof fn lemma_pod_bytes_len(v: Self) {
    }

    proof fn lemma_pod_bytes_injective(a: Self, b: Self) {
        if a.le@ == b.le@ {
            assert(a.le =~= b.le);
        }
    }

    fn byte_size() -> (r: Option<usize>) {
        Some(8)
    }

    fn zeroed() -> (r: Self) {
        let r = I64 { le: [0u8; 8] };
        assert(r.le@ =~= Seq::new(8, |i: int| 0u8));
        r
    }

    fn load(src: &[u8], at: usize) -> (r: Self) {
        let le = <[u8; 8] as Pod>::load(src, at);
        proof {
            lemma_concat_bytes_u8(le@);
        }
        I64 { le }
    }

    fn store(&self, dst: &mut [u8], at: usize) {
        proof {
            lemma_concat_bytes_u8(self.le@);
        }
        self.le.store(dst, at);
    }
}

impl From<i64> for I64 {
    fn from(value: i64) -> (r: Self) {
        let r = Self::new(value);
        proof {
            let w = choose|w: I64| w@ == value;
            w.lemma_le_layout();
            r.lemma_le_layout();
            I64::lemma_pod_bytes_injective(w, r);
        }
        r
    }
}

impl vstd::std_specs::convert::FromSpecImpl<i64> for I64 {
    open spec fn obeys_from_spec() -> bool {
        true
    }

    /// The one wrapper that stands for `value`.
    open spec fn from_spec(value: i64) -> I64 {
        choose|w: I64| w@ == value
    }
}

impl From<I64> for i64 {
    fn from(value: I64) -> (r: Self) {
        value.as_i64()
    }
}

impl vstd::std_specs::convert::FromSpecImpl<I64> for i64 {
    open spec fn obeys_from_spec() -> bool {
        true
    }

    open spec fn from_spec(value: I64) -> i64 {
        value@
    }
}

/// A `u64` held as its eight little-endian bytes.
#[derive(Clone, Copy)]
pub struct U64 {
    le: [u8; 8],
}

impl View for U64 {
    type V = u64;

    closed spec fn view(&self) -> u64 {
        le_value(self.le@) as u64
    }
}

impl U64 {
    /// Encodes `value` as little-endian bytes.
    pub fn new(value: u64) -> (r: Self)
        ensures
            r@ == value,
            r.pod_bytes() == le_bytes(value as nat, 8),
    {
        let r = U64 { le: le_encode::<8>(value as u64) };
        proof {
            reveal_with_fuel(pow, 9);
            lemma_le_value_of_bytes(value as nat, 8);
        }
        r
    }

    /// Decodes the stored bytes.
    pub fn as_u64(&self) -> (r: u64)
        ensures
            r == self@,
    {
        le_decode(&self.le) as u64
    }

    /// The bytes of any value are the little-endian encoding of what it stands for.
    pub proof fn lemma_le_layout(self)
        ensures
            self.pod_bytes() == le_bytes(self@ as nat, 8),
    {
        reveal_with_fuel(pow, 9);
        lemma_le_value_bound(self.le@);
        lemma_le_bytes_of_value(self.le@);
    }
}

impl Pod for U64 {
    open spec fn pod_size() -> nat {
        8
    }

    closed spec fn pod_bytes(&self) -> Seq<u8> {
        self.le@
    }

    proof fn lemma_pod_bytes_len(v: Self) {
    }

    proof fn lemma_pod_bytes_injective(a: Self, b: Self) {
        if a.le@ == b.le@ {
            assert(a.le =~= b.le);
        }
    }

    fn byte_size() -> (r: Option<usize>) {
        Some(8)
    }

    fn zeroed() -> (r: Self) {
        let r = U64 { le: [0u8; 8] };
        assert(r.le@ =~= Seq::new(8, |i: int| 0u8));
        r
    }

    fn load(src: &[u8], at: usize) -> (r: Self) {
        let le = <[u8; 8] as Pod>::load(src, at);
        proof {
            lemma_concat_bytes_u8(le@);
        }
        U64 { le }
    }

    fn store(&self, dst: &mut [u8], at: usize) {
        proof {
            lemma_concat_bytes_u8(self.le@);
        }
        self.le.store(dst, at);
    }
}

impl From<u64> for U64 {
    fn from(value: u64) -> (r: Self) {
        let r = Self::new(value);
        proof {
            let w = choose|w: U64| w@ == value;
            w.lemma_le_layout();
            r.lemma_le_layout();
            U64::lemma_pod_bytes_injective(w, r);
        }
        r
    }
}

impl vstd::std_specs::convert::FromSpecImpl<u64> for U64 {
    open spec fn obeys_from_spec() -> bool {
        true
    }

    /// The one wrapper that stands for `value`.
    open spec fn from_spec(value: u64) -> U64 {
        choose|w: U64| w@ == value
    }
}

impl From<U64> for u64 {
    fn from(value: U64) -> (r: Self) {
        value.as_u64()
    }
}

impl vstd::std_specs::convert::FromSpecImpl<U64> for u64 {
    open spec fn obeys_from_spec() -> bool {
        true
    }

    open spec fn from_spec(value: U64) -> u64 {
        value@
    }
}

} // verus!
