//! Fixed-width values of the Ethereum world: hashes, addresses and 256-bit integers.

use vstd::prelude::*;

verus! {

/// A 32-byte hash. Both Substrate and Ethereum block hashes are of this type.
#[derive(Clone, Copy, Debug, Eq)]
pub struct H256(pub [u8; 32]);

/// A 20-byte Ethereum address.
#[derive(Clone, Copy, Debug, Eq)]
pub struct H160(pub [u8; 20]);

impl View for H256 {
    type V = Seq<u8>;

    open spec fn view(&self) -> Seq<u8> {
        self.0@
    }
}

impl View for H160 {
    type V = Seq<u8>;

    open spec fn view(&self) -> Seq<u8> {
        self.0@
    }
}

/// Whether two slices hold the same bytes.
pub fn same_bytes(a: &[u8], b: &[u8]) -> (same: bool)
    ensures
        same == (a@ == b@),
{
    if a.len() != b.len() {
        return false;
    }
    let mut i: usize = 0;
    while i < a.len()
        invariant
            i <= a.len(),
            a.len() == b.len(),
            forall|j: int| 0 <= j < i ==> a@[j] == b@[j],
        decreases a.len() - i,
    {
        if a[i] != b[i] {
            assert(a@[i as int] != b@[i as int]);
            return false;
        }
        i += 1;
    }
    assert(a@ =~= b@);
    true
}

impl PartialEq for H256 {
    fn eq(&self, other: &Self) -> (r: bool) {
        let same = same_bytes(self.0.as_slice(), other.0.as_slice());
        proof {
            if self.0@ == other.0@ {
                assert(self.0 =~= other.0);
            }
        }
        same
    }
}

impl vstd::std_specs::cmp::PartialEqSpecImpl for H256 {
    open spec fn obeys_eq_spec() -> bool {
        true
    }

    open spec fn eq_spec(&self, other: &Self) -> bool {
        *self == *other
    }
}

impl PartialEq for H160 {
    fn eq(&self, other: &Self) -> (r: bool) {
        let same = same_bytes(self.0.as_slice(), other.0.as_slice());
        proof {
            if self.0@ == other.0@ {
                assert(self.0 =~= other.0);
            }
        }
        same
    }
}

impl vstd::std_specs::cmp::PartialEqSpecImpl for H160 {
    open spec fn obeys_eq_spec() -> bool {
        true
    }

    open spec fn eq_spec(&self, other: &Self) -> bool {
        *self == *other
    }
}

/// Two hashes with the same bytes are the same hash.
pub broadcast proof fn h256_bytes_determine(a: H256, b: H256)
    requires
        #[trigger] a@ == #[trigger] b@,
    ensures
        a == b,
{
    assert(a.0 =~= b.0);
}

impl H256 {
    /// A hash from exactly 32 bytes.
    pub fn from_slice(bytes: &[u8]) -> (hash: H256)
        requires
            bytes@.len() == 32,
        ensures
            hash@ == bytes@,
    {
        let mut out: [u8; 32] = [0u8; 32];
        let mut i: usize = 0;
        while i < 32
            invariant
                i <= 32,
                bytes@.len() == 32,
                forall|j: int| 0 <= j < i ==> out@[j] == bytes@[j],
            decreases 32 - i,
        {
            out[i] = bytes[i];
            i += 1;
        }
        assert(out@ =~= bytes@);
        H256(out)
    }

    /// The bytes of the hash.
    pub fn to_vec(&self) -> (bytes: Vec<u8>)
        ensures
            bytes@ == self@,
    {
        vstd::slice::slice_to_vec(self.0.as_slice())
    }
}

impl H160 {
    /// An address from exactly 20 bytes.
    pub fn from_slice(bytes: &[u8]) -> (address: H160)
        requires
            bytes@.len() == 20,
        ensures
            address@ == bytes@,
    {
        let mut out: [u8; 20] = [0u8; 20];
        let mut i: usize = 0;
        while i < 20
            invariant
                i <= 20,
                bytes@.len() == 20,
                forall|j: int| 0 <= j < i ==> out@[j] == bytes@[j],
            decreases 20 - i,
        {
            out[i] = bytes[i];
            i += 1;
        }
        assert(out@ =~= bytes@);
        H160(out)
    }

    /// The bytes of the address.
    pub fn to_vec(&self) -> (bytes: Vec<u8>)
        ensures
            bytes@ == self@,
    {
        vstd::slice::slice_to_vec(self.0.as_slice())
    }
}

/// Two to the power of 128: the weight of the high half of a `U256`.
pub open spec fn high_weight() -> nat {
    0x1_0000_0000_0000_0000_0000_0000_0000_0000nat
}

/// An unsigned 256-bit integer, as its two 128-bit halves.
#[derive(Clone, Copy, Debug, PartialEq, Eq, Structural)]
pub struct U256 {
    /// The upper 128 bits.
    pub high: u128,
    /// The lower 128 bits.
    pub low: u128,
}

impl View for U256 {
    type V = nat;

    open spec fn view(&self) -> nat {
        self.high as nat * high_weight() + self.low as nat
    }
}

impl U256 {
    /// The integer with the given value, if it fits into 128 bits.
    pub open spec fn of(value: nat) -> U256
        recommends
            value < high_weight(),
    {
        U256 { high: 0, low: value as u128 }
    }

    /// The integer zero.
    pub fn zero() -> (r: U256)
        ensures
            r@ == 0,
            r == U256::of(0),
    {
        U256 { high: 0, low: 0 }
    }

    /// The integer with the value of a `u64`.
    pub fn from_u64(value: u64) -> (r: U256)
        ensures
            r@ == value,
            r == U256::of(value as nat),
    {
        U256 { high: 0, low: value as u128 }
    }

    /// The integer with the value of a `usize`.
    pub fn from_usize(value: usize) -> (r: U256)
        ensures
            r@ == value,
            r == U256::of(value as nat),
    {
        U256 { high: 0, low: value as u128 }
    }

    /// Whether this integer is greater than the other one.
    pub fn exceeds(&self, other: &U256) -> (r: bool)
        ensures
            r == (self@ > other@),
    {
        self.high > other.high || (self.high == other.high && self.low > other.low)
    }

    /// The value as a `u64`, if it fits.
    pub fn to_u64(&self) -> (r: Option<u64>)
        ensures
            r == (if self@ <= u64::MAX {
                Some(self@ as u64)
            } else {
                None
            }),
    {
        if self.high == 0 && self.low <= u64::MAX as u128 {
            Some(self.low as u64)
        } else {
            None
        }
    }

    /// The value as a `u32`, if it fits.
    pub fn to_u32(&self) -> (r: Option<u32>)
        ensures
            r == (if self@ <= u32::MAX {
                Some(self@ as u32)
            } else {
                None
            }),
    {
        if self.high == 0 && self.low <= u32::MAX as u128 {
            Some(self.low as u32)
        } else {
            None
        }
    }

    /// The value as a `usize`, if it fits.
    pub fn to_usize(&self) -> (r: Option<usize>)
        ensures
            r == (if self@ <= usize::MAX {
                Some(self@ as usize)
            } else {
                None
            }),
    {
        if self.high == 0 && self.low <= usize::MAX as u128 {
            Some(self.low as usize)
        } else {
            None
        }
    }
}

/// Two integers with the same value are the same integer.
pub proof fn u256_value_determines(a: U256, b: U256)
    requires
        a@ == b@,
    ensures
        a == b,
{
}

/// The value of an integer is that of its halves, the upper one with the weight of 128 bits.
pub proof fn an_integer_has_the_value_of_its_halves(a: U256)
    ensures
        a@ == a.high * 0x1_0000_0000_0000_0000_0000_0000_0000_0000 + a.low,
{
}

/// One integer is greater than another exactly where its upper half is, or where it is the same and
/// the lower half is greater.
pub proof fn integers_are_compared_by_their_halves(a: U256, b: U256, greater: bool)
    requires
        call_ensures(U256::exceeds, (&a, &b), greater),
    ensures
        greater <==> a.high > b.high || (a.high == b.high && a.low > b.low),
{
}

/// An integer that is made from a smaller one has its value, and is converted back to it; one is
/// converted exactly where it is not too great.
pub proof fn integers_are_converted_where_they_fit(
    small: u64,
    index: usize,
    from_small: U256,
    from_index: U256,
    zero: U256,
    a: U256,
    as_u64: Option<u64>,
    as_u32: Option<u32>,
    as_usize: Option<usize>,
)
    requires
        call_ensures(U256::from_u64, (small,), from_small),
        call_ensures(U256::from_usize, (index,), from_index),
        call_ensures(U256::zero, (), zero),
        call_ensures(U256::to_u64, (&a,), as_u64),
        call_ensures(U256::to_u32, (&a,), as_u32),
        call_ensures(U256::to_usize, (&a,), as_usize),
    ensures
        from_small.high == 0 && from_small.low == small,
        from_index.high == 0 && from_index.low == index,
        zero.high == 0 && zero.low == 0,
        as_u64 is Some <==> a.high == 0 && a.low <= 0xffff_ffff_ffff_ffff,
        as_u64 matches Some(value) ==> value == a.low,
        as_u32 is Some <==> a.high == 0 && a.low <= 0xffff_ffff,
        as_u32 matches Some(value) ==> value == a.low,
        as_usize is Some <==> a.high == 0 && a.low <= usize::MAX,
        as_usize matches Some(value) ==> value == a.low,
{
}

/// A hash or an address that is made from bytes has these bytes, and hands them back.
pub proof fn bytes_are_handed_back(
    bytes: &[u8],
    hash: H256,
    hash_bytes: Vec<u8>,
    more: &[u8],
    address: H160,
    address_bytes: Vec<u8>,
)
    requires
        bytes@.len() == 32,
        more@.len() == 20,
        call_ensures(H256::from_slice, (bytes,), hash),
        call_ensures(H256::to_vec, (&hash,), hash_bytes),
        call_ensures(H160::from_slice, (more,), address),
        call_ensures(H160::to_vec, (&address,), address_bytes),
    ensures
        hash_bytes@ == bytes@,
        address_bytes@ == more@,
        forall|i: int| 0 <= i < 32 ==> #[trigger] hash.0@[i] == bytes@[i],
        forall|i: int| 0 <= i < 20 ==> #[trigger] address.0@[i] == more@[i],
{
}

} // verus!
