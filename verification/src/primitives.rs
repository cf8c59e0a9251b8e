//! Fixed-size byte strings and wide integers.
use vstd::prelude::*;

verus! {

/// A 20-byte account address.
#[derive(Clone, Copy, Debug)]
pub struct H160(pub [u8; 20]);

/// A 32-byte hash, also used for storage slots and their raw values.
#[derive(Clone, Copy, Debug)]
pub struct H256(pub [u8; 32]);

/// An unsigned 256-bit integer: four 64-bit limbs, least significant first.
#[derive(Clone, Copy, Debug)]
pub struct U256(pub [u64; 4]);

/// Lexicographic order on byte strings of one length: `a` is smaller at the first position where
/// the two differ.
pub open spec fn bytes_lt(a: Seq<u8>, b: Seq<u8>) -> bool {
    exists|i: int| 0 <= i < a.len() && i < b.len() && differs_below(a, b, i)
}

/// Position `i` is the first where `a` and `b` differ, and `a` holds the smaller byte there.
pub open spec fn differs_below(a: Seq<u8>, b: Seq<u8>, i: int) -> bool {
    &&& a[i] < b[i]
    &&& forall|j: int| 0 <= j < i ==> a[j] == b[j]
}

/// A value that is identified and ordered by a byte string of fixed length.
pub trait ByteKey: Copy {
    /// The bytes that identify the value.
    spec fn key(&self) -> Seq<u8>;

    /// The length of every key of this type.
    spec fn key_len() -> nat;

    proof fn key_identifies(a: Self, b: Self)
        ensures
            a.key().len() == Self::key_len(),
            a.key() == b.key() ==> a == b,
    ;

    /// Whether `self` comes before `other`.
    fn key_lt(&self, other: &Self) -> (r: bool)
        ensures
            r == bytes_lt(self.key(), other.key()),
    ;

    /// Whether `self` and `other` are the same value.
    fn key_eq(&self, other: &Self) -> (r: bool)
        ensures
            r == (*self == *other),
    ;
}

/// Whether the byte string `a` comes before `b`.
fn slice_lt(a: &[u8], b: &[u8]) -> (r: bool)
    requires
        a@.len() == b@.len(),
    ensures
        r == bytes_lt(a@, b@),
{
    let mut i: usize = 0;
    while i < a.len()
        invariant
            i <= a@.len(),
            a@.len() == b@.len(),
            forall|j: int| 0 <= j < i ==> a@[j] == b@[j],
        decreases a@.len() - i,
    {
        if a[i] < b[i] {
            assert(differs_below(a@, b@, i as int));
            return true;
        }
        if b[i] < a[i] {
            assert forall|k: int| 0 <= k < a@.len() implies !differs_below(a@, b@, k) by {
                if k > i {
                    assert(a@[i as int] != b@[i as int]);
                }
            }
            return false;
        }
        i += 1;
    }
    false
}

/// Whether the byte strings `a` and `b` hold the same bytes.
fn slice_eq(a: &[u8], b: &[u8]) -> (r: bool)
    ensures
        r == (a@ == b@),
{
    if a.len() != b.len() {
        return false;
    }
    let mut i: usize = 0;
    while i < a.len()
        invariant
            i <= a@.len(),
            a@.len() == b@.len(),
            forall|j: int| 0 <= j < i ==> a@[j] == b@[j],
        decreases a@.len() - i,
    {
        if a[i] != b[i] {
            return false;
        }
        i += 1;
    }
    assert(a@ =~= b@);
    true
}

impl ByteKey for H160 {
    open spec fn key(&self) -> Seq<u8> {
        self.0@
    }

    open spec fn key_len() -> nat {
        20
    }

    proof fn key_identifies(a: Self, b: Self) {
        if a.key() == b.key() {
            assert forall|i: int| 0 <= i < 20 implies a.0[i] == b.0[i] by {
                assert(a.0@[i] == b.0@[i]);
            }
            assert(a.0 =~= b.0);
        }
    }

    fn key_lt(&self, other: &Self) -> (r: bool) {
        slice_lt(self.0.as_slice(), other.0.as_slice())
    }

    fn key_eq(&self, other: &Self) -> (r: bool) {
        let r = slice_eq(self.0.as_slice(), other.0.as_slice());
        proof {
            Self::key_identifies(*self, *other);
        }
        r
    }
}

impl ByteKey for H256 {
    open spec fn key(&self) -> Seq<u8> {
        self.0@
    }

    open spec fn key_len() -> nat {
        32
    }

    proof fn key_identifies(a: Self, b: Self) {
        if a.key() == b.key() {
            assert forall|i: int| 0 <= i < 32 implies a.0[i] == b.0[i] by {
                assert(a.0@[i] == b.0@[i]);
            }
            assert(a.0 =~= b.0);
        }
    }

    fn key_lt(&self, other: &Self) -> (r: bool) {
        slice_lt(self.0.as_slice(), other.0.as_slice())
    }

    fn key_eq(&self, other: &Self) -> (r: bool) {
        let r = slice_eq(self.0.as_slice(), other.0.as_slice());
        proof {
            Self::key_identifies(*self, *other);
        }
        r
    }
}

impl PartialEq for H160 {
    fn eq(&self, other: &Self) -> (r: bool) {
        self.key_eq(other)
    }
}

impl vstd::std_specs::cmp::PartialEqSpecImpl for H160 {
    open spec fn obeys_eq_spec() -> bool {
        true
    }

    open spec fn eq_spec(&self, other: &Self) -> bool {
        *self == *other
    }
}

impl PartialEq for H256 {
    fn eq(&self, other: &Self) -> (r: bool) {
        self.key_eq(other)
    }
}

impl vstd::std_specs::cmp::PartialEqSpecImpl for H256 {
    open spec fn obeys_eq_spec() -> bool {
        true
    }

    open spec fn eq_spec(&self, other: &Self) -> bool {
        *self == *other
    }
}

impl PartialEq for U256 {
    fn eq(&self, other: &Self) -> (r: bool) {
        let r = self.0[0] == other.0[0] && self.0[1] == other.0[1] && self.0[2] == other.0[2] && self.0[3]
            == other.0[3];
        proof {
            if r {
                assert(self.0 =~= other.0);
            }
        }
        r
    }
}

impl vstd::std_specs::cmp::PartialEqSpecImpl for U256 {
    open spec fn obeys_eq_spec() -> bool {
        true
    }

    open spec fn eq_spec(&self, other: &Self) -> bool {
        *self == *other
    }
}

/// The number that a byte string stands for, most significant byte first.
pub open spec fn be_value(bytes: Seq<u8>) -> nat
    decreases bytes.len(),
{
    if bytes.len() == 0 {
        0
    } else {
        256 * be_value(bytes.drop_last()) + bytes.last() as nat
    }
}

impl H160 {
    /// The address of zeros.
    #[verifier::allow_in_spec]
    pub fn zero() -> H160
        returns
            H160([0u8; 20usize]),
    {
        H160([0u8; 20usize])
    }

    /// The address with the bytes of `bytes`.
    pub fn from_slice(bytes: &[u8]) -> (r: H160)
        requires
            bytes@.len() == 20,
        ensures
            r.0@ == bytes@,
    {
        let mut a: [u8; 20] = [0u8; 20];
        let mut i: usize = 0;
        while i < 20
            invariant
                i <= 20,
                bytes@.len() == 20,
                forall|j: int| 0 <= j < i ==> a@[j] == bytes@[j],
            decreases 20 - i,
        {
            a[i] = bytes[i];
            i += 1;
        }
        assert(a@ =~= bytes@);
        H160(a)
    }
}

/// `H256::from_low_u64_be` of `ethereum_types`: the big-endian form of the number, in 32 bytes.
#[verifier::external_body]
fn low_u64_be_bytes(n: u64) -> (r: [u8; 32])
    ensures
        be_value(r@) == n,
{
    ethereum_types::H256::from_low_u64_be(n).0
}

impl H256 {
    /// The hash of zeros.
    #[verifier::allow_in_spec]
    pub fn zero() -> H256
        returns
            H256([0u8; 32usize]),
    {
        H256([0u8; 32usize])
    }

    /// The hash with the bytes of `bytes`.
    pub fn from_slice(bytes: &[u8]) -> (r: H256)
        requires
            bytes@.len() == 32,
        ensures
            r.0@ == bytes@,
    {
        let mut a: [u8; 32] = [0u8; 32];
        let mut i: usize = 0;
        while i < 32
            invariant
                i <= 32,
                bytes@.len() == 32,
                forall|j: int| 0 <= j < i ==> a@[j] == bytes@[j],
            decreases 32 - i,
        {
            a[i] = bytes[i];
            i += 1;
        }
        assert(a@ =~= bytes@);
        H256(a)
    }

    /// The hash that stands for the number `n`, most significant byte first.
    pub fn from_low_u64_be(n: u64) -> (r: H256)
        ensures
            be_value(r.0@) == n,
    {
        H256(low_u64_be_bytes(n))
    }
}

/// `U256::from_big_endian` of `ethereum_types`: the number that at most 32 bytes stand for, most
/// significant byte first.
#[verifier::external_body]
fn big_endian_limbs(bytes: &[u8]) -> (r: [u64; 4])
    requires
        bytes@.len() <= 32,
    ensures
        U256(r).value() == be_value(bytes@),
{
    ethereum_types::U256::from_big_endian(bytes).0
}

impl U256 {
    /// The number.
    pub open spec fn value(&self) -> nat {
        self.0@[0] as nat + self.0@[1] as nat * 0x1_0000_0000_0000_0000 + self.0@[2] as nat
            * 0x1_0000_0000_0000_0000_0000_0000_0000_0000 + self.0@[3] as nat
            * 0x1_0000_0000_0000_0000_0000_0000_0000_0000_0000_0000_0000_0000
    }

    /// The number 0.
    #[verifier::allow_in_spec]
    pub fn zero() -> U256
        returns
            U256([0u64; 4usize]),
    {
        U256([0u64; 4usize])
    }

    /// The number `n`.
    pub fn from_u64(n: u64) -> (r: U256)
        ensures
            r.value() == n,
    {
        U256([n, 0, 0, 0])
    }

    /// The number that at most 32 bytes stand for, most significant byte first.
    pub fn from_big_endian(bytes: &[u8]) -> (r: U256)
        requires
            bytes@.len() <= 32,
        ensures
            r.value() == be_value(bytes@),
    {
        U256(big_endian_limbs(bytes))
    }

    /// Whether the number is 0.
    pub fn is_zero(&self) -> (r: bool)
        ensures
            r == (self.value() == 0),
    {
        self.0[0] == 0 && self.0[1] == 0 && self.0[2] == 0 && self.0[3] == 0
    }

    /// Whether the number fits in 64 bits.
    pub fn fits_u64(&self) -> (r: bool)
        ensures
            r == (self.value() <= u64::MAX),
    {
        self.0[1] == 0 && self.0[2] == 0 && self.0[3] == 0
    }

    /// Whether the number fits in 128 bits.
    pub fn fits_u128(&self) -> (r: bool)
        ensures
            r == (self.value() <= u128::MAX),
    {
        self.0[2] == 0 && self.0[3] == 0
    }

    /// The number modulo 2^64.
    pub fn low_u64(&self) -> (r: u64)
        ensures
            r as nat == self.value() % 0x1_0000_0000_0000_0000,
    {
        self.0[0]
    }

    /// The number, which fits in 64 bits.
    pub fn as_u64(&self) -> (r: u64)
        requires
            self.value() <= u64::MAX,
        ensures
            r == self.value(),
    {
        self.0[0]
    }

    /// The number, which fits in 128 bits.
    pub fn as_u128(&self) -> (r: u128)
        requires
            self.value() <= u128::MAX,
        ensures
            r == self.value(),
    {
        self.0[0] as u128 + self.0[1] as u128 * 0x1_0000_0000_0000_0000
    }
}

} // verus!
