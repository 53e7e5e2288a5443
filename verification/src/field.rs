//! Elements of the prime field that carries hashes, fees, nonces and addresses.

use vstd::prelude::*;
use crate::radix::{
    be_prefix, be_value, lemma_be_prefix_agree, lemma_be_prefix_less, lemma_be_prefix_successor,
    lemma_be_prefix_zero,
};

verus! {

/// The field modulus, `2^251 + 17 * 2^192 + 1`.
pub open spec fn prime() -> nat {
    0x800000000000011000000000000000000000000000000000000000000000001nat
}

/// The big-endian bytes of the field modulus.
pub open spec fn prime_seq() -> Seq<u8> {
    Seq::new(
        32,
        |i: int|
            if i == 0 {
                0x08u8
            } else if i == 7 {
                0x11u8
            } else if i == 31 {
                0x01u8
            } else {
                0x00u8
            },
    )
}

/// [`prime_seq`] spells [`prime`].
pub proof fn lemma_prime_seq_value()
    ensures
        be_value(prime_seq()) == prime(),
{
    reveal_with_fuel(be_prefix, 33);
}

/// A 32-byte numeral below the modulus starts with a byte of at most 8.
pub proof fn lemma_leading_byte_small(s: Seq<u8>)
    requires
        s.len() == 32,
        be_value(s) < prime(),
    ensures
        s[0] <= 8,
{
    lemma_prime_seq_value();
    if s[0] > 8 {
        lemma_be_prefix_less(prime_seq(), s, 0, 32);
    }
}

/// Numeric order on 32-byte big-endian numerals.
pub fn bytes_less(a: &[u8; 32], b: &[u8; 32]) -> (r: bool)
    ensures
        r == (be_value(a@) < be_value(b@)),
{
    let mut i: usize = 0;
    while i < 32
        invariant
            i <= 32,
            forall|k: int| 0 <= k < i ==> a@[k] == b@[k],
        decreases 32 - i,
    {
        if a[i] != b[i] {
            proof {
                if a[i as int] < b[i as int] {
                    lemma_be_prefix_less(a@, b@, i as nat, 32);
                } else {
                    lemma_be_prefix_less(b@, a@, i as nat, 32);
                }
            }
            return a[i] < b[i];
        }
        i += 1;
    }
    proof {
        lemma_be_prefix_agree(a@, b@, 32);
    }
    false
}

/// The big-endian bytes of the field modulus.
pub fn prime_bytes() -> (p: [u8; 32])
    ensures
        p@ == prime_seq(),
        be_value(p@) == prime(),
{
    let mut p = [0u8; 32];
    p[0] = 0x08;
    p[7] = 0x11;
    p[31] = 0x01;
    proof {
        assert(p@ =~= prime_seq());
        lemma_prime_seq_value();
    }
    p
}

/// An integer below `2^64` is the Horner sum of its eight base-256 digits,
/// where `q1 .. q7` are its successive quotients by 256.
proof fn lemma_u64_digits(v: u64, q1: int, q2: int, q3: int, q4: int, q5: int, q6: int, q7: int)
    requires
        q1 == v / 256,
        q2 == q1 / 256,
        q3 == q2 / 256,
        q4 == q3 / 256,
        q5 == q4 / 256,
        q6 == q5 / 256,
        q7 == q6 / 256,
    ensures
        v == 256 * (256 * (256 * (256 * (256 * (256 * (256 * (q7 % 256) + q6 % 256) + q5 % 256)
            + q4 % 256) + q3 % 256) + q2 % 256) + q1 % 256) + v % 256,
{
}

/// Writes `v` as eight big-endian bytes at `offset`, leaving the rest alone.
fn put_u64_be(bytes: [u8; 32], offset: usize, v: u64) -> (r: [u8; 32])
    requires
        offset + 8 <= 32,
    ensures
        forall|k: int| 0 <= k < 32 && !(offset <= k < offset + 8) ==> r@[k] == bytes@[k],
        be_prefix(r@, (offset + 8) as nat) == 0x1_0000_0000_0000_0000 * be_prefix(
            bytes@,
            offset as nat,
        ) + v,
{
    let d7 = (v % 256) as u8;
    let q1 = v / 256;
    let d6 = (q1 % 256) as u8;
    let q2 = q1 / 256;
    let d5 = (q2 % 256) as u8;
    let q3 = q2 / 256;
    let d4 = (q3 % 256) as u8;
    let q4 = q3 / 256;
    let d3 = (q4 % 256) as u8;
    let q5 = q4 / 256;
    let d2 = (q5 % 256) as u8;
    let q6 = q5 / 256;
    let d1 = (q6 % 256) as u8;
    let q7 = q6 / 256;
    let d0 = (q7 % 256) as u8;
    let mut r = bytes;
    r[offset] = d0;
    r[offset + 1] = d1;
    r[offset + 2] = d2;
    r[offset + 3] = d3;
    r[offset + 4] = d4;
    r[offset + 5] = d5;
    r[offset + 6] = d6;
    r[offset + 7] = d7;
    proof {
        let o = offset as nat;
        let base = be_prefix(bytes@, o);
        lemma_be_prefix_agree(bytes@, r@, o);
        assert(be_prefix(r@, o + 1) == 256 * base + d0);
        assert(be_prefix(r@, o + 2) == 256 * be_prefix(r@, o + 1) + d1);
        assert(be_prefix(r@, o + 3) == 256 * be_prefix(r@, o + 2) + d2);
        assert(be_prefix(r@, o + 4) == 256 * be_prefix(r@, o + 3) + d3);
        assert(be_prefix(r@, o + 5) == 256 * be_prefix(r@, o + 4) + d4);
        assert(be_prefix(r@, o + 6) == 256 * be_prefix(r@, o + 5) + d5);
        assert(be_prefix(r@, o + 7) == 256 * be_prefix(r@, o + 6) + d6);
        assert(be_prefix(r@, o + 8) == 256 * be_prefix(r@, o + 7) + d7);
        lemma_u64_digits(
            v,
            q1 as int,
            q2 as int,
            q3 as int,
            q4 as int,
            q5 as int,
            q6 as int,
            q7 as int,
        );
    }
    r
}

/// The integers that a sequence of field elements stands for.
pub open spec fn values(s: Seq<FieldElement>) -> Seq<nat> {
    Seq::new(s.len(), |i: int| s[i]@)
}

/// A fixed-width unsigned integer below [`prime`], held as 32 big-endian bytes.
///
/// The view of a field element is the integer it stands for.
#[derive(Clone, Copy, Debug, PartialEq, Eq)]
pub struct FieldElement {
    bytes: [u8; 32],
}

impl View for FieldElement {
    type V = nat;

    closed spec fn view(&self) -> nat {
        be_value(self.bytes@)
    }
}

impl FieldElement {
    #[verifier::type_invariant]
    spec fn in_range(self) -> bool {
        be_value(self.bytes@) < prime()
    }

    /// The zero element.
    pub fn zero() -> (r: Self)
        ensures
            r@ == 0,
    {
        Self::from_u64(0)
    }

    /// The field unit.
    pub fn one() -> (r: Self)
        ensures
            r@ == 1,
    {
        Self::from_u64(1)
    }

    /// The element that stands for `v`.
    pub fn from_u64(v: u64) -> (r: Self)
        ensures
            r@ == v,
    {
        let zeros = [0u8; 32];
        let bytes = put_u64_be(zeros, 24, v);
        proof {
            lemma_be_prefix_zero(zeros@, 24);
        }
        FieldElement { bytes }
    }

    /// The element that stands for `v`.
    pub fn from_u128(v: u128) -> (r: Self)
        ensures
            r@ == v,
    {
        let zeros = [0u8; 32];
        let high = (v / 0x1_0000_0000_0000_0000) as u64;
        let low = (v % 0x1_0000_0000_0000_0000) as u64;
        let upper = put_u64_be(zeros, 16, high);
        let bytes = put_u64_be(upper, 24, low);
        proof {
            lemma_be_prefix_zero(zeros@, 16);
        }
        FieldElement { bytes }
    }

    /// Reads a big-endian numeral; `None` when it is not below the modulus.
    pub fn from_bytes_be(bytes: [u8; 32]) -> (r: Option<Self>)
        ensures
            r is Some <==> be_value(bytes@) < prime(),
            r matches Some(f) ==> f@ == be_value(bytes@),
    {
        let p = prime_bytes();
        if bytes_less(&bytes, &p) {
            Some(FieldElement { bytes })
        } else {
            None
        }
    }

    /// Takes a big-endian numeral that is known to be below the modulus.
    pub(crate) fn from_canonical_bytes(bytes: [u8; 32]) -> (r: Self)
        requires
            be_value(bytes@) < prime(),
        ensures
            r@ == be_value(bytes@),
    {
        FieldElement { bytes }
    }

    /// The element as a big-endian numeral of 32 bytes.
    pub fn to_bytes_be(&self) -> (r: [u8; 32])
        ensures
            be_value(r@) == self@,
            be_value(r@) < prime(),
    {
        proof {
            use_type_invariant(self);
        }
        self.bytes
    }

    /// Whether two elements stand for the same integer.
    pub fn same(&self, other: &Self) -> (r: bool)
        ensures
            r == (self@ == other@),
    {
        !bytes_less(&self.bytes, &other.bytes) && !bytes_less(&other.bytes, &self.bytes)
    }

    /// Whether this element is strictly below `other`, as integers.
    pub fn lt(&self, other: &Self) -> (r: bool)
        ensures
            r == (self@ < other@),
    {
        bytes_less(&self.bytes, &other.bytes)
    }

    /// Whether this element is at most `other`, as integers.
    pub fn le(&self, other: &Self) -> (r: bool)
        ensures
            r == (self@ <= other@),
    {
        !bytes_less(&other.bytes, &self.bytes)
    }

    /// Whether this is the zero element.
    pub fn is_zero(&self) -> (r: bool)
        ensures
            r == (self@ == 0),
    {
        let z = Self::zero();
        self.same(&z)
    }

    /// The successor in the field: one more, and zero after the largest element.
    pub fn increment(&self) -> (r: Self)
        ensures
            r@ == (self@ + 1) % prime(),
    {
        proof {
            use_type_invariant(self);
            lemma_leading_byte_small(self.bytes@);
        }
        let mut j: usize = 31;
        while self.bytes[j] == 255
            invariant
                j <= 31,
                self.bytes@[0] <= 8,
                forall|k: int| j < k < 32 ==> self.bytes@[k] == 255,
            decreases j,
        {
            j -= 1;
        }
        let mut next = self.bytes;
        next[j] = self.bytes[j] + 1;
        let mut k: usize = j + 1;
        while k < 32
            invariant
                j < k <= 32,
                forall|i: int| 0 <= i < j ==> next@[i] == self.bytes@[i],
                next@[j as int] == self.bytes@[j as int] + 1,
                forall|i: int| j < i < k ==> next@[i] == 0,
            decreases 32 - k,
        {
            next[k] = 0;
            k += 1;
        }
        proof {
            lemma_be_prefix_successor(self.bytes@, next@, j as nat, 32);
        }
        let p = prime_bytes();
        if bytes_less(&next, &p) {
            FieldElement { bytes: next }
        } else {
            Self::zero()
        }
    }
}

} // verus!
