//! The order-dependent chained hash over field elements.

use vstd::prelude::*;
use crate::field::{prime, values, FieldElement};
use crate::radix::be_value;

verus! {

/// The Pedersen hash of two integers below the field modulus, as the Stark
/// curve defines it.
pub uninterp spec fn pedersen(x: nat, y: nat) -> nat;

/// Calls `starknet::core::crypto::pedersen_hash` on two big-endian numerals.
///
/// Taken on trust: the outside field type reads and writes its values as
/// big-endian numerals of 32 bytes, so the bytes that come back are the
/// numeral of the Pedersen hash of the two integers, and that numeral is
/// below the field modulus, as every value of the outside type is. The two
/// numerals that go in must be below the modulus: the outside type takes no
/// others. The outside function gives up where the curve points that it adds
/// sum to the point at infinity; no pair of inputs with that sum is known,
/// and finding one is as hard as finding a relation between the generators
/// of the hash.
#[verifier::external_body]
fn pedersen_bytes(x: &[u8; 32], y: &[u8; 32]) -> (r: [u8; 32])
    requires
        be_value(x@) < prime(),
        be_value(y@) < prime(),
    ensures
        be_value(r@) == pedersen(be_value(x@), be_value(y@)),
        be_value(r@) < prime(),
{
    let a = starknet::core::types::FieldElement::from_bytes_be(x).unwrap();
    let b = starknet::core::types::FieldElement::from_bytes_be(y).unwrap();
    starknet::core::crypto::pedersen_hash(&a, &b).to_bytes_be()
}

/// The Pedersen hash of two field elements.
pub fn pedersen_hash(x: &FieldElement, y: &FieldElement) -> (r: FieldElement)
    ensures
        r@ == pedersen(x@, y@),
{
    let digest = pedersen_bytes(&x.to_bytes_be(), &y.to_bytes_be());
    FieldElement::from_canonical_bytes(digest)
}

/// The running state of the chain after the first `n` elements: it starts at
/// zero, and each element is hashed into the state that precedes it.
pub open spec fn chain_state(elements: Seq<nat>, n: nat) -> nat
    decreases n,
{
    if n == 0 {
        0
    } else {
        pedersen(chain_state(elements, (n - 1) as nat), elements[n - 1])
    }
}

/// The digest of an ordered sequence: the chain over all elements, closed by
/// hashing in the number of elements.
pub open spec fn hash_of(elements: Seq<nat>) -> nat {
    pedersen(chain_state(elements, elements.len()), elements.len())
}

/// The chain state depends only on the elements it has absorbed.
pub proof fn lemma_chain_state_agree(a: Seq<nat>, b: Seq<nat>, n: nat)
    requires
        forall|k: int| 0 <= k < n ==> a[k] == b[k],
    ensures
        chain_state(a, n) == chain_state(b, n),
    decreases n,
{
    if n > 0 {
        lemma_chain_state_agree(a, b, (n - 1) as nat);
    }
}

/// Hashing is deterministic: two sequences with the same elements in the
/// same order have the same digest.
pub proof fn lemma_hash_deterministic(a: Seq<nat>, b: Seq<nat>)
    requires
        a.len() == b.len(),
        forall|k: int| 0 <= k < a.len() ==> a[k] == b[k],
    ensures
        hash_of(a) == hash_of(b),
{
    lemma_chain_state_agree(a, b, a.len());
}

/// Hashes an ordered sequence of field elements into one digest.
pub fn hash(elements: &[FieldElement]) -> (digest: FieldElement)
    ensures
        digest@ == hash_of(values(elements@)),
{
    let ghost vals = values(elements@);
    let mut state = FieldElement::zero();
    let mut i: usize = 0;
    while i < elements.len()
        invariant
            i <= elements.len(),
            vals == values(elements@),
            state@ == chain_state(vals, i as nat),
        decreases elements.len() - i,
    {
        state = pedersen_hash(&state, &elements[i]);
        i += 1;
    }
    let count = FieldElement::from_u64(elements.len() as u64);
    pedersen_hash(&state, &count)
}

} // verus!
