//! The canonical hash of an invoke transaction, as the remote validator
//! recomputes it.

use vstd::prelude::*;
use crate::field::{values, FieldElement};
use crate::hasher::{hash, hash_of};

verus! {

/// The short string `invoke`, which opens the hashed fields of an invoke
/// transaction.
pub const PREFIX_INVOKE: u64 = 0x696e_766f_6b65;

/// The short string `SN_MAIN`: the chain id of the main network.
pub const CHAIN_ID_MAINNET: u128 = 0x53_4e5f_4d41_494e;

/// The short string `SN_GOERLI`: the chain id of the test network.
pub const CHAIN_ID_TESTNET: u128 = 0x53_4e5f_474f_4552_4c49;

/// The transaction version that is hashed.
pub const TRANSACTION_VERSION: u64 = 1;

/// The fields that are hashed, in the order in which they are hashed:
/// the invoke prefix, the version, the sender, a zero in place of the entry
/// point selector, the hash of the calls, the fee, the chain id, the nonce.
pub open spec fn hashed_fields(
    sender_address: nat,
    call_hash: nat,
    max_fee: nat,
    chain_id: nat,
    nonce: nat,
) -> Seq<nat> {
    seq![
        PREFIX_INVOKE as nat,
        TRANSACTION_VERSION as nat,
        sender_address,
        0,
        call_hash,
        max_fee,
        chain_id,
        nonce,
    ]
}

/// The canonical hash of the transaction with these fields.
pub open spec fn transaction_digest(
    sender_address: nat,
    call_hash: nat,
    max_fee: nat,
    chain_id: nat,
    nonce: nat,
) -> nat {
    hash_of(hashed_fields(sender_address, call_hash, max_fee, chain_id, nonce))
}

/// The chain id of the test network.
pub fn testnet_chain_id() -> (r: FieldElement)
    ensures
        r@ == CHAIN_ID_TESTNET,
{
    FieldElement::from_u128(CHAIN_ID_TESTNET)
}

/// The chain id of the main network.
pub fn mainnet_chain_id() -> (r: FieldElement)
    ensures
        r@ == CHAIN_ID_MAINNET,
{
    FieldElement::from_u128(CHAIN_ID_MAINNET)
}

/// Computes the canonical hash of the transaction with these fields.
pub fn transaction_hash(
    sender_address: &FieldElement,
    call_hash: &FieldElement,
    max_fee: &FieldElement,
    chain_id: &FieldElement,
    nonce: &FieldElement,
) -> (digest: FieldElement)
    ensures
        digest@ == transaction_digest(sender_address@, call_hash@, max_fee@, chain_id@, nonce@),
{
    let fields = [
        FieldElement::from_u64(PREFIX_INVOKE),
        FieldElement::from_u64(TRANSACTION_VERSION),
        *sender_address,
        FieldElement::zero(),
        *call_hash,
        *max_fee,
        *chain_id,
        *nonce,
    ];
    proof {
        assert(values(fields@) =~= hashed_fields(
            sender_address@,
            call_hash@,
            max_fee@,
            chain_id@,
            nonce@,
        ));
    }
    hash(fields.as_slice())
}

} // verus!
