use fee_miner::call::{call_hash, custom_encode_calls, Call};
use fee_miner::field::FieldElement;
use fee_miner::transaction::{
    mainnet_chain_id, testnet_chain_id, transaction_hash, PREFIX_INVOKE,
};

type Felt = starknet::core::types::FieldElement;

fn outside(f: &FieldElement) -> Felt {
    Felt::from_bytes_be(&f.to_bytes_be()).unwrap()
}

fn n(v: u64) -> FieldElement {
    FieldElement::from_u64(v)
}

#[test]
fn custom_encode_calls_of_no_call_is_the_count() {
    assert_eq!(custom_encode_calls(&[]), vec![n(0)]);
}

#[test]
fn custom_encode_calls_lays_out_each_call() {
    let calls = vec![
        Call { to: n(100), selector: n(200), calldata: vec![n(1), n(3), n(5)] },
        Call { to: n(101), selector: n(201), calldata: vec![] },
        Call { to: n(102), selector: n(202), calldata: vec![n(9)] },
    ];
    let expected = vec![
        n(3),
        n(100),
        n(200),
        n(3),
        n(1),
        n(3),
        n(5),
        n(101),
        n(201),
        n(0),
        n(102),
        n(202),
        n(1),
        n(9),
    ];
    assert_eq!(custom_encode_calls(&calls), expected);
}

#[test]
fn call_hash_is_the_digest_of_the_encoding() {
    let calls = vec![Call { to: n(100), selector: n(200), calldata: vec![n(1), n(3)] }];
    let felts: Vec<Felt> = [1u64, 100, 200, 2, 1, 3].iter().map(|v| Felt::from(*v)).collect();
    assert_eq!(
        outside(&call_hash(&calls)),
        starknet::core::crypto::compute_hash_on_elements(&felts)
    );
}

#[test]
fn the_invoke_prefix_is_the_one_the_ledger_library_hashes() {
    let theirs = Felt::from_mont([
        18443034532770911073,
        18446744073709551615,
        18446744073709551615,
        513398556346534256,
    ]);
    assert_eq!(Felt::from(PREFIX_INVOKE), theirs);
    assert_eq!(
        theirs,
        starknet::core::utils::cairo_short_string_to_felt("invoke").unwrap()
    );
}

#[test]
fn the_chain_ids_are_those_of_the_ledger_library() {
    assert_eq!(outside(&testnet_chain_id()), starknet::core::chain_id::TESTNET);
    assert_eq!(outside(&mainnet_chain_id()), starknet::core::chain_id::MAINNET);
}

#[test]
fn transaction_hash_hashes_the_fields_in_order() {
    let sender = n(0x1234);
    let calls_digest = n(0x5678);
    let fee = n(6000000000001);
    let nonce = n(7);
    let chain = testnet_chain_id();
    let expected = starknet::core::crypto::compute_hash_on_elements(&[
        Felt::from(PREFIX_INVOKE),
        Felt::ONE,
        Felt::from(0x1234u64),
        Felt::ZERO,
        Felt::from(0x5678u64),
        Felt::from(6000000000001u64),
        starknet::core::chain_id::TESTNET,
        Felt::from(7u64),
    ]);
    assert_eq!(outside(&transaction_hash(&sender, &calls_digest, &fee, &chain, &nonce)), expected);
}
