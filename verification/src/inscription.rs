//! The inscription that a run deploys: the contract it is sent to, the call
//! that deploys it, and the query that reads the prefix of the contract.

use vstd::prelude::*;
use crate::call::{copy_elements, Call};
use crate::field::{lemma_prime_seq_value, prime, prime_seq, values, FieldElement};
use crate::radix::{be_prefix, be_value, lemma_be_prefix_less};

verus! {

/// The fee from which the first worker starts.
pub const BASE_FEE: u64 = 6_000_000_000_000;

/// The id of the proof-of-work rule that the inscription is mined under.
pub const BITWORK_ID: u64 = 1;

/// The selector of the entry point with the given name.
pub uninterp spec fn selector_of(name: Seq<char>) -> nat;

/// Calls `starknet::core::utils::get_selector_from_name`.
///
/// Taken on trust: the outside function fails exactly on a name that holds a
/// character beyond ASCII; otherwise the bytes that come back are the
/// big-endian numeral of the selector of that name, which is below the field
/// modulus, as every value of the outside field type is.
#[verifier::external_body]
fn selector_bytes(name: &str) -> (r: Option<[u8; 32]>)
    ensures
        r is Some <==> vstd::string::is_ascii(name),
        r matches Some(bytes) ==> be_value(bytes@) == selector_of(name@) && be_value(bytes@)
            < prime(),
{
    match starknet::core::utils::get_selector_from_name(name) {
        Ok(selector) => Some(selector.to_bytes_be()),
        Err(_) => None,
    }
}

/// The selector of the entry point with the given name; `None` for a name
/// that holds a character beyond ASCII.
pub fn entry_point_selector(name: &str) -> (r: Option<FieldElement>)
    ensures
        r is Some <==> vstd::string::is_ascii(name),
        r matches Some(selector) ==> selector@ == selector_of(name@),
{
    match selector_bytes(name) {
        Some(bytes) => Some(FieldElement::from_canonical_bytes(bytes)),
        None => None,
    }
}

/// A numeral whose first byte is zero is a field element.
fn constant(bytes: [u8; 32]) -> (r: FieldElement)
    requires
        bytes@[0] == 0,
    ensures
        r@ == be_value(bytes@),
{
    proof {
        lemma_prime_seq_value();
        lemma_be_prefix_less(bytes@, prime_seq(), 0, 32);
    }
    FieldElement::from_canonical_bytes(bytes)
}

/// The address of the inscription contract.
pub open spec fn contract_address() -> nat {
    0xaa1a2c83c25cb981a97e05b9a47bbf660b768eeab2f227677fd6e63614ee3nat
}

/// The address of the inscription contract.
pub fn inscription_contract() -> (r: FieldElement)
    ensures
        r@ == contract_address(),
{
    let bytes: [u8; 32] = [
        0x00, 0x0a, 0xa1, 0xa2, 0xc8, 0x3c, 0x25, 0xcb,
        0x98, 0x1a, 0x97, 0xe0, 0x5b, 0x9a, 0x47, 0xbb,
        0xf6, 0x60, 0xb7, 0x68, 0xee, 0xab, 0x2f, 0x22,
        0x76, 0x77, 0xfd, 0x6e, 0x63, 0x61, 0x4e, 0xe3,
    ];
    proof {
        reveal_with_fuel(be_prefix, 33);
        assert(be_value(bytes@) == contract_address());
    }
    constant(bytes)
}

/// The first 31 bytes of the inscription text: `{ "p": "brc-20","op": "deploy",`.
pub open spec fn payload_head_value() -> nat {
    0x7b202270223a20226272632d3230222c226f70223a20226465706c6f79222cnat
}

/// The first 31 bytes of the inscription text: `{ "p": "brc-20","op": "deploy",`.
pub fn payload_head() -> (r: FieldElement)
    ensures
        r@ == payload_head_value(),
{
    let bytes: [u8; 32] = [
        0x00, 0x7b, 0x20, 0x22, 0x70, 0x22, 0x3a, 0x20,
        0x22, 0x62, 0x72, 0x63, 0x2d, 0x32, 0x30, 0x22,
        0x2c, 0x22, 0x6f, 0x70, 0x22, 0x3a, 0x20, 0x22,
        0x64, 0x65, 0x70, 0x6c, 0x6f, 0x79, 0x22, 0x2c,
    ];
    proof {
        reveal_with_fuel(be_prefix, 33);
        assert(be_value(bytes@) == payload_head_value());
    }
    constant(bytes)
}

/// The next 31 bytes of the inscription text: `"tick": "ordi","max": "21000000`.
pub open spec fn payload_body_value() -> nat {
    0x227469636b223a20226f726469222c226d6178223a20223231303030303030nat
}

/// The next 31 bytes of the inscription text: `"tick": "ordi","max": "21000000`.
pub fn payload_body() -> (r: FieldElement)
    ensures
        r@ == payload_body_value(),
{
    let bytes: [u8; 32] = [
        0x00, 0x22, 0x74, 0x69, 0x63, 0x6b, 0x22, 0x3a,
        0x20, 0x22, 0x6f, 0x72, 0x64, 0x69, 0x22, 0x2c,
        0x22, 0x6d, 0x61, 0x78, 0x22, 0x3a, 0x20, 0x22,
        0x32, 0x31, 0x30, 0x30, 0x30, 0x30, 0x30, 0x30,
    ];
    proof {
        reveal_with_fuel(be_prefix, 33);
        assert(be_value(bytes@) == payload_body_value());
    }
    constant(bytes)
}

/// The last 16 bytes of the inscription text: `","lim": "1000"}`.
pub open spec fn payload_tail_value() -> nat {
    0x222c226c696d223a202231303030227dnat
}

/// The last 16 bytes of the inscription text: `","lim": "1000"}`.
pub fn payload_tail() -> (r: FieldElement)
    ensures
        r@ == payload_tail_value(),
{
    let bytes: [u8; 32] = [
        0x00, 0x00, 0x00, 0x00, 0x00, 0x00, 0x00, 0x00,
        0x00, 0x00, 0x00, 0x00, 0x00, 0x00, 0x00, 0x00,
        0x22, 0x2c, 0x22, 0x6c, 0x69, 0x6d, 0x22, 0x3a,
        0x20, 0x22, 0x31, 0x30, 0x30, 0x30, 0x22, 0x7d,
    ];
    proof {
        reveal_with_fuel(be_prefix, 33);
        assert(be_value(bytes@) == payload_tail_value());
    }
    constant(bytes)
}

/// The arguments of the call that deploys the inscription: the id of the
/// proof-of-work rule, the number of pieces of the text, and the pieces.
pub open spec fn inscription_arguments() -> Seq<nat> {
    seq![BITWORK_ID as nat, 3, payload_head_value(), payload_body_value(), payload_tail_value()]
}

/// The call that deploys the inscription.
pub fn inscription_call() -> (call: Call)
    ensures
        call.to@ == contract_address(),
        call.selector@ == selector_of("ins"@),
        values(call.calldata@) == inscription_arguments(),
{
    proof {
        reveal_strlit("ins");
    }
    let selector = match entry_point_selector("ins") {
        Some(selector) => selector,
        // The name is ASCII, so it has a selector.
        None => FieldElement::zero(),
    };
    let mut calldata: Vec<FieldElement> = Vec::new();
    calldata.push(FieldElement::from_u64(BITWORK_ID));
    calldata.push(FieldElement::from_u64(3));
    calldata.push(payload_head());
    calldata.push(payload_body());
    calldata.push(payload_tail());
    proof {
        assert(values(calldata@) =~= inscription_arguments());
    }
    Call { to: inscription_contract(), selector, calldata }
}

/// A read-only call into a contract.
#[derive(Debug, PartialEq, Eq)]
pub struct OracleQuery {
    pub contract_address: FieldElement,
    pub entry_point_selector: FieldElement,
    pub calldata: Vec<FieldElement>,
}

impl Clone for OracleQuery {
    fn clone(&self) -> (r: Self)
        ensures
            r.contract_address == self.contract_address,
            r.entry_point_selector == self.entry_point_selector,
            r.calldata@ == self.calldata@,
    {
        OracleQuery {
            contract_address: self.contract_address,
            entry_point_selector: self.entry_point_selector,
            calldata: copy_elements(&self.calldata),
        }
    }
}

/// The query that reads the prefix which the contract holds for the
/// proof-of-work rule of the inscription.
pub fn prefix_query() -> (query: OracleQuery)
    ensures
        query.contract_address@ == contract_address(),
        query.entry_point_selector@ == selector_of("get_prefix"@),
        values(query.calldata@) == seq![BITWORK_ID as nat],
{
    proof {
        reveal_strlit("get_prefix");
    }
    let selector = match entry_point_selector("get_prefix") {
        Some(selector) => selector,
        // The name is ASCII, so it has a selector.
        None => FieldElement::zero(),
    };
    let mut calldata: Vec<FieldElement> = Vec::new();
    calldata.push(FieldElement::from_u64(BITWORK_ID));
    proof {
        assert(values(calldata@) =~= seq![BITWORK_ID as nat]);
    }
    OracleQuery { contract_address: inscription_contract(), entry_point_selector: selector, calldata }
}

} // verus!
