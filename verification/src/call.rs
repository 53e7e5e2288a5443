//! Contract calls and their flat encoding into field elements.

use vstd::prelude::*;
use crate::field::{values, FieldElement};
use crate::hasher::{hash, hash_of};

verus! {

/// One call into a contract: the target, the entry point, and the arguments.
#[derive(Debug, PartialEq, Eq)]
pub struct Call {
    /// The address of the contract that is called.
    pub to: FieldElement,
    /// The selector of the entry point.
    pub selector: FieldElement,
    /// The arguments, in order.
    pub calldata: Vec<FieldElement>,
}

/// A copy of a list of field elements.
pub fn copy_elements(elements: &Vec<FieldElement>) -> (r: Vec<FieldElement>)
    ensures
        r@ == elements@,
{
    let mut out: Vec<FieldElement> = Vec::new();
    let mut i: usize = 0;
    while i < elements.len()
        invariant
            i <= elements.len(),
            out@ == elements@.take(i as int),
        decreases elements.len() - i,
    {
        out.push(elements[i]);
        proof {
            assert(out@ =~= elements@.take(i + 1));
        }
        i += 1;
    }
    proof {
        assert(elements@.take(elements.len() as int) =~= elements@);
    }
    out
}

impl Clone for Call {
    fn clone(&self) -> (r: Self)
        ensures
            r.to == self.to,
            r.selector == self.selector,
            r.calldata@ == self.calldata@,
    {
        Call { to: self.to, selector: self.selector, calldata: copy_elements(&self.calldata) }
    }
}

/// The encoding of one call: target, selector, number of arguments, arguments.
pub open spec fn call_encoding(call: Call) -> Seq<nat> {
    seq![call.to@, call.selector@, call.calldata@.len() as nat] + values(call.calldata@)
}

/// The encodings of the first `n` calls, one after the other.
pub open spec fn calls_encoding(calls: Seq<Call>, n: nat) -> Seq<nat>
    decreases n,
{
    if n == 0 {
        Seq::empty()
    } else {
        calls_encoding(calls, (n - 1) as nat) + call_encoding(calls[n - 1])
    }
}

/// The encoding of a list of calls: their number, then each call in turn.
pub open spec fn encoding_of(calls: Seq<Call>) -> Seq<nat> {
    seq![calls.len() as nat] + calls_encoding(calls, calls.len())
}

/// Flattens a list of calls into the field elements that the account
/// contract's entry point takes.
pub fn custom_encode_calls(calls: &[Call]) -> (encoded: Vec<FieldElement>)
    ensures
        values(encoded@) == encoding_of(calls@),
{
    let mut encoded: Vec<FieldElement> = Vec::new();
    encoded.push(FieldElement::from_u64(calls.len() as u64));
    proof {
        assert(values(encoded@) =~= seq![calls@.len() as nat] + calls_encoding(calls@, 0));
    }
    let mut i: usize = 0;
    while i < calls.len()
        invariant
            i <= calls.len(),
            values(encoded@) == seq![calls@.len() as nat] + calls_encoding(calls@, i as nat),
        decreases calls.len() - i,
    {
        let call = &calls[i];
        let ghost head = values(encoded@);
        encoded.push(call.to);
        encoded.push(call.selector);
        encoded.push(FieldElement::from_u64(call.calldata.len() as u64));
        proof {
            assert(values(encoded@) =~= head + seq![
                call.to@,
                call.selector@,
                call.calldata@.len() as nat,
            ]);
        }
        let mut k: usize = 0;
        while k < call.calldata.len()
            invariant
                k <= call.calldata.len(),
                values(encoded@) == head + seq![
                    call.to@,
                    call.selector@,
                    call.calldata@.len() as nat,
                ] + values(call.calldata@.take(k as int)),
            decreases call.calldata.len() - k,
        {
            let ghost before = values(encoded@);
            encoded.push(call.calldata[k]);
            proof {
                assert(values(call.calldata@.take(k + 1)) =~= values(
                    call.calldata@.take(k as int),
                ).push(call.calldata@[k as int]@));
                assert(values(encoded@) =~= before.push(call.calldata@[k as int]@));
            }
            k += 1;
        }
        proof {
            assert(call.calldata@.take(call.calldata@.len() as int) =~= call.calldata@);
            assert(values(encoded@) =~= seq![calls@.len() as nat] + calls_encoding(
                calls@,
                (i + 1) as nat,
            ));
        }
        i += 1;
    }
    encoded
}

/// The hash of a list of calls: the digest of their encoding.
pub fn call_hash(calls: &[Call]) -> (digest: FieldElement)
    ensures
        digest@ == hash_of(encoding_of(calls@)),
{
    let encoded = custom_encode_calls(calls);
    hash(encoded.as_slice())
}

} // verus!
