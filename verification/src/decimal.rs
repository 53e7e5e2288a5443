//! Decimal notation of field elements: reading a numeral.

use vstd::prelude::*;
use vstd::string::StringSliceAdditionalSpecFns;
use crate::field::{prime, FieldElement};
use crate::hex::ParseError;
use crate::radix::{
    be_value, lemma_be_prefix_bound, lemma_be_prefix_zero, lemma_times_ten, pow256,
};

verus! {

/// `2^256`: what a numeral must stay below while it is read.
pub open spec fn word_limit() -> nat {
    0x1_0000_0000_0000_0000_0000_0000_0000_0000_0000_0000_0000_0000_0000_0000_0000_0000nat
}

/// Whether the ASCII code `b` is one of `0-9`.
pub open spec fn is_dec_digit(b: u8) -> bool {
    0x30 <= b <= 0x39
}

/// What reading the first `n` codes of `text` as a decimal numeral gives,
/// from the left: the first code that is no digit, or the first digit at
/// which the value reaches `2^256`, ends the reading with its error.
pub open spec fn dec_prefix(text: Seq<u8>, n: nat) -> Result<nat, ParseError>
    decreases n,
{
    if n == 0 {
        Ok(0)
    } else {
        match dec_prefix(text, (n - 1) as nat) {
            Err(e) => Err(e),
            Ok(v) => if !is_dec_digit(text[n - 1]) {
                Err(ParseError::InvalidCharacter)
            } else if 10 * v + (text[n - 1] - 0x30) >= word_limit() {
                Err(ParseError::OutOfRange)
            } else {
                Ok((10 * v + (text[n - 1] - 0x30)) as nat)
            },
        }
    }
}

/// What reading `text` as a field element in decimal gives: the value of
/// the numeral, which must be below the modulus. The empty text reads as
/// zero.
pub open spec fn parse_dec(text: Seq<u8>) -> Result<nat, ParseError> {
    match dec_prefix(text, text.len()) {
        Err(e) => Err(e),
        Ok(v) => if v >= prime() {
            Err(ParseError::OutOfRange)
        } else {
            Ok(v)
        },
    }
}

/// An error ends the reading: every longer prefix has the same error.
pub proof fn lemma_dec_error_sticks(text: Seq<u8>, k: nat, n: nat)
    requires
        dec_prefix(text, k) is Err,
        k <= n,
    ensures
        dec_prefix(text, n) == dec_prefix(text, k),
    decreases n,
{
    if n > k {
        lemma_dec_error_sticks(text, k, (n - 1) as nat);
    }
}

/// `256^32` is `2^256`.
proof fn lemma_word_limit()
    ensures
        pow256(32) == word_limit(),
{
    reveal_with_fuel(pow256, 33);
}

/// Ten times a 32-byte numeral plus a digit; `None` when that reaches
/// `2^256`.
fn times_ten_plus(acc: &[u8; 32], digit: u8) -> (r: Option<[u8; 32]>)
    requires
        digit <= 9,
    ensures
        r is Some <==> 10 * be_value(acc@) + digit < word_limit(),
        r matches Some(out) ==> be_value(out@) == 10 * be_value(acc@) + digit,
{
    let mut out = [0u8; 32];
    let mut carry: u8 = digit;
    let ghost mut carries: Seq<int> = Seq::new(33, |j: int| 0int).update(32, digit as int);
    let mut i: usize = 32;
    while i > 0
        invariant
            i <= 32,
            carry <= 9,
            carries.len() == 33,
            carries[32] == digit,
            carries[i as int] == carry,
            forall|j: int|
                i <= j < 32 ==> 10 * acc@[j] + carries[j + 1] == 256 * carries[j] + out@[j],
        decreases i,
    {
        i -= 1;
        let t: u16 = 10 * (acc[i] as u16) + (carry as u16);
        out[i] = (t % 256) as u8;
        carry = (t / 256) as u8;
        proof {
            carries = carries.update(i as int, carry as int);
        }
    }
    proof {
        lemma_times_ten(acc@, out@, carries, 32);
        lemma_be_prefix_bound(out@, 32);
        lemma_word_limit();
        let top = carries[0];
        let w = pow256(32);
        if top > 0 {
            assert(top * w >= w) by (nonlinear_arith)
                requires
                    top >= 1,
                    w >= 0,
            ;
        } else {
            assert(top * w == 0) by (nonlinear_arith)
                requires
                    top == 0,
            ;
        }
    }
    if carry == 0 {
        Some(out)
    } else {
        None
    }
}

impl FieldElement {
    /// Reads a decimal numeral given as ASCII codes.
    ///
    /// Every code must be a digit, the value must stay below `2^256` while
    /// it is read, and it must end below the modulus.
    pub fn from_dec_bytes(text: &[u8]) -> (r: Result<FieldElement, ParseError>)
        ensures
            r matches Ok(f) ==> parse_dec(text@) == Ok::<nat, ParseError>(f@),
            r matches Err(e) ==> parse_dec(text@) == Err::<nat, ParseError>(e),
    {
        let mut acc = [0u8; 32];
        proof {
            lemma_be_prefix_zero(acc@, 32);
        }
        let mut i: usize = 0;
        while i < text.len()
            invariant
                i <= text.len(),
                dec_prefix(text@, i as nat) == Ok::<nat, ParseError>(be_value(acc@)),
            decreases text.len() - i,
        {
            let code = text[i];
            if code < 0x30 || code > 0x39 {
                proof {
                    lemma_dec_error_sticks(text@, (i + 1) as nat, text@.len());
                }
                return Err(ParseError::InvalidCharacter);
            }
            match times_ten_plus(&acc, code - 0x30) {
                Some(next) => {
                    acc = next;
                },
                None => {
                    proof {
                        lemma_dec_error_sticks(text@, (i + 1) as nat, text@.len());
                    }
                    return Err(ParseError::OutOfRange);
                },
            }
            i += 1;
        }
        match FieldElement::from_bytes_be(acc) {
            Some(f) => Ok(f),
            None => Err(ParseError::OutOfRange),
        }
    }

    /// Reads a decimal numeral, as [`FieldElement::from_dec_bytes`] does on
    /// the bytes of the string.
    pub fn from_dec_str(text: &str) -> (r: Result<FieldElement, ParseError>)
        ensures
            r matches Ok(f) ==> parse_dec(text.spec_bytes()) == Ok::<nat, ParseError>(f@),
            r matches Err(e) ==> parse_dec(text.spec_bytes()) == Err::<nat, ParseError>(e),
    {
        Self::from_dec_bytes(text.as_bytes())
    }
}

} // verus!
