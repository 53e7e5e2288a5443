//! The acceptance window: the inclusive range a digest must fall in, derived
//! from the prefix that the remote contract holds.

use vstd::prelude::*;
use vstd::string::{StrSliceExecFns, StringSliceAdditionalSpecFns};
use crate::field::{prime, FieldElement};
use crate::hex::{
    all_hex, digit_value, digits_of, hex_codes, hex_text, hex_value, lemma_hex_text_len,
    lemma_hex_text_round_trip, lemma_modulus_width, lemma_strip_marks_of_digits, parse_hex,
    strip_marks, ParseError,
};
use crate::radix::{
    all_nibbles, lemma_nib_prefix_bound, lemma_nib_prefix_padded, lemma_pow16_positive,
    lemma_repeated_digit_extremes, pow16, repeated_digit,
};

verus! {

/// The number of hex digits that a prefix is padded to.
pub const DIGEST_HEX_WIDTH: usize = 62;

/// Why no acceptance window could be derived.
#[derive(Clone, Copy, Debug, PartialEq, Eq, Structural)]
pub enum OracleError {
    /// The remote read failed.
    ReadFailed,
    /// The remote read yielded no value.
    EmptyResponse,
    /// The padded prefix is not a hex numeral of a field element.
    MalformedPrefix(ParseError),
}

/// How many fill digits a prefix of `chars` characters is given.
pub open spec fn pad_len(chars: nat) -> nat {
    if chars < 62 {
        (62 - chars) as nat
    } else {
        0
    }
}

/// `text` followed by the fill digits that bring a prefix of `chars`
/// characters to the full width.
pub open spec fn padded(text: Seq<u8>, chars: nat, fill: u8) -> Seq<u8> {
    text + Seq::new(pad_len(chars), |i: int| fill)
}

/// The bounds `(min, max)` that a prefix stands for: the prefix padded with
/// `0` and with `f`, each read as a field element. `text` holds the bytes of
/// the prefix and `chars` is its length in characters.
pub open spec fn window_of(text: Seq<u8>, chars: nat) -> Result<(nat, nat), ParseError> {
    match parse_hex(padded(text, chars, 0x66)) {
        Err(e) => Err(e),
        Ok(max) => match parse_hex(padded(text, chars, 0x30)) {
            Err(e) => Err(e),
            Ok(min) => Ok((min, max)),
        },
    }
}

/// The bounds `(min, max)` of the window that the prefix value `v` stands
/// for, when it is written as the shortest hex numeral.
pub open spec fn oracle_window(v: nat) -> (nat, nat) {
    let scale = pow16(pad_len(hex_text(v).len()));
    (v * scale, (v * scale + scale - 1) as nat)
}

/// Fill digits are never taken for a `0x` mark: the marks of a padded text
/// are those of the text.
pub proof fn lemma_strip_marks_padded(text: Seq<u8>, pad: Seq<u8>, fill: u8)
    requires
        fill != 0x78,
        forall|i: int| 0 <= i < pad.len() ==> pad[i] == fill,
    ensures
        strip_marks(text + pad) == strip_marks(text) + pad,
    decreases text.len(),
{
    let whole = text + pad;
    if text.len() >= 2 && text[0] == 0x30 && text[1] == 0x78 {
        assert(whole.skip(2) =~= text.skip(2) + pad);
        lemma_strip_marks_padded(text.skip(2), pad, fill);
    } else if text.len() >= 2 {
        assert(whole[0] == text[0] && whole[1] == text[1]);
    } else if text.len() == 1 {
        if pad.len() >= 1 {
            assert(whole[1] == pad[0]);
        }
    } else {
        assert(whole =~= pad);
        if pad.len() >= 2 {
            assert(whole[1] == pad[1]);
        }
    }
}

/// A text of hex digits is worth its value shifted by the padding, plus the
/// value of the padding.
pub proof fn lemma_hex_value_padded(digits: Seq<u8>, k: nat, fill: u8)
    ensures
        hex_value(digits + Seq::new(k, |i: int| fill)) == pow16(k) * hex_value(digits)
            + repeated_digit(digit_value(fill), k),
{
    let whole = digits + Seq::new(k, |i: int| fill);
    lemma_nib_prefix_padded(digits_of(digits), digits_of(whole), digit_value(fill), k);
}

/// Whenever both bounds of a prefix can be read, the lower one is not above
/// the upper one.
pub proof fn lemma_window_ordered(text: Seq<u8>, chars: nat)
    requires
        window_of(text, chars) is Ok,
    ensures
        window_of(text, chars)->Ok_0.0 <= window_of(text, chars)->Ok_0.1,
{
    let k = pad_len(chars);
    let zeros = Seq::new(k, |i: int| 0x30u8);
    let effs = Seq::new(k, |i: int| 0x66u8);
    let digits = strip_marks(text);
    lemma_strip_marks_padded(text, zeros, 0x30);
    lemma_strip_marks_padded(text, effs, 0x66);
    lemma_hex_value_padded(digits, k, 0x30);
    lemma_hex_value_padded(digits, k, 0x66);
    lemma_repeated_digit_extremes(k);
    lemma_pow16_positive(k);
}

/// `16^62` is below the field modulus.
pub proof fn lemma_full_width_fits()
    ensures
        pow16(62) < prime(),
{
    reveal_with_fuel(pow16, 63);
}

/// The window of a prefix of at most 62 hex digits: both padded numerals
/// have the full width of 62 digits, the lower bound is the prefix shifted to
/// that width, the upper bound is the largest numeral that starts with the
/// prefix, and the lower bound is not above the upper one.
pub proof fn lemma_window_of_digits(text: Seq<u8>)
    requires
        all_hex(text),
        text.len() <= 62,
    ensures
        padded(text, text.len(), 0x30).len() == 62,
        padded(text, text.len(), 0x66).len() == 62,
        window_of(text, text.len()) == Ok::<(nat, nat), ParseError>(
            (
                hex_value(text) * pow16((62 - text.len()) as nat),
                (hex_value(text) * pow16((62 - text.len()) as nat) + pow16(
                    (62 - text.len()) as nat,
                ) - 1) as nat,
            ),
        ),
        hex_value(text) * pow16((62 - text.len()) as nat) <= hex_value(text) * pow16(
            (62 - text.len()) as nat,
        ) + pow16((62 - text.len()) as nat) - 1 < pow16(62),
{
    let k = (62 - text.len()) as nat;
    assert(pad_len(text.len()) == k);
    let low = padded(text, text.len(), 0x30);
    let high = padded(text, text.len(), 0x66);
    lemma_hex_value_padded(text, k, 0x30);
    lemma_hex_value_padded(text, k, 0x66);
    lemma_repeated_digit_extremes(k);
    lemma_pow16_positive(k);
    assert(all_hex(low));
    assert(all_hex(high));
    lemma_strip_marks_of_digits(low);
    lemma_strip_marks_of_digits(high);
    assert(all_nibbles(digits_of(high)));
    lemma_nib_prefix_bound(digits_of(high), 62);
    lemma_full_width_fits();
    assert(pow16(k) * hex_value(text) == hex_value(text) * pow16(k)) by (nonlinear_arith);
}

/// The window of a prefix value, written as its shortest hex numeral, can
/// always be read, and its bounds are those of [`oracle_window`].
pub proof fn lemma_oracle_window(v: nat)
    requires
        v < prime(),
    ensures
        window_of(hex_codes(v), hex_text(v).len()) == Ok::<(nat, nat), ParseError>(
            oracle_window(v),
        ),
        oracle_window(v).0 <= oracle_window(v).1,
{
    let codes = hex_codes(v);
    let n = codes.len();
    lemma_hex_text_round_trip(v);
    lemma_modulus_width();
    lemma_hex_text_len(v, 63);
    lemma_pow16_positive(pad_len(n));
    if n <= 62 {
        lemma_window_of_digits(codes);
    } else {
        assert(padded(codes, n, 0x30) =~= codes);
        assert(padded(codes, n, 0x66) =~= codes);
        lemma_strip_marks_of_digits(codes);
        assert(v * pow16(0) == v) by (nonlinear_arith)
            requires
                pow16(0) == 1,
        ;
    }
}

/// The window of a prefix is never the single point zero: it always holds a
/// digest other than zero.
pub proof fn lemma_oracle_window_not_degenerate(v: nat)
    requires
        v < prime(),
    ensures
        oracle_window(v).1 > 0,
{
    let k = pad_len(hex_text(v).len());
    let scale = pow16(k);
    lemma_pow16_positive(k);
    if v == 0 {
        assert(hex_text(0).len() == 1);
        assert(pow16(61) == 16 * pow16(60));
        lemma_pow16_positive(60);
    } else {
        assert(v * scale >= 1) by (nonlinear_arith)
            requires
                v >= 1,
                scale >= 1,
        ;
    }
}

/// What a window of scale `16^k` around the prefix value `v` accepts: the
/// digests that, with their last `k` hex digits dropped, are `v`.
pub proof fn lemma_window_membership(v: nat, k: nat, digest: nat)
    ensures
        (v * pow16(k) <= digest <= v * pow16(k) + pow16(k) - 1) <==> digest / pow16(k) == v,
{
    let scale = pow16(k);
    lemma_pow16_positive(k);
    assert((v * scale <= digest <= v * scale + scale - 1) <==> digest / scale == v)
        by (nonlinear_arith)
        requires
            scale >= 1,
    ;
}

/// The inclusive range `[min, max]` that a digest must fall in.
#[derive(Clone, Copy, Debug, PartialEq, Eq)]
pub struct AcceptanceWindow {
    max: FieldElement,
    min: FieldElement,
}

/// `text` followed by `pad` copies of `fill`.
fn pad_right(text: &[u8], pad: usize, fill: u8) -> (r: Vec<u8>)
    ensures
        r@ == text@ + Seq::new(pad as nat, |i: int| fill),
{
    let mut out: Vec<u8> = Vec::new();
    let mut i: usize = 0;
    while i < text.len()
        invariant
            i <= text.len(),
            out@ == text@.take(i as int),
        decreases text.len() - i,
    {
        out.push(text[i]);
        proof {
            assert(out@ =~= text@.take(i + 1));
        }
        i += 1;
    }
    proof {
        assert(text@.take(text.len() as int) =~= text@);
        assert(out@ =~= text@ + Seq::new(0, |i: int| fill));
    }
    let mut k: usize = 0;
    while k < pad
        invariant
            k <= pad,
            out@ == text@ + Seq::new(k as nat, |i: int| fill),
        decreases pad - k,
    {
        out.push(fill);
        proof {
            assert(out@ =~= text@ + Seq::new((k + 1) as nat, |i: int| fill));
        }
        k += 1;
    }
    out
}

impl AcceptanceWindow {
    #[verifier::type_invariant]
    spec fn ordered(self) -> bool {
        self.min@ <= self.max@
    }

    /// The smallest digest that is accepted.
    pub closed spec fn lower(self) -> nat {
        self.min@
    }

    /// The largest digest that is accepted.
    pub closed spec fn upper(self) -> nat {
        self.max@
    }

    /// The window `[min, max]`, if `min` is not above `max`.
    pub fn new(min: FieldElement, max: FieldElement) -> (r: Option<AcceptanceWindow>)
        ensures
            r is Some <==> min@ <= max@,
            r matches Some(w) ==> w.lower() == min@ && w.upper() == max@,
    {
        if min.le(&max) {
            Some(AcceptanceWindow { max, min })
        } else {
            None
        }
    }

    /// The smallest digest that is accepted.
    pub fn min(&self) -> (r: FieldElement)
        ensures
            r@ == self.lower(),
            self.lower() <= self.upper(),
    {
        proof {
            use_type_invariant(self);
        }
        self.min
    }

    /// The largest digest that is accepted.
    pub fn max(&self) -> (r: FieldElement)
        ensures
            r@ == self.upper(),
            self.lower() <= self.upper(),
    {
        proof {
            use_type_invariant(self);
        }
        self.max
    }

    /// Whether `digest` is accepted: `min <= digest <= max`.
    pub fn contains(&self, digest: &FieldElement) -> (r: bool)
        ensures
            r == (self.lower() <= digest@ <= self.upper()),
    {
        self.min.le(digest) && digest.le(&self.max)
    }
}

/// Derives the acceptance window from the prefix, given as a hex numeral.
///
/// The prefix is padded on the right to 62 characters, with `f` for the
/// upper bound and with `0` for the lower bound; a longer prefix is left as
/// it is. Each padded numeral is then read as a field element.
pub fn derive_window(prefix_hex: &str) -> (r: Result<AcceptanceWindow, OracleError>)
    ensures
        r matches Ok(w) ==> window_of(prefix_hex.spec_bytes(), prefix_hex@.len()) == Ok::<
            (nat, nat),
            ParseError,
        >((w.lower(), w.upper())) && w.lower() <= w.upper(),
        r matches Err(e) ==> e matches OracleError::MalformedPrefix(cause) && window_of(
            prefix_hex.spec_bytes(),
            prefix_hex@.len(),
        ) == Err::<(nat, nat), ParseError>(cause),
{
    let chars = prefix_hex.unicode_len();
    let text = prefix_hex.as_bytes();
    let pad = if chars < DIGEST_HEX_WIDTH {
        DIGEST_HEX_WIDTH - chars
    } else {
        0
    };
    let max_text = pad_right(text, pad, 0x66);
    let min_text = pad_right(text, pad, 0x30);
    let max = match FieldElement::from_hex_bytes(max_text.as_slice()) {
        Ok(f) => f,
        Err(e) => {
            return Err(OracleError::MalformedPrefix(e));
        },
    };
    let min = match FieldElement::from_hex_bytes(min_text.as_slice()) {
        Ok(f) => f,
        Err(e) => {
            return Err(OracleError::MalformedPrefix(e));
        },
    };
    proof {
        lemma_window_ordered(text@, chars as nat);
    }
    Ok(AcceptanceWindow { max, min })
}

/// Derives the acceptance window from what the remote read of the prefix
/// returned: the first element is the prefix.
///
/// An empty response is an error: no window is made up for it.
pub fn window_from_oracle(response: &[FieldElement]) -> (r: Result<
    AcceptanceWindow,
    OracleError,
>)
    ensures
        response@.len() == 0 ==> r == Err::<AcceptanceWindow, OracleError>(
            OracleError::EmptyResponse,
        ),
        response@.len() > 0 ==> (r matches Ok(w) && (w.lower(), w.upper()) == oracle_window(
            response@[0]@,
        ) && w.lower() <= w.upper()),
{
    if response.len() == 0 {
        return Err(OracleError::EmptyResponse);
    }
    let prefix = response[0];
    let text = prefix.to_hex();
    let digits = text.as_str();
    proof {
        broadcast use vstd::string::is_ascii_spec_bytes;

        let v = prefix@;
        lemma_hex_text_round_trip(v);
        assert(vstd::string::is_ascii(digits));
        assert(digits.spec_bytes() =~= hex_codes(v));
        lemma_oracle_window(v);
    }
    derive_window(digits)
}

/// Derives the acceptance window from the outcome of the remote read of the
/// prefix: `None` stands for a read that failed, and what was read is taken
/// as [`window_from_oracle`] takes it.
pub fn window_from_read(read: Option<&[FieldElement]>) -> (r: Result<AcceptanceWindow, OracleError>)
    ensures
        read is None ==> r == Err::<AcceptanceWindow, OracleError>(OracleError::ReadFailed),
        read matches Some(response) ==> {
            &&& response@.len() == 0 ==> r == Err::<AcceptanceWindow, OracleError>(
                OracleError::EmptyResponse,
            )
            &&& response@.len() > 0 ==> (r matches Ok(w) && (w.lower(), w.upper())
                == oracle_window(response@[0]@) && w.lower() <= w.upper())
        },
{
    match read {
        None => Err(OracleError::ReadFailed),
        Some(response) => window_from_oracle(response),
    }
}

} // verus!
