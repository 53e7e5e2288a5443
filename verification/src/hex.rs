//! Hex notation of field elements: reading a numeral and writing one.

use vstd::prelude::*;
use vstd::string::{StringExecFns, StringSliceAdditionalSpecFns};
use crate::field::{prime, FieldElement};
use crate::radix::{
    all_nibbles, be_value, lemma_nib_prefix_agree, lemma_nib_prefix_leading_zeros,
    lemma_pack_pairs, nib_prefix, nib_value, pow16,
};

verus! {

/// Why a numeral is not a field element.
#[derive(Clone, Copy, Debug, PartialEq, Eq, Structural)]
pub enum ParseError {
    /// A character that is no digit of the notation.
    InvalidCharacter,
    /// A numeral that is too long, or a value that is not below the field
    /// modulus.
    OutOfRange,
}

/// Whether the ASCII code `b` is one of `0-9`, `a-f`, `A-F`.
pub open spec fn is_hex_digit(b: u8) -> bool {
    (0x30 <= b <= 0x39) || (0x61 <= b <= 0x66) || (0x41 <= b <= 0x46)
}

/// The digit value that the ASCII code `b` stands for; zero for other codes.
pub open spec fn digit_value(b: u8) -> u8 {
    if 0x30 <= b <= 0x39 {
        (b - 0x30) as u8
    } else if 0x61 <= b <= 0x66 {
        (b - 0x61 + 10) as u8
    } else if 0x41 <= b <= 0x46 {
        (b - 0x41 + 10) as u8
    } else {
        0
    }
}

/// Every code of `text` is a hex digit.
pub open spec fn all_hex(text: Seq<u8>) -> bool {
    forall|k: int| 0 <= k < text.len() ==> is_hex_digit(#[trigger] text[k])
}

/// The digit values that `text` spells, code by code.
pub open spec fn digits_of(text: Seq<u8>) -> Seq<u8> {
    Seq::new(text.len(), |i: int| digit_value(text[i]))
}

/// The integer that the hex numeral `text` spells, most significant digit first.
pub open spec fn hex_value(text: Seq<u8>) -> nat {
    nib_value(digits_of(text))
}

/// `text` without its leading `0x` marks, however many there are.
pub open spec fn strip_marks(text: Seq<u8>) -> Seq<u8>
    decreases text.len(),
{
    if text.len() >= 2 && text[0] == 0x30 && text[1] == 0x78 {
        strip_marks(text.skip(2))
    } else {
        text
    }
}

/// What reading `text` as a field element gives: after the leading `0x`
/// marks, at most 64 hex digits that spell an integer below the modulus.
pub open spec fn parse_hex(text: Seq<u8>) -> Result<nat, ParseError> {
    let digits = strip_marks(text);
    if digits.len() > 64 {
        Err(ParseError::OutOfRange)
    } else if !all_hex(digits) {
        Err(ParseError::InvalidCharacter)
    } else if hex_value(digits) >= prime() {
        Err(ParseError::OutOfRange)
    } else {
        Ok(hex_value(digits))
    }
}

/// The lower-case hex digit for a digit value.
pub open spec fn hex_char(d: nat) -> char {
    if d == 0 {
        '0'
    } else if d == 1 {
        '1'
    } else if d == 2 {
        '2'
    } else if d == 3 {
        '3'
    } else if d == 4 {
        '4'
    } else if d == 5 {
        '5'
    } else if d == 6 {
        '6'
    } else if d == 7 {
        '7'
    } else if d == 8 {
        '8'
    } else if d == 9 {
        '9'
    } else if d == 10 {
        'a'
    } else if d == 11 {
        'b'
    } else if d == 12 {
        'c'
    } else if d == 13 {
        'd'
    } else if d == 14 {
        'e'
    } else {
        'f'
    }
}

/// The shortest lower-case hex numeral of `v`: no leading zero, and `0` for zero.
pub open spec fn hex_text(v: nat) -> Seq<char>
    decreases v,
{
    if v < 16 {
        seq![hex_char(v)]
    } else {
        hex_text(v / 16).push(hex_char(v % 16))
    }
}

/// The ASCII codes of the shortest lower-case hex numeral of `v`.
pub open spec fn hex_codes(v: nat) -> Seq<u8> {
    Seq::new(hex_text(v).len(), |i: int| hex_text(v)[i] as u8)
}

/// The shortest numeral of `v` is made of hex digits, none of them beyond
/// ASCII, and it spells `v`.
pub proof fn lemma_hex_text_round_trip(v: nat)
    ensures
        hex_text(v).len() >= 1,
        forall|i: int| 0 <= i < hex_text(v).len() ==> '\0' <= #[trigger] hex_text(v)[i] <= '\u{7f}',
        all_hex(hex_codes(v)),
        hex_value(hex_codes(v)) == v,
    decreases v,
{
    let d = digits_of(hex_codes(v));
    if v < 16 {
        assert(nib_prefix(d, 1) == 16 * nib_prefix(d, 0) + d[0]);
    } else {
        let w = v / 16;
        lemma_hex_text_round_trip(w);
        let n = hex_text(w).len();
        assert(hex_text(v) == hex_text(w).push(hex_char(v % 16)));
        assert forall|i: int| 0 <= i < hex_text(v).len() implies '\0' <= #[trigger] hex_text(
            v,
        )[i] <= '\u{7f}' by {
            if i < n {
                assert(hex_text(v)[i] == hex_text(w)[i]);
            }
        }
        assert forall|k: int| 0 <= k < hex_codes(v).len() implies is_hex_digit(
            #[trigger] hex_codes(v)[k],
        ) by {
            if k < n {
                assert(hex_codes(v)[k] == hex_codes(w)[k]);
            }
        }
        assert forall|k: int| 0 <= k < n implies d[k] == digits_of(hex_codes(w))[k] by {
            assert(hex_codes(v)[k] == hex_codes(w)[k]);
        }
        lemma_nib_prefix_agree(d, digits_of(hex_codes(w)), n);
        assert(nib_prefix(d, (n + 1) as nat) == 16 * nib_prefix(d, n) + d[n as int]);
    }
}

/// A value below `16^n` has a shortest numeral of at most `n` digits.
pub proof fn lemma_hex_text_len(v: nat, n: nat)
    requires
        n >= 1,
        v < pow16(n),
    ensures
        hex_text(v).len() <= n,
    decreases n,
{
    if v >= 16 {
        assert(pow16(1) == 16 * pow16(0));
        if n > 1 {
            lemma_hex_text_len(v / 16, (n - 1) as nat);
        }
    }
}

/// Hex digits hold no `0x` mark.
pub proof fn lemma_strip_marks_of_digits(text: Seq<u8>)
    requires
        all_hex(text),
    ensures
        strip_marks(text) == text,
{
    if text.len() >= 2 {
        assert(is_hex_digit(text[1]));
    }
}

/// `16^63` is above the field modulus: an element has at most 63 hex digits.
pub proof fn lemma_modulus_width()
    ensures
        prime() < pow16(63),
{
    reveal_with_fuel(pow16, 64);
}

/// Reading the shortest numeral of a field element gives the element back.
pub proof fn lemma_hex_round_trip(v: nat)
    requires
        v < prime(),
    ensures
        parse_hex(hex_codes(v)) == Ok::<nat, ParseError>(v),
{
    lemma_hex_text_round_trip(v);
    lemma_modulus_width();
    lemma_hex_text_len(v, 63);
    lemma_strip_marks_of_digits(hex_codes(v));
}

/// A numeral whose first digit is not zero is at least one.
proof fn lemma_nib_prefix_positive(d: Seq<u8>, n: nat)
    requires
        n >= 1,
        d[0] != 0,
    ensures
        nib_prefix(d, n) >= 1,
    decreases n,
{
    if n > 1 {
        lemma_nib_prefix_positive(d, (n - 1) as nat);
    }
}

/// A digit string without a leading zero is the shortest numeral of its value.
proof fn lemma_hex_text_of_digits(d: Seq<u8>, n: nat)
    requires
        1 <= n <= d.len(),
        all_nibbles(d),
        n == 1 || d[0] != 0,
    ensures
        hex_text(nib_prefix(d, n)) == Seq::new(n, |i: int| hex_char(d[i] as nat)),
    decreases n,
{
    let shown = Seq::new(n, |i: int| hex_char(d[i] as nat));
    if n == 1 {
        assert(nib_prefix(d, 1) == 16 * nib_prefix(d, 0) + d[0]);
        assert(hex_text(d[0] as nat) =~= shown);
    } else {
        let m = (n - 1) as nat;
        lemma_hex_text_of_digits(d, m);
        lemma_nib_prefix_positive(d, m);
        let x = nib_prefix(d, m);
        let v = nib_prefix(d, n);
        assert(v == 16 * x + d[n - 1]);
        assert(v / 16 == x && v % 16 == d[n - 1]);
        assert(hex_text(v) == hex_text(x).push(hex_char(d[n - 1] as nat)));
        assert(hex_text(v) =~= shown);
    }
}

/// The digit value of one ASCII code, if it is a hex digit.
fn hex_digit(b: u8) -> (r: Option<u8>)
    ensures
        r is Some <==> is_hex_digit(b),
        r matches Some(d) ==> d == digit_value(b) && d < 16,
{
    if 0x30 <= b && b <= 0x39 {
        Some(b - 0x30)
    } else if 0x61 <= b && b <= 0x66 {
        Some(b - 0x61 + 10)
    } else if 0x41 <= b && b <= 0x46 {
        Some(b - 0x41 + 10)
    } else {
        None
    }
}

/// Where `text` starts once its leading `0x` marks are passed over.
fn skip_marks(text: &[u8]) -> (start: usize)
    ensures
        start <= text.len(),
        text@.skip(start as int) == strip_marks(text@),
{
    let mut start: usize = 0;
    proof {
        assert(text@.skip(0) =~= text@);
    }
    while text.len() - start >= 2 && text[start] == 0x30 && text[start + 1] == 0x78
        invariant
            start <= text.len(),
            strip_marks(text@.skip(start as int)) == strip_marks(text@),
        decreases text.len() - start,
    {
        proof {
            assert(text@.skip(start as int).skip(2) =~= text@.skip(start + 2));
        }
        start += 2;
    }
    start
}

/// The one-character string of a digit.
fn digit_str(d: u8) -> (r: &'static str)
    requires
        d < 16,
    ensures
        r@ == seq![hex_char(d as nat)],
{
    proof {
        reveal_strlit("0");
        reveal_strlit("1");
        reveal_strlit("2");
        reveal_strlit("3");
        reveal_strlit("4");
        reveal_strlit("5");
        reveal_strlit("6");
        reveal_strlit("7");
        reveal_strlit("8");
        reveal_strlit("9");
        reveal_strlit("a");
        reveal_strlit("b");
        reveal_strlit("c");
        reveal_strlit("d");
        reveal_strlit("e");
        reveal_strlit("f");
    }
    let r = if d == 0 {
        "0"
    } else if d == 1 {
        "1"
    } else if d == 2 {
        "2"
    } else if d == 3 {
        "3"
    } else if d == 4 {
        "4"
    } else if d == 5 {
        "5"
    } else if d == 6 {
        "6"
    } else if d == 7 {
        "7"
    } else if d == 8 {
        "8"
    } else if d == 9 {
        "9"
    } else if d == 10 {
        "a"
    } else if d == 11 {
        "b"
    } else if d == 12 {
        "c"
    } else if d == 13 {
        "d"
    } else if d == 14 {
        "e"
    } else {
        "f"
    };
    assert(r@ =~= seq![hex_char(d as nat)]);
    r
}

impl FieldElement {
    /// Reads a hex numeral given as ASCII codes.
    ///
    /// Leading `0x` marks are passed over; what follows must be at most 64
    /// hex digits, of either case, that spell an integer below the modulus.
    pub fn from_hex_bytes(text: &[u8]) -> (r: Result<FieldElement, ParseError>)
        ensures
            r matches Ok(f) ==> parse_hex(text@) == Ok::<nat, ParseError>(f@),
            r matches Err(e) ==> parse_hex(text@) == Err::<nat, ParseError>(e),
    {
        let start = skip_marks(text);
        let n = text.len() - start;
        if n > 64 {
            return Err(ParseError::OutOfRange);
        }
        let ghost digits = text@.skip(start as int);
        let mut nibs = [0u8; 64];
        let mut k: usize = 0;
        while k < n
            invariant
                k <= n <= 64,
                start + n == text.len(),
                digits == text@.skip(start as int),
                digits == strip_marks(text@),
                forall|i: int| 0 <= i < 64 - n ==> nibs@[i] == 0,
                forall|i: int| 0 <= i < k ==> is_hex_digit(#[trigger] digits[i]),
                forall|i: int| 0 <= i < k ==> nibs@[64 - n + i] == digit_value(digits[i]),
                forall|i: int| 0 <= i < 64 ==> nibs@[i] < 16,
            decreases n - k,
        {
            match hex_digit(text[start + k]) {
                None => {
                    proof {
                        assert(digits.len() == n);
                        assert(digits[k as int] == text@[start + k]);
                        assert(!is_hex_digit(digits[k as int]));
                        assert(!all_hex(digits));
                    }
                    return Err(ParseError::InvalidCharacter);
                },
                Some(d) => {
                    nibs[64 - n + k] = d;
                },
            }
            k += 1;
        }
        let mut bytes = [0u8; 32];
        let mut i: usize = 0;
        while i < 32
            invariant
                i <= 32,
                forall|j: int| 0 <= j < 64 ==> nibs@[j] < 16,
                forall|j: int| 0 <= j < i ==> bytes@[j] == 16 * nibs@[2 * j] + nibs@[2 * j + 1],
            decreases 32 - i,
        {
            bytes[i] = nibs[2 * i] * 16 + nibs[2 * i + 1];
            i += 1;
        }
        proof {
            lemma_pack_pairs(nibs@, bytes@, 32);
            lemma_nib_prefix_leading_zeros(digits_of(digits), nibs@, (64 - n) as nat, n as nat);
            assert(be_value(bytes@) == hex_value(digits));
            assert(all_hex(digits));
        }
        match FieldElement::from_bytes_be(bytes) {
            Some(f) => Ok(f),
            None => Err(ParseError::OutOfRange),
        }
    }

    /// Reads a hex numeral, as [`FieldElement::from_hex_bytes`] does on the
    /// bytes of the string.
    pub fn from_hex(text: &str) -> (r: Result<FieldElement, ParseError>)
        ensures
            r matches Ok(f) ==> parse_hex(text.spec_bytes()) == Ok::<nat, ParseError>(f@),
            r matches Err(e) ==> parse_hex(text.spec_bytes()) == Err::<nat, ParseError>(e),
    {
        Self::from_hex_bytes(text.as_bytes())
    }

    /// Writes the element as the shortest lower-case hex numeral.
    pub fn to_hex(&self) -> (r: String)
        ensures
            r@ == hex_text(self@),
            self@ < prime(),
    {
        let bytes = self.to_bytes_be();
        let mut nibs = [0u8; 64];
        let mut i: usize = 0;
        while i < 32
            invariant
                i <= 32,
                forall|j: int| 0 <= j < 2 * i ==> nibs@[j] < 16,
                forall|j: int| 0 <= j < i ==> bytes@[j] == 16 * nibs@[2 * j] + nibs@[2 * j + 1],
            decreases 32 - i,
        {
            nibs[2 * i] = bytes[i] / 16;
            nibs[2 * i + 1] = bytes[i] % 16;
            i += 1;
        }
        let mut first: usize = 0;
        while first < 63 && nibs[first] == 0
            invariant
                first <= 63,
                forall|j: int| 0 <= j < first ==> nibs@[j] == 0,
            decreases 63 - first,
        {
            first += 1;
        }
        let ghost shown = nibs@.skip(first as int);
        proof {
            lemma_pack_pairs(nibs@, bytes@, 32);
            lemma_nib_prefix_leading_zeros(shown, nibs@, first as nat, (64 - first) as nat);
            lemma_hex_text_of_digits(shown, shown.len());
        }
        let mut out = String::new();
        let mut k: usize = first;
        while k < 64
            invariant
                first <= k <= 64,
                shown == nibs@.skip(first as int),
                forall|j: int| 0 <= j < 64 ==> nibs@[j] < 16,
                out@ == Seq::new((k - first) as nat, |j: int| hex_char(shown[j] as nat)),
            decreases 64 - k,
        {
            out.append(digit_str(nibs[k]));
            proof {
                assert(out@ =~= Seq::new((k + 1 - first) as nat, |j: int| hex_char(shown[j] as nat)));
            }
            k += 1;
        }
        out
    }
}

} // verus!
