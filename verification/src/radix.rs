//! Big-endian positional numerals over bytes (base 256) and nibbles (base 16).

use vstd::prelude::*;

verus! {

/// Value of the first `n` bytes of `s`, read as a big-endian base-256 numeral.
pub open spec fn be_prefix(s: Seq<u8>, n: nat) -> nat
    decreases n,
{
    if n == 0 {
        0
    } else {
        256 * be_prefix(s, (n - 1) as nat) + s[n - 1] as nat
    }
}

/// Value of the whole byte string `s`, read as a big-endian numeral.
pub open spec fn be_value(s: Seq<u8>) -> nat {
    be_prefix(s, s.len())
}

/// Two byte strings that agree on their first `n` positions have the same
/// `n`-byte prefix value.
pub proof fn lemma_be_prefix_agree(a: Seq<u8>, b: Seq<u8>, n: nat)
    requires
        forall|k: int| 0 <= k < n ==> a[k] == b[k],
    ensures
        be_prefix(a, n) == be_prefix(b, n),
    decreases n,
{
    if n > 0 {
        lemma_be_prefix_agree(a, b, (n - 1) as nat);
    }
}

/// A prefix made of zero bytes has value zero.
pub proof fn lemma_be_prefix_zero(s: Seq<u8>, n: nat)
    requires
        forall|k: int| 0 <= k < n ==> s[k] == 0,
    ensures
        be_prefix(s, n) == 0,
    decreases n,
{
    if n > 0 {
        lemma_be_prefix_zero(s, (n - 1) as nat);
    }
}

/// Big-endian order is lexicographic: the first position where two strings
/// differ decides the order of every prefix that reaches it.
pub proof fn lemma_be_prefix_less(a: Seq<u8>, b: Seq<u8>, i: nat, n: nat)
    requires
        i < n,
        forall|k: int| 0 <= k < i ==> a[k] == b[k],
        a[i as int] < b[i as int],
    ensures
        be_prefix(a, n) < be_prefix(b, n),
    decreases n,
{
    if n == i + 1 {
        lemma_be_prefix_agree(a, b, i);
    } else {
        lemma_be_prefix_less(a, b, i, (n - 1) as nat);
    }
}

/// Adding one to a numeral: the trailing `0xff` bytes roll over to zero and
/// the byte before them grows by one.
pub proof fn lemma_be_prefix_successor(a: Seq<u8>, b: Seq<u8>, j: nat, n: nat)
    requires
        j < n,
        forall|k: int| 0 <= k < j ==> a[k] == b[k],
        b[j as int] == a[j as int] + 1,
        forall|k: int| j < k < n ==> a[k] == 255 && b[k] == 0,
    ensures
        be_prefix(b, n) == be_prefix(a, n) + 1,
    decreases n,
{
    if n == j + 1 {
        lemma_be_prefix_agree(a, b, j);
    } else {
        lemma_be_prefix_successor(a, b, j, (n - 1) as nat);
    }
}

/// `256^n`.
pub open spec fn pow256(n: nat) -> nat
    decreases n,
{
    if n == 0 {
        1
    } else {
        256 * pow256((n - 1) as nat)
    }
}

/// An `n`-byte numeral is below `256^n`.
pub proof fn lemma_be_prefix_bound(s: Seq<u8>, n: nat)
    ensures
        be_prefix(s, n) < pow256(n),
    decreases n,
{
    if n > 0 {
        lemma_be_prefix_bound(s, (n - 1) as nat);
    }
}

/// Ten times a numeral plus a digit, byte by byte: if `carry[j + 1]` goes
/// into position `j` and `carry[j]` comes out of it, for every position
/// below `n`, then the first `n` bytes of the result, with what is carried
/// out at the top, are worth ten times the first `n` bytes of the numeral
/// plus what is carried in below them.
pub proof fn lemma_times_ten(a: Seq<u8>, out: Seq<u8>, carry: Seq<int>, n: nat)
    requires
        forall|j: int| 0 <= j < n ==> 10 * a[j] + carry[j + 1] == 256 * carry[j] + out[j],
    ensures
        be_prefix(out, n) + carry[0] * pow256(n) == 10 * be_prefix(a, n) + carry[n as int],
    decreases n,
{
    if n == 0 {
        assert(carry[0] * pow256(0) == carry[0]) by (nonlinear_arith)
            requires
                pow256(0) == 1,
        ;
    } else {
        let m = (n - 1) as nat;
        lemma_times_ten(a, out, carry, m);
        assert(10 * a[m as int] + carry[m as int + 1] == 256 * carry[m as int] + out[m as int]);
        assert(carry[0] * pow256(n) == 256 * (carry[0] * pow256(m))) by (nonlinear_arith)
            requires
                pow256(n) == 256 * pow256(m),
        ;
    }
}

/// Value of the first `n` digits of `d`, read as a big-endian base-16
/// numeral. Each element of `d` is a digit value.
pub open spec fn nib_prefix(d: Seq<u8>, n: nat) -> nat
    decreases n,
{
    if n == 0 {
        0
    } else {
        16 * nib_prefix(d, (n - 1) as nat) + d[n - 1] as nat
    }
}

/// Value of the whole digit string `d`, read as a big-endian base-16 numeral.
pub open spec fn nib_value(d: Seq<u8>) -> nat {
    nib_prefix(d, d.len())
}

/// `16^n`.
pub open spec fn pow16(n: nat) -> nat
    decreases n,
{
    if n == 0 {
        1
    } else {
        16 * pow16((n - 1) as nat)
    }
}

/// `16^n` is at least one.
pub proof fn lemma_pow16_positive(n: nat)
    ensures
        pow16(n) >= 1,
    decreases n,
{
    if n > 0 {
        lemma_pow16_positive((n - 1) as nat);
    }
}

/// Every element of `d` is a base-16 digit value.
pub open spec fn all_nibbles(d: Seq<u8>) -> bool {
    forall|k: int| 0 <= k < d.len() ==> d[k] < 16
}

pub proof fn lemma_nib_prefix_agree(a: Seq<u8>, b: Seq<u8>, n: nat)
    requires
        forall|k: int| 0 <= k < n ==> a[k] == b[k],
    ensures
        nib_prefix(a, n) == nib_prefix(b, n),
    decreases n,
{
    if n > 0 {
        lemma_nib_prefix_agree(a, b, (n - 1) as nat);
    }
}

/// Leading zero digits do not change a numeral: a digit string `b` that is
/// `shift` zeros followed by `a` has the value of `a`.
pub proof fn lemma_nib_prefix_leading_zeros(a: Seq<u8>, b: Seq<u8>, shift: nat, n: nat)
    requires
        forall|k: int| 0 <= k < shift ==> b[k] == 0,
        forall|k: int| 0 <= k < n ==> b[shift + k] == a[k],
    ensures
        nib_prefix(b, shift + n) == nib_prefix(a, n),
    decreases n,
{
    if n == 0 {
        lemma_nib_prefix_all_zero(b, shift);
    } else {
        lemma_nib_prefix_leading_zeros(a, b, shift, (n - 1) as nat);
    }
}

pub proof fn lemma_nib_prefix_all_zero(d: Seq<u8>, n: nat)
    requires
        forall|k: int| 0 <= k < n ==> d[k] == 0,
    ensures
        nib_prefix(d, n) == 0,
    decreases n,
{
    if n > 0 {
        lemma_nib_prefix_all_zero(d, (n - 1) as nat);
    }
}

/// An `n`-digit numeral is below `16^n`.
pub proof fn lemma_nib_prefix_bound(d: Seq<u8>, n: nat)
    requires
        forall|k: int| 0 <= k < n ==> d[k] < 16,
    ensures
        nib_prefix(d, n) < pow16(n),
    decreases n,
{
    if n > 0 {
        lemma_nib_prefix_bound(d, (n - 1) as nat);
    }
}

/// Packing digit pairs into bytes keeps the value: if `b[k]` is
/// `16 * d[2k] + d[2k + 1]` for every `k < n`, the first `n` bytes of `b`
/// are worth the first `2n` digits of `d`.
pub proof fn lemma_pack_pairs(d: Seq<u8>, b: Seq<u8>, n: nat)
    requires
        forall|k: int| 0 <= k < n ==> b[k] == 16 * d[2 * k] + d[2 * k + 1],
    ensures
        be_prefix(b, n) == nib_prefix(d, 2 * n),
    decreases n,
{
    if n > 0 {
        lemma_pack_pairs(d, b, (n - 1) as nat);
        let m = (2 * n) as nat;
        assert(nib_prefix(d, m) == 16 * nib_prefix(d, (m - 1) as nat) + d[m - 1] as nat);
        assert(nib_prefix(d, (m - 1) as nat) == 16 * nib_prefix(d, (m - 2) as nat) + d[m - 2] as nat);
        assert(b[n - 1] == 16 * d[2 * (n - 1)] + d[2 * (n - 1) + 1]);
    }
}

/// Value of the digit `f` written `k` times.
pub open spec fn repeated_digit(f: u8, k: nat) -> nat
    decreases k,
{
    if k == 0 {
        0
    } else {
        16 * repeated_digit(f, (k - 1) as nat) + f as nat
    }
}

/// `k` zeros are worth nothing, and `k` times the largest digit is `16^k - 1`.
pub proof fn lemma_repeated_digit_extremes(k: nat)
    ensures
        repeated_digit(0, k) == 0,
        repeated_digit(15, k) == pow16(k) - 1,
    decreases k,
{
    if k > 0 {
        lemma_repeated_digit_extremes((k - 1) as nat);
    }
}

/// Right-padding: if `p` is `s` followed by `k` copies of the digit `f`, its
/// value is that of `s` shifted by `k` places plus the value of the padding.
pub proof fn lemma_nib_prefix_padded(s: Seq<u8>, p: Seq<u8>, f: u8, k: nat)
    requires
        p.len() == s.len() + k,
        forall|i: int| 0 <= i < s.len() ==> p[i] == s[i],
        forall|i: int| s.len() <= i < p.len() ==> p[i] == f,
    ensures
        nib_value(p) == pow16(k) * nib_value(s) + repeated_digit(f, k),
    decreases k,
{
    let x = nib_value(s);
    if k == 0 {
        lemma_nib_prefix_agree(s, p, s.len());
        assert(pow16(0) * x == x) by (nonlinear_arith)
            requires
                pow16(0) == 1,
        ;
    } else {
        let q = p.drop_last();
        lemma_nib_prefix_padded(s, q, f, (k - 1) as nat);
        lemma_nib_prefix_agree(q, p, q.len());
        let w = pow16((k - 1) as nat);
        assert(nib_value(p) == 16 * nib_value(q) + f);
        assert(pow16(k) * x == 16 * (w * x)) by (nonlinear_arith)
            requires
                pow16(k) == 16 * w,
        ;
    }
}

} // verus!
