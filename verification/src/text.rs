//! Decimal text and lexicographic byte order.
//!
//! Chunk file names encode `(date, index)` in zero-padded decimal so that a
//! plain byte-wise sort of names equals write order. This module renders
//! unsigned and signed numbers as ASCII decimal, renders zero-padded fields,
//! and defines the lexicographic order those names are sorted by, together
//! with the lemmas that connect numeric order to lexicographic order.

use vstd::prelude::*;

verus! {

/// The ASCII digit for `d`, for `0 <= d <= 9`.
pub open spec fn spec_digit(d: int) -> u8 {
    (48 + d) as u8
}

/// Decimal digits of `n`, most significant first, no leading zeros
/// (`0` renders as `"0"`).
pub open spec fn spec_dec(n: nat) -> Seq<u8>
    decreases n,
{
    if n < 10 {
        seq![spec_digit(n as int)]
    } else {
        spec_dec(n / 10) + seq![spec_digit((n % 10) as int)]
    }
}

/// `k` ASCII zeros.
pub open spec fn spec_zeros(k: nat) -> Seq<u8> {
    Seq::new(k, |i: int| 48u8)
}

/// Decimal digits of `n` left-padded with zeros to at least `w` places,
/// as `{:0w$}` renders: numbers too wide for the field keep all digits.
pub open spec fn spec_dec_pad(n: nat, w: nat) -> Seq<u8> {
    if w <= spec_dec(n).len() {
        spec_dec(n)
    } else {
        spec_zeros((w - spec_dec(n).len()) as nat) + spec_dec(n)
    }
}

/// Exactly the low `w` decimal digits of `n`: the canonical fixed-width
/// rendering when `n < pow10(w)`.
pub open spec fn spec_dec_fixed(n: nat, w: nat) -> Seq<u8>
    decreases w,
{
    if w == 0 {
        Seq::empty()
    } else {
        spec_dec_fixed(n / 10, (w - 1) as nat) + seq![spec_digit((n % 10) as int)]
    }
}

/// `10^k`.
pub open spec fn pow10(k: nat) -> nat
    decreases k,
{
    if k == 0 {
        1
    } else {
        10 * pow10((k - 1) as nat)
    }
}

/// Decimal digits of a signed value: a leading minus sign when negative.
pub open spec fn spec_dec_signed(v: int) -> Seq<u8> {
    if v < 0 {
        seq![45u8] + spec_dec((-v) as nat)
    } else {
        spec_dec(v as nat)
    }
}

/// Strict lexicographic order on byte strings: a proper prefix sorts first,
/// otherwise the first differing byte decides.
pub open spec fn lex_lt(a: Seq<u8>, b: Seq<u8>) -> bool
    decreases a.len(),
{
    if b.len() == 0 {
        false
    } else if a.len() == 0 {
        true
    } else if a[0] < b[0] {
        true
    } else if a[0] == b[0] {
        lex_lt(a.skip(1), b.skip(1))
    } else {
        false
    }
}

/// Appends the decimal digits of `n`.
pub fn push_dec(out: &mut Vec<u8>, n: u64)
    ensures
        final(out)@ == old(out)@ + spec_dec(n as nat),
    decreases n,
{
    if n < 10 {
        out.push(48 + (n as u8));
        assert(out@ =~= old(out)@ + spec_dec(n as nat));
    } else {
        push_dec(out, n / 10);
        out.push(48 + ((n % 10) as u8));
        assert(out@ =~= old(out)@ + spec_dec(n as nat));
    }
}

/// Number of decimal digits of `n`.
pub fn num_digits(n: u64) -> (r: usize)
    ensures
        r == spec_dec(n as nat).len(),
        1 <= r <= 20,
    decreases n,
{
    proof {
        lemma_pow10_u64_max();
        lemma_dec_len_le(n as nat, 20);
    }
    if n < 10 {
        1
    } else {
        1 + num_digits(n / 10)
    }
}

/// Appends the decimal digits of `n`, left-padded with zeros to at least
/// `w` places.
pub fn push_dec_pad(out: &mut Vec<u8>, n: u64, w: usize)
    ensures
        final(out)@ == old(out)@ + spec_dec_pad(n as nat, w as nat),
{
    let nd = num_digits(n);
    let ghost mid = out@;
    let mut i: usize = nd;
    while i < w
        invariant
            nd <= i,
            i <= w || i == nd,
            out@ == mid + spec_zeros((i - nd) as nat),
        decreases w - i,
    {
        out.push(48);
        assert(out@ =~= mid + spec_zeros((i + 1 - nd) as nat));
        i = i + 1;
    }
    push_dec(out, n);
    proof {
        if w <= nd {
            assert(out@ =~= old(out)@ + spec_dec_pad(n as nat, w as nat));
        } else {
            assert(out@ =~= old(out)@ + spec_dec_pad(n as nat, w as nat));
        }
    }
}

/// Appends the decimal digits of a signed value, minus sign first.
pub fn push_dec_signed(out: &mut Vec<u8>, v: i64)
    ensures
        final(out)@ == old(out)@ + spec_dec_signed(v as int),
{
    if v < 0 {
        out.push(45);
        let m: u64 = (-(v as i128)) as u64;
        push_dec(out, m);
        assert(out@ =~= old(out)@ + spec_dec_signed(v as int));
    } else {
        push_dec(out, v as u64);
    }
}

/// Numbers with at most `k` digits are below `pow10(k)`... stated the
/// useful way round: a number below `pow10(k)` has at most `k` digits.
pub proof fn lemma_dec_len_le(n: nat, k: nat)
    requires
        n < pow10(k),
        1 <= k,
    ensures
        spec_dec(n).len() <= k,
    decreases k,
{
    if n < 10 {
    } else {
        if k == 1 {
            assert(pow10(1) == 10);
        } else {
            assert(pow10(k) == 10 * pow10((k - 1) as nat));
            assert(n / 10 < pow10((k - 1) as nat)) by {
                vstd::arithmetic::div_mod::lemma_fundamental_div_mod(n as int, 10);
            }
            lemma_dec_len_le(n / 10, (k - 1) as nat);
        }
    }
}

/// `u64::MAX` is below `10^20`.
pub proof fn lemma_pow10_u64_max()
    ensures
        0xffff_ffff_ffff_ffff < pow10(20),
{
    assert(pow10(20) == 100000000000000000000) by {
        reveal_with_fuel(pow10, 21);
    }
}

/// Powers of ten are positive.
pub proof fn lemma_pow10_pos(k: nat)
    ensures
        pow10(k) >= 1,
    decreases k,
{
    if k > 0 {
        lemma_pow10_pos((k - 1) as nat);
    }
}

/// Lexicographic order is irreflexive.
pub proof fn lemma_lex_irrefl(a: Seq<u8>)
    ensures
        !lex_lt(a, a),
    decreases a.len(),
{
    if a.len() > 0 {
        lemma_lex_irrefl(a.skip(1));
    }
}

/// Lexicographic order is asymmetric.
pub proof fn lemma_lex_asym(a: Seq<u8>, b: Seq<u8>)
    requires
        lex_lt(a, b),
    ensures
        !lex_lt(b, a),
    decreases a.len(),
{
    if a.len() > 0 && b.len() > 0 && a[0] == b[0] {
        lemma_lex_asym(a.skip(1), b.skip(1));
    }
}

/// Concatenations whose left parts have equal length compare by the left
/// parts first, then by the right parts.
pub proof fn lemma_lex_concat(a1: Seq<u8>, a2: Seq<u8>, b1: Seq<u8>, b2: Seq<u8>)
    requires
        a1.len() == b1.len(),
    ensures
        lex_lt(a1 + a2, b1 + b2) <==> (lex_lt(a1, b1) || (a1 == b1 && lex_lt(a2, b2))),
    decreases a1.len(),
{
    if a1.len() == 0 {
        assert(a1 + a2 =~= a2);
        assert(b1 + b2 =~= b2);
        assert(a1 =~= b1);
    } else {
        assert((a1 + a2).skip(1) =~= a1.skip(1) + a2);
        assert((b1 + b2).skip(1) =~= b1.skip(1) + b2);
        lemma_lex_concat(a1.skip(1), a2, b1.skip(1), b2);
        if a1[0] == b1[0] && a1.skip(1) == b1.skip(1) {
            assert forall|i: int| 0 <= i < a1.len() implies a1[i] == b1[i] by {
                if i > 0 {
                    assert(a1.skip(1)[i - 1] == a1[i]);
                    assert(b1.skip(1)[i - 1] == b1[i]);
                }
            }
            assert(a1 =~= b1);
        }
    }
}

/// A fixed-width rendering has exactly its width in digits.
pub proof fn lemma_dec_fixed_len(n: nat, w: nat)
    ensures
        spec_dec_fixed(n, w).len() == w,
    decreases w,
{
    if w > 0 {
        lemma_dec_fixed_len(n / 10, (w - 1) as nat);
    }
}

/// Numeric order equals lexicographic order on equal-width renderings.
pub proof fn lemma_dec_fixed_order(n1: nat, n2: nat, w: nat)
    requires
        n1 < n2,
        n2 < pow10(w),
    ensures
        lex_lt(spec_dec_fixed(n1, w), spec_dec_fixed(n2, w)),
    decreases w,
{
    if w == 0 {
        assert(false);
    } else {
        let q1 = n1 / 10;
        let q2 = n2 / 10;
        lemma_dec_fixed_len(q1, (w - 1) as nat);
        lemma_dec_fixed_len(q2, (w - 1) as nat);
        vstd::arithmetic::div_mod::lemma_div_is_ordered(n1 as int, n2 as int, 10);
        assert(q2 < pow10((w - 1) as nat)) by {
            vstd::arithmetic::div_mod::lemma_fundamental_div_mod(n2 as int, 10);
        }
        lemma_lex_concat(
            spec_dec_fixed(q1, (w - 1) as nat),
            seq![spec_digit((n1 % 10) as int)],
            spec_dec_fixed(q2, (w - 1) as nat),
            seq![spec_digit((n2 % 10) as int)],
        );
        if q1 < q2 {
            lemma_dec_fixed_order(q1, q2, (w - 1) as nat);
        } else {
            assert(q1 == q2);
            assert(n1 % 10 < n2 % 10) by {
                vstd::arithmetic::div_mod::lemma_fundamental_div_mod(n1 as int, 10);
                vstd::arithmetic::div_mod::lemma_fundamental_div_mod(n2 as int, 10);
            }
            assert(lex_lt(
                seq![spec_digit((n1 % 10) as int)],
                seq![spec_digit((n2 % 10) as int)],
            ));
        }
    }
}

/// Rendering a number at exactly its own width gives its plain digits.
pub proof fn lemma_dec_fixed_of_dec(n: nat)
    ensures
        spec_dec_fixed(n, spec_dec(n).len()) == spec_dec(n),
    decreases n,
{
    if n < 10 {
        assert(spec_dec_fixed(n / 10, 0nat) =~= Seq::<u8>::empty());
        assert(spec_dec_fixed(n, 1) =~= spec_dec(n));
    } else {
        lemma_dec_fixed_of_dec(n / 10);
        assert(spec_dec_fixed(n, spec_dec(n).len()) =~= spec_dec(n));
    }
}

/// A number at or above `pow10(k)` has more than `k` digits.
pub proof fn lemma_dec_len_ge(n: nat, k: nat)
    requires
        pow10(k) <= n,
    ensures
        spec_dec(n).len() >= k + 1,
    decreases k,
{
    if k > 0 {
        assert(pow10(k) == 10 * pow10((k - 1) as nat));
        lemma_pow10_pos((k - 1) as nat);
        assert(n >= 10);
        assert(pow10((k - 1) as nat) <= n / 10) by {
            vstd::arithmetic::div_mod::lemma_fundamental_div_mod(n as int, 10);
        }
        lemma_dec_len_ge(n / 10, (k - 1) as nat);
    }
}

/// Widening a fixed-width rendering by one place prepends an ASCII zero,
/// as long as the number already fit.
pub proof fn lemma_dec_fixed_zero_front(n: nat, w: nat)
    requires
        n < pow10(w),
    ensures
        spec_dec_fixed(n, w + 1) == seq![48u8] + spec_dec_fixed(n, w),
    decreases w,
{
    if w == 0 {
        assert(n == 0);
        assert(spec_dec_fixed(0, 1) =~= seq![48u8] + spec_dec_fixed(0nat, 0nat));
    } else {
        assert(n / 10 < pow10((w - 1) as nat)) by {
            vstd::arithmetic::div_mod::lemma_fundamental_div_mod(n as int, 10);
        }
        lemma_dec_fixed_zero_front(n / 10, (w - 1) as nat);
        assert(spec_dec_fixed(n, w + 1) =~= seq![48u8] + spec_dec_fixed(n, w));
    }
}

/// For numbers that fit the field, zero-padding renders exactly the
/// fixed-width digits.
pub proof fn lemma_dec_pad_fixed(n: nat, w: nat)
    requires
        n < pow10(w),
        1 <= w,
    ensures
        spec_dec_pad(n, w) == spec_dec_fixed(n, w),
    decreases w,
{
    let l = spec_dec(n).len();
    lemma_dec_len_le(n, w);
    if l == w {
        lemma_dec_fixed_of_dec(n);
        assert(spec_dec_pad(n, w) =~= spec_dec_fixed(n, w));
    } else {
        assert(l < w);
        assert(n < pow10((w - 1) as nat)) by {
            if pow10((w - 1) as nat) <= n {
                lemma_dec_len_ge(n, (w - 1) as nat);
            }
        }
        lemma_dec_pad_fixed(n, (w - 1) as nat);
        lemma_dec_fixed_zero_front(n, (w - 1) as nat);
        assert(spec_dec_pad(n, w) =~= seq![48u8] + spec_dec_pad(n, (w - 1) as nat));
        assert(spec_dec_pad(n, w) =~= spec_dec_fixed(n, w));
    }
}

} // verus!
