//! Chunk file names and the day directory layout.
//!
//! A chunk for day `YYYY-MM-DD` with sequence index `N` is the file
//! `YYYY-MM-DD-NNNNN.bin` inside `base/YYYY/MM/DD`, with the month, day and
//! index zero-padded so that a byte-wise sort of the names inside one day
//! directory equals write order. The directory components use an unpadded
//! year and two-digit month and day. Names are handled as plain bytes.

use crate::date::{spec_date_lt, Date};
use crate::text::{
    lex_lt, lemma_dec_fixed_len, lemma_dec_fixed_order, lemma_dec_pad_fixed, lemma_lex_asym,
    lemma_lex_concat, lemma_lex_irrefl, pow10, push_dec, push_dec_pad, spec_dec, spec_dec_fixed,
    spec_dec_pad,
};
use vstd::prelude::*;

verus! {

/// The `.bin` suffix every chunk file carries.
pub open spec fn spec_bin_suffix() -> Seq<u8> {
    seq![46u8, 98u8, 105u8, 110u8]
}

/// The `YYYY-MM-DD-` prefix shared by every chunk of one day.
pub open spec fn spec_day_prefix(d: Date) -> Seq<u8> {
    spec_dec_pad(d.year as nat, 4) + seq![45u8] + spec_dec_pad(d.month as nat, 2) + seq![45u8]
        + spec_dec_pad(d.day as nat, 2) + seq![45u8]
}

/// The full chunk file name `YYYY-MM-DD-NNNNN.bin`.
pub open spec fn spec_chunk_name(d: Date, index: u64) -> Seq<u8> {
    spec_day_prefix(d) + spec_dec_pad(index as nat, 5) + spec_bin_suffix()
}

/// A name is selected for day `d` when it starts with the day's
/// `YYYY-MM-DD-` prefix and ends in `.bin`.
pub open spec fn spec_name_matches(name: Seq<u8>, d: Date) -> bool {
    &&& name.len() >= spec_day_prefix(d).len()
    &&& name.take(spec_day_prefix(d).len() as int) == spec_day_prefix(d)
    &&& name.len() >= 4
    &&& name.skip(name.len() - 4) == spec_bin_suffix()
}

/// Renders the `YYYY-MM-DD-` prefix of one day's chunk names.
pub fn day_prefix(d: &Date) -> (out: Vec<u8>)
    ensures
        out@ == spec_day_prefix(*d),
{
    let mut out: Vec<u8> = Vec::new();
    push_dec_pad(&mut out, d.year as u64, 4);
    out.push(45);
    push_dec_pad(&mut out, d.month as u64, 2);
    out.push(45);
    push_dec_pad(&mut out, d.day as u64, 2);
    out.push(45);
    assert(out@ =~= spec_day_prefix(*d));
    out
}

/// Renders the file name of the chunk `(d, index)`.
pub fn chunk_file_name(d: &Date, index: u64) -> (out: Vec<u8>)
    ensures
        out@ == spec_chunk_name(*d, index),
{
    let mut out = day_prefix(d);
    push_dec_pad(&mut out, index, 5);
    out.push(46);
    out.push(98);
    out.push(105);
    out.push(110);
    assert(out@ =~= spec_chunk_name(*d, index));
    out
}

/// Renders the three directory components of one day: unpadded year,
/// two-digit month, two-digit day.
pub fn day_dir_components(d: &Date) -> (r: (Vec<u8>, Vec<u8>, Vec<u8>))
    ensures
        r.0@ == spec_dec(d.year as nat),
        r.1@ == spec_dec_pad(d.month as nat, 2),
        r.2@ == spec_dec_pad(d.day as nat, 2),
{
    let mut y: Vec<u8> = Vec::new();
    push_dec(&mut y, d.year as u64);
    let mut m: Vec<u8> = Vec::new();
    push_dec_pad(&mut m, d.month as u64, 2);
    let mut dd: Vec<u8> = Vec::new();
    push_dec_pad(&mut dd, d.day as u64, 2);
    (y, m, dd)
}

/// Byte-wise prefix test.
pub fn starts_with(name: &Vec<u8>, pre: &Vec<u8>) -> (r: bool)
    ensures
        r == (name@.len() >= pre@.len() && name@.take(pre@.len() as int) == pre@),
{
    if name.len() < pre.len() {
        return false;
    }
    let mut i: usize = 0;
    while i < pre.len()
        invariant
            i <= pre@.len() <= name@.len(),
            forall|j: int| 0 <= j < i ==> name@[j] == pre@[j],
        decreases pre@.len() - i,
    {
        if name[i] != pre[i] {
            assert(name@.take(pre@.len() as int)[i as int] != pre@[i as int]);
            return false;
        }
        i = i + 1;
    }
    assert(name@.take(pre@.len() as int) =~= pre@);
    true
}

/// Byte-wise suffix test.
pub fn ends_with(name: &Vec<u8>, suf: &Vec<u8>) -> (r: bool)
    ensures
        r == (name@.len() >= suf@.len() && name@.skip(name@.len() - suf@.len()) == suf@),
{
    if name.len() < suf.len() {
        return false;
    }
    let off = name.len() - suf.len();
    let mut j: usize = off;
    while j < name.len()
        invariant
            off <= j <= name@.len(),
            suf@.len() <= name@.len(),
            off == name@.len() - suf@.len(),
            forall|k: int| off <= k < j ==> name@[k] == suf@[k - off],
        decreases name@.len() - j,
    {
        if name[j] != suf[j - off] {
            assert(name@.skip(name@.len() - suf@.len())[j - off] != suf@[j - off]);
            return false;
        }
        j = j + 1;
    }
    assert(name@.skip(name@.len() - suf@.len()) =~= suf@);
    true
}

/// Selects a directory entry name as a chunk of day `d`: the literal
/// `YYYY-MM-DD-` prefix for that day and the `.bin` suffix.
pub fn name_matches(name: &Vec<u8>, d: &Date) -> (r: bool)
    ensures
        r == spec_name_matches(name@, *d),
{
    let pre = day_prefix(d);
    let mut suf: Vec<u8> = Vec::new();
    suf.push(46);
    suf.push(98);
    suf.push(105);
    suf.push(110);
    assert(suf@ =~= spec_bin_suffix());
    let a = starts_with(name, &pre);
    let b = ends_with(name, &suf);
    a && b
}

/// Values of `pow10` at the field widths chunk names use.
proof fn lemma_pow10_small()
    ensures
        pow10(2) == 100,
        pow10(4) == 10000,
        pow10(5) == 100000,
{
    reveal_with_fuel(pow10, 6);
}

/// Peels one fixed-width numeric field off the front of two byte strings:
/// the field decides unless equal, then the rests decide.
proof fn lemma_field_order(a1: nat, a2: nat, w: nat, r1: Seq<u8>, r2: Seq<u8>)
    requires
        a1 < pow10(w),
        a2 < pow10(w),
        1 <= w,
    ensures
        lex_lt(spec_dec_fixed(a1, w) + r1, spec_dec_fixed(a2, w) + r2) <==> (a1 < a2 || (a1 == a2
            && lex_lt(r1, r2))),
{
    let f1 = spec_dec_fixed(a1, w);
    let f2 = spec_dec_fixed(a2, w);
    lemma_dec_fixed_len(a1, w);
    lemma_dec_fixed_len(a2, w);
    lemma_lex_concat(f1, r1, f2, r2);
    lemma_lex_irrefl(f1);
    if a1 < a2 {
        lemma_dec_fixed_order(a1, a2, w);
    } else if a2 < a1 {
        lemma_dec_fixed_order(a2, a1, w);
        lemma_lex_asym(f2, f1);
    }
}

/// Peels one equal separator byte off the front of two byte strings.
proof fn lemma_sep_peel(r1: Seq<u8>, r2: Seq<u8>)
    ensures
        lex_lt(seq![45u8] + r1, seq![45u8] + r2) <==> lex_lt(r1, r2),
{
    lemma_lex_concat(seq![45u8], r1, seq![45u8], r2);
    lemma_lex_irrefl(seq![45u8]);
}

/// Lexicographic order of chunk file names equals write order: the name of
/// `(d1, i1)` sorts strictly before the name of `(d2, i2)` exactly when
/// `d1` is an earlier day, or the same day with a smaller index. This holds
/// for every name the fields can carry without overflowing their
/// zero-padded widths: years up to 9999 and indices up to 99999.
#[verifier::rlimit(60)]
pub proof fn lemma_lex_order_is_write_order(d1: Date, i1: u64, d2: Date, i2: u64)
    requires
        d1.wf(),
        d2.wf(),
        d1.year <= 9999,
        d2.year <= 9999,
        i1 <= 99999,
        i2 <= 99999,
    ensures
        lex_lt(spec_chunk_name(d1, i1), spec_chunk_name(d2, i2)) <==> (spec_date_lt(d1, d2) || (d1
            == d2 && i1 < i2)),
{
    lemma_pow10_small();
    lemma_dec_pad_fixed(d1.year as nat, 4);
    lemma_dec_pad_fixed(d2.year as nat, 4);
    lemma_dec_pad_fixed(d1.month as nat, 2);
    lemma_dec_pad_fixed(d2.month as nat, 2);
    lemma_dec_pad_fixed(d1.day as nat, 2);
    lemma_dec_pad_fixed(d2.day as nat, 2);
    lemma_dec_pad_fixed(i1 as nat, 5);
    lemma_dec_pad_fixed(i2 as nat, 5);
    let sep = seq![45u8];
    let suffix = spec_bin_suffix();
    let y1 = spec_dec_fixed(d1.year as nat, 4);
    let y2 = spec_dec_fixed(d2.year as nat, 4);
    let m1 = spec_dec_fixed(d1.month as nat, 2);
    let m2 = spec_dec_fixed(d2.month as nat, 2);
    let a1 = spec_dec_fixed(d1.day as nat, 2);
    let a2 = spec_dec_fixed(d2.day as nat, 2);
    let n1 = spec_dec_fixed(i1 as nat, 5);
    let n2 = spec_dec_fixed(i2 as nat, 5);
    let q1 = m1 + (sep + (a1 + (sep + (n1 + suffix))));
    let q2 = m2 + (sep + (a2 + (sep + (n2 + suffix))));
    assert(spec_chunk_name(d1, i1) =~= y1 + (sep + q1));
    assert(spec_chunk_name(d2, i2) =~= y2 + (sep + q2));
    lemma_field_order(d1.year as nat, d2.year as nat, 4, sep + q1, sep + q2);
    lemma_sep_peel(q1, q2);
    lemma_field_order(
        d1.month as nat,
        d2.month as nat,
        2,
        sep + (a1 + (sep + (n1 + suffix))),
        sep + (a2 + (sep + (n2 + suffix))),
    );
    lemma_sep_peel(a1 + (sep + (n1 + suffix)), a2 + (sep + (n2 + suffix)));
    lemma_field_order(
        d1.day as nat,
        d2.day as nat,
        2,
        sep + (n1 + suffix),
        sep + (n2 + suffix),
    );
    lemma_sep_peel(n1 + suffix, n2 + suffix);
    lemma_field_order(i1 as nat, i2 as nat, 5, suffix, suffix);
    lemma_lex_irrefl(suffix);
}

/// Byte-wise lexicographic comparison.
pub fn lex_lt_bytes(a: &Vec<u8>, b: &Vec<u8>) -> (r: bool)
    ensures
        r == lex_lt(a@, b@),
{
    let n = if a.len() < b.len() {
        a.len()
    } else {
        b.len()
    };
    let mut i: usize = 0;
    proof {
        assert(a@.skip(0) =~= a@);
        assert(b@.skip(0) =~= b@);
    }
    while i < n
        invariant
            i <= n,
            n == if a@.len() < b@.len() {
                a@.len()
            } else {
                b@.len()
            },
            lex_lt(a@, b@) == lex_lt(a@.skip(i as int), b@.skip(i as int)),
            forall|j: int| 0 <= j < i ==> a@[j] == b@[j],
        decreases n - i,
    {
        let ghost ai = a@.skip(i as int);
        let ghost bi = b@.skip(i as int);
        assert(ai[0] == a@[i as int] && bi[0] == b@[i as int]);
        if a[i] < b[i] {
            return true;
        }
        if a[i] > b[i] {
            return false;
        }
        assert(ai.skip(1) =~= a@.skip(i + 1));
        assert(bi.skip(1) =~= b@.skip(i + 1));
        i = i + 1;
    }
    assert(a@.skip(i as int).len() == a@.len() - i);
    assert(b@.skip(i as int).len() == b@.len() - i);
    a.len() < b.len()
}

} // verus!
