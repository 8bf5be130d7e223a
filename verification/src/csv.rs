//! Reconstruction output.
//!
//! Reconstructed records are exported as line-oriented text: one fixed
//! header `button,dx,dy`, then one line per record with the three fields in
//! plain decimal, the deltas signed. The output is a pure function of the
//! decoded records, so dumping unchanged data twice yields byte-identical
//! output.

use crate::record::{decode_chunk, spec_decode_chunk, spec_record_width, Record};
use crate::text::{push_dec, push_dec_signed, spec_dec, spec_dec_signed};
use vstd::prelude::*;

verus! {

/// The header line `button,dx,dy` with its newline.
pub open spec fn spec_csv_header() -> Seq<u8> {
    seq![98u8, 117u8, 116u8, 116u8, 111u8, 110u8, 44u8, 100u8, 120u8, 44u8, 100u8, 121u8, 10u8]
}

/// One record's line: three decimal fields, comma-separated, newline-ended.
pub open spec fn spec_csv_line(r: Record) -> Seq<u8> {
    spec_dec(r.button as nat) + seq![44u8] + spec_dec_signed(r.dx as int) + seq![44u8]
        + spec_dec_signed(r.dy as int) + seq![10u8]
}

/// The lines of a run of records, in order.
pub open spec fn spec_csv_lines(rs: Seq<Record>) -> Seq<u8>
    decreases rs.len(),
{
    if rs.len() == 0 {
        Seq::empty()
    } else {
        spec_csv_lines(rs.drop_last()) + spec_csv_line(rs.last())
    }
}

/// A whole dump: the header, then every record's line.
pub open spec fn spec_csv(rs: Seq<Record>) -> Seq<u8> {
    spec_csv_header() + spec_csv_lines(rs)
}

/// Renders the fixed header line.
pub fn csv_header() -> (out: Vec<u8>)
    ensures
        out@ == spec_csv_header(),
{
    let mut out: Vec<u8> = Vec::new();
    out.push(98);
    out.push(117);
    out.push(116);
    out.push(116);
    out.push(111);
    out.push(110);
    out.push(44);
    out.push(100);
    out.push(120);
    out.push(44);
    out.push(100);
    out.push(121);
    out.push(10);
    assert(out@ =~= spec_csv_header());
    out
}

/// Appends one record's line.
pub fn push_csv_line(out: &mut Vec<u8>, r: &Record)
    ensures
        final(out)@ == old(out)@ + spec_csv_line(*r),
{
    push_dec(out, r.button as u64);
    out.push(44);
    push_dec_signed(out, r.dx as i64);
    out.push(44);
    push_dec_signed(out, r.dy as i64);
    out.push(10);
    assert(out@ =~= old(out)@ + spec_csv_line(*r));
}

/// Renders a whole dump: header, then one line per record in order.
pub fn render_csv(records: &Vec<Record>) -> (out: Vec<u8>)
    ensures
        out@ == spec_csv(records@),
{
    let mut out = csv_header();
    let mut i: usize = 0;
    proof {
        assert(records@.take(0) =~= Seq::<Record>::empty());
        assert(out@ =~= spec_csv_header() + spec_csv_lines(records@.take(0)));
    }
    while i < records.len()
        invariant
            i <= records@.len(),
            out@ == spec_csv_header() + spec_csv_lines(records@.take(i as int)),
        decreases records@.len() - i,
    {
        push_csv_line(&mut out, &records[i]);
        proof {
            assert(records@.take(i + 1).drop_last() =~= records@.take(i as int));
            assert(records@.take(i + 1).last() == records@[i as int]);
            assert(out@ =~= spec_csv_header() + spec_csv_lines(records@.take(i + 1)));
        }
        i = i + 1;
    }
    assert(records@.take(records@.len() as int) =~= records@);
    out
}

/// The records of a run of chunks, decoded chunk by chunk in the given
/// order, whole frames only.
pub open spec fn spec_records_of_chunks(chunks: Seq<Seq<u8>>, w: nat) -> Seq<Record>
    decreases chunks.len(),
{
    if chunks.len() == 0 {
        Seq::empty()
    } else {
        spec_records_of_chunks(chunks.drop_last(), w) + spec_decode_chunk(chunks.last(), w)
    }
}

/// Decodes a run of chunk contents into one flat record stream, in chunk
/// order, each chunk in file order.
pub fn decode_chunks(chunks: &Vec<Vec<u8>>, four_byte: bool) -> (out: Vec<Record>)
    ensures
        out@ == spec_records_of_chunks(chunks.deep_view(), spec_record_width(four_byte)),
{
    let ghost w = spec_record_width(four_byte);
    let ghost dv = chunks.deep_view();
    let mut out: Vec<Record> = Vec::new();
    let mut i: usize = 0;
    proof {
        assert(dv.take(0) =~= Seq::<Seq<u8>>::empty());
        assert(out@ =~= spec_records_of_chunks(dv.take(0), w));
    }
    while i < chunks.len()
        invariant
            i <= chunks@.len(),
            dv == chunks.deep_view(),
            dv.len() == chunks@.len(),
            forall|j: int| 0 <= j < dv.len() ==> dv[j] == chunks@[j]@,
            w == spec_record_width(four_byte),
            out@ == spec_records_of_chunks(dv.take(i as int), w),
        decreases chunks@.len() - i,
    {
        let recs = decode_chunk(&chunks[i], four_byte);
        let ghost mid = out@;
        let mut t: usize = 0;
        while t < recs.len()
            invariant
                t <= recs@.len(),
                out@ == mid + recs@.take(t as int),
            decreases recs@.len() - t,
        {
            out.push(recs[t]);
            assert(out@ =~= mid + recs@.take(t + 1));
            t = t + 1;
        }
        proof {
            assert(recs@.take(recs@.len() as int) =~= recs@);
            assert(dv.take(i + 1).drop_last() =~= dv.take(i as int));
            assert(dv.take(i + 1).last() == dv[i as int]);
            assert(out@ =~= spec_records_of_chunks(dv.take(i + 1), w));
        }
        i = i + 1;
    }
    assert(dv.take(dv.len() as int) =~= dv);
    out
}

/// Idempotent dump: the rendered output is a function of the records
/// alone, so dumping the same records twice gives byte-identical output.
pub proof fn lemma_dump_deterministic(rs: Seq<Record>, out1: Seq<u8>, out2: Seq<u8>)
    requires
        out1 == spec_csv(rs),
        out2 == spec_csv(rs),
    ensures
        out1 == out2,
{
}

} // verus!
