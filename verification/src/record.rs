//! Fixed-width event records and their binary framing.
//!
//! One record is a captured device event: a button bitmask and two signed
//! relative motion deltas. On disk a record is 3 bytes, or 4 when the store
//! is configured to pad each record with one zero byte. The width is fixed
//! for a whole capture run and must be supplied again to decode; it is not
//! stored in the chunk. A short trailing frame at the end of a chunk is a
//! normal terminator, never an error: capture may stop mid-record.

use vstd::prelude::*;

verus! {

/// One decoded device event.
#[derive(Clone, Copy, PartialEq, Eq, Structural, Debug)]
pub struct Record {
    /// Bitmask of pressed buttons.
    pub button: u8,
    /// Relative horizontal motion, two's-complement.
    pub dx: i8,
    /// Relative vertical motion, two's-complement.
    pub dy: i8,
}

/// Bytes per stored record: 4 in padded mode, 3 otherwise.
pub open spec fn spec_record_width(four_byte: bool) -> nat {
    if four_byte {
        4
    } else {
        3
    }
}

/// Bytes per stored record: 4 in padded mode, 3 otherwise.
pub fn record_width(four_byte: bool) -> (r: usize)
    ensures
        r == spec_record_width(four_byte),
{
    if four_byte {
        4
    } else {
        3
    }
}

/// The on-disk frame of one record: `[button, dx, dy]`, plus one zero
/// byte of padding in 4-byte mode.
pub open spec fn spec_encode_record(r: Record, four_byte: bool) -> Seq<u8> {
    if four_byte {
        seq![r.button, r.dx as u8, r.dy as u8, 0u8]
    } else {
        seq![r.button, r.dx as u8, r.dy as u8]
    }
}

/// The concatenated frames of a run of records, in order.
pub open spec fn spec_encode_all(rs: Seq<Record>, four_byte: bool) -> Seq<u8>
    decreases rs.len(),
{
    if rs.len() == 0 {
        Seq::empty()
    } else {
        spec_encode_record(rs[0], four_byte) + spec_encode_all(rs.skip(1), four_byte)
    }
}

/// The record held in the first frame of `f`: byte 0 is the button mask,
/// bytes 1 and 2 reinterpret as two's-complement deltas; any padding byte
/// is ignored.
pub open spec fn spec_decode_frame(f: Seq<u8>) -> Record
    recommends
        f.len() >= 3,
{
    Record { button: f[0], dx: f[1] as i8, dy: f[2] as i8 }
}

/// All whole frames of a chunk, decoded in file order; a trailing partial
/// frame (fewer than `w` bytes) is dropped.
pub open spec fn spec_decode_chunk(b: Seq<u8>, w: nat) -> Seq<Record>
    decreases b.len(),
{
    if w < 3 || b.len() < w {
        Seq::empty()
    } else {
        seq![spec_decode_frame(b)] + spec_decode_chunk(b.skip(w as int), w)
    }
}

/// Encodes one record as its on-disk frame.
pub fn encode_record(r: &Record, four_byte: bool) -> (out: Vec<u8>)
    ensures
        out@ == spec_encode_record(*r, four_byte),
{
    let mut out: Vec<u8> = Vec::new();
    out.push(r.button);
    out.push(r.dx as u8);
    out.push(r.dy as u8);
    if four_byte {
        out.push(0);
    }
    assert(out@ =~= spec_encode_record(*r, four_byte));
    out
}

/// Decodes every whole frame of one chunk, tolerating a partial trailing
/// frame as end of data.
pub fn decode_chunk(bytes: &Vec<u8>, four_byte: bool) -> (out: Vec<Record>)
    ensures
        out@ == spec_decode_chunk(bytes@, spec_record_width(four_byte)),
{
    let w = record_width(four_byte);
    let mut out: Vec<Record> = Vec::new();
    let mut i: usize = 0;
    proof {
        assert(bytes@.skip(0) =~= bytes@);
        assert(Seq::<Record>::empty() + spec_decode_chunk(bytes@, w as nat) =~= spec_decode_chunk(
            bytes@,
            w as nat,
        ));
    }
    while bytes.len() - i >= w
        invariant
            3 <= w == spec_record_width(four_byte),
            i <= bytes.len(),
            spec_decode_chunk(bytes@, w as nat) == out@ + spec_decode_chunk(
                bytes@.skip(i as int),
                w as nat,
            ),
        decreases bytes.len() - i,
    {
        let rec = Record {
            button: bytes[i],
            dx: #[verifier::truncate] (bytes[i + 1] as i8),
            dy: #[verifier::truncate] (bytes[i + 2] as i8),
        };
        proof {
            let rest = bytes@.skip(i as int);
            assert(rest[0] == bytes@[i as int]);
            assert(rest[1] == bytes@[i as int + 1]);
            assert(rest[2] == bytes@[i as int + 2]);
            assert(rec == spec_decode_frame(rest));
            assert(rest.skip(w as int) =~= bytes@.skip(i as int + w as int));
            assert(out@.push(rec) + spec_decode_chunk(bytes@.skip(i as int + w as int), w as nat)
                =~= out@ + spec_decode_chunk(rest, w as nat));
        }
        out.push(rec);
        i = i + w;
    }
    proof {
        assert(spec_decode_chunk(bytes@.skip(i as int), w as nat) =~= Seq::<Record>::empty());
        assert(out@ =~= out@ + Seq::<Record>::empty());
    }
    out
}

/// Round trip: decoding the concatenated frames of any run of records, at
/// the width they were written with, yields exactly that run.
pub proof fn lemma_round_trip(rs: Seq<Record>, four_byte: bool)
    ensures
        spec_decode_chunk(spec_encode_all(rs, four_byte), spec_record_width(four_byte)) == rs,
    decreases rs.len(),
{
    lemma_decode_encoded_with_tail(rs, Seq::empty(), four_byte);
    assert(spec_encode_all(rs, four_byte) + Seq::<u8>::empty() =~= spec_encode_all(rs, four_byte));
}

/// Partial-tail tolerance: any run of whole frames followed by a short
/// trailing fragment decodes to exactly the records of the whole frames.
pub proof fn lemma_decode_encoded_with_tail(rs: Seq<Record>, tail: Seq<u8>, four_byte: bool)
    requires
        tail.len() < spec_record_width(four_byte),
    ensures
        spec_decode_chunk(spec_encode_all(rs, four_byte) + tail, spec_record_width(four_byte))
            == rs,
    decreases rs.len(),
{
    let w = spec_record_width(four_byte);
    if rs.len() == 0 {
        assert(spec_encode_all(rs, four_byte) + tail =~= tail);
        assert(rs =~= Seq::<Record>::empty());
    } else {
        let frame = spec_encode_record(rs[0], four_byte);
        let whole = spec_encode_all(rs, four_byte) + tail;
        assert(whole =~= frame + (spec_encode_all(rs.skip(1), four_byte) + tail));
        assert(whole.len() >= w);
        assert(whole[0] == rs[0].button);
        assert(whole[1] == rs[0].dx as u8);
        assert(whole[2] == rs[0].dy as u8);
        let dx0 = rs[0].dx;
        let dy0 = rs[0].dy;
        assert(dx0 as u8 as i8 == dx0) by (bit_vector);
        assert(dy0 as u8 as i8 == dy0) by (bit_vector);
        assert(spec_decode_frame(whole) == rs[0]);
        assert(whole.skip(w as int) =~= spec_encode_all(rs.skip(1), four_byte) + tail);
        lemma_decode_encoded_with_tail(rs.skip(1), tail, four_byte);
        assert(seq![rs[0]] + rs.skip(1) =~= rs);
    }
}

} // verus!
