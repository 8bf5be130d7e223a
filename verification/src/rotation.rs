//! Rotation policy and capture-session state.
//!
//! A capture run owns one open chunk at a time, identified by `(date,
//! index)`. The policy decides, once per captured record, whether the next
//! record still belongs to the current chunk: a calendar-date change closes
//! the chunk and restarts the index at 1 under the new day; reaching the
//! configured byte threshold closes it and opens the next index of the same
//! day. The date check comes first and wins when both would fire. The size
//! threshold is measured against the byte count *after* a record has been
//! appended, so rotation never splits a record.
//!
//! The unbounded device loop itself lives outside the crate: it hands the
//! observed date and each read frame in, performs the file actions these
//! functions call for, and stops on the first failed read.

use crate::date::Date;
use crate::record::spec_record_width;
use vstd::prelude::*;

verus! {

/// What the policy says to do after one record boundary.
#[derive(Clone, Copy, PartialEq, Eq, Structural, Debug)]
pub enum RotationDecision {
    /// Keep appending to the current chunk.
    Continue,
    /// The calendar day changed: open index 1 under the new day.
    NewDay,
    /// The size threshold was reached: open the next index, same day.
    NewSizeChunk,
}

/// Transient state of one capture session.
#[derive(Clone, Copy, PartialEq, Eq, Structural, Debug)]
pub struct CaptureState {
    /// Calendar day of the currently open chunk.
    pub date: Date,
    /// Sequence index of the currently open chunk, starting at 1.
    pub chunk_index: u64,
    /// Bytes appended to the currently open chunk so far.
    pub bytes_in_chunk: u64,
}

/// The rotation decision: date change first, then the size threshold.
pub open spec fn spec_decide_rotation(
    prev: Date,
    observed: Date,
    bytes_written: u64,
    max_chunk_bytes: u64,
) -> RotationDecision {
    if observed != prev {
        RotationDecision::NewDay
    } else if bytes_written >= max_chunk_bytes {
        RotationDecision::NewSizeChunk
    } else {
        RotationDecision::Continue
    }
}

/// Pure rotation decision from the previous date, the newly observed date,
/// and the post-write byte count measured against the threshold.
pub fn decide_rotation(
    prev: &Date,
    observed: &Date,
    bytes_written: u64,
    max_chunk_bytes: u64,
) -> (r: RotationDecision)
    ensures
        r == spec_decide_rotation(*prev, *observed, bytes_written, max_chunk_bytes),
{
    if observed.year != prev.year || observed.month != prev.month || observed.day != prev.day {
        RotationDecision::NewDay
    } else if bytes_written >= max_chunk_bytes {
        RotationDecision::NewSizeChunk
    } else {
        RotationDecision::Continue
    }
}

/// State after the date observed at the top of the loop: a changed day
/// opens index 1 under the new date with the byte count reset, however
/// full the old chunk was.
pub open spec fn spec_on_new_date(s: CaptureState, today: Date) -> CaptureState {
    if today != s.date {
        CaptureState { date: today, chunk_index: 1, bytes_in_chunk: 0 }
    } else {
        s
    }
}

/// State after one record of width `w` has been appended: the byte count
/// grows by `w`, and reaching the threshold opens the next index of the
/// same day with the byte count reset.
pub open spec fn spec_on_record(s: CaptureState, w: nat, max_chunk_bytes: u64) -> CaptureState
    recommends
        s.bytes_in_chunk + w <= u64::MAX,
        s.chunk_index < u64::MAX,
{
    let b = (s.bytes_in_chunk + w) as u64;
    if b >= max_chunk_bytes {
        CaptureState {
            date: s.date,
            chunk_index: (s.chunk_index + 1) as u64,
            bytes_in_chunk: 0,
        }
    } else {
        CaptureState { date: s.date, chunk_index: s.chunk_index, bytes_in_chunk: b }
    }
}

/// State after `n` records, all observed on the chunk's own day.
pub open spec fn spec_run_records(s: CaptureState, n: nat, w: nat, max_chunk_bytes: u64) -> CaptureState
    decreases n,
{
    if n == 0 {
        s
    } else {
        spec_run_records(spec_on_record(s, w, max_chunk_bytes), (n - 1) as nat, w, max_chunk_bytes)
    }
}

/// The state a session starts in: index 1 of today's date, empty chunk.
pub fn initial_state(today: Date) -> (s: CaptureState)
    ensures
        s == (CaptureState { date: today, chunk_index: 1, bytes_in_chunk: 0 }),
{
    CaptureState { date: today, chunk_index: 1, bytes_in_chunk: 0 }
}

impl CaptureState {
    /// Applies the date observed before the next read. Returns the new
    /// state and whether a fresh chunk (index 1, new day) must be opened.
    pub fn on_new_date(&self, today: Date) -> (r: (CaptureState, bool))
        ensures
            r.0 == spec_on_new_date(*self, today),
            r.1 == (today != self.date),
    {
        if today.year != self.date.year || today.month != self.date.month || today.day
            != self.date.day {
            (CaptureState { date: today, chunk_index: 1, bytes_in_chunk: 0 }, true)
        } else {
            (*self, false)
        }
    }

    /// Accounts for one appended record. Returns the new state and whether
    /// the size threshold closed the chunk, so that the next index of the
    /// same day must be opened.
    pub fn on_record_written(&self, four_byte: bool, max_chunk_bytes: u64) -> (r: (
        CaptureState,
        bool,
    ))
        requires
            self.bytes_in_chunk + spec_record_width(four_byte) <= u64::MAX,
            self.chunk_index < u64::MAX,
        ensures
            r.0 == spec_on_record(*self, spec_record_width(four_byte), max_chunk_bytes),
            r.1 == (self.bytes_in_chunk + spec_record_width(four_byte) >= max_chunk_bytes),
    {
        let w: u64 = if four_byte {
            4
        } else {
            3
        };
        let b = self.bytes_in_chunk + w;
        if b >= max_chunk_bytes {
            (
                CaptureState {
                    date: self.date,
                    chunk_index: self.chunk_index + 1,
                    bytes_in_chunk: 0,
                },
                true,
            )
        } else {
            (CaptureState { date: self.date, chunk_index: self.chunk_index, bytes_in_chunk: b }, false)
        }
    }
}

/// The size threshold in bytes: the configured megabyte count times
/// 1,048,576.
pub fn max_chunk_bytes_of_mb(max_file_size_mb: u64) -> (r: u64)
    requires
        max_file_size_mb * 1048576 <= u64::MAX,
    ensures
        r == max_file_size_mb * 1048576,
{
    max_file_size_mb * 1048576
}

/// The session state follows the policy: once per record boundary, with the
/// observed date checked first, the decision names exactly the transition
/// the state functions make. `bytes_written` is measured after the append.
pub proof fn lemma_state_follows_policy(s: CaptureState, today: Date, four_byte: bool, max: u64)
    requires
        s.bytes_in_chunk + spec_record_width(four_byte) <= u64::MAX,
        s.chunk_index < u64::MAX,
    ensures
        ({
            let w = spec_record_width(four_byte);
            let after = (s.bytes_in_chunk + w) as u64;
            match spec_decide_rotation(s.date, today, after, max) {
                RotationDecision::NewDay => spec_on_new_date(s, today) == (CaptureState {
                    date: today,
                    chunk_index: 1,
                    bytes_in_chunk: 0,
                }),
                RotationDecision::NewSizeChunk => spec_on_new_date(s, today) == s && spec_on_record(
                    s,
                    w,
                    max,
                ) == (CaptureState {
                    date: s.date,
                    chunk_index: (s.chunk_index + 1) as u64,
                    bytes_in_chunk: 0,
                }),
                RotationDecision::Continue => spec_on_new_date(s, today) == s && spec_on_record(
                    s,
                    w,
                    max,
                ) == (CaptureState {
                    date: s.date,
                    chunk_index: s.chunk_index,
                    bytes_in_chunk: after,
                }),
            }
        }),
{
}

/// Date rotation: a date change always opens index 1 under the new day
/// with the byte counter reset, independent of how full the chunk was.
pub proof fn lemma_date_rotation(s: CaptureState, today: Date)
    requires
        today != s.date,
    ensures
        spec_on_new_date(s, today) == (CaptureState {
            date: today,
            chunk_index: 1,
            bytes_in_chunk: 0,
        }),
{
}

/// While a fresh chunk is below capacity, records accumulate in it: after
/// `j < k` records the chunk index is unchanged and `j * w` bytes are in
/// the chunk.
pub proof fn lemma_fills_below_capacity(s0: CaptureState, j: nat, k: nat, w: nat, max: u64)
    requires
        s0.bytes_in_chunk == 0,
        max == k * w,
        1 <= w,
        1 <= k,
        j < k,
        s0.chunk_index < u64::MAX,
    ensures
        spec_run_records(s0, j, w, max) == (CaptureState {
            date: s0.date,
            chunk_index: s0.chunk_index,
            bytes_in_chunk: (j * w) as u64,
        }),
    decreases j,
{
    vstd::arithmetic::mul::lemma_mul_inequality(j as int, k as int, w as int);
    if j == 0 {
        assert(spec_run_records(s0, 0, w, max) == s0);
        assert(0 * w == 0) by (nonlinear_arith);
    } else {
        lemma_fills_below_capacity(s0, (j - 1) as nat, k, w, max);
        let prev = spec_run_records(s0, (j - 1) as nat, w, max);
        assert(j * w < k * w) by {
            vstd::arithmetic::mul::lemma_mul_strict_inequality(j as int, k as int, w as int);
        }
        assert((j - 1) * w <= j * w) by {
            vstd::arithmetic::mul::lemma_mul_inequality((j - 1) as int, j as int, w as int);
        }
        assert((j - 1) * w <= u64::MAX);
        assert(prev.bytes_in_chunk == (j - 1) * w);
        assert((j - 1) * w + w == j * w) by (nonlinear_arith);
        lemma_run_records_snoc(s0, j, w, max);
        assert(spec_run_records(s0, j, w, max) == spec_on_record(prev, w, max));
        assert(prev.bytes_in_chunk + w == j * w);
        assert(j * w < max);
    }
}

/// Running `n` records is running `n - 1` and then one more.
pub proof fn lemma_run_records_snoc(s: CaptureState, n: nat, w: nat, max: u64)
    requires
        1 <= n,
    ensures
        spec_run_records(s, n, w, max) == spec_on_record(
            spec_run_records(s, (n - 1) as nat, w, max),
            w,
            max,
        ),
    decreases n,
{
    let s1 = spec_on_record(s, w, max);
    if n == 1 {
        assert(spec_run_records(s, 1, w, max) == spec_run_records(s1, 0, w, max));
        assert(spec_run_records(s1, 0, w, max) == s1);
        assert(spec_run_records(s, 0, w, max) == s);
    } else {
        lemma_run_records_snoc(s1, (n - 1) as nat, w, max);
        assert(spec_run_records(s, n, w, max) == spec_run_records(s1, (n - 1) as nat, w, max));
        assert(spec_run_records(s, (n - 1) as nat, w, max) == spec_run_records(
            s1,
            (n - 2) as nat,
            w,
            max,
        ));
    }
}

/// Size rotation: with a threshold of exactly `k` records' worth of bytes,
/// writing `k + 1` records from a fresh chunk fills that chunk with `k`
/// records, then opens exactly one new chunk, of the next index and the
/// same day, holding the one extra record. (With `k == 1` the extra record
/// reaches the threshold by itself and rotates again, so a single run of
/// two records spreads over three chunks; the law needs `k >= 2`.)
pub proof fn lemma_size_rotation(s0: CaptureState, k: nat, w: nat, max: u64)
    requires
        s0.bytes_in_chunk == 0,
        max == k * w,
        3 <= w,
        2 <= k,
        s0.chunk_index < u64::MAX,
        k * w + w <= u64::MAX,
    ensures
        forall|j: nat|
            j < k ==> (#[trigger] spec_run_records(s0, j, w, max)).chunk_index == s0.chunk_index,
        spec_run_records(s0, k, w, max) == (CaptureState {
            date: s0.date,
            chunk_index: (s0.chunk_index + 1) as u64,
            bytes_in_chunk: 0,
        }),
        spec_run_records(s0, (k + 1) as nat, w, max) == (CaptureState {
            date: s0.date,
            chunk_index: (s0.chunk_index + 1) as u64,
            bytes_in_chunk: w as u64,
        }),
{
    assert forall|j: nat| j < k implies (#[trigger] spec_run_records(s0, j, w, max)).chunk_index
        == s0.chunk_index by {
        lemma_fills_below_capacity(s0, j, k, w, max);
    }
    lemma_fills_below_capacity(s0, (k - 1) as nat, k, w, max);
    lemma_run_records_snoc(s0, k, w, max);
    assert((k - 1) * w + w == k * w) by (nonlinear_arith);
    lemma_run_records_snoc(s0, (k + 1) as nat, w, max);
    assert(w < max) by {
        vstd::arithmetic::mul::lemma_mul_strict_inequality(1, k as int, w as int);
    }
}

} // verus!
