//! Walking a date-partitioned hierarchy.
//!
//! Chunks for day `YYYY-MM-DD` live under `base/YYYY/MM/DD`. Read-side
//! operations never trust directory enumeration: a name that is not a
//! decimal number, or a `(year, month, day)` triple that is not a real
//! calendar date, is not data and is skipped silently, and days are
//! replayed in ascending chronological order whatever order enumeration
//! produced. The enumeration itself happens outside the crate; it hands in
//! the entry names and file sizes found on disk as plain values.

use crate::date::{spec_date_lt, spec_valid_date, Date};
use crate::naming::{lex_lt_bytes, name_matches, spec_name_matches};
use crate::text::lex_lt;
use vstd::prelude::*;

verus! {

/// One directory entry of a day directory.
pub struct FileEntry {
    /// Entry name, as bytes.
    pub name: Vec<u8>,
    /// Size in bytes; meaningful for regular files.
    pub size: u64,
    /// Whether the entry is a regular file.
    pub is_file: bool,
}

/// One `DD` directory with the entries found inside it.
pub struct DayDir {
    pub name: Vec<u8>,
    pub files: Vec<FileEntry>,
}

/// One `MM` directory with the day directories found inside it.
pub struct MonthDir {
    pub name: Vec<u8>,
    pub days: Vec<DayDir>,
}

/// One `YYYY` directory with the month directories found inside it.
pub struct YearDir {
    pub name: Vec<u8>,
    pub months: Vec<MonthDir>,
}

/// All bytes are ASCII digits and there is at least one.
pub open spec fn spec_is_digits(s: Seq<u8>) -> bool {
    s.len() > 0 && forall|i: int| 0 <= i < s.len() ==> 48 <= #[trigger] s[i] <= 57
}

/// Numeric value of a digit string, most significant digit first.
pub open spec fn spec_dec_value(s: Seq<u8>) -> nat
    decreases s.len(),
{
    if s.len() == 0 {
        0
    } else {
        (spec_dec_value(s.drop_last()) * 10 + (s.last() - 48)) as nat
    }
}

/// How a directory name parses as an unsigned number: digits only, value
/// within range.
pub open spec fn spec_parse_u32(s: Seq<u8>) -> Option<u32> {
    if spec_is_digits(s) && spec_dec_value(s) <= u32::MAX {
        Some(spec_dec_value(s) as u32)
    } else {
        None
    }
}

/// The calendar day that a `YYYY/MM/DD` component triple denotes, if all
/// three parse as numbers and form a real calendar date.
pub open spec fn spec_entry_date(y: Seq<u8>, m: Seq<u8>, d: Seq<u8>) -> Option<Date> {
    match (spec_parse_u32(y), spec_parse_u32(m), spec_parse_u32(d)) {
        (Some(yv), Some(mv), Some(dv)) => if spec_valid_date(yv as int, mv as int, dv as int) {
            Some(Date { year: yv, month: mv, day: dv })
        } else {
            None
        },
        _ => None,
    }
}

/// A digit-string prefix never exceeds the whole string's value.
proof fn lemma_dec_value_prefix_le(s: Seq<u8>, i: int)
    requires
        0 <= i <= s.len(),
        spec_is_digits(s),
    ensures
        spec_dec_value(s.take(i)) <= spec_dec_value(s),
    decreases s.len() - i,
{
    if i < s.len() {
        lemma_dec_value_prefix_le(s, i + 1);
        assert(s.take(i + 1).drop_last() =~= s.take(i));
        assert(spec_dec_value(s.take(i + 1)) == spec_dec_value(s.take(i)) * 10 + (s.take(i + 1).last() - 48));
    } else {
        assert(s.take(i) =~= s);
    }
}

/// Parses a directory entry name as an unsigned decimal number, as read-side
/// walks do: any non-digit, an empty name, or a value out of range is a
/// skip, not an error.
pub fn parse_dir_number(name: &Vec<u8>) -> (r: Option<u32>)
    ensures
        r == spec_parse_u32(name@),
{
    if name.len() == 0 {
        return None;
    }
    let mut acc: u64 = 0;
    let mut i: usize = 0;
    while i < name.len()
        invariant
            i <= name@.len(),
            name@.len() > 0,
            forall|j: int| 0 <= j < i ==> 48 <= #[trigger] name@[j] <= 57,
            acc == spec_dec_value(name@.take(i as int)),
            acc <= u32::MAX,
        decreases name@.len() - i,
    {
        let b = name[i];
        if b < 48 || b > 57 {
            return None;
        }
        let next = acc * 10 + ((b - 48) as u64);
        proof {
            assert(name@.take(i + 1).drop_last() =~= name@.take(i as int));
            assert(spec_dec_value(name@.take(i + 1)) == acc * 10 + (b - 48));
        }
        if next > 0xffff_ffff {
            proof {
                assert(spec_is_digits(name@) ==> spec_dec_value(name@) > u32::MAX) by {
                    if spec_is_digits(name@) {
                        lemma_dec_value_prefix_le(name@, i + 1);
                    }
                }
            }
            return None;
        }
        acc = next;
        i = i + 1;
    }
    proof {
        assert(name@.take(i as int) =~= name@);
    }
    Some(acc as u32)
}

/// Combines three parsed directory components into the day they denote,
/// skipping triples that are not real calendar dates.
pub fn dir_entry_date(y: &Vec<u8>, m: &Vec<u8>, d: &Vec<u8>) -> (r: Option<Date>)
    ensures
        r == spec_entry_date(y@, m@, d@),
{
    match (parse_dir_number(y), parse_dir_number(m), parse_dir_number(d)) {
        (Some(yv), Some(mv), Some(dv)) => Date::new(yv, mv, dv),
        _ => None,
    }
}

/// The names in one day directory that match day `d`'s chunk pattern, in
/// enumeration order.
pub open spec fn spec_matching_names(files: Seq<FileEntry>, d: Date) -> Seq<Seq<u8>>
    decreases files.len(),
{
    if files.len() == 0 {
        Seq::empty()
    } else {
        let rest = spec_matching_names(files.drop_last(), d);
        if spec_name_matches(files.last().name@, d) {
            rest + seq![files.last().name@]
        } else {
            rest
        }
    }
}

/// Insertion of one name into a lexicographically sorted list, after any
/// equal names.
pub open spec fn spec_insert_name(x: Seq<u8>, s: Seq<Seq<u8>>) -> Seq<Seq<u8>>
    decreases s.len(),
{
    if s.len() == 0 {
        seq![x]
    } else if lex_lt(x, s[0]) {
        seq![x] + s
    } else {
        seq![s[0]] + spec_insert_name(x, s.skip(1))
    }
}

/// Insertion sort of names, taken left to right.
pub open spec fn spec_sort_names(s: Seq<Seq<u8>>) -> Seq<Seq<u8>>
    decreases s.len(),
{
    if s.len() == 0 {
        Seq::empty()
    } else {
        spec_insert_name(s.last(), spec_sort_names(s.drop_last()))
    }
}

/// The chunk names of day `d`: the matching names, sorted byte-wise, which
/// is ascending index order for names the writer produced.
pub open spec fn spec_day_chunks(files: Seq<FileEntry>, d: Date) -> Seq<Seq<u8>> {
    spec_sort_names(spec_matching_names(files, d))
}

/// Inserting at the first position whose element sorts after `x` is what
/// the recursive insertion does.
proof fn lemma_insert_name_splice(x: Seq<u8>, s: Seq<Seq<u8>>, p: int)
    requires
        0 <= p <= s.len(),
        forall|j: int| 0 <= j < p ==> !lex_lt(x, #[trigger] s[j]),
        p < s.len() ==> lex_lt(x, s[p]),
    ensures
        spec_insert_name(x, s) == s.insert(p, x),
    decreases p,
{
    if p == 0 {
        if s.len() == 0 {
            assert(spec_insert_name(x, s) =~= s.insert(0, x));
        } else {
            assert(spec_insert_name(x, s) =~= s.insert(0, x));
        }
    } else {
        lemma_insert_name_splice(x, s.skip(1), p - 1);
        assert(spec_insert_name(x, s) =~= s.insert(p, x));
    }
}

/// Copies a byte string.
pub fn copy_bytes(v: &Vec<u8>) -> (r: Vec<u8>)
    ensures
        r@ == v@,
{
    let mut r: Vec<u8> = Vec::new();
    let mut i: usize = 0;
    while i < v.len()
        invariant
            i <= v@.len(),
            r@ == v@.take(i as int),
        decreases v@.len() - i,
    {
        r.push(v[i]);
        assert(r@ =~= v@.take(i + 1));
        i = i + 1;
    }
    assert(r@ =~= v@);
    r
}

/// Inserts one name into a sorted list of names, keeping it sorted.
fn insert_name_sorted(sorted: &mut Vec<Vec<u8>>, x: Vec<u8>)
    ensures
        final(sorted).deep_view() == spec_insert_name(x@, old(sorted).deep_view()),
{
    let ghost dv = sorted.deep_view();
    let mut p: usize = 0;
    let mut found = false;
    while p < sorted.len() && !found
        invariant
            0 <= p <= sorted@.len(),
            dv == sorted.deep_view(),
            dv.len() == sorted@.len(),
            forall|j: int| 0 <= j < dv.len() ==> dv[j] == sorted@[j]@,
            forall|j: int| 0 <= j < p ==> !lex_lt(x@, #[trigger] dv[j]),
            found ==> p < dv.len() && lex_lt(x@, dv[p as int]),
        decreases sorted@.len() - p + (if found {
            0int
        } else {
            1int
        }),
    {
        if lex_lt_bytes(&x, &sorted[p]) {
            found = true;
        } else {
            p = p + 1;
        }
    }
    proof {
        lemma_insert_name_splice(x@, dv, p as int);
    }
    sorted.insert(p, x);
    assert(sorted.deep_view() =~~= dv.insert(p as int, x@));
}

/// Selects and sorts the chunk names of day `d` from one day directory's
/// entries.
pub fn select_chunk_names(files: &Vec<FileEntry>, d: &Date) -> (out: Vec<Vec<u8>>)
    ensures
        out.deep_view() == spec_day_chunks(files@, *d),
{
    let mut matched: Vec<Vec<u8>> = Vec::new();
    let mut i: usize = 0;
    while i < files.len()
        invariant
            i <= files@.len(),
            matched.deep_view() == spec_matching_names(files@.take(i as int), *d),
        decreases files@.len() - i,
    {
        let ghost pre = matched.deep_view();
        if name_matches(&files[i].name, d) {
            let n = copy_bytes(&files[i].name);
            matched.push(n);
        }
        proof {
            assert(files@.take(i + 1).drop_last() =~= files@.take(i as int));
            assert(files@.take(i + 1).last() == files@[i as int]);
            if spec_name_matches(files@[i as int].name@, *d) {
                assert(matched.deep_view() =~~= pre + seq![files@[i as int].name@]);
            }
        }
        i = i + 1;
    }
    assert(files@.take(files@.len() as int) =~= files@);
    let mut out: Vec<Vec<u8>> = Vec::new();
    let ghost names = matched.deep_view();
    let mut k: usize = 0;
    while k < matched.len()
        invariant
            k <= matched@.len(),
            names == matched.deep_view(),
            names.len() == matched@.len(),
            forall|j: int| 0 <= j < names.len() ==> names[j] == matched@[j]@,
            out.deep_view() == spec_sort_names(names.take(k as int)),
        decreases matched@.len() - k,
    {
        let n = copy_bytes(&matched[k]);
        insert_name_sorted(&mut out, n);
        proof {
            assert(names.take(k + 1).drop_last() =~= names.take(k as int));
            assert(names.take(k + 1).last() == names[k as int]);
        }
        k = k + 1;
    }
    assert(names.take(names.len() as int) =~= names);
    out
}

/// One located day: its date and the sorted names of its chunks.
pub struct LocatedDay {
    pub date: Date,
    pub chunks: Vec<Vec<u8>>,
}

/// The located days of one month directory, in enumeration order: every
/// day entry that denotes a valid calendar date, with its sorted chunks.
pub open spec fn spec_flat_days(yn: Seq<u8>, mn: Seq<u8>, days: Seq<DayDir>) -> Seq<
    (Date, Seq<Seq<u8>>),
>
    decreases days.len(),
{
    if days.len() == 0 {
        Seq::empty()
    } else {
        let rest = spec_flat_days(yn, mn, days.drop_last());
        match spec_entry_date(yn, mn, days.last().name@) {
            Some(d) => rest + seq![(d, spec_day_chunks(days.last().files@, d))],
            None => rest,
        }
    }
}

/// The located days of one year directory, in enumeration order.
pub open spec fn spec_flat_months(yn: Seq<u8>, months: Seq<MonthDir>) -> Seq<(Date, Seq<Seq<u8>>)>
    decreases months.len(),
{
    if months.len() == 0 {
        Seq::empty()
    } else {
        spec_flat_months(yn, months.drop_last()) + spec_flat_days(
            yn,
            months.last().name@,
            months.last().days@,
        )
    }
}

/// The located days of the whole hierarchy, in enumeration order.
pub open spec fn spec_flat_years(years: Seq<YearDir>) -> Seq<(Date, Seq<Seq<u8>>)>
    decreases years.len(),
{
    if years.len() == 0 {
        Seq::empty()
    } else {
        spec_flat_years(years.drop_last()) + spec_flat_months(
            years.last().name@,
            years.last().months@,
        )
    }
}

/// Insertion of one located day into a chronologically sorted list, after
/// any day with the same date.
pub open spec fn spec_insert_day(
    x: (Date, Seq<Seq<u8>>),
    s: Seq<(Date, Seq<Seq<u8>>)>,
) -> Seq<(Date, Seq<Seq<u8>>)>
    decreases s.len(),
{
    if s.len() == 0 {
        seq![x]
    } else if spec_date_lt(x.0, s[0].0) {
        seq![x] + s
    } else {
        seq![s[0]] + spec_insert_day(x, s.skip(1))
    }
}

/// Insertion sort of located days by date, taken left to right.
pub open spec fn spec_sort_days(s: Seq<(Date, Seq<Seq<u8>>)>) -> Seq<(Date, Seq<Seq<u8>>)>
    decreases s.len(),
{
    if s.len() == 0 {
        Seq::empty()
    } else {
        spec_insert_day(s.last(), spec_sort_days(s.drop_last()))
    }
}

/// What locating yields on a whole hierarchy: every valid calendar day
/// found, in ascending chronological order, each with its sorted chunks.
pub open spec fn spec_locate(years: Seq<YearDir>) -> Seq<(Date, Seq<Seq<u8>>)> {
    spec_sort_days(spec_flat_years(years))
}

/// Ghost image of a list of located days.
pub open spec fn spec_located_rep(s: Seq<LocatedDay>) -> Seq<(Date, Seq<Seq<u8>>)> {
    Seq::new(s.len(), |i: int| (s[i].date, s[i].chunks.deep_view()))
}

/// Inserting at the first position whose date sorts after `x` is what the
/// recursive insertion does.
proof fn lemma_insert_day_splice(x: (Date, Seq<Seq<u8>>), s: Seq<(Date, Seq<Seq<u8>>)>, p: int)
    requires
        0 <= p <= s.len(),
        forall|j: int| 0 <= j < p ==> !spec_date_lt(x.0, (#[trigger] s[j]).0),
        p < s.len() ==> spec_date_lt(x.0, s[p].0),
    ensures
        spec_insert_day(x, s) == s.insert(p, x),
    decreases p,
{
    if p == 0 {
        assert(spec_insert_day(x, s) =~= s.insert(0, x));
    } else {
        lemma_insert_day_splice(x, s.skip(1), p - 1);
        assert(spec_insert_day(x, s) =~= s.insert(p, x));
    }
}

/// Inserts one located day into a chronologically sorted list.
fn insert_day_sorted(sorted: &mut Vec<LocatedDay>, x: LocatedDay)
    ensures
        spec_located_rep(final(sorted)@) == spec_insert_day(
            (x.date, x.chunks.deep_view()),
            spec_located_rep(old(sorted)@),
        ),
{
    let ghost rep = spec_located_rep(sorted@);
    let mut p: usize = 0;
    let mut found = false;
    while p < sorted.len() && !found
        invariant
            0 <= p <= sorted@.len(),
            rep == spec_located_rep(sorted@),
            rep.len() == sorted@.len(),
            forall|j: int| 0 <= j < p ==> !spec_date_lt(x.date, (#[trigger] rep[j]).0),
            found ==> p < rep.len() && spec_date_lt(x.date, rep[p as int].0),
        decreases sorted@.len() - p + (if found {
            0int
        } else {
            1int
        }),
    {
        if x.date.lt(&sorted[p].date) {
            found = true;
        } else {
            assert(rep[p as int].0 == sorted@[p as int].date);
            p = p + 1;
        }
    }
    proof {
        lemma_insert_day_splice((x.date, x.chunks.deep_view()), rep, p as int);
    }
    let ghost xrep = (x.date, x.chunks.deep_view());
    sorted.insert(p, x);
    assert(spec_located_rep(sorted@) =~~= rep.insert(p as int, xrep));
}

/// Locates every chunk of the hierarchy: walks all year, month and day
/// entries, skips any component that is not a number or does not form a
/// valid calendar date, and returns the remaining days in ascending
/// chronological order, each with its chunk names sorted in write order.
pub fn locate_chunks(years: &Vec<YearDir>) -> (out: Vec<LocatedDay>)
    ensures
        spec_located_rep(out@) == spec_locate(years@),
{
    let mut out: Vec<LocatedDay> = Vec::new();
    assert(spec_located_rep(out@) =~= spec_sort_days(spec_flat_years(years@.take(0))));
    let mut i: usize = 0;
    while i < years.len()
        invariant
            i <= years@.len(),
            spec_located_rep(out@) == spec_sort_days(spec_flat_years(years@.take(i as int))),
        decreases years@.len() - i,
    {
        let ghost flat_prev = spec_flat_years(years@.take(i as int));
        let y = &years[i];
        let mut j: usize = 0;
        assert(flat_prev + spec_flat_months(y.name@, y.months@.take(0)) =~= flat_prev);
        while j < y.months.len()
            invariant
                j <= y.months@.len(),
                y == years@[i as int],
                i < years@.len(),
                flat_prev == spec_flat_years(years@.take(i as int)),
                spec_located_rep(out@) == spec_sort_days(
                    flat_prev + spec_flat_months(y.name@, y.months@.take(j as int)),
                ),
            decreases y.months@.len() - j,
        {
            let ghost flat_m = flat_prev + spec_flat_months(y.name@, y.months@.take(j as int));
            let m = &y.months[j];
            let mut k: usize = 0;
            assert(flat_m + spec_flat_days(y.name@, m.name@, m.days@.take(0)) =~= flat_m);
            while k < m.days.len()
                invariant
                    k <= m.days@.len(),
                    m == y.months@[j as int],
                    j < y.months@.len(),
                    y == years@[i as int],
                    i < years@.len(),
                    flat_m == spec_flat_years(years@.take(i as int)) + spec_flat_months(
                        y.name@,
                        y.months@.take(j as int),
                    ),
                    spec_located_rep(out@) == spec_sort_days(
                        flat_m + spec_flat_days(y.name@, m.name@, m.days@.take(k as int)),
                    ),
                decreases m.days@.len() - k,
            {
                let dd = &m.days[k];
                let ghost flat_d = flat_m + spec_flat_days(y.name@, m.name@, m.days@.take(k as int));
                proof {
                    assert(m.days@.take(k + 1).drop_last() =~= m.days@.take(k as int));
                    assert(m.days@.take(k + 1).last() == m.days@[k as int]);
                }
                match dir_entry_date(&y.name, &m.name, &dd.name) {
                    Some(date) => {
                        let chunks = select_chunk_names(&dd.files, &date);
                        let item = LocatedDay { date, chunks };
                        proof {
                            assert(flat_m + spec_flat_days(y.name@, m.name@, m.days@.take(k + 1))
                                =~= flat_d + seq![
                                (date, spec_day_chunks(dd.files@, date)),
                            ]);
                            assert((flat_d + seq![(date, spec_day_chunks(dd.files@, date))]).drop_last()
                                =~= flat_d);
                        }
                        insert_day_sorted(&mut out, item);
                    },
                    None => {
                        proof {
                            assert(flat_m + spec_flat_days(y.name@, m.name@, m.days@.take(k + 1))
                                =~= flat_d);
                        }
                    },
                }
                k = k + 1;
            }
            proof {
                assert(m.days@.take(m.days@.len() as int) =~= m.days@);
                assert(y.months@.take(j + 1).drop_last() =~= y.months@.take(j as int));
                assert(y.months@.take(j + 1).last() == y.months@[j as int]);
                assert(flat_prev + spec_flat_months(y.name@, y.months@.take(j + 1)) =~= flat_m
                    + spec_flat_days(y.name@, m.name@, m.days@));
            }
            j = j + 1;
        }
        proof {
            assert(y.months@.take(y.months@.len() as int) =~= y.months@);
            assert(years@.take(i + 1).drop_last() =~= years@.take(i as int));
            assert(years@.take(i + 1).last() == years@[i as int]);
            assert(spec_flat_years(years@.take(i + 1)) =~= flat_prev + spec_flat_months(
                y.name@,
                y.months@,
            ));
        }
        i = i + 1;
    }
    assert(years@.take(years@.len() as int) =~= years@);
    out
}

/// A month directory under which no entry can denote a valid date locates
/// no day.
proof fn lemma_flat_days_no_date(yn: Seq<u8>, mn: Seq<u8>, days: Seq<DayDir>)
    requires
        forall|dn: Seq<u8>| #[trigger] spec_entry_date(yn, mn, dn) is None,
    ensures
        spec_flat_days(yn, mn, days) == Seq::<(Date, Seq<Seq<u8>>)>::empty(),
    decreases days.len(),
{
    if days.len() > 0 {
        lemma_flat_days_no_date(yn, mn, days.drop_last());
        assert(spec_flat_days(yn, mn, days) =~= Seq::<(Date, Seq<Seq<u8>>)>::empty());
    }
}

/// A year directory whose name is not a number locates no day.
proof fn lemma_flat_months_invalid_year(yn: Seq<u8>, months: Seq<MonthDir>)
    requires
        spec_parse_u32(yn) is None,
    ensures
        spec_flat_months(yn, months) == Seq::<(Date, Seq<Seq<u8>>)>::empty(),
    decreases months.len(),
{
    if months.len() > 0 {
        lemma_flat_months_invalid_year(yn, months.drop_last());
        assert forall|dn: Seq<u8>| #[trigger] spec_entry_date(
            yn,
            months.last().name@,
            dn,
        ) is None by {}
        lemma_flat_days_no_date(yn, months.last().name@, months.last().days@);
        assert(spec_flat_months(yn, months) =~= Seq::<(Date, Seq<Seq<u8>>)>::empty());
    }
}

/// Skip-invalid, year level: a sibling year directory whose name is not a
/// number, inserted anywhere, locates the hierarchy identically.
pub proof fn lemma_locate_skips_invalid_year(years: Seq<YearDir>, i: int, junk: YearDir)
    requires
        0 <= i <= years.len(),
        spec_parse_u32(junk.name@) is None,
    ensures
        spec_locate(years.insert(i, junk)) == spec_locate(years),
{
    lemma_flat_years_skips_invalid(years, i, junk);
}

/// The enumeration-order day list ignores an inserted non-numeric year.
proof fn lemma_flat_years_skips_invalid(years: Seq<YearDir>, i: int, junk: YearDir)
    requires
        0 <= i <= years.len(),
        spec_parse_u32(junk.name@) is None,
    ensures
        spec_flat_years(years.insert(i, junk)) == spec_flat_years(years),
    decreases years.len(),
{
    let s = years.insert(i, junk);
    if i == years.len() {
        assert(s.drop_last() =~= years);
        assert(s.last() == junk);
        lemma_flat_months_invalid_year(junk.name@, junk.months@);
        assert(spec_flat_years(s) =~= spec_flat_years(years));
    } else {
        assert(s.drop_last() =~= years.drop_last().insert(i, junk));
        assert(s.last() == years.last());
        lemma_flat_years_skips_invalid(years.drop_last(), i, junk);
    }
}

/// Skip-invalid, month level: a sibling month directory under which no
/// entry can denote a valid date (a non-numeric name, or a month such as
/// 13), inserted anywhere in one year directory, locates that year's days
/// identically.
pub proof fn lemma_flat_months_skips_invalid(
    yn: Seq<u8>,
    months: Seq<MonthDir>,
    i: int,
    junk: MonthDir,
)
    requires
        0 <= i <= months.len(),
        forall|dn: Seq<u8>| #[trigger] spec_entry_date(yn, junk.name@, dn) is None,
    ensures
        spec_flat_months(yn, months.insert(i, junk)) == spec_flat_months(yn, months),
    decreases months.len(),
{
    let s = months.insert(i, junk);
    if i == months.len() {
        assert(s.drop_last() =~= months);
        assert(s.last() == junk);
        lemma_flat_days_no_date(yn, junk.name@, junk.days@);
        assert(spec_flat_months(yn, s) =~= spec_flat_months(yn, months));
    } else {
        assert(s.drop_last() =~= months.drop_last().insert(i, junk));
        assert(s.last() == months.last());
        lemma_flat_months_skips_invalid(yn, months.drop_last(), i, junk);
    }
}

/// Skip-invalid, day level: a sibling day directory whose name does not
/// complete a valid calendar date (non-numeric, or a day such as 99),
/// inserted anywhere in one month directory, locates that month's days
/// identically.
pub proof fn lemma_flat_days_skips_invalid(
    yn: Seq<u8>,
    mn: Seq<u8>,
    days: Seq<DayDir>,
    i: int,
    junk: DayDir,
)
    requires
        0 <= i <= days.len(),
        spec_entry_date(yn, mn, junk.name@) is None,
    ensures
        spec_flat_days(yn, mn, days.insert(i, junk)) == spec_flat_days(yn, mn, days),
    decreases days.len(),
{
    let s = days.insert(i, junk);
    if i == days.len() {
        assert(s.drop_last() =~= days);
        assert(s.last() == junk);
    } else {
        assert(s.drop_last() =~= days.drop_last().insert(i, junk));
        assert(s.last() == days.last());
        lemma_flat_days_skips_invalid(yn, mn, days.drop_last(), i, junk);
    }
}

} // verus!
