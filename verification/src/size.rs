//! Size aggregation over the date hierarchy.
//!
//! Reports how many bytes of chunk data sit under the base directory, per
//! day, per month, per year, and in total, walking the hierarchy with the
//! same skip rules as the chunk locator: entries that are not numbers or do
//! not form a real calendar date are not data and count nothing. Only
//! regular files are summed. Entries appear in enumeration order; sums do
//! not depend on it.

use crate::date::Date;
use crate::walk::{
    dir_entry_date, parse_dir_number, spec_entry_date, spec_parse_u32, DayDir, FileEntry,
    MonthDir, YearDir,
};
use vstd::prelude::*;

verus! {

/// Bytes of the regular files among one day directory's entries.
pub open spec fn spec_day_bytes(files: Seq<FileEntry>) -> int
    decreases files.len(),
{
    if files.len() == 0 {
        0
    } else {
        spec_day_bytes(files.drop_last()) + if files.last().is_file {
            files.last().size as int
        } else {
            0
        }
    }
}

/// Bytes under one month directory: the day entries that form a valid
/// calendar date with `yn` and `mn`, summed.
pub open spec fn spec_month_bytes(yn: Seq<u8>, mn: Seq<u8>, days: Seq<DayDir>) -> int
    decreases days.len(),
{
    if days.len() == 0 {
        0
    } else {
        spec_month_bytes(yn, mn, days.drop_last()) + if spec_entry_date(
            yn,
            mn,
            days.last().name@,
        ) is Some {
            spec_day_bytes(days.last().files@)
        } else {
            0
        }
    }
}

/// Bytes under one year directory.
pub open spec fn spec_year_bytes(yn: Seq<u8>, months: Seq<MonthDir>) -> int
    decreases months.len(),
{
    if months.len() == 0 {
        0
    } else {
        spec_year_bytes(yn, months.drop_last()) + spec_month_bytes(
            yn,
            months.last().name@,
            months.last().days@,
        )
    }
}

/// Bytes under the whole hierarchy.
pub open spec fn spec_grand_bytes(years: Seq<YearDir>) -> int
    decreases years.len(),
{
    if years.len() == 0 {
        0
    } else {
        spec_grand_bytes(years.drop_last()) + spec_year_bytes(
            years.last().name@,
            years.last().months@,
        )
    }
}

/// Day sums are never negative.
pub proof fn lemma_day_bytes_nonneg(files: Seq<FileEntry>)
    ensures
        spec_day_bytes(files) >= 0,
    decreases files.len(),
{
    if files.len() > 0 {
        lemma_day_bytes_nonneg(files.drop_last());
    }
}

/// Month sums are never negative.
pub proof fn lemma_month_bytes_nonneg(yn: Seq<u8>, mn: Seq<u8>, days: Seq<DayDir>)
    ensures
        spec_month_bytes(yn, mn, days) >= 0,
    decreases days.len(),
{
    if days.len() > 0 {
        lemma_month_bytes_nonneg(yn, mn, days.drop_last());
        lemma_day_bytes_nonneg(days.last().files@);
    }
}

/// Year sums are never negative.
pub proof fn lemma_year_bytes_nonneg(yn: Seq<u8>, months: Seq<MonthDir>)
    ensures
        spec_year_bytes(yn, months) >= 0,
    decreases months.len(),
{
    if months.len() > 0 {
        lemma_year_bytes_nonneg(yn, months.drop_last());
        lemma_month_bytes_nonneg(yn, months.last().name@, months.last().days@);
    }
}

/// The grand sum is never negative.
pub proof fn lemma_grand_bytes_nonneg(years: Seq<YearDir>)
    ensures
        spec_grand_bytes(years) >= 0,
    decreases years.len(),
{
    if years.len() > 0 {
        lemma_grand_bytes_nonneg(years.drop_last());
        lemma_year_bytes_nonneg(years.last().name@, years.last().months@);
    }
}

/// A prefix of the entries never sums to more than all of them.
pub proof fn lemma_day_bytes_prefix(files: Seq<FileEntry>, t: int)
    requires
        0 <= t <= files.len(),
    ensures
        spec_day_bytes(files.take(t)) <= spec_day_bytes(files),
    decreases files.len() - t,
{
    if t < files.len() {
        lemma_day_bytes_prefix(files, t + 1);
        assert(files.take(t + 1).drop_last() =~= files.take(t));
    } else {
        assert(files.take(t) =~= files);
    }
}

/// A prefix of the day entries never sums to more than all of them.
pub proof fn lemma_month_bytes_prefix(yn: Seq<u8>, mn: Seq<u8>, days: Seq<DayDir>, t: int)
    requires
        0 <= t <= days.len(),
    ensures
        spec_month_bytes(yn, mn, days.take(t)) <= spec_month_bytes(yn, mn, days),
    decreases days.len() - t,
{
    if t < days.len() {
        lemma_month_bytes_prefix(yn, mn, days, t + 1);
        assert(days.take(t + 1).drop_last() =~= days.take(t));
        lemma_day_bytes_nonneg(days[t].files@);
    } else {
        assert(days.take(t) =~= days);
    }
}

/// A prefix of the month entries never sums to more than all of them.
pub proof fn lemma_year_bytes_prefix(yn: Seq<u8>, months: Seq<MonthDir>, t: int)
    requires
        0 <= t <= months.len(),
    ensures
        spec_year_bytes(yn, months.take(t)) <= spec_year_bytes(yn, months),
    decreases months.len() - t,
{
    if t < months.len() {
        lemma_year_bytes_prefix(yn, months, t + 1);
        assert(months.take(t + 1).drop_last() =~= months.take(t));
        lemma_month_bytes_nonneg(yn, months[t].name@, months[t].days@);
    } else {
        assert(months.take(t) =~= months);
    }
}

/// A prefix of the year entries never sums to more than all of them.
pub proof fn lemma_grand_bytes_prefix(years: Seq<YearDir>, t: int)
    requires
        0 <= t <= years.len(),
    ensures
        spec_grand_bytes(years.take(t)) <= spec_grand_bytes(years),
    decreases years.len() - t,
{
    if t < years.len() {
        lemma_grand_bytes_prefix(years, t + 1);
        assert(years.take(t + 1).drop_last() =~= years.take(t));
        lemma_year_bytes_nonneg(years[t].name@, years[t].months@);
    } else {
        assert(years.take(t) =~= years);
    }
}

/// Everything already summed while standing inside year `i`, month `j`,
/// day `k`, plus that whole day, still fits under the grand total.
proof fn lemma_nest_bound(years: Seq<YearDir>, i: int, j: int, k: int)
    requires
        0 <= i < years.len(),
        0 <= j < years[i].months@.len(),
        0 <= k <= years[i].months@[j].days@.len(),
    ensures
        spec_grand_bytes(years.take(i)) + spec_year_bytes(
            years[i].name@,
            years[i].months@.take(j),
        ) + spec_month_bytes(
            years[i].name@,
            years[i].months@[j].name@,
            years[i].months@[j].days@.take(k),
        ) <= spec_grand_bytes(years),
{
    let yn = years[i].name@;
    let months = years[i].months@;
    let mn = months[j].name@;
    let days = months[j].days@;
    lemma_month_bytes_prefix(yn, mn, days, k);
    assert(months.take(j + 1).drop_last() =~= months.take(j));
    assert(spec_year_bytes(yn, months.take(j + 1)) == spec_year_bytes(yn, months.take(j))
        + spec_month_bytes(yn, mn, days));
    lemma_year_bytes_prefix(yn, months, j + 1);
    assert(years.take(i + 1).drop_last() =~= years.take(i));
    assert(spec_grand_bytes(years.take(i + 1)) == spec_grand_bytes(years.take(i))
        + spec_year_bytes(yn, months));
    lemma_grand_bytes_prefix(years, i + 1);
    lemma_year_bytes_prefix(yn, months, j);
    lemma_month_bytes_prefix(yn, mn, days, k);
    lemma_month_bytes_nonneg(yn, mn, days.take(k));
    lemma_year_bytes_nonneg(yn, months.take(j));
    lemma_grand_bytes_nonneg(years.take(i));
}

/// Per-day line of the report.
#[derive(Clone, Copy, PartialEq, Eq, Structural, Debug)]
pub struct DayTotal {
    pub date: Date,
    pub bytes: u64,
}

/// Per-month section of the report.
pub struct MonthTotal {
    pub month: u32,
    pub bytes: u64,
    pub days: Vec<DayTotal>,
}

/// Per-year section of the report.
pub struct YearTotal {
    pub year: u32,
    pub bytes: u64,
    pub months: Vec<MonthTotal>,
}

/// The whole aggregation report.
pub struct SizeReport {
    pub years: Vec<YearTotal>,
    pub total_bytes: u64,
}

/// Ghost image of a list of day lines.
pub open spec fn spec_day_rep(s: Seq<DayTotal>) -> Seq<(Date, int)> {
    Seq::new(s.len(), |i: int| (s[i].date, s[i].bytes as int))
}

/// Ghost image of a list of month sections.
pub open spec fn spec_month_rep(s: Seq<MonthTotal>) -> Seq<(u32, int, Seq<(Date, int)>)> {
    Seq::new(s.len(), |i: int| (s[i].month, s[i].bytes as int, spec_day_rep(s[i].days@)))
}

/// Ghost image of a list of year sections.
pub open spec fn spec_year_rep(s: Seq<YearTotal>) -> Seq<
    (u32, int, Seq<(u32, int, Seq<(Date, int)>)>),
> {
    Seq::new(s.len(), |i: int| (s[i].year, s[i].bytes as int, spec_month_rep(s[i].months@)))
}

/// The day lines one month section reports: one per valid calendar day,
/// in enumeration order.
pub open spec fn spec_day_entries(yn: Seq<u8>, mn: Seq<u8>, days: Seq<DayDir>) -> Seq<(Date, int)>
    decreases days.len(),
{
    if days.len() == 0 {
        Seq::empty()
    } else {
        let rest = spec_day_entries(yn, mn, days.drop_last());
        match spec_entry_date(yn, mn, days.last().name@) {
            Some(d) => rest + seq![(d, spec_day_bytes(days.last().files@))],
            None => rest,
        }
    }
}

/// The month sections one year section reports: one per month directory
/// whose name is a number from 1 to 12, in enumeration order.
pub open spec fn spec_month_entries(yn: Seq<u8>, months: Seq<MonthDir>) -> Seq<
    (u32, int, Seq<(Date, int)>),
>
    decreases months.len(),
{
    if months.len() == 0 {
        Seq::empty()
    } else {
        let rest = spec_month_entries(yn, months.drop_last());
        let m = months.last();
        match spec_parse_u32(m.name@) {
            Some(mv) => if 1 <= mv <= 12 {
                rest + seq![
                    (mv, spec_month_bytes(yn, m.name@, m.days@), spec_day_entries(
                        yn,
                        m.name@,
                        m.days@,
                    )),
                ]
            } else {
                rest
            },
            None => rest,
        }
    }
}

/// The year sections the report holds: one per year directory whose name
/// is a number, in enumeration order.
pub open spec fn spec_year_entries(years: Seq<YearDir>) -> Seq<
    (u32, int, Seq<(u32, int, Seq<(Date, int)>)>),
>
    decreases years.len(),
{
    if years.len() == 0 {
        Seq::empty()
    } else {
        let rest = spec_year_entries(years.drop_last());
        let y = years.last();
        match spec_parse_u32(y.name@) {
            Some(yv) => rest + seq![
                (yv, spec_year_bytes(y.name@, y.months@), spec_month_entries(y.name@, y.months@)),
            ],
            None => rest,
        }
    }
}

/// A month directory under which no name can denote a valid date counts
/// nothing.
proof fn lemma_month_bytes_no_date(yn: Seq<u8>, mn: Seq<u8>, days: Seq<DayDir>)
    requires
        forall|dn: Seq<u8>| #[trigger] spec_entry_date(yn, mn, dn) is None,
    ensures
        spec_month_bytes(yn, mn, days) == 0,
    decreases days.len(),
{
    if days.len() > 0 {
        lemma_month_bytes_no_date(yn, mn, days.drop_last());
    }
}

/// A month directory whose name is not a number from 1 to 12 counts
/// nothing.
pub proof fn lemma_month_bytes_invalid(yn: Seq<u8>, mn: Seq<u8>, days: Seq<DayDir>)
    requires
        match spec_parse_u32(mn) {
            Some(mv) => !(1 <= mv <= 12),
            None => true,
        },
    ensures
        spec_month_bytes(yn, mn, days) == 0,
{
    assert forall|dn: Seq<u8>| #[trigger] spec_entry_date(yn, mn, dn) is None by {}
    lemma_month_bytes_no_date(yn, mn, days);
}

/// A year directory whose name is not a number counts nothing.
pub proof fn lemma_year_bytes_invalid(yn: Seq<u8>, months: Seq<MonthDir>)
    requires
        spec_parse_u32(yn) is None,
    ensures
        spec_year_bytes(yn, months) == 0,
    decreases months.len(),
{
    if months.len() > 0 {
        lemma_year_bytes_invalid(yn, months.drop_last());
        assert forall|dn: Seq<u8>| #[trigger] spec_entry_date(
            yn,
            months.last().name@,
            dn,
        ) is None by {}
        lemma_month_bytes_no_date(yn, months.last().name@, months.last().days@);
    }
}

/// Walks the whole hierarchy and sums regular-file sizes per valid day,
/// per month, per year, and in total, with the same skip rules as the
/// chunk locator.
#[verifier::rlimit(60)]
pub fn aggregate(years: &Vec<YearDir>) -> (r: SizeReport)
    requires
        spec_grand_bytes(years@) <= u64::MAX,
    ensures
        r.total_bytes == spec_grand_bytes(years@),
        spec_year_rep(r.years@) == spec_year_entries(years@),
{
    let mut out_years: Vec<YearTotal> = Vec::new();
    let mut total_all: u64 = 0;
    proof {
        assert(years@.take(0) =~= Seq::<YearDir>::empty());
        assert(spec_year_rep(out_years@) =~~= spec_year_entries(years@.take(0)));
    }
    let mut i: usize = 0;
    while i < years.len()
        invariant
            i <= years@.len(),
            spec_grand_bytes(years@) <= u64::MAX,
            total_all == spec_grand_bytes(years@.take(i as int)),
            spec_year_rep(out_years@) == spec_year_entries(years@.take(i as int)),
        decreases years@.len() - i,
    {
        let y = &years[i];
        proof {
            assert(years@.take(i + 1).drop_last() =~= years@.take(i as int));
            assert(years@.take(i + 1).last() == years@[i as int]);
        }
        match parse_dir_number(&y.name) {
            None => {
                proof {
                    lemma_year_bytes_invalid(y.name@, y.months@);
                    assert(spec_year_rep(out_years@) =~~= spec_year_entries(years@.take(i + 1)));
                }
            },
            Some(yv) => {
                let mut out_months: Vec<MonthTotal> = Vec::new();
                let mut total_year: u64 = 0;
                proof {
                    assert(y.months@.take(0) =~= Seq::<MonthDir>::empty());
                    assert(spec_month_rep(out_months@) =~~= spec_month_entries(
                        y.name@,
                        y.months@.take(0),
                    ));
                }
                let mut j: usize = 0;
                while j < y.months.len()
                    invariant
                        j <= y.months@.len(),
                        y == years@[i as int],
                        i < years@.len(),
                        spec_grand_bytes(years@) <= u64::MAX,
                        total_all == spec_grand_bytes(years@.take(i as int)),
                        total_year == spec_year_bytes(y.name@, y.months@.take(j as int)),
                        spec_month_rep(out_months@) == spec_month_entries(
                            y.name@,
                            y.months@.take(j as int),
                        ),
                    decreases y.months@.len() - j,
                {
                    let m = &y.months[j];
                    proof {
                        assert(y.months@.take(j + 1).drop_last() =~= y.months@.take(j as int));
                        assert(y.months@.take(j + 1).last() == y.months@[j as int]);
                    }
                    let mv_opt = parse_dir_number(&m.name);
                    let descend = match mv_opt {
                        Some(mv) => 1 <= mv && mv <= 12,
                        None => false,
                    };
                    if descend {
                        let mut out_days: Vec<DayTotal> = Vec::new();
                        let mut total_month: u64 = 0;
                        proof {
                            assert(m.days@.take(0) =~= Seq::<DayDir>::empty());
                            assert(spec_day_rep(out_days@) =~~= spec_day_entries(
                                y.name@,
                                m.name@,
                                m.days@.take(0),
                            ));
                        }
                        let mut k: usize = 0;
                        while k < m.days.len()
                            invariant
                                k <= m.days@.len(),
                                m == y.months@[j as int],
                                j < y.months@.len(),
                                y == years@[i as int],
                                i < years@.len(),
                                spec_grand_bytes(years@) <= u64::MAX,
                                total_all == spec_grand_bytes(years@.take(i as int)),
                                total_year == spec_year_bytes(y.name@, y.months@.take(j as int)),
                                total_month == spec_month_bytes(
                                    y.name@,
                                    m.name@,
                                    m.days@.take(k as int),
                                ),
                                spec_day_rep(out_days@) == spec_day_entries(
                                    y.name@,
                                    m.name@,
                                    m.days@.take(k as int),
                                ),
                            decreases m.days@.len() - k,
                        {
                            let dd = &m.days[k];
                            proof {
                                assert(m.days@.take(k + 1).drop_last() =~= m.days@.take(k as int));
                                assert(m.days@.take(k + 1).last() == m.days@[k as int]);
                            }
                            match dir_entry_date(&y.name, &m.name, &dd.name) {
                                Some(date) => {
                                    proof {
                                        lemma_nest_bound(years@, i as int, j as int, k + 1);
                                        lemma_grand_bytes_nonneg(years@.take(i as int));
                                        lemma_year_bytes_nonneg(
                                            y.name@,
                                            y.months@.take(j as int),
                                        );
                                        lemma_month_bytes_nonneg(
                                            y.name@,
                                            m.name@,
                                            m.days@.take(k as int),
                                        );
                                        lemma_day_bytes_nonneg(dd.files@);
                                    }
                                    let ghost day_full = spec_day_bytes(dd.files@);
                                    let mut total_day: u64 = 0;
                                    proof {
                                        assert(dd.files@.take(0) =~= Seq::<FileEntry>::empty());
                                    }
                                    let mut t: usize = 0;
                                    while t < dd.files.len()
                                        invariant
                                            t <= dd.files@.len(),
                                            dd == m.days@[k as int],
                                            k < m.days@.len(),
                                            total_day == spec_day_bytes(
                                                dd.files@.take(t as int),
                                            ),
                                            day_full == spec_day_bytes(dd.files@),
                                            total_day <= day_full <= u64::MAX,
                                        decreases dd.files@.len() - t,
                                    {
                                        proof {
                                            assert(dd.files@.take(t + 1).drop_last()
                                                =~= dd.files@.take(t as int));
                                            assert(dd.files@.take(t + 1).last()
                                                == dd.files@[t as int]);
                                            lemma_day_bytes_prefix(dd.files@, t + 1);
                                        }
                                        let f = &dd.files[t];
                                        if f.is_file {
                                            total_day = total_day + f.size;
                                        }
                                        t = t + 1;
                                    }
                                    proof {
                                        assert(dd.files@.take(dd.files@.len() as int)
                                            =~= dd.files@);
                                    }
                                    out_days.push(DayTotal { date, bytes: total_day });
                                    total_month = total_month + total_day;
                                    proof {
                                        assert(spec_day_rep(out_days@) =~~= spec_day_entries(
                                            y.name@,
                                            m.name@,
                                            m.days@.take(k + 1),
                                        ));
                                    }
                                },
                                None => {
                                    proof {
                                        assert(spec_day_rep(out_days@) =~~= spec_day_entries(
                                            y.name@,
                                            m.name@,
                                            m.days@.take(k + 1),
                                        ));
                                    }
                                },
                            }
                            k = k + 1;
                        }
                        proof {
                            assert(m.days@.take(m.days@.len() as int) =~= m.days@);
                            lemma_nest_bound(years@, i as int, j as int, m.days@.len() as int);
                            lemma_grand_bytes_nonneg(years@.take(i as int));
                            lemma_year_bytes_nonneg(y.name@, y.months@.take(j as int));
                        }
                        let mv = match mv_opt {
                            Some(v) => v,
                            None => 0,
                        };
                        out_months.push(MonthTotal { month: mv, bytes: total_month, days: out_days });
                        total_year = total_year + total_month;
                        proof {
                            assert(spec_month_rep(out_months@) =~~= spec_month_entries(
                                y.name@,
                                y.months@.take(j + 1),
                            ));
                        }
                    } else {
                        proof {
                            lemma_month_bytes_invalid(y.name@, m.name@, m.days@);
                            assert(spec_month_rep(out_months@) =~~= spec_month_entries(
                                y.name@,
                                y.months@.take(j + 1),
                            ));
                        }
                    }
                    j = j + 1;
                }
                proof {
                    assert(y.months@.take(y.months@.len() as int) =~= y.months@);
                    lemma_grand_bytes_prefix(years@, i + 1);
                    lemma_grand_bytes_nonneg(years@.take(i as int));
                    lemma_year_bytes_nonneg(y.name@, y.months@);
                }
                out_years.push(YearTotal { year: yv, bytes: total_year, months: out_months });
                total_all = total_all + total_year;
                proof {
                    assert(spec_year_rep(out_years@) =~~= spec_year_entries(years@.take(i + 1)));
                }
            },
        }
        i = i + 1;
    }
    proof {
        assert(years@.take(years@.len() as int) =~= years@);
    }
    SizeReport { years: out_years, total_bytes: total_all }
}

/// Sum of the byte fields of a list of day lines.
pub open spec fn spec_sum_days(s: Seq<(Date, int)>) -> int
    decreases s.len(),
{
    if s.len() == 0 {
        0
    } else {
        spec_sum_days(s.drop_last()) + s.last().1
    }
}

/// Sum of the byte fields of a list of month sections.
pub open spec fn spec_sum_months(s: Seq<(u32, int, Seq<(Date, int)>)>) -> int
    decreases s.len(),
{
    if s.len() == 0 {
        0
    } else {
        spec_sum_months(s.drop_last()) + s.last().1
    }
}

/// Sum of the byte fields of a list of year sections.
pub open spec fn spec_sum_years(s: Seq<(u32, int, Seq<(u32, int, Seq<(Date, int)>)>)>) -> int
    decreases s.len(),
{
    if s.len() == 0 {
        0
    } else {
        spec_sum_years(s.drop_last()) + s.last().1
    }
}

/// A month's byte count is the sum of its day lines.
proof fn lemma_month_additivity(yn: Seq<u8>, mn: Seq<u8>, days: Seq<DayDir>)
    ensures
        spec_month_bytes(yn, mn, days) == spec_sum_days(spec_day_entries(yn, mn, days)),
    decreases days.len(),
{
    if days.len() > 0 {
        lemma_month_additivity(yn, mn, days.drop_last());
        let rest = spec_day_entries(yn, mn, days.drop_last());
        match spec_entry_date(yn, mn, days.last().name@) {
            Some(d) => {
                let e = (d, spec_day_bytes(days.last().files@));
                assert((rest + seq![e]).drop_last() =~= rest);
            },
            None => {},
        }
    }
}

/// A year's byte count is the sum of its month sections.
proof fn lemma_year_additivity(yn: Seq<u8>, months: Seq<MonthDir>)
    ensures
        spec_year_bytes(yn, months) == spec_sum_months(spec_month_entries(yn, months)),
    decreases months.len(),
{
    if months.len() > 0 {
        lemma_year_additivity(yn, months.drop_last());
        let rest = spec_month_entries(yn, months.drop_last());
        let m = months.last();
        match spec_parse_u32(m.name@) {
            Some(mv) => {
                if 1 <= mv <= 12 {
                    let e = (mv, spec_month_bytes(yn, m.name@, m.days@), spec_day_entries(
                        yn,
                        m.name@,
                        m.days@,
                    ));
                    assert((rest + seq![e]).drop_last() =~= rest);
                } else {
                    lemma_month_bytes_invalid(yn, m.name@, m.days@);
                }
            },
            None => {
                lemma_month_bytes_invalid(yn, m.name@, m.days@);
            },
        }
    }
}

/// Every month section's byte count is the sum of its day lines.
proof fn lemma_month_entries_additive(yn: Seq<u8>, months: Seq<MonthDir>)
    ensures
        forall|j: int|
            0 <= j < spec_month_entries(yn, months).len() ==> (#[trigger] spec_month_entries(
                yn,
                months,
            )[j]).1 == spec_sum_days(spec_month_entries(yn, months)[j].2),
    decreases months.len(),
{
    if months.len() > 0 {
        lemma_month_entries_additive(yn, months.drop_last());
        lemma_month_additivity(yn, months.last().name@, months.last().days@);
        let all = spec_month_entries(yn, months);
        let rest = spec_month_entries(yn, months.drop_last());
        assert forall|j: int| 0 <= j < all.len() implies (#[trigger] all[j]).1 == spec_sum_days(
            all[j].2,
        ) by {
            if j < rest.len() {
                assert(all[j] == rest[j]);
                assert(rest[j].1 == spec_sum_days(rest[j].2));
            }
        }
    }
}

/// Every year section's byte count is the sum of its month sections, and
/// every month section's the sum of its day lines.
proof fn lemma_year_entries_additive(years: Seq<YearDir>)
    ensures
        forall|i: int|
            0 <= i < spec_year_entries(years).len() ==> (#[trigger] spec_year_entries(
                years,
            )[i]).1 == spec_sum_months(spec_year_entries(years)[i].2),
        forall|i: int, j: int|
            0 <= i < spec_year_entries(years).len() && 0 <= j < spec_year_entries(years)[i].2.len()
                ==> (#[trigger] spec_year_entries(years)[i].2[j]).1 == spec_sum_days(
                spec_year_entries(years)[i].2[j].2,
            ),
    decreases years.len(),
{
    if years.len() > 0 {
        lemma_year_entries_additive(years.drop_last());
        lemma_year_additivity(years.last().name@, years.last().months@);
        lemma_month_entries_additive(years.last().name@, years.last().months@);
        let all = spec_year_entries(years);
        let rest = spec_year_entries(years.drop_last());
        assert forall|i: int| 0 <= i < all.len() implies (#[trigger] all[i]).1 == spec_sum_months(
            all[i].2,
        ) by {
            if i < rest.len() {
                assert(all[i] == rest[i]);
                assert(rest[i].1 == spec_sum_months(rest[i].2));
            }
        }
        assert forall|i: int, j: int|
            0 <= i < all.len() && 0 <= j < all[i].2.len() implies (#[trigger] all[i].2[j]).1
            == spec_sum_days(all[i].2[j].2) by {
            if i < rest.len() {
                assert(all[i] == rest[i]);
                assert(rest[i].2[j].1 == spec_sum_days(rest[i].2[j].2));
            } else {
                let me = spec_month_entries(years.last().name@, years.last().months@);
                assert(all[i].2 == me);
                assert(me[j].1 == spec_sum_days(me[j].2));
            }
        }
    }
}

/// Size additivity: the grand total equals the sum of the per-year totals;
/// each year total equals the sum of its month totals; each month total
/// equals the sum of its day totals. So the grand total is also the sum of
/// all per-day totals.
pub proof fn lemma_size_additivity(years: Seq<YearDir>)
    ensures
        spec_grand_bytes(years) == spec_sum_years(spec_year_entries(years)),
        forall|i: int|
            0 <= i < spec_year_entries(years).len() ==> (#[trigger] spec_year_entries(
                years,
            )[i]).1 == spec_sum_months(spec_year_entries(years)[i].2),
        forall|i: int, j: int|
            0 <= i < spec_year_entries(years).len() && 0 <= j < spec_year_entries(years)[i].2.len()
                ==> (#[trigger] spec_year_entries(years)[i].2[j]).1 == spec_sum_days(
                spec_year_entries(years)[i].2[j].2,
            ),
    decreases years.len(),
{
    lemma_year_entries_additive(years);
    if years.len() > 0 {
        lemma_size_additivity(years.drop_last());
        let rest = spec_year_entries(years.drop_last());
        let y = years.last();
        match spec_parse_u32(y.name@) {
            Some(yv) => {
                let e = (yv, spec_year_bytes(y.name@, y.months@), spec_month_entries(
                    y.name@,
                    y.months@,
                ));
                assert((rest + seq![e]).drop_last() =~= rest);
            },
            None => {
                lemma_year_bytes_invalid(y.name@, y.months@);
            },
        }
    }
}

/// Skip-invalid, year level: a sibling year directory whose name is not a
/// number, inserted anywhere, leaves the report untouched.
pub proof fn lemma_report_skips_invalid_year(years: Seq<YearDir>, i: int, junk: YearDir)
    requires
        0 <= i <= years.len(),
        spec_parse_u32(junk.name@) is None,
    ensures
        spec_year_entries(years.insert(i, junk)) == spec_year_entries(years),
        spec_grand_bytes(years.insert(i, junk)) == spec_grand_bytes(years),
    decreases years.len(),
{
    let s = years.insert(i, junk);
    if i == years.len() {
        assert(s.drop_last() =~= years);
        assert(s.last() == junk);
        lemma_year_bytes_invalid(junk.name@, junk.months@);
    } else {
        assert(s.drop_last() =~= years.drop_last().insert(i, junk));
        assert(s.last() == years.last());
        lemma_report_skips_invalid_year(years.drop_last(), i, junk);
    }
}

/// Skip-invalid, month level: a sibling month directory whose name is not
/// a number from 1 to 12, inserted anywhere in one year directory, leaves
/// that year's sections and byte count untouched.
pub proof fn lemma_report_skips_invalid_month(
    yn: Seq<u8>,
    months: Seq<MonthDir>,
    i: int,
    junk: MonthDir,
)
    requires
        0 <= i <= months.len(),
        match spec_parse_u32(junk.name@) {
            Some(mv) => !(1 <= mv <= 12),
            None => true,
        },
    ensures
        spec_month_entries(yn, months.insert(i, junk)) == spec_month_entries(yn, months),
        spec_year_bytes(yn, months.insert(i, junk)) == spec_year_bytes(yn, months),
    decreases months.len(),
{
    let s = months.insert(i, junk);
    if i == months.len() {
        assert(s.drop_last() =~= months);
        assert(s.last() == junk);
        lemma_month_bytes_invalid(yn, junk.name@, junk.days@);
    } else {
        assert(s.drop_last() =~= months.drop_last().insert(i, junk));
        assert(s.last() == months.last());
        lemma_report_skips_invalid_month(yn, months.drop_last(), i, junk);
    }
}

/// Skip-invalid, day level: a sibling day directory whose name does not
/// complete a valid calendar date, inserted anywhere in one month
/// directory, leaves that month's day lines and byte count untouched.
pub proof fn lemma_report_skips_invalid_day(
    yn: Seq<u8>,
    mn: Seq<u8>,
    days: Seq<DayDir>,
    i: int,
    junk: DayDir,
)
    requires
        0 <= i <= days.len(),
        spec_entry_date(yn, mn, junk.name@) is None,
    ensures
        spec_day_entries(yn, mn, days.insert(i, junk)) == spec_day_entries(yn, mn, days),
        spec_month_bytes(yn, mn, days.insert(i, junk)) == spec_month_bytes(yn, mn, days),
    decreases days.len(),
{
    let s = days.insert(i, junk);
    if i == days.len() {
        assert(s.drop_last() =~= days);
        assert(s.last() == junk);
    } else {
        assert(s.drop_last() =~= days.drop_last().insert(i, junk));
        assert(s.last() == days.last());
        lemma_report_skips_invalid_day(yn, mn, days.drop_last(), i, junk);
    }
}

} // verus!
