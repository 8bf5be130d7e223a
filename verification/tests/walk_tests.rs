use mouse_capture::date::Date;
use mouse_capture::size::aggregate;
use mouse_capture::walk::{
    dir_entry_date, locate_chunks, parse_dir_number, select_chunk_names, DayDir, FileEntry,
    MonthDir, YearDir,
};

fn file(name: &[u8], size: u64) -> FileEntry {
    FileEntry { name: name.to_vec(), size, is_file: true }
}

fn day_dir(name: &[u8], files: Vec<FileEntry>) -> DayDir {
    DayDir { name: name.to_vec(), files }
}

fn month_dir(name: &[u8], days: Vec<DayDir>) -> MonthDir {
    MonthDir { name: name.to_vec(), days }
}

fn year_dir(name: &[u8], months: Vec<MonthDir>) -> YearDir {
    YearDir { name: name.to_vec(), months }
}

fn valid_hierarchy() -> Vec<YearDir> {
    vec![year_dir(
        b"2024",
        vec![month_dir(
            b"01",
            vec![day_dir(
                b"15",
                vec![
                    file(b"2024-01-15-00002.bin", 30),
                    file(b"2024-01-15-00001.bin", 90),
                    file(b"notes.txt", 7),
                ],
            )],
        )],
    )]
}

fn hierarchy_with_junk() -> Vec<YearDir> {
    vec![
        year_dir(b"abc", vec![month_dir(b"01", vec![day_dir(b"15", vec![file(b"x.bin", 5)])])]),
        year_dir(
            b"2024",
            vec![
                month_dir(
                    b"01",
                    vec![
                        day_dir(
                            b"15",
                            vec![
                                file(b"2024-01-15-00002.bin", 30),
                                file(b"2024-01-15-00001.bin", 90),
                                file(b"notes.txt", 7),
                            ],
                        ),
                        day_dir(b"99", vec![file(b"2024-01-99-00001.bin", 11)]),
                    ],
                ),
                month_dir(b"13", vec![day_dir(b"01", vec![file(b"2024-13-01-00001.bin", 13)])]),
            ],
        ),
    ]
}

#[test]
fn parse_dir_number_cases() {
    assert_eq!(parse_dir_number(&b"2024".to_vec()), Some(2024));
    assert_eq!(parse_dir_number(&b"0099".to_vec()), Some(99));
    assert_eq!(parse_dir_number(&b"0".to_vec()), Some(0));
    assert_eq!(parse_dir_number(&b"4294967295".to_vec()), Some(4294967295));
    assert_eq!(parse_dir_number(&b"4294967296".to_vec()), None);
    assert_eq!(parse_dir_number(&b"abc".to_vec()), None);
    assert_eq!(parse_dir_number(&b"12a".to_vec()), None);
    assert_eq!(parse_dir_number(&b"-3".to_vec()), None);
    assert_eq!(parse_dir_number(&b"".to_vec()), None);
}

#[test]
fn dir_entry_date_validates_calendar() {
    let d = dir_entry_date(&b"2024".to_vec(), &b"01".to_vec(), &b"15".to_vec());
    assert_eq!(d, Date::new(2024, 1, 15));
    assert_eq!(dir_entry_date(&b"2024".to_vec(), &b"13".to_vec(), &b"01".to_vec()), None);
    assert_eq!(dir_entry_date(&b"2024".to_vec(), &b"01".to_vec(), &b"99".to_vec()), None);
    assert_eq!(dir_entry_date(&b"abc".to_vec(), &b"01".to_vec(), &b"15".to_vec()), None);
    assert_eq!(dir_entry_date(&b"2024".to_vec(), &b"02".to_vec(), &b"29".to_vec()), Date::new(2024, 2, 29));
    assert_eq!(dir_entry_date(&b"2023".to_vec(), &b"02".to_vec(), &b"29".to_vec()), None);
}

#[test]
fn select_chunk_names_filters_and_sorts() {
    let d = Date::new(2024, 1, 15).unwrap();
    let files = vec![
        file(b"2024-01-15-00002.bin", 1),
        file(b"notes.txt", 1),
        file(b"2024-01-16-00001.bin", 1),
        file(b"2024-01-15-00001.bin", 1),
    ];
    let names = select_chunk_names(&files, &d);
    assert_eq!(
        names,
        vec![b"2024-01-15-00001.bin".to_vec(), b"2024-01-15-00002.bin".to_vec()]
    );
}

#[test]
fn locate_skips_invalid_entries() {
    let clean = locate_chunks(&valid_hierarchy());
    let noisy = locate_chunks(&hierarchy_with_junk());
    assert_eq!(clean.len(), 1);
    assert_eq!(noisy.len(), 1);
    assert_eq!(clean[0].date, noisy[0].date);
    assert_eq!(clean[0].chunks, noisy[0].chunks);
    assert_eq!(
        clean[0].chunks,
        vec![b"2024-01-15-00001.bin".to_vec(), b"2024-01-15-00002.bin".to_vec()]
    );
}

#[test]
fn locate_orders_days_chronologically() {
    // enumeration order is deliberately scrambled
    let years = vec![
        year_dir(
            b"2024",
            vec![
                month_dir(b"02", vec![day_dir(b"01", vec![file(b"2024-02-01-00001.bin", 1)])]),
                month_dir(
                    b"01",
                    vec![
                        day_dir(b"20", vec![file(b"2024-01-20-00001.bin", 1)]),
                        day_dir(b"05", vec![file(b"2024-01-05-00001.bin", 1)]),
                    ],
                ),
            ],
        ),
        year_dir(b"2023", vec![month_dir(b"12", vec![day_dir(b"31", vec![file(b"2023-12-31-00001.bin", 1)])])]),
    ];
    let located = locate_chunks(&years);
    let dates: Vec<(u32, u32, u32)> = located.iter().map(|l| (l.date.year, l.date.month, l.date.day)).collect();
    assert_eq!(dates, vec![(2023, 12, 31), (2024, 1, 5), (2024, 1, 20), (2024, 2, 1)]);
}

#[test]
fn locate_empty_base_is_empty() {
    let located = locate_chunks(&Vec::new());
    assert_eq!(located.len(), 0);
}

#[test]
fn aggregate_sums_regular_files_only() {
    let years = vec![year_dir(
        b"2024",
        vec![month_dir(
            b"01",
            vec![day_dir(
                b"15",
                vec![
                    file(b"2024-01-15-00001.bin", 90),
                    file(b"2024-01-15-00002.bin", 30),
                    FileEntry { name: b"subdir".to_vec(), size: 999, is_file: false },
                ],
            )],
        )],
    )];
    let report = aggregate(&years);
    assert_eq!(report.total_bytes, 120);
    assert_eq!(report.years.len(), 1);
    assert_eq!(report.years[0].year, 2024);
    assert_eq!(report.years[0].bytes, 120);
    assert_eq!(report.years[0].months[0].month, 1);
    assert_eq!(report.years[0].months[0].bytes, 120);
    assert_eq!(report.years[0].months[0].days[0].bytes, 120);
    assert_eq!(report.years[0].months[0].days[0].date, Date::new(2024, 1, 15).unwrap());
}

#[test]
fn aggregate_skips_invalid_entries() {
    let clean = aggregate(&valid_hierarchy());
    let noisy = aggregate(&hierarchy_with_junk());
    assert_eq!(clean.total_bytes, noisy.total_bytes);
    assert_eq!(clean.total_bytes, 127);
    assert_eq!(clean.years.len(), noisy.years.len());
    assert_eq!(clean.years[0].year, noisy.years[0].year);
    assert_eq!(clean.years[0].bytes, noisy.years[0].bytes);
    assert_eq!(clean.years[0].months.len(), noisy.years[0].months.len());
}

#[test]
fn aggregate_totals_are_additive() {
    let years = vec![
        year_dir(
            b"2023",
            vec![
                month_dir(b"11", vec![day_dir(b"03", vec![file(b"a.bin", 10)])]),
                month_dir(
                    b"12",
                    vec![
                        day_dir(b"01", vec![file(b"b.bin", 20), file(b"c.bin", 5)]),
                        day_dir(b"02", vec![file(b"d.bin", 7)]),
                    ],
                ),
            ],
        ),
        year_dir(b"2024", vec![month_dir(b"01", vec![day_dir(b"15", vec![file(b"e.bin", 100)])])]),
    ];
    let report = aggregate(&years);
    let year_sum: u64 = report.years.iter().map(|y| y.bytes).sum();
    let month_sum: u64 = report.years.iter().flat_map(|y| y.months.iter()).map(|m| m.bytes).sum();
    let day_sum: u64 = report
        .years
        .iter()
        .flat_map(|y| y.months.iter())
        .flat_map(|m| m.days.iter())
        .map(|d| d.bytes)
        .sum();
    assert_eq!(report.total_bytes, 142);
    assert_eq!(year_sum, 142);
    assert_eq!(month_sum, 142);
    assert_eq!(day_sum, 142);
}

#[test]
fn aggregate_empty_base_reports_zero() {
    let report = aggregate(&Vec::new());
    assert_eq!(report.total_bytes, 0);
    assert_eq!(report.years.len(), 0);
}
