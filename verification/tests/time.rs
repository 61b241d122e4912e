use tga_report::stats::Count;
use tga_report::time::{bucket_label, bucket_labels, format_date, group_days, month_abbrev, stamp_text};

fn series(n: usize) -> Vec<Count> {
    (0..n)
        .map(|i| Count::new(&format!("2025-01-{:02}", i + 1), 1))
        .collect()
}

#[test]
fn days_are_grouped_and_each_group_sums_its_days() {
    let groups = group_days(&series(12), 5);
    assert_eq!(groups.len(), 3);
    assert_eq!(groups[0], ("2025-01-01".to_string(), "2025-01-05".to_string(), 5));
    assert_eq!(groups[2], ("2025-01-11".to_string(), "2025-01-12".to_string(), 2));
    let total: i64 = groups.iter().map(|g| g.2).sum();
    assert_eq!(total, 12);
    assert!(group_days(&[], 5).is_empty());
}

#[test]
fn one_day_a_group_keeps_first_and_last_equal() {
    let groups = group_days(&series(3), 1);
    assert_eq!(groups.len(), 3);
    assert_eq!(groups[0].0, groups[0].1);
    let labels = bucket_labels(&group_days(&series(6), 5));
    assert_eq!(labels, vec!["2025-01-01 to 2025-01-05", "2025-01-06"]);
    assert_eq!(
        bucket_label(&"a".to_string(), &"a".to_string()),
        "a"
    );
}

#[test]
fn months_and_dates_print_in_english() {
    assert_eq!(month_abbrev(1), "Jan");
    assert_eq!(month_abbrev(12), "Dec");
    assert_eq!(month_abbrev(13), "Dec");
    assert_eq!(format_date(2025, 9, 5), "5 Sep 2025");
    assert_eq!(format_date(825, 1, 31), "31 Jan 0825");
    assert_eq!(format_date(-5, 2, 1), "1 Feb -0005");
    assert_eq!(format_date(12345, 3, 2), "2 Mar +12345");
}

#[test]
fn the_stamp_spells_the_month_out_and_drops_the_leading_zero() {
    assert_eq!(stamp_text(2025, 9, 5), "5 September 2025");
    assert_eq!(stamp_text(2026, 12, 14), "14 December 2026");
    assert_eq!(stamp_text(987, 1, 1), "1 January 0987");
}
