use tga_report::stats::{densify, every_count, human_bytes, Count, Figure, Sparse};

#[test]
fn human_bytes_truncates_rather_than_rounds() {
    assert_eq!(human_bytes(1_940_744), "1.8 MB");
    assert_eq!(human_bytes(0), "0 B");
    assert_eq!(human_bytes(1023), "1023 B");
    assert_eq!(human_bytes(1024), "1.0 KB");
    assert_eq!(human_bytes(1024 * 1024 * 1024 * 3), "3.0 GB");
}

#[test]
fn huge_sizes_stay_in_gigabytes() {
    assert_eq!(human_bytes(49_388_011), "47.1 MB");
    assert_eq!(human_bytes(1024 * 1024 * 1024 * 2048), "2048.0 GB");
    assert_eq!(human_bytes(-5), "-5 B");
}

#[test]
fn a_sparse_person_is_densified_against_the_shared_axis() {
    let axis: Vec<Count> = vec![
        Count::new("2025-01-01", 5),
        Count::new("2025-01-02", 0),
        Count::new("2025-01-03", 2),
    ];
    let mut sparse = Sparse::new();
    sparse.insert("2025-01-03".to_string(), 2);
    assert_eq!(
        densify(Some(&sparse), &axis),
        vec![
            Count::new("2025-01-01", 0),
            Count::new("2025-01-02", 0),
            Count::new("2025-01-03", 2),
        ]
    );
}

#[test]
fn a_person_absent_from_the_branch_densifies_to_silence_not_to_nothing() {
    let axis: Vec<Count> = vec![Count::new("2025-01-01", 5)];
    assert_eq!(densify(None, &axis), vec![Count::new("2025-01-01", 0)]);
}

#[test]
fn every_count_reads_each_series_in_turn() {
    let mut a = Sparse::new();
    a.insert("2025-01-01".to_string(), 3);
    a.insert("2025-01-02".to_string(), 4);
    a.insert("2025-01-01".to_string(), 5);
    let mut b = Sparse::new();
    b.insert("2025-01-05".to_string(), 1);
    assert_eq!(every_count(&vec![a, b]), vec![5, 4, 1]);
}

#[test]
fn a_figure_prints_as_a_number_or_as_its_text() {
    assert_eq!(Figure::Count(41).display(), "41");
    assert_eq!(Figure::Count(-41).display(), "-41");
    assert_eq!(Figure::Text("1.8 MB".to_string()).display(), "1.8 MB");
    assert_eq!(Figure::Count(41).as_i64(), Some(41));
    assert_eq!(Figure::Text("x".to_string()).as_i64(), None);
    assert_eq!(Figure::default(), Figure::Count(0));
}

#[test]
fn a_series_keeps_its_labels_in_ascending_order_whatever_the_filing_order() {
    let mut s = Sparse::new();
    s.insert("2025-03-01".to_string(), 3);
    s.insert("2025-01-01".to_string(), 1);
    s.insert("2025-02-01".to_string(), 2);
    s.insert("2025-01-01".to_string(), 10);
    assert_eq!(every_count(&vec![s]), vec![10, 2, 3]);
}

#[test]
fn a_count_and_a_pair_convert_both_ways() {
    let c = Count::new("2025-09-05", 41);
    let pair: (String, i64) = c.clone().into();
    assert_eq!(pair, ("2025-09-05".to_string(), 41));
    assert_eq!(Count::from(("2025-09-05".to_string(), 41)), c);
}
