use fsizes::{
    build_report, calc_avg_filesize, get_human_readable_size, print_results, sort_results,
    AggregationTable, FileStats, MIN_COUNT, TOTAL_SIZE,
};

fn table_of(folds: &[(&str, u64)]) -> AggregationTable {
    let mut t = AggregationTable::new();
    for (k, s) in folds {
        t.fold(k.to_string(), *s);
    }
    t
}

#[test]
fn test_calc_avg_filesize() {
    let fstat = FileStats {
        fcount: 5,
        fsize: 1000,
    };
    assert_eq!(calc_avg_filesize(&fstat), 200);
}

#[test]
fn avg_of_empty_entry_is_zero() {
    let fstat = FileStats { fcount: 0, fsize: 0 };
    assert_eq!(calc_avg_filesize(&fstat), 0);
    let fstat = FileStats { fcount: 3, fsize: 10 };
    assert_eq!(calc_avg_filesize(&fstat), 3);
}

#[test]
fn test_get_human_readable_size() {
    assert_eq!(get_human_readable_size(500), "500 B");
    assert_eq!(get_human_readable_size(2048), "2 KB");
    assert_eq!(get_human_readable_size(1048576), "1 MB");
    assert_eq!(get_human_readable_size(1073741824), "1 GB");
}

#[test]
fn human_size_truncates() {
    assert_eq!(get_human_readable_size(1500), "1 KB");
    assert_eq!(get_human_readable_size(0), "0 B");
    assert_eq!(get_human_readable_size(1023), "1023 B");
    assert_eq!(get_human_readable_size(1024), "1 KB");
    assert_eq!(get_human_readable_size(1048575), "1023 KB");
    assert_eq!(get_human_readable_size(1073741823), "1023 MB");
    assert_eq!(get_human_readable_size(u64::MAX), "17179869183 GB");
}

#[test]
fn test_sort_results() {
    let file_stats = AggregationTable::new();
    let sorted_stats = sort_results(file_stats);
    assert!(sorted_stats.is_empty());
}

#[test]
fn sort_puts_largest_total_first_and_keeps_ties_in_order() {
    let t = table_of(&[("a", 10), ("b", 30), ("c", 20), ("d", 30), ("a", 5)]);
    let rows = sort_results(t);
    let keys: Vec<&str> = rows.iter().map(|(k, _)| k.as_str()).collect();
    assert_eq!(keys, vec!["b", "d", "c", "a"]);
    assert_eq!(rows[3].1, FileStats { fcount: 2, fsize: 15 });
}

#[test]
fn test_print_results() {
    let fstat = FileStats {
        fcount: 10,
        fsize: 5000,
    };
    let avg_size = 500;
    let ext = String::from("txt");
    assert_eq!(print_results(fstat, avg_size, ext, MIN_COUNT, TOTAL_SIZE), None);
}

#[test]
fn filter_needs_both_thresholds_strictly() {
    let mb = 1048576u64;
    let gb = 1073741824u64;
    let low = FileStats { fcount: 10, fsize: 500 * mb };
    assert_eq!(print_results(low, 50 * mb, "a".to_string(), 10, gb), None);
    let high = FileStats { fcount: 11, fsize: 2 * gb };
    assert_eq!(
        print_results(high, 2 * gb / 11, "b".to_string(), 10, gb),
        Some("Extension: b, Count: 11, Total Size: 2 GB, Average Size: 186 MB".to_string())
    );
    let count_only = FileStats { fcount: 11, fsize: gb };
    assert_eq!(print_results(count_only, 1, "c".to_string(), 10, gb), None);
    let size_only = FileStats { fcount: 10, fsize: 2 * gb };
    assert_eq!(print_results(size_only, 1, "d".to_string(), 10, gb), None);
}

#[test]
fn end_to_end_fifteen_logs() {
    let mb = 1048576u64;
    let mut t = AggregationTable::new();
    for i in 0..15 {
        let name = format!("x{}.log", i);
        assert!(fsizes::aggregate_by_ext(&mut t, Some(name.as_str()), 100 * mb));
    }
    assert_eq!(
        t.get(&"log".to_string()),
        Some(FileStats { fcount: 15, fsize: 1500 * mb })
    );
    let lines = build_report(t, 10, 1073741824);
    assert_eq!(
        lines,
        vec!["Extension: log, Count: 15, Total Size: 1 GB, Average Size: 100 MB".to_string()]
    );
}

#[test]
fn report_lists_passing_rows_by_total() {
    let gb = 1073741824u64;
    let t = table_of(&[
        ("txt", gb),
        ("txt", gb),
        ("iso", 3 * gb),
        ("iso", gb),
        ("md", 5 * gb),
        ("", 2 * gb),
        ("", 1),
    ]);
    let lines = build_report(t, MIN_COUNT, TOTAL_SIZE);
    assert_eq!(
        lines,
        vec![
            "Extension: iso, Count: 2, Total Size: 4 GB, Average Size: 2 GB".to_string(),
            "Extension: , Count: 2, Total Size: 2 GB, Average Size: 1 GB".to_string(),
            "Extension: txt, Count: 2, Total Size: 2 GB, Average Size: 1 GB".to_string(),
        ]
    );
}
