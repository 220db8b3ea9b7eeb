use fsizes::{aggregate_by_ext, extension_key, keep_subdir, AggregationTable, FileStats};
use rayon::iter::{IntoParallelIterator, ParallelIterator};
use std::sync::Mutex;

#[test]
fn extension_keys() {
    assert_eq!(extension_key("a.tar.gz"), "tar.gz");
    assert_eq!(extension_key("archive.tar.gz"), "tar.gz");
    assert_eq!(extension_key("README"), "");
    assert_eq!(extension_key(".bashrc"), "bashrc");
    assert_eq!(extension_key("file.txt"), "txt");
    assert_eq!(extension_key("trailing."), "");
    assert_eq!(extension_key("a..b"), ".b");
    assert_eq!(extension_key(""), "");
    assert_eq!(extension_key("ü.é.x"), "é.x");
}

#[test]
fn test_aggregate_by_ext() {
    let mut file_stats = AggregationTable::new();
    assert!(aggregate_by_ext(&mut file_stats, Some("file.txt"), 0));
    assert_eq!(
        file_stats.get(&"txt".to_string()),
        Some(FileStats { fcount: 1, fsize: 0 })
    );
    assert_eq!(file_stats.len(), 1);
}

#[test]
fn aggregate_skips_names_that_are_not_text() {
    let mut t = AggregationTable::new();
    assert!(aggregate_by_ext(&mut t, None, 10));
    assert_eq!(t.len(), 0);
}

#[test]
fn aggregate_refuses_overflow() {
    let mut t = AggregationTable::new();
    assert!(aggregate_by_ext(&mut t, Some("a.bin"), u64::MAX));
    assert!(!aggregate_by_ext(&mut t, Some("b.bin"), 1));
    assert_eq!(
        t.get(&"bin".to_string()),
        Some(FileStats { fcount: 1, fsize: u64::MAX })
    );
    assert!(t.can_fold(&"bin".to_string(), 0));
    assert!(!t.can_fold(&"bin".to_string(), 1));
    assert!(t.can_fold(&"other".to_string(), u64::MAX));
}

#[test]
fn fold_same_pair_n_times() {
    let mut t = AggregationTable::new();
    for _ in 0..7 {
        t.fold("log".to_string(), 300);
    }
    assert_eq!(
        t.get(&"log".to_string()),
        Some(FileStats { fcount: 7, fsize: 2100 })
    );
    assert_eq!(t.get(&"txt".to_string()), None);
}

#[test]
fn fold_order_does_not_matter() {
    let mut a = AggregationTable::new();
    a.fold("x".to_string(), 5);
    a.fold("y".to_string(), 9);
    a.fold("x".to_string(), 4);
    let mut b = AggregationTable::new();
    b.fold("x".to_string(), 4);
    b.fold("y".to_string(), 9);
    b.fold("x".to_string(), 5);
    for k in ["x", "y", "z"] {
        assert_eq!(a.get(&k.to_string()), b.get(&k.to_string()));
    }
    assert_eq!(a.get(&"x".to_string()), Some(FileStats { fcount: 2, fsize: 9 }));
    assert_eq!(a.len(), b.len());
}

#[test]
fn concurrent_folds_lose_no_update() {
    let workers = 8u64;
    let folds = 500u64;
    for _ in 0..5 {
        let table = Mutex::new(AggregationTable::new());
        (0..workers).into_par_iter().for_each(|_| {
            for _ in 0..folds {
                let mut t = table.lock().unwrap();
                assert!(aggregate_by_ext(&mut t, Some("x.dat"), 3));
            }
        });
        let t = table.into_inner().unwrap();
        assert_eq!(
            t.get(&"dat".to_string()),
            Some(FileStats { fcount: workers * folds, fsize: 3 * workers * folds })
        );
    }
}

#[test]
fn subdirectory_selection() {
    assert!(keep_subdir(true, Some("data")));
    assert!(!keep_subdir(true, Some(".git")));
    assert!(!keep_subdir(false, Some("data")));
    assert!(keep_subdir(true, None));
    assert!(!keep_subdir(false, None));
    assert!(keep_subdir(true, Some("a.b")));
}
