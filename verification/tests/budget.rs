use prelockd::registry::Registry;
use prelockd::sizes::bytes_to_size;

#[test]
fn budget_skip_and_continue() {
    // Budget 25, ordered sizes [10, 20, 5]: 20 is skipped, but 5 after
    // it is still admitted.
    let mut reg = Registry::new(100, 25);
    let mut admitted: Vec<u64> = Vec::new();
    for (path, size) in [("/a", 10u64), ("/b", 20), ("/c", 5)] {
        if reg.fits(size) {
            reg.record(String::from(path), size);
            admitted.push(size);
        }
    }
    assert_eq!(admitted, vec![10, 5]);
    assert_eq!(reg.total_size(), 15);
    assert_eq!(reg.file_count(), 2);
}

#[test]
fn budget_exact_fit_is_admitted() {
    let mut reg = Registry::new(100, 30);
    assert!(reg.fits(30));
    reg.record(String::from("/a"), 30);
    assert!(!reg.fits(1));
    assert!(reg.fits(0));
    assert_eq!(reg.total_size(), 30);
}

#[test]
fn budget_double_counts_a_twice_matched_file() {
    // The same file admitted once per pattern match is counted twice.
    let mut reg = Registry::new(100, 25);
    for _ in 0..2 {
        if reg.fits(10) {
            reg.record(String::from("/usr/lib/libboth.so"), 10);
        }
    }
    assert_eq!(reg.file_count(), 2);
    assert_eq!(reg.total_size(), 20);
}

#[test]
fn registry_reports_entries_in_order() {
    let mut reg = Registry::new(100, 100);
    reg.record(String::from("/a"), 2048);
    reg.record(String::from("/b"), 1);
    assert_eq!(reg.file_count(), 2);
    let first = reg.entry_at(0);
    assert_eq!(first.path, "/a");
    assert_eq!(bytes_to_size(first.size), "2.00k");
    let second = reg.entry_at(1);
    assert_eq!(second.path, "/b");
    assert_eq!(second.size, 1);
    assert_eq!(reg.report_lines(), vec!["/a - 2.00k", "/b - 1"]);
}
