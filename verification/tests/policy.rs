use prelockd::config::{
    build_policy, flatten_patterns, parse_sorting_method, LoadTable, LockTable, RawConfig,
    SetupError, SortingMethod,
};

const MEM: u64 = 1000 * 1000 * 1000;

fn lock_table(
    max_file_size: Option<&str>,
    max_total_size: Option<&str>,
    locations: Option<Vec<&str>>,
    sorting_method: Option<&str>,
) -> LockTable {
    LockTable {
        max_file_size: max_file_size.map(String::from),
        max_total_size: max_total_size.map(String::from),
        locations: locations.map(|v| v.into_iter().map(String::from).collect()),
        sorting_method: sorting_method.map(String::from),
    }
}

#[test]
fn policy_defaults() {
    let cfg = RawConfig {
        lock: Some(lock_table(None, None, Some(vec!["/tmp"]), None)),
        load: None,
    };
    let p = build_policy(&cfg, MEM).unwrap();
    assert_eq!(p.max_file_size, 20 * 1024 * 1024);
    assert_eq!(p.max_total_size, MEM / 10);
    assert_eq!(p.memory_size, MEM);
    assert_eq!(p.sorting_method, SortingMethod::SL);
}

#[test]
fn policy_unresolved_sizes_fall_back_to_defaults() {
    let cfg = RawConfig {
        lock: Some(lock_table(Some("abc"), Some("xyz"), Some(vec!["/tmp"]), None)),
        load: None,
    };
    let p = build_policy(&cfg, MEM).unwrap();
    assert_eq!(p.max_file_size, 20 * 1024 * 1024);
    assert_eq!(p.max_total_size, MEM / 10);
}

#[test]
fn policy_explicit_sizes() {
    let cfg = RawConfig {
        lock: Some(lock_table(Some("5m"), Some("10%"), Some(vec!["/tmp"]), Some("ls"))),
        load: None,
    };
    let p = build_policy(&cfg, MEM).unwrap();
    assert_eq!(p.max_file_size, 5 * 1024 * 1024);
    assert_eq!(p.max_total_size, MEM / 10);
    assert_eq!(p.sorting_method, SortingMethod::LS);
}

#[test]
fn policy_missing_lock_table_is_fatal() {
    let cfg = RawConfig { lock: None, load: None };
    assert!(matches!(build_policy(&cfg, MEM), Err(SetupError::InvalidLockTable)));
}

#[test]
fn policy_zero_total_is_fatal() {
    let cfg = RawConfig {
        lock: Some(lock_table(None, Some("0"), Some(vec!["/tmp"]), None)),
        load: None,
    };
    assert!(matches!(build_policy(&cfg, MEM), Err(SetupError::ZeroMaxTotal)));
}

#[test]
fn policy_zero_file_is_fatal() {
    let cfg = RawConfig {
        lock: Some(lock_table(Some("0"), None, Some(vec!["/tmp"]), None)),
        load: None,
    };
    assert!(matches!(build_policy(&cfg, MEM), Err(SetupError::ZeroMaxFile)));
}

#[test]
fn policy_missing_locations_is_fatal() {
    let cfg = RawConfig { lock: Some(lock_table(None, None, None, None)), load: None };
    assert!(matches!(build_policy(&cfg, MEM), Err(SetupError::MissingLocations)));
}

#[test]
fn sorting_method_is_case_insensitive_with_default() {
    assert_eq!(parse_sorting_method(&Some(String::from("fl"))), SortingMethod::FL);
    assert_eq!(parse_sorting_method(&Some(String::from("FL"))), SortingMethod::FL);
    assert_eq!(parse_sorting_method(&Some(String::from("Ls"))), SortingMethod::LS);
    assert_eq!(parse_sorting_method(&Some(String::from("sl"))), SortingMethod::SL);
    assert_eq!(parse_sorting_method(&Some(String::from("bogus"))), SortingMethod::SL);
    assert_eq!(parse_sorting_method(&None), SortingMethod::SL);
}

#[test]
fn patterns_flatten_direct_then_groups_in_order() {
    let load = LoadTable {
        files: Some(vec![String::from("a.so"), String::from("b.so")]),
        lists: Some(vec![String::from("g2"), String::from("g1")]),
        groups: vec![
            (String::from("g1"), vec![String::from("one")]),
            (String::from("g2"), vec![String::from("two"), String::from("three")]),
        ],
    };
    let ps = flatten_patterns(&Some(load)).unwrap();
    assert_eq!(ps, vec!["a.so", "b.so", "two", "three", "one"]);
}

#[test]
fn patterns_missing_load_table_means_none() {
    let ps = flatten_patterns(&None).unwrap();
    assert!(ps.is_empty());
}

#[test]
fn patterns_missing_lists_is_fatal() {
    let load = LoadTable { files: Some(vec![String::from("a")]), lists: None, groups: vec![] };
    assert!(matches!(flatten_patterns(&Some(load)), Err(SetupError::InvalidLoadTable)));
}

#[test]
fn patterns_missing_group_is_fatal() {
    let load = LoadTable {
        files: None,
        lists: Some(vec![String::from("absent")]),
        groups: vec![(String::from("present"), vec![String::from("p")])],
    };
    match flatten_patterns(&Some(load)) {
        Err(SetupError::MissingGroup(name)) => assert_eq!(name, "absent"),
        _ => panic!("expected a missing-group error"),
    }
}

#[test]
fn patterns_no_deduplication() {
    let load = LoadTable {
        files: Some(vec![String::from("x"), String::from("x")]),
        lists: Some(vec![]),
        groups: vec![],
    };
    let ps = flatten_patterns(&Some(load)).unwrap();
    assert_eq!(ps, vec!["x", "x"]);
}
