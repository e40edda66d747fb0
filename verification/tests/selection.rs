use prelockd::config::{SetupError, SortingMethod};
use prelockd::matcher::{match_targets, LoadTarget};
use prelockd::scan::{
    scan_candidates, CandidateFile, DirEntryInfo, FileStat, Listing, Location,
};
use prelockd::sort::sort_targets;

fn entry(path: &str, is_file: bool, size: u64) -> DirEntryInfo {
    DirEntryInfo { path: String::from(path), stat: Some(FileStat { is_file, size }) }
}

fn cand(path: &str, size: u64) -> CandidateFile {
    CandidateFile { path: String::from(path), size }
}

#[test]
fn scan_keeps_files_at_or_below_the_cap() {
    let locs = vec![Location {
        path: String::from("/lib"),
        listing: Listing::Listed(vec![
            entry("/lib/exact", true, 100),
            entry("/lib/over", true, 101),
            entry("/lib/small", true, 1),
        ]),
    }];
    let cs = scan_candidates(&locs, 100).unwrap();
    let got: Vec<(&str, u64)> = cs.iter().map(|c| (c.path.as_str(), c.size)).collect();
    assert_eq!(got, vec![("/lib/exact", 100), ("/lib/small", 1)]);
}

#[test]
fn scan_skips_directories_and_unreadable_metadata() {
    let locs = vec![
        Location { path: String::from("/absent"), listing: Listing::Skipped },
        Location {
            path: String::from("/lib"),
            listing: Listing::Listed(vec![
                entry("/lib/subdir", false, 5),
                DirEntryInfo { path: String::from("/lib/odd"), stat: None },
                entry("/lib/ok", true, 5),
            ]),
        },
    ];
    let cs = scan_candidates(&locs, 100).unwrap();
    assert_eq!(cs.len(), 1);
    assert_eq!(cs[0].path, "/lib/ok");
}

#[test]
fn scan_unreadable_directory_is_fatal() {
    let locs = vec![
        Location {
            path: String::from("/lib"),
            listing: Listing::Listed(vec![entry("/lib/ok", true, 5)]),
        },
        Location { path: String::from("/locked"), listing: Listing::Unreadable },
    ];
    match scan_candidates(&locs, 100) {
        Err(SetupError::UnreadableDirectory(p)) => assert_eq!(p, "/locked"),
        _ => panic!("expected the unreadable directory to abort the scan"),
    }
}

#[test]
fn match_is_anchored_at_a_path_separator() {
    let cands = vec![
        cand("/usr/lib/lib.so", 10),
        cand("/usr/lib/xlib.so", 20),
        cand("/usr/lib.so/other", 30),
    ];
    let ts = match_targets(&vec![String::from("lib.so")], &cands).unwrap();
    let got: Vec<&str> = ts.iter().map(|t| t.path.as_str()).collect();
    assert_eq!(got, vec!["/usr/lib/lib.so"]);
}

#[test]
fn match_pattern_may_span_segments() {
    let cands = vec![cand("/usr/lib/sub/lib.so", 10)];
    let ts = match_targets(&vec![String::from("sub/lib.so")], &cands).unwrap();
    assert_eq!(ts.len(), 1);
}

#[test]
fn match_two_patterns_give_two_targets() {
    // One file matching two distinct patterns appears once per match.
    let cands = vec![cand("/usr/lib/libboth.so", 10)];
    let pats = vec![String::from("libboth.so"), String::from(".*\\.so")];
    let ts = match_targets(&pats, &cands).unwrap();
    assert_eq!(ts.len(), 2);
    assert_eq!(ts[0].path, "/usr/lib/libboth.so");
    assert_eq!(ts[1].path, "/usr/lib/libboth.so");
}

#[test]
fn match_bad_pattern_is_fatal() {
    let cands = vec![cand("/usr/lib/lib.so", 10)];
    let pats = vec![String::from("lib.so"), String::from("(")];
    match match_targets(&pats, &cands) {
        Err(SetupError::BadPattern(p)) => assert_eq!(p, "("),
        _ => panic!("expected the malformed pattern to abort matching"),
    }
}

#[test]
fn match_order_is_pattern_major() {
    let cands = vec![cand("/a/one", 1), cand("/a/two", 2)];
    let pats = vec![String::from("two"), String::from("one")];
    let ts = match_targets(&pats, &cands).unwrap();
    let got: Vec<&str> = ts.iter().map(|t| t.path.as_str()).collect();
    assert_eq!(got, vec!["/a/two", "/a/one"]);
}

fn target(path: &str, size: u64) -> LoadTarget {
    LoadTarget { path: String::from(path), size }
}

fn sizes(ts: &Vec<LoadTarget>) -> Vec<u64> {
    ts.iter().map(|t| t.size).collect()
}

#[test]
fn sort_smallest_to_largest() {
    let mut ts = vec![target("/a", 30), target("/b", 10), target("/c", 20)];
    sort_targets(&mut ts, &SortingMethod::SL);
    assert_eq!(sizes(&ts), vec![10, 20, 30]);
}

#[test]
fn sort_largest_to_smallest() {
    let mut ts = vec![target("/a", 30), target("/b", 10), target("/c", 20)];
    sort_targets(&mut ts, &SortingMethod::LS);
    assert_eq!(sizes(&ts), vec![30, 20, 10]);
}

#[test]
fn sort_first_to_last_keeps_order() {
    let mut ts = vec![target("/a", 30), target("/b", 10), target("/c", 20)];
    sort_targets(&mut ts, &SortingMethod::FL);
    assert_eq!(sizes(&ts), vec![30, 10, 20]);
}

#[test]
fn scan_no_locations_gives_no_candidates() {
    let cs = scan_candidates(&vec![], 100).unwrap();
    assert!(cs.is_empty());
}

#[test]
fn match_no_patterns_gives_no_targets() {
    let ts = match_targets(&vec![], &vec![cand("/a/b", 1)]).unwrap();
    assert!(ts.is_empty());
}

#[test]
fn sort_empty_and_single() {
    let mut empty: Vec<LoadTarget> = vec![];
    sort_targets(&mut empty, &SortingMethod::SL);
    assert!(empty.is_empty());
    let mut one = vec![target("/a", 7)];
    sort_targets(&mut one, &SortingMethod::LS);
    assert_eq!(sizes(&one), vec![7]);
}

#[test]
fn sort_is_stable_for_equal_sizes() {
    let mut ts = vec![
        target("/first", 10),
        target("/big", 30),
        target("/second", 10),
        target("/third", 10),
    ];
    sort_targets(&mut ts, &SortingMethod::SL);
    let got: Vec<&str> = ts.iter().map(|t| t.path.as_str()).collect();
    assert_eq!(got, vec!["/first", "/second", "/third", "/big"]);
}
