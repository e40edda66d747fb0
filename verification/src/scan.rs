//! Candidate scanning: deciding, from the listings of the configured
//! locations, which regular files at or below the per-file cap become
//! candidates. The process shell performs the directory listing itself
//! and hands in plain values.
use vstd::prelude::*;
use crate::config::SetupError;

verus! {

/// What a metadata read of one directory entry said.
#[derive(Clone, Copy)]
pub struct FileStat {
    pub is_file: bool,
    pub size: u64,
}

/// One directory entry: its path and its metadata, `None` when the
/// metadata read failed (such an entry is skipped, not fatal).
pub struct DirEntryInfo {
    pub path: String,
    pub stat: Option<FileStat>,
}

/// The outcome of listing one configured location: skipped silently
/// (missing or not a directory), unreadable (fatal), or listed.
pub enum Listing {
    Skipped,
    Unreadable,
    Listed(Vec<DirEntryInfo>),
}

/// A configured location and what listing it produced.
pub struct Location {
    pub path: String,
    pub listing: Listing,
}

/// A candidate file: a regular file within the per-file cap.
pub struct CandidateFile {
    pub path: String,
    pub size: u64,
}

/// The mathematical model of a file under consideration: its path and
/// size.
#[verifier::ext_equal]
pub ghost struct FileModel {
    pub path: Seq<char>,
    pub size: u64,
}

/// An entry becomes a candidate exactly when its metadata could be read,
/// it is a regular file, and its size is at most the per-file cap.
pub open spec fn admitted_entry(e: DirEntryInfo, cap: u64) -> bool {
    e.stat matches Some(st) && st.is_file && st.size <= cap
}

/// The model of an admitted entry.
pub open spec fn entry_model(e: DirEntryInfo) -> FileModel {
    FileModel { path: e.path@, size: e.stat->Some_0.size }
}

/// The models of a sequence of candidate files.
pub open spec fn cand_models(cs: Seq<CandidateFile>) -> Seq<FileModel> {
    cs.map_values(|c: CandidateFile| FileModel { path: c.path@, size: c.size })
}

/// The candidates one listed location contributes, in entry order.
pub open spec fn listing_candidates(entries: Seq<DirEntryInfo>, cap: u64) -> Seq<FileModel> {
    entries.filter(|e: DirEntryInfo| admitted_entry(e, cap)).map_values(
        |e: DirEntryInfo| entry_model(e),
    )
}

/// The candidates one location contributes.
pub open spec fn location_candidates(loc: Location, cap: u64) -> Seq<FileModel> {
    match loc.listing {
        Listing::Listed(es) => listing_candidates(es@, cap),
        _ => Seq::empty(),
    }
}

/// All candidates, location by location in configuration order.
pub open spec fn all_candidates(locs: Seq<Location>, cap: u64) -> Seq<FileModel>
    decreases locs.len(),
{
    if locs.len() == 0 {
        Seq::empty()
    } else {
        all_candidates(locs.drop_last(), cap) + location_candidates(locs.last(), cap)
    }
}

/// Whether some configured location was unreadable.
pub open spec fn has_unreadable(locs: Seq<Location>) -> bool {
    exists|i: int| 0 <= i < locs.len() && (#[trigger] locs[i]).listing is Unreadable
}

/// The path of the first unreadable location.
pub open spec fn first_unreadable(locs: Seq<Location>) -> Seq<char>
    decreases locs.len(),
{
    if locs.len() == 0 {
        Seq::empty()
    } else if locs[0].listing is Unreadable {
        locs[0].path@
    } else {
        first_unreadable(locs.drop_first())
    }
}

proof fn lemma_listing_step(entries: Seq<DirEntryInfo>, k: int, cap: u64)
    requires
        0 <= k < entries.len(),
    ensures
        admitted_entry(entries[k], cap) ==> listing_candidates(entries.take(k + 1), cap)
            =~~= listing_candidates(entries.take(k), cap).push(entry_model(entries[k])),
        !admitted_entry(entries[k], cap) ==> listing_candidates(entries.take(k + 1), cap)
            =~~= listing_candidates(entries.take(k), cap),
{
    reveal(Seq::filter);
    let a = entries.take(k + 1);
    let b = entries.take(k);
    assert(a.drop_last() =~= b);
    assert(a.last() == entries[k]);
    if admitted_entry(entries[k], cap) {
        assert(listing_candidates(a, cap) =~~= listing_candidates(b, cap).push(
            entry_model(entries[k]),
        ));
    } else {
        assert(listing_candidates(a, cap) =~~= listing_candidates(b, cap));
    }
}

proof fn lemma_first_unreadable_is_first(locs: Seq<Location>, i: int)
    requires
        0 <= i < locs.len(),
        forall|k: int| 0 <= k < i ==> !((#[trigger] locs[k]).listing is Unreadable),
        locs[i].listing is Unreadable,
    ensures
        first_unreadable(locs) == locs[i].path@,
    decreases i,
{
    if i > 0 {
        lemma_first_unreadable_is_first(locs.drop_first(), i - 1);
    }
}

/// Walks the location listings, collecting every regular file whose
/// size is at most `max_file_size`; entries whose metadata could not be
/// read are skipped, locations that are not directories are skipped,
/// and the first unreadable directory aborts with a fatal error.
#[verifier::loop_isolation(false)]
pub fn scan_candidates(locations: &Vec<Location>, max_file_size: u64) -> (r: Result<
    Vec<CandidateFile>,
    SetupError,
>)
    ensures
        !has_unreadable(locations@) ==> (r matches Ok(cs) && cand_models(cs@) == all_candidates(
            locations@,
            max_file_size,
        )),
        has_unreadable(locations@) ==> (r matches Err(e)
            && e matches SetupError::UnreadableDirectory(p) && p@ == first_unreadable(locations@)),
{
    let mut out: Vec<CandidateFile> = Vec::new();
    let n = locations.len();
    let mut i: usize = 0;
    while i < n
        invariant
            0 <= i <= n,
            forall|k: int| 0 <= k < i ==> !((#[trigger] locations@[k]).listing is Unreadable),
            cand_models(out@) =~~= all_candidates(locations@.take(i as int), max_file_size),
        decreases n - i,
    {
        match &locations[i].listing {
            Listing::Skipped => {
                proof {
                    assert(locations@.take(i as int + 1).drop_last() =~~= locations@.take(i as int));
                    assert(cand_models(out@) =~~= all_candidates(
                        locations@.take(i as int + 1),
                        max_file_size,
                    ));
                }
            },
            Listing::Unreadable => {
                proof {
                    lemma_first_unreadable_is_first(locations@, i as int);
                }
                return Err(SetupError::UnreadableDirectory(locations[i].path.clone()));
            },
            Listing::Listed(es) => {
                let m = es.len();
                let mut k: usize = 0;
                while k < m
                    invariant
                        0 <= k <= m,
                        cand_models(out@) =~~= all_candidates(locations@.take(i as int), max_file_size)
                            + listing_candidates(es@.take(k as int), max_file_size),
                    decreases m - k,
                {
                    let accepted: bool = match &es[k].stat {
                        Option::Some(st) => st.is_file && st.size <= max_file_size,
                        Option::None => false,
                    };
                    proof {
                        lemma_listing_step(es@, k as int, max_file_size);
                    }
                    if accepted {
                        let size: u64 = match &es[k].stat {
                            Option::Some(st) => st.size,
                            Option::None => 0,
                        };
                        let path = es[k].path.clone();
                        let ghost prev_out = out@;
                        let ghost cm = FileModel { path: path@, size: size };
                        out.push(CandidateFile { path, size });
                        proof {
                            assert(cm =~~= entry_model(es@[k as int]));
                            assert(cand_models(out@) =~~= cand_models(prev_out).push(cm));
                            assert(cand_models(out@) =~~= all_candidates(
                                locations@.take(i as int),
                                max_file_size,
                            ) + listing_candidates(es@.take(k as int + 1), max_file_size));
                        }
                    } else {
                        proof {
                            assert(cand_models(out@) =~~= all_candidates(
                                locations@.take(i as int),
                                max_file_size,
                            ) + listing_candidates(es@.take(k as int + 1), max_file_size));
                        }
                    }
                    k = k + 1;
                }
                proof {
                    assert(es@.take(m as int) =~~= es@);
                    assert(locations@.take(i as int + 1).drop_last() =~~= locations@.take(i as int));
                    assert(locations@.take(i as int + 1).last() == locations@[i as int]);
                    assert(cand_models(out@) =~~= all_candidates(
                        locations@.take(i as int + 1),
                        max_file_size,
                    ));
                }
            },
        }
        i = i + 1;
    }
    proof {
        assert(locations@.take(n as int) =~~= locations@);
    }
    Ok(out)
}

} // verus!
