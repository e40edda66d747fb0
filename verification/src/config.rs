//! Configuration model: the plain-value tables handed in by whatever
//! parsed the configuration file, the effective policy built from them,
//! and the flattened pattern list.
use vstd::prelude::*;
use crate::sizes::{size_to_bytes, resolve_spec, MIB};

verus! {

/// The order in which load targets are offered to the budget allocator:
/// first to last (encounter order), smallest to largest, or largest to
/// smallest.
#[derive(Clone, Copy, PartialEq, Eq, Structural, Debug)]
pub enum SortingMethod {
    FL,
    SL,
    LS,
}

/// The `lock` table of the configuration, as plain values. A `None`
/// field was not given (or was not a string or array of strings).
pub struct LockTable {
    pub max_file_size: Option<String>,
    pub max_total_size: Option<String>,
    pub locations: Option<Vec<String>>,
    pub sorting_method: Option<String>,
}

/// The `load` table of the configuration: directly listed patterns,
/// referenced group names, and the named pattern groups themselves in
/// declaration order.
pub struct LoadTable {
    pub files: Option<Vec<String>>,
    pub lists: Option<Vec<String>>,
    pub groups: Vec<(String, Vec<String>)>,
}

/// The whole configuration as plain values.
pub struct RawConfig {
    pub lock: Option<LockTable>,
    pub load: Option<LoadTable>,
}

/// A fatal setup failure. Configuration errors, a pattern that does not
/// compile, and an unlistable configured directory all abort setup
/// before any file is pinned.
#[derive(Debug)]
pub enum SetupError {
    /// The required `lock` table is missing or malformed.
    InvalidLockTable,
    /// `max_total_size` resolved to zero.
    ZeroMaxTotal,
    /// `max_file_size` resolved to zero.
    ZeroMaxFile,
    /// The required `locations` list is missing or malformed.
    MissingLocations,
    /// The `load` table's `lists` entry is missing or malformed.
    InvalidLoadTable,
    /// A referenced pattern group has no array of patterns.
    MissingGroup(String),
    /// A pattern failed to compile.
    BadPattern(String),
    /// A configured directory exists but could not be listed.
    UnreadableDirectory(String),
}

/// The effective budget: per-file cap, total cap, total system memory,
/// and the ordering policy.
#[derive(Clone, Copy)]
pub struct Policy {
    pub max_file_size: u64,
    pub max_total_size: u64,
    pub memory_size: u64,
    pub sorting_method: SortingMethod,
}

/// What a size field resolves to: the resolved specification where one
/// was given and resolves within machine range, the default otherwise.
pub open spec fn effective_size(field: Option<String>, memory_size: u64, default: u64) -> int {
    match field {
        Option::None => default as int,
        Option::Some(s) => match resolve_spec(s@, memory_size) {
            Option::None => default as int,
            Option::Some(v) => if 0 <= v <= u64::MAX {
                v
            } else {
                default as int
            },
        },
    }
}

/// Case-insensitive match of the two-letter word `fl`.
pub open spec fn matches_fl(s: Seq<char>) -> bool {
    s.len() == 2 && (s[0] == 'f' || s[0] == 'F') && (s[1] == 'l' || s[1] == 'L')
}

/// Case-insensitive match of the two-letter word `ls`.
pub open spec fn matches_ls(s: Seq<char>) -> bool {
    s.len() == 2 && (s[0] == 'l' || s[0] == 'L') && (s[1] == 's' || s[1] == 'S')
}

/// The ordering a `sorting_method` string selects; anything unrecognized
/// (including a missing field) selects smallest-to-largest.
pub open spec fn sorting_of(field: Option<String>) -> SortingMethod {
    match field {
        Option::None => SortingMethod::SL,
        Option::Some(s) => if matches_fl(s@) {
            SortingMethod::FL
        } else if matches_ls(s@) {
            SortingMethod::LS
        } else {
            SortingMethod::SL
        },
    }
}

/// Reads the ordering policy from the configuration field,
/// case-insensitively, defaulting to smallest-to-largest.
pub fn parse_sorting_method(field: &Option<String>) -> (r: SortingMethod)
    ensures
        r == sorting_of(*field),
{
    match field {
        Option::None => SortingMethod::SL,
        Option::Some(s) => {
            let st = s.as_str();
            if st.unicode_len() == 2 {
                let c0 = st.get_char(0);
                let c1 = st.get_char(1);
                if (c0 == 'f' || c0 == 'F') && (c1 == 'l' || c1 == 'L') {
                    SortingMethod::FL
                } else if (c0 == 'l' || c0 == 'L') && (c1 == 's' || c1 == 'S') {
                    SortingMethod::LS
                } else {
                    SortingMethod::SL
                }
            } else {
                SortingMethod::SL
            }
        },
    }
}

/// Resolves one size field against total memory, substituting the
/// default when the field is absent or unresolved.
fn size_field(field: &Option<String>, memory_size: u64, default: u64) -> (r: u64)
    ensures
        r == effective_size(*field, memory_size, default),
{
    match field {
        Option::None => default,
        Option::Some(s) => match size_to_bytes(s.as_str(), memory_size) {
            Option::Some(v) => v,
            Option::None => default,
        },
    }
}

/// Builds the effective policy from the `lock` table and total system
/// memory. `max_file_size` defaults to 20 MiB and `max_total_size` to a
/// tenth of total memory; either resolving to zero is fatal, as is a
/// missing `lock` table or `locations` list.
pub fn build_policy(cfg: &RawConfig, memory_size: u64) -> (r: Result<Policy, SetupError>)
    ensures
        cfg.lock is None ==> r == Err::<Policy, SetupError>(SetupError::InvalidLockTable),
        cfg.lock matches Some(lock) ==> {
            let mfs = effective_size(lock.max_file_size, memory_size, (20 * MIB) as u64);
            let mts = effective_size(lock.max_total_size, memory_size, memory_size / 10);
            &&& mts == 0 ==> r == Err::<Policy, SetupError>(SetupError::ZeroMaxTotal)
            &&& (mts != 0 && mfs == 0) ==> r == Err::<Policy, SetupError>(SetupError::ZeroMaxFile)
            &&& (mts != 0 && mfs != 0 && lock.locations is None) ==> r == Err::<
                Policy,
                SetupError,
            >(SetupError::MissingLocations)
            &&& (mts != 0 && mfs != 0 && lock.locations is Some) ==> (r matches Ok(p)
                && p.max_file_size == mfs && p.max_total_size == mts && p.memory_size
                == memory_size && p.sorting_method == sorting_of(lock.sorting_method))
        },
{
    match &cfg.lock {
        Option::None => Err(SetupError::InvalidLockTable),
        Option::Some(lock) => {
            let mfs: u64 = size_field(&lock.max_file_size, memory_size, 20 * MIB);
            let mts: u64 = size_field(&lock.max_total_size, memory_size, memory_size / 10);
            if mts == 0 {
                Err(SetupError::ZeroMaxTotal)
            } else if mfs == 0 {
                Err(SetupError::ZeroMaxFile)
            } else {
                match &lock.locations {
                    Option::None => Err(SetupError::MissingLocations),
                    Option::Some(_) => {
                        let sorting_method = parse_sorting_method(&lock.sorting_method);
                        Ok(
                            (Policy {
                                max_file_size: mfs,
                                max_total_size: mts,
                                memory_size,
                                sorting_method,
                            }),
                        )
                    },
                }
            }
        },
    }
}

/// The views of a sequence of strings.
pub open spec fn views_of(v: Seq<String>) -> Seq<Seq<char>> {
    v.map_values(|s: String| s@)
}

/// The patterns of the first group declared under `name`, if any.
pub open spec fn lookup_group(groups: Seq<(String, Vec<String>)>, name: Seq<char>) -> Option<
    Seq<Seq<char>>,
>
    decreases groups.len(),
{
    if groups.len() == 0 {
        Option::None
    } else if groups[0].0@ == name {
        Option::Some(views_of(groups[0].1@))
    } else {
        lookup_group(groups.drop_first(), name)
    }
}

/// Whether every referenced group name has a declared group.
pub open spec fn all_groups_present(
    groups: Seq<(String, Vec<String>)>,
    lists: Seq<String>,
) -> bool {
    forall|i: int| 0 <= i < lists.len() ==> lookup_group(groups, lists[i]@) is Some
}

/// The first referenced group name with no declared group.
pub open spec fn first_missing_group(
    groups: Seq<(String, Vec<String>)>,
    lists: Seq<String>,
) -> Seq<char>
    decreases lists.len(),
{
    if lists.len() == 0 {
        Seq::empty()
    } else if lookup_group(groups, lists[0]@) is None {
        lists[0]@
    } else {
        first_missing_group(groups, lists.drop_first())
    }
}

/// The directly listed patterns, in order.
pub open spec fn direct_patterns(files: Option<Vec<String>>) -> Seq<Seq<char>> {
    match files {
        Option::None => Seq::empty(),
        Option::Some(v) => views_of(v@),
    }
}

/// The patterns contributed by the referenced groups, in reference
/// order.
pub open spec fn group_patterns(
    groups: Seq<(String, Vec<String>)>,
    lists: Seq<String>,
) -> Seq<Seq<char>>
    decreases lists.len(),
{
    if lists.len() == 0 {
        Seq::empty()
    } else {
        group_patterns(groups, lists.drop_last()) + match lookup_group(groups, lists.last()@) {
            Option::Some(ps) => ps,
            Option::None => Seq::empty(),
        }
    }
}

/// The flattened pattern list of a `load` table: direct patterns first,
/// then each referenced group's patterns, in order, undeduplicated.
pub open spec fn flat_patterns(load: Option<LoadTable>) -> Seq<Seq<char>> {
    match load {
        Option::None => Seq::empty(),
        Option::Some(t) => direct_patterns(t.files) + match t.lists {
            Option::Some(ls) => group_patterns(t.groups@, ls@),
            Option::None => Seq::empty(),
        },
    }
}

proof fn lemma_lookup_skip(groups: Seq<(String, Vec<String>)>, name: Seq<char>, i: int)
    requires
        0 <= i <= groups.len(),
        forall|k: int| 0 <= k < i ==> (#[trigger] groups[k]).0@ != name,
    ensures
        lookup_group(groups, name) == lookup_group(groups.skip(i), name),
    decreases i,
{
    assert(groups.skip(0) =~~= groups);
    if i > 0 {
        assert(groups.skip(i - 1).drop_first() =~~= groups.skip(i));
        lemma_lookup_skip(groups, name, i - 1);
        assert(groups[i - 1].0@ != name);
        assert(groups.skip(i - 1)[0] == groups[i - 1]);
        assert(lookup_group(groups.skip(i - 1), name) == lookup_group(groups.skip(i), name));
    }
}

/// Finds the first group declared under `name`.
fn find_group<'a>(groups: &'a Vec<(String, Vec<String>)>, name: &String) -> (r: Option<
    &'a Vec<String>,
>)
    ensures
        match r {
            Option::None => lookup_group(groups@, name@) is None,
            Option::Some(g) => lookup_group(groups@, name@) == Option::Some(views_of(g@)),
        },
{
    let n = groups.len();
    let mut i: usize = 0;
    while i < n
        invariant
            0 <= i <= n,
            n == groups@.len(),
            forall|k: int| 0 <= k < i ==> (#[trigger] groups@[k]).0@ != name@,
        decreases n - i,
    {
        if groups[i].0 == *name {
            proof {
                lemma_lookup_skip(groups@, name@, i as int);
                assert(groups@.skip(i as int)[0] == groups@[i as int]);
            }
            return Some(&groups[i].1);
        }
        i = i + 1;
    }
    proof {
        lemma_lookup_skip(groups@, name@, n as int);
        assert(groups@.skip(n as int).len() == 0);
    }
    None
}

/// Copies the strings of `src` onto the end of `out`.
fn append_strings(out: &mut Vec<String>, src: &Vec<String>)
    ensures
        final(out)@ == old(out)@ + src@,
{
    let n = src.len();
    let mut k: usize = 0;
    while k < n
        invariant
            0 <= k <= n,
            n == src@.len(),
            out@ =~= old(out)@ + src@.take(k as int),
        decreases n - k,
    {
        out.push(src[k].clone());
        proof {
            assert(out@ =~= old(out)@ + src@.take(k as int + 1));
        }
        k = k + 1;
    }
    proof {
        assert(src@.take(n as int) =~= src@);
        assert(final(out)@ =~= old(out)@ + src@);
    }
}

proof fn lemma_views_of_add(a: Seq<String>, b: Seq<String>)
    ensures
        views_of(a + b) =~~= views_of(a) + views_of(b),
{
}

/// Builds the flattened pattern list from the `load` table: all directly
/// listed patterns in order, then each referenced group's patterns in
/// reference order, without deduplication. A missing `load` table means
/// no patterns; a missing `lists` entry or referenced group is fatal.
#[verifier::loop_isolation(false)]
pub fn flatten_patterns(load: &Option<LoadTable>) -> (r: Result<Vec<String>, SetupError>)
    ensures
        *load is None ==> (r matches Ok(v) && v@.len() == 0),
        *load matches Some(t) ==> {
            &&& t.lists is None ==> r == Err::<Vec<String>, SetupError>(SetupError::InvalidLoadTable)
            &&& t.lists matches Some(ls) ==> {
                &&& !all_groups_present(t.groups@, ls@) ==> (r matches Err(e)
                    && e matches SetupError::MissingGroup(n) && n@ == first_missing_group(
                    t.groups@,
                    ls@,
                ))
                &&& all_groups_present(t.groups@, ls@) ==> (r matches Ok(v) && views_of(v@)
                    == flat_patterns(*load))
            }
        },
{
    let mut out: Vec<String> = Vec::new();
    match load {
        Option::None => Ok(out),
        Option::Some(t) => {
            match &t.lists {
                Option::None => Err(SetupError::InvalidLoadTable),
                Option::Some(ls) => {
                    match &t.files {
                        Option::Some(fs) => {
                            append_strings(&mut out, fs);
                            proof {
                                assert(out@ =~= fs@);
                            }
                        },
                        Option::None => {},
                    }
                    assert(views_of(out@) =~~= direct_patterns(t.files));
                    let n = ls.len();
                    let mut j: usize = 0;
                    while j < n
                        invariant
                            0 <= j <= n,
                            n == ls@.len(),
                            forall|k: int| 0 <= k < j ==> lookup_group(
                                t.groups@,
                                (#[trigger] ls@[k])@,
                            ) is Some,
                            views_of(out@) =~~= direct_patterns(t.files) + group_patterns(
                                t.groups@,
                                ls@.take(j as int),
                            ),
                        decreases n - j,
                    {
                        match find_group(&t.groups, &ls[j]) {
                            Option::None => {
                                proof {
                                    lemma_first_missing_is_first(t.groups@, ls@, j as int);
                                }
                                return Err(SetupError::MissingGroup(ls[j].clone()));
                            },
                            Option::Some(g) => {
                                let ghost prev = out@;
                                append_strings(&mut out, g);
                                proof {
                                    lemma_views_of_add(prev, g@);
                                    assert(ls@.take(j as int + 1).drop_last() =~~= ls@.take(
                                        j as int,
                                    ));
                                    assert(ls@.take(j as int + 1).last() == ls@[j as int]);
                                    assert(views_of(out@) =~~= direct_patterns(t.files)
                                        + group_patterns(t.groups@, ls@.take(j as int + 1)));
                                }
                            },
                        }
                        j = j + 1;
                    }
                    proof {
                        assert(ls@.take(n as int) =~~= ls@);
                    }
                    Ok(out)
                },
            }
        },
    }
}

proof fn lemma_first_missing_is_first(
    groups: Seq<(String, Vec<String>)>,
    lists: Seq<String>,
    j: int,
)
    requires
        0 <= j < lists.len(),
        forall|k: int| 0 <= k < j ==> lookup_group(groups, (#[trigger] lists[k])@) is Some,
        lookup_group(groups, lists[j]@) is None,
    ensures
        first_missing_group(groups, lists) == lists[j]@,
    decreases j,
{
    if j > 0 {
        lemma_first_missing_is_first(groups, lists.drop_first(), j - 1);
    }
}

} // verus!
