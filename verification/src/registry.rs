//! The resident registry: the append-only record of pinned files and
//! the running total the budget allocator maintains. Admission is
//! best-effort packing: a target that would overflow the remaining
//! budget is skipped, and later, smaller targets may still be admitted.
use vstd::prelude::*;
use crate::sizes::{bytes_to_size, human_size};

verus! {

/// One resident file: its path and the size it was admitted at.
pub struct ResidentRecord {
    pub path: String,
    pub size: u64,
}

/// The total of the recorded sizes.
pub open spec fn sum_sizes(s: Seq<ResidentRecord>) -> int
    decreases s.len(),
{
    if s.len() == 0 {
        0
    } else {
        sum_sizes(s.drop_last()) + s.last().size
    }
}

/// The resident registry with its budget caps and running total.
pub struct Registry {
    pub entries: Vec<ResidentRecord>,
    pub current_size: u64,
    pub max_file_size: u64,
    pub max_total_size: u64,
}

impl Registry {
    /// Well-formedness: the running total is exactly the sum of the
    /// recorded sizes, it never exceeds the total budget, and every
    /// recorded file is within the per-file cap.
    pub open spec fn wf(self) -> bool {
        &&& sum_sizes(self.entries@) == self.current_size as int
        &&& self.current_size <= self.max_total_size
        &&& forall|i: int|
            0 <= i < self.entries@.len() ==> (#[trigger] self.entries@[i]).size
                <= self.max_file_size
    }

    /// An empty registry for the given caps.
    pub fn new(max_file_size: u64, max_total_size: u64) -> (r: Registry)
        ensures
            r.wf(),
            r.entries@.len() == 0,
            r.current_size == 0,
            r.max_file_size == max_file_size,
            r.max_total_size == max_total_size,
    {
        Registry { entries: Vec::new(), current_size: 0, max_file_size, max_total_size }
    }

    /// The admission decision: whether a file of this size still fits
    /// the remaining budget. A `false` answer skips only this target;
    /// the caller continues with the next one.
    pub fn fits(&self, size: u64) -> (b: bool)
        requires
            self.wf(),
        ensures
            b == (self.current_size + size <= self.max_total_size),
    {
        size <= self.max_total_size - self.current_size
    }

    /// Records a pinned file: appends it and adds its size to the
    /// running total.
    pub fn record(&mut self, path: String, size: u64)
        requires
            old(self).wf(),
            size <= old(self).max_file_size,
            old(self).current_size + size <= old(self).max_total_size,
        ensures
            final (self).wf(),
            final (self).entries@ == old(self).entries@.push(
                (ResidentRecord { path: path, size: size }),
            ),
            final (self).current_size == old(self).current_size + size,
            final (self).max_file_size == old(self).max_file_size,
            final (self).max_total_size == old(self).max_total_size,
    {
        let ghost prev = self.entries@;
        self.entries.push(ResidentRecord { path, size });
        self.current_size = self.current_size + size;
        proof {
            assert(self.entries@.drop_last() =~= prev);
        }
    }

    /// The running total of resident bytes.
    pub fn total_size(&self) -> (s: u64)
        ensures
            s == self.current_size,
    {
        self.current_size
    }

    /// How many files are resident.
    pub fn file_count(&self) -> (n: usize)
        ensures
            n == self.entries@.len(),
    {
        self.entries.len()
    }

    /// The resident file at one position, for the usage report.
    pub fn entry_at(&self, i: usize) -> (e: &ResidentRecord)
        requires
            i < self.entries@.len(),
        ensures
            *e == self.entries@[i as int],
    {
        &self.entries[i]
    }

    /// The usage report: one line per resident file, in admission
    /// order.
    pub fn report_lines(&self) -> (r: Vec<String>)
        ensures
            r@.len() == self.entries@.len(),
            forall|i: int|
                0 <= i < r@.len() ==> (#[trigger] r@[i])@ == report_line(self.entries@[i]),
    {
        let mut out: Vec<String> = Vec::new();
        let n = self.entries.len();
        let mut i: usize = 0;
        while i < n
            invariant
                0 <= i <= n,
                n == self.entries@.len(),
                out@.len() == i,
                forall|k: int|
                    0 <= k < i ==> (#[trigger] out@[k])@ == report_line(self.entries@[k]),
            decreases n - i,
        {
            let mut line = self.entries[i].path.clone();
            proof {
                reveal_strlit(" - ");
            }
            line.append(" - ");
            let size_str = bytes_to_size(self.entries[i].size);
            line.append(size_str.as_str());
            proof {
                assert(line@ =~= report_line(self.entries@[i as int]));
            }
            out.push(line);
            i = i + 1;
        }
        out
    }
}

/// One report line: the path, a separating dash, and the human-readable
/// size.
pub open spec fn report_line(e: ResidentRecord) -> Seq<char> {
    e.path@ + seq![' ', '-', ' '] + human_size(e.size as int)
}

/// In every run, the sum of the resident files' sizes stays within the
/// total budget, and each resident file's size is within the per-file
/// cap.
pub proof fn lemma_registry_within_budget(r: Registry)
    requires
        r.wf(),
    ensures
        sum_sizes(r.entries@) <= r.max_total_size as int,
        forall|i: int|
            0 <= i < r.entries@.len() ==> (#[trigger] r.entries@[i]).size <= r.max_file_size,
{
}

} // verus!
