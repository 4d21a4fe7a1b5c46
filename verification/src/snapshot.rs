//! The load snapshot: a point-in-time read of per-client active-job counts,
//! supplied fresh for each scheduling decision and never mutated here.

use vstd::prelude::*;

verus! {

/// Per-client active-job counts at decision time, as `(client id, count)`
/// entries. A client with no entry is treated as having zero active jobs.
/// If an id occurs twice, the first entry wins.
pub struct Snapshot {
    pub entries: Vec<(u64, i32)>,
}

impl View for Snapshot {
    type V = Seq<(u64, i32)>;

    open spec fn view(&self) -> Seq<(u64, i32)> {
        self.entries@
    }
}

/// The count recorded for `id` from position `pos` on: the first matching
/// entry, or `None` when the id has no entry there.
pub open spec fn count_of_from(entries: Seq<(u64, i32)>, id: u64, pos: int) -> Option<i32>
    decreases entries.len() - pos,
{
    if pos < 0 || pos >= entries.len() {
        None
    } else if entries[pos].0 == id {
        Some(entries[pos].1)
    } else {
        count_of_from(entries, id, pos + 1)
    }
}

/// The count the snapshot records for `id`: the first matching entry, or
/// `None` when the client has no entry.
pub open spec fn count_of(entries: Seq<(u64, i32)>, id: u64) -> Option<i32> {
    count_of_from(entries, id, 0)
}

impl Snapshot {
    /// Looks up the active-job count recorded for `id`.
    pub fn lookup(&self, id: u64) -> (r: Option<i32>)
        ensures
            r == count_of(self@, id),
    {
        let mut i: usize = 0;
        while i < self.entries.len()
            invariant
                i <= self.entries.len(),
                count_of(self@, id) == count_of_from(self@, id, i as int),
            decreases self.entries.len() - i,
        {
            if self.entries[i].0 == id {
                return Some(self.entries[i].1);
            }
            i += 1;
        }
        None
    }
}

} // verus!
