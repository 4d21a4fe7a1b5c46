//! An in-memory job store with the guarantees the submission protocol
//! expects of the durable one: at most one job per path, ids assigned on
//! commit, inserts atomic (the job is fully recorded or not at all).

use vstd::prelude::*;
use crate::job::Job;

verus! {

/// The insert was refused.
#[derive(Clone, Copy, PartialEq, Eq, Structural, Debug)]
pub enum StoreError {
    /// A job with the same path is already recorded.
    DuplicatePath,
}

/// Whether some job in `jobs` carries the path `path`.
pub open spec fn contains_path(jobs: Seq<Job>, path: Seq<char>) -> bool {
    exists|i: int| 0 <= i < jobs.len() && jobs[i].path@ == path
}

/// Well-formedness of the store's contents: paths are pairwise distinct,
/// and each job carries the id the store assigned it (its position).
pub open spec fn store_wf(jobs: Seq<Job>) -> bool {
    &&& forall|i: int, j: int|
        0 <= i < j < jobs.len() ==> (#[trigger] jobs[i].path@) != (#[trigger] jobs[j].path@)
    &&& forall|i: int| 0 <= i < jobs.len() ==> (#[trigger] jobs[i].id) == Some(i as u64)
}

/// The job store. Its contents are reached through `view` (the recorded
/// jobs, in commit order); every operation preserves `wf`.
pub struct JobStore {
    jobs: Vec<Job>,
}

impl View for JobStore {
    type V = Seq<Job>;

    closed spec fn view(&self) -> Seq<Job> {
        self.jobs@
    }
}

impl JobStore {
    pub open spec fn wf(&self) -> bool {
        store_wf(self@)
    }

    /// An empty store.
    pub fn new() -> (r: JobStore)
        ensures
            r@ == Seq::<Job>::empty(),
            r.wf(),
    {
        JobStore { jobs: Vec::new() }
    }

    /// How many jobs are recorded.
    pub fn len(&self) -> (r: usize)
        ensures
            r == self@.len(),
    {
        self.jobs.len()
    }

    /// The job at position `i`, in commit order.
    pub fn get(&self, i: usize) -> (r: &Job)
        requires
            i < self@.len(),
        ensures
            *r == self@[i as int],
    {
        &self.jobs[i]
    }

    /// The idempotency check: whether a job with this path is recorded.
    pub fn job_exists(&self, path: &String) -> (r: bool)
        ensures
            r == contains_path(self@, path@),
    {
        let mut i: usize = 0;
        while i < self.jobs.len()
            invariant
                i <= self.jobs@.len(),
                forall|k: int| 0 <= k < i as int ==> (#[trigger] self.jobs@[k].path@) != path@,
            decreases self.jobs.len() - i,
        {
            if self.jobs[i].path == *path {
                return true;
            }
            i += 1;
        }
        false
    }

    /// Commits a job: assigns it the next id and records it, unless a job
    /// with the same path already exists, in which case nothing is
    /// recorded. Returns the assigned id.
    pub fn insert_job(&mut self, job: Job) -> (r: Result<u64, StoreError>)
        requires
            old(self).wf(),
        ensures
            final(self).wf(),
            contains_path(old(self)@, job.path@) ==> (r matches Err(e) && e
                == StoreError::DuplicatePath && final(self)@ == old(self)@),
            !contains_path(old(self)@, job.path@) ==> (r matches Ok(id) && id == old(
                self,
            )@.len() as u64 && final(self)@ == old(self)@.push(
                Job { id: Some(old(self)@.len() as u64), ..job },
            )),
    {
        if self.job_exists(&job.path) {
            return Err(StoreError::DuplicatePath);
        }
        let id = self.jobs.len() as u64;
        let committed = Job {
            id: Some(id),
            path: job.path,
            name: job.name,
            subtitle: job.subtitle,
            assigned_client: job.assigned_client,
            custom_parameters: job.custom_parameters,
        };
        self.jobs.push(committed);
        Ok(id)
    }
}

} // verus!
