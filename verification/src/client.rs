//! The client (worker) record that the scheduler reads, and the snapshot
//! of it that a committed job keeps.

use vstd::prelude::*;

verus! {

/// A registered executor capable of running jobs. The registry creates and
/// updates these records; the scheduler only reads them.
///
/// `id` is the client's identity in the store; a record may lack one, which
/// the scheduler treats as a fatal data-integrity fault (it cannot key such
/// a client against the load snapshot). The two availability strings are
/// display-only and never interpreted here. `priority` orders the tiers:
/// a lower value is processed earlier. A client with `online == false` is
/// skipped unless `ignore_online` is set.
pub struct Client {
    pub id: Option<u64>,
    pub name: String,
    pub availability_start: String,
    pub availability_end: String,
    pub maximum_jobs: i32,
    pub priority: i32,
    pub online: bool,
    pub ignore_online: bool,
}

/// A client passes the availability filter when it is online or asks for
/// the online flag to be ignored.
pub open spec fn available(c: Client) -> bool {
    c.online || c.ignore_online
}

impl Clone for Client {
    fn clone(&self) -> (r: Self)
        ensures
            r == *self,
    {
        Client {
            id: self.id,
            name: self.name.clone(),
            availability_start: self.availability_start.clone(),
            availability_end: self.availability_end.clone(),
            maximum_jobs: self.maximum_jobs,
            priority: self.priority,
            online: self.online,
            ignore_online: self.ignore_online,
        }
    }
}

/// The point-in-time view of the client that a job keeps from commit time.
/// It is a copy, not a live reference: later changes to the client do not
/// change completed assignments.
pub struct AssignedClient {
    pub id: Option<u64>,
    pub name: String,
    pub priority: i32,
}

impl Clone for AssignedClient {
    fn clone(&self) -> (r: Self)
        ensures
            r == *self,
    {
        AssignedClient { id: self.id, name: self.name.clone(), priority: self.priority }
    }
}

impl Client {
    /// The snapshot of this client that a job committed to it keeps.
    pub fn to_assigned(&self) -> (r: AssignedClient)
        ensures
            r.id == self.id,
            r.name == self.name,
            r.priority == self.priority,
    {
        AssignedClient { id: self.id, name: self.name.clone(), priority: self.priority }
    }
}

} // verus!
