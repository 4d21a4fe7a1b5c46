//! The submission coordinator: the idempotency gate, the scheduling
//! decision with its fallback, and the single commit.

use vstd::prelude::*;
use crate::client::{AssignedClient, Client};
use crate::job::Job;
use crate::select::{
    find_by_name, find_client_by_name, get_eligible_client, spec_select, SelectError,
    SelectOutcome,
};
use crate::snapshot::{count_of, Snapshot};
use crate::store::{contains_path, JobStore};
use crate::tiers::{group_clients, members_of, spec_tiers};

verus! {

/// Why a submission failed.
#[derive(Clone, Copy, PartialEq, Eq, Structural, Debug)]
pub enum SubmitError {
    /// No tier yielded a candidate and the configured default client is not
    /// in the roster: a configuration error.
    DefaultClientMissing,
    /// A client passing the availability filter has no identity: a
    /// data-integrity fault that aborts the decision.
    MissingClientId,
}

/// What one submission came to.
pub enum Outcome {
    /// A job with this path already existed: success as a no-op.
    NoOp,
    /// The job was committed to `client_name`, which had
    /// `load_at_assignment` active jobs out of `maximum_jobs` at decision
    /// time.
    Assigned { client_name: String, load_at_assignment: i32, maximum_jobs: i32 },
    /// Nothing was committed.
    Failed { reason: SubmitError },
}

/// The pure scheduling decision, before any store effect.
pub enum Decision {
    /// The idempotency gate closed: a job with this path already exists.
    AlreadyExists,
    /// Commit to this client, which had `load` active jobs out of
    /// `maximum` at decision time.
    Assign { client: AssignedClient, load: i32, maximum: i32 },
    /// No commit: surface the reason.
    Reject { reason: SubmitError },
}

/// The load to report for a client picked by the fallback resolver: its
/// snapshot count, with a missing entry or a missing identity counted as
/// zero. Reported only; the fallback applies no capacity check to it.
pub open spec fn fallback_count(c: Client, snap: Seq<(u64, i32)>) -> i32 {
    match c.id {
        Option::Some(cid) => match count_of(snap, cid) {
            Option::Some(n) => n,
            Option::None => 0i32,
        },
        Option::None => 0i32,
    }
}

/// What `decide` must return: the idempotency check settles everything
/// when the job exists; otherwise the tier scan decides, with the fallback
/// lookup — which bypasses the availability and capacity checks — taking
/// over on an exhausted scan; an identity fault or a missing default client rejects
/// the submission.
pub open spec fn decide_post(
    clients: Seq<Client>,
    snap: Seq<(u64, i32)>,
    default_name: Seq<char>,
    job_exists: bool,
    r: Decision,
) -> bool {
    if job_exists {
        r is AlreadyExists
    } else {
        match spec_select(clients, snap) {
            SelectOutcome::Chosen { tier, idx, count } => {
                let c = spec_tiers(clients)[tier][idx];
                r matches Decision::Assign { client, load, maximum } && client.id == c.id
                    && client.name == c.name && client.priority == c.priority && load == count
                    && maximum == c.maximum_jobs
            },
            SelectOutcome::NoneEligible => match find_by_name(clients, default_name) {
                Option::Some(i) => {
                    let c = clients[i];
                    r matches Decision::Assign { client, load, maximum } && client.id == c.id
                        && client.name == c.name && client.priority == c.priority && load
                        == fallback_count(c, snap) && maximum == c.maximum_jobs
                },
                Option::None => r matches Decision::Reject { reason } && reason
                    == SubmitError::DefaultClientMissing,
            },
            SelectOutcome::MissingId => r matches Decision::Reject { reason } && reason
                == SubmitError::MissingClientId,
        }
    }
}

/// Decides what a submission should do, given the roster, the load
/// snapshot, the configured default client name, and whether a job with
/// the submitted path already exists. Pure: the caller performs the store
/// effect (or none) that the decision calls for.
pub fn decide(
    clients: &Vec<Client>,
    snapshot: &Snapshot,
    default_client: &String,
    job_exists: bool,
) -> (r: Decision)
    ensures
        decide_post(clients@, snapshot@, default_client@, job_exists, r),
{
    if job_exists {
        return Decision::AlreadyExists;
    }
    let tiers = group_clients(clients);
    proof {
        assert(members_of(tiers@) == spec_tiers(clients@));
    }
    match get_eligible_client(&tiers, snapshot) {
        Ok((chosen, load, maximum)) => Decision::Assign {
            client: chosen.to_assigned(),
            load,
            maximum,
        },
        Err(SelectError::MissingClientId) => Decision::Reject {
            reason: SubmitError::MissingClientId,
        },
        Err(SelectError::NoEligibleClient) => {
            match find_client_by_name(clients, default_client) {
                Some(c) => {
                    let load = match c.id {
                        Some(cid) => match snapshot.lookup(cid) {
                            Some(n) => n,
                            None => 0,
                        },
                        None => 0,
                    };
                    let maximum = c.maximum_jobs;
                    Decision::Assign { client: c.to_assigned(), load, maximum }
                },
                None => Decision::Reject { reason: SubmitError::DefaultClientMissing },
            }
        },
    }
}

/// The job that a successful submission commits: the submitted fields, the
/// commit-time client snapshot, and the id the store assigns (its position
/// in the store).
pub open spec fn committed_job(
    position: int,
    path: String,
    name: String,
    subtitle: String,
    custom_parameters: Vec<(String, String)>,
    assigned: AssignedClient,
) -> Job {
    Job {
        id: Some(position as u64),
        path,
        name,
        subtitle,
        assigned_client: assigned,
        custom_parameters,
    }
}

/// What `submit` must do to the store (`s0` before, `s1` after) and
/// return.
///
/// When a job with the path already exists, the whole operation is
/// a no-op. Otherwise the tier scan decides; on exhaustion the fallback
/// lookup decides; either commit appends exactly one job, with the chosen
/// client's commit-time snapshot attached; any rejection leaves the store
/// untouched.
pub open spec fn submit_post(
    clients: Seq<Client>,
    snap: Seq<(u64, i32)>,
    default_name: Seq<char>,
    s0: Seq<Job>,
    s1: Seq<Job>,
    path: String,
    name: String,
    subtitle: String,
    custom_parameters: Vec<(String, String)>,
    r: Outcome,
) -> bool {
    if contains_path(s0, path@) {
        r is NoOp && s1 == s0
    } else {
        match spec_select(clients, snap) {
            SelectOutcome::Chosen { tier, idx, count } => {
                let c = spec_tiers(clients)[tier][idx];
                s1 == s0.push(
                    committed_job(
                        s0.len() as int,
                        path,
                        name,
                        subtitle,
                        custom_parameters,
                        AssignedClient { id: c.id, name: c.name, priority: c.priority },
                    ),
                ) && (r matches Outcome::Assigned {
                    client_name,
                    load_at_assignment,
                    maximum_jobs,
                } && client_name == c.name && load_at_assignment == count && maximum_jobs
                    == c.maximum_jobs)
            },
            SelectOutcome::NoneEligible => match find_by_name(clients, default_name) {
                Option::Some(i) => {
                    let c = clients[i];
                    s1 == s0.push(
                        committed_job(
                            s0.len() as int,
                            path,
                            name,
                            subtitle,
                            custom_parameters,
                            AssignedClient { id: c.id, name: c.name, priority: c.priority },
                        ),
                    ) && (r matches Outcome::Assigned {
                        client_name,
                        load_at_assignment,
                        maximum_jobs,
                    } && client_name == c.name && load_at_assignment == fallback_count(c, snap)
                        && maximum_jobs == c.maximum_jobs)
                },
                Option::None => r matches Outcome::Failed { reason } && reason
                    == SubmitError::DefaultClientMissing && s1 == s0,
            },
            SelectOutcome::MissingId => r matches Outcome::Failed { reason } && reason
                == SubmitError::MissingClientId && s1 == s0,
        }
    }
}

/// Submits one job: checks the idempotency gate, decides the assignment,
/// and commits at most one job to the store.
pub fn submit(
    clients: &Vec<Client>,
    snapshot: &Snapshot,
    default_client: &String,
    store: &mut JobStore,
    path: String,
    name: String,
    subtitle: String,
    custom_parameters: Vec<(String, String)>,
) -> (r: Outcome)
    requires
        old(store).wf(),
    ensures
        final(store).wf(),
        submit_post(
            clients@,
            snapshot@,
            default_client@,
            old(store)@,
            final(store)@,
            path,
            name,
            subtitle,
            custom_parameters,
            r,
        ),
{
    let exists = store.job_exists(&path);
    match decide(clients, snapshot, default_client, exists) {
        Decision::AlreadyExists => Outcome::NoOp,
        Decision::Assign { client, load, maximum } => {
            let client_name = client.name.clone();
            let job = Job {
                id: None,
                path,
                name,
                subtitle,
                assigned_client: client,
                custom_parameters,
            };
            match store.insert_job(job) {
                Ok(_) => Outcome::Assigned {
                    client_name,
                    load_at_assignment: load,
                    maximum_jobs: maximum,
                },
                Err(_) => {
                    proof {
                        assert(false);
                    }
                    Outcome::NoOp
                },
            }
        },
        Decision::Reject { reason } => Outcome::Failed { reason },
    }
}

} // verus!
