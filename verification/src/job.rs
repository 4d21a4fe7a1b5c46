//! The job record: created once by the submission flow, never mutated here
//! after commit.

use vstd::prelude::*;
use crate::client::AssignedClient;

verus! {

/// A submitted job. `path` is the natural key for idempotency: the store
/// never holds two jobs with the same path. `id` is assigned by the store
/// on commit. The custom parameters are ordered key/value pairs whose
/// meaning is opaque here. `assigned_client` is the commit-time snapshot of
/// the chosen client.
pub struct Job {
    pub id: Option<u64>,
    pub path: String,
    pub name: String,
    pub subtitle: String,
    pub assigned_client: AssignedClient,
    pub custom_parameters: Vec<(String, String)>,
}

} // verus!
