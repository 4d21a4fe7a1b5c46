//! The submission coordinator end to end: the idempotency gate, commit,
//! fallback and failure paths, against the in-memory store.

use infuser::client::Client;
use infuser::snapshot::Snapshot;
use infuser::store::{JobStore, StoreError};
use infuser::submit::{decide, submit, Decision, Outcome, SubmitError};

fn client(id: Option<u64>, name: &str, maximum: i32, priority: i32, online: bool, ignore: bool) -> Client {
    Client {
        id,
        name: name.to_string(),
        availability_start: String::new(),
        availability_end: String::new(),
        maximum_jobs: maximum,
        priority,
        online,
        ignore_online: ignore,
    }
}

fn snap(entries: Vec<(u64, i32)>) -> Snapshot {
    Snapshot { entries }
}

fn submit_path(
    clients: &Vec<Client>,
    snapshot: &Snapshot,
    default_client: &str,
    store: &mut JobStore,
    path: &str,
) -> Outcome {
    submit(
        clients,
        snapshot,
        &default_client.to_string(),
        store,
        path.to_string(),
        "job".to_string(),
        "sub".to_string(),
        Vec::new(),
    )
}

#[test]
fn scenario_assigns_the_single_eligible_client() {
    // one client, priority 0, maximum 2, one active job: assigned at load 1
    let clients = vec![client(Some(1), "alpha", 2, 0, true, false)];
    let s = snap(vec![(1, 1)]);
    let mut store = JobStore::new();
    let got = submit_path(&clients, &s, "alpha", &mut store, "/a");
    match got {
        Outcome::Assigned { client_name, load_at_assignment, maximum_jobs } => {
            assert_eq!(client_name, "alpha");
            assert_eq!(load_at_assignment, 1);
            assert_eq!(maximum_jobs, 2);
        }
        _ => panic!("expected an assignment"),
    }
    assert_eq!(store.len(), 1);
    let job = store.get(0);
    assert_eq!(job.path, "/a");
    assert_eq!(job.name, "job");
    assert_eq!(job.subtitle, "sub");
    assert_eq!(job.id, Some(0));
    assert_eq!(job.assigned_client.id, Some(1));
    assert_eq!(job.assigned_client.name, "alpha");
    assert_eq!(job.assigned_client.priority, 0);
}

#[test]
fn scenario_at_capacity_falls_back_to_the_default_client() {
    // the only client is at its maximum; the default client is taken
    // unconditionally, capacity and online checks bypassed
    let clients = vec![client(Some(1), "alpha", 2, 0, true, false)];
    let s = snap(vec![(1, 2)]);
    let mut store = JobStore::new();
    let got = submit_path(&clients, &s, "alpha", &mut store, "/a");
    match got {
        Outcome::Assigned { client_name, load_at_assignment, maximum_jobs } => {
            assert_eq!(client_name, "alpha");
            assert_eq!(load_at_assignment, 2);
            assert_eq!(maximum_jobs, 2);
        }
        _ => panic!("expected the fallback assignment"),
    }
    assert_eq!(store.len(), 1);
}

#[test]
fn scenario_at_capacity_without_default_fails() {
    let clients = vec![client(Some(1), "alpha", 2, 0, true, false)];
    let s = snap(vec![(1, 2)]);
    let mut store = JobStore::new();
    let got = submit_path(&clients, &s, "other", &mut store, "/a");
    match got {
        Outcome::Failed { reason } => assert_eq!(reason, SubmitError::DefaultClientMissing),
        _ => panic!("expected a failure"),
    }
    assert_eq!(store.len(), 0);
}

#[test]
fn fallback_bypasses_online_and_capacity_checks() {
    // the default client is offline and over capacity, yet it is assigned
    let clients = vec![
        client(Some(1), "busy", 1, 0, true, false),
        client(Some(2), "fallback", 1, 0, false, false),
    ];
    let s = snap(vec![(1, 1), (2, 9)]);
    let mut store = JobStore::new();
    let got = submit_path(&clients, &s, "fallback", &mut store, "/a");
    match got {
        Outcome::Assigned { client_name, load_at_assignment, maximum_jobs } => {
            assert_eq!(client_name, "fallback");
            assert_eq!(load_at_assignment, 9);
            assert_eq!(maximum_jobs, 1);
        }
        _ => panic!("expected the fallback assignment"),
    }
    assert_eq!(store.len(), 1);
    assert_eq!(store.get(0).assigned_client.id, Some(2));
}

#[test]
fn second_submission_of_the_same_path_is_a_noop() {
    // submit "/a" twice: the second call returns NoOp and exactly one job
    // with that path exists afterwards
    let clients = vec![client(Some(1), "alpha", 5, 0, true, false)];
    let s = snap(vec![]);
    let mut store = JobStore::new();
    let first = submit_path(&clients, &s, "alpha", &mut store, "/a");
    assert!(matches!(first, Outcome::Assigned { .. }));
    let second = submit_path(&clients, &s, "alpha", &mut store, "/a");
    assert!(matches!(second, Outcome::NoOp));
    assert_eq!(store.len(), 1);
    let mut with_path = 0;
    let mut i = 0;
    while i < store.len() {
        if store.get(i).path == "/a" {
            with_path += 1;
        }
        i += 1;
    }
    assert_eq!(with_path, 1);
}

#[test]
fn different_paths_commit_separately() {
    let clients = vec![client(Some(1), "alpha", 5, 0, true, false)];
    let s = snap(vec![]);
    let mut store = JobStore::new();
    assert!(matches!(submit_path(&clients, &s, "alpha", &mut store, "/a"), Outcome::Assigned { .. }));
    assert!(matches!(submit_path(&clients, &s, "alpha", &mut store, "/b"), Outcome::Assigned { .. }));
    assert_eq!(store.len(), 2);
    assert_eq!(store.get(0).path, "/a");
    assert_eq!(store.get(1).path, "/b");
    assert_eq!(store.get(0).id, Some(0));
    assert_eq!(store.get(1).id, Some(1));
}

#[test]
fn missing_client_id_fails_the_submission() {
    let clients = vec![
        client(None, "broken", 5, 0, true, false),
        client(Some(2), "fine", 5, 0, true, false),
    ];
    let s = snap(vec![]);
    let mut store = JobStore::new();
    let got = submit_path(&clients, &s, "fine", &mut store, "/a");
    match got {
        Outcome::Failed { reason } => assert_eq!(reason, SubmitError::MissingClientId),
        _ => panic!("expected the data-integrity failure"),
    }
    assert_eq!(store.len(), 0);
}

#[test]
fn empty_roster_without_default_fails_and_commits_nothing() {
    let clients: Vec<Client> = Vec::new();
    let s = snap(vec![]);
    let mut store = JobStore::new();
    let got = submit_path(&clients, &s, "anyone", &mut store, "/a");
    match got {
        Outcome::Failed { reason } => assert_eq!(reason, SubmitError::DefaultClientMissing),
        _ => panic!("expected a failure"),
    }
    assert_eq!(store.len(), 0);
}

#[test]
fn failed_submission_can_be_retried_after_the_fault_is_mended() {
    let s = snap(vec![]);
    let mut store = JobStore::new();
    let broken = vec![client(None, "alpha", 5, 0, true, false)];
    assert!(matches!(
        submit_path(&broken, &s, "none", &mut store, "/a"),
        Outcome::Failed { .. }
    ));
    assert_eq!(store.len(), 0);
    let mended = vec![client(Some(1), "alpha", 5, 0, true, false)];
    assert!(matches!(
        submit_path(&mended, &s, "none", &mut store, "/a"),
        Outcome::Assigned { .. }
    ));
    assert_eq!(store.len(), 1);
}

#[test]
fn decide_honours_the_idempotency_gate_first() {
    // when the job already exists no decision is made, whatever the roster
    let clients = vec![client(Some(1), "alpha", 5, 0, true, false)];
    let s = snap(vec![]);
    let got = decide(&clients, &s, &"alpha".to_string(), true);
    assert!(matches!(got, Decision::AlreadyExists));
}

#[test]
fn decide_assigns_the_eligible_client() {
    let clients = vec![client(Some(1), "alpha", 5, 2, true, false)];
    let s = snap(vec![(1, 4)]);
    let got = decide(&clients, &s, &"alpha".to_string(), false);
    match got {
        Decision::Assign { client, load, maximum } => {
            assert_eq!(client.id, Some(1));
            assert_eq!(client.name, "alpha");
            assert_eq!(client.priority, 2);
            assert_eq!(load, 4);
            assert_eq!(maximum, 5);
        }
        _ => panic!("expected an assignment decision"),
    }
}

#[test]
fn store_refuses_a_duplicate_path_directly() {
    let mut store = JobStore::new();
    let clients = vec![client(Some(1), "alpha", 5, 0, true, false)];
    let s = snap(vec![]);
    assert!(matches!(submit_path(&clients, &s, "alpha", &mut store, "/a"), Outcome::Assigned { .. }));
    let duplicate = infuser::job::Job {
        id: None,
        path: "/a".to_string(),
        name: "again".to_string(),
        subtitle: String::new(),
        assigned_client: infuser::client::AssignedClient {
            id: Some(1),
            name: "alpha".to_string(),
            priority: 0,
        },
        custom_parameters: Vec::new(),
    };
    let got = store.insert_job(duplicate);
    assert!(matches!(got, Err(StoreError::DuplicatePath)));
    assert_eq!(store.len(), 1);
}

#[test]
fn custom_parameters_are_kept_in_order() {
    let clients = vec![client(Some(1), "alpha", 5, 0, true, false)];
    let s = snap(vec![]);
    let mut store = JobStore::new();
    let params = vec![
        ("codec".to_string(), "av1".to_string()),
        ("crf".to_string(), "30".to_string()),
    ];
    let got = submit(
        &clients,
        &s,
        &"alpha".to_string(),
        &mut store,
        "/a".to_string(),
        "job".to_string(),
        "sub".to_string(),
        params,
    );
    assert!(matches!(got, Outcome::Assigned { .. }));
    let job = store.get(0);
    assert_eq!(job.custom_parameters.len(), 2);
    assert_eq!(job.custom_parameters[0].0, "codec");
    assert_eq!(job.custom_parameters[0].1, "av1");
    assert_eq!(job.custom_parameters[1].0, "crf");
    assert_eq!(job.custom_parameters[1].1, "30");
}

#[test]
fn fallback_is_found_by_exact_name_among_all_tiers() {
    // the default client sits in a high tier and is still found by name
    let clients = vec![
        client(Some(1), "busy", 1, 0, true, false),
        client(Some(2), "standby", 3, 9, false, false),
    ];
    let s = snap(vec![(1, 1)]);
    let mut store = JobStore::new();
    let got = submit_path(&clients, &s, "standby", &mut store, "/a");
    match got {
        Outcome::Assigned { client_name, load_at_assignment, maximum_jobs } => {
            assert_eq!(client_name, "standby");
            assert_eq!(load_at_assignment, 0);
            assert_eq!(maximum_jobs, 3);
        }
        _ => panic!("expected the fallback assignment"),
    }
}
