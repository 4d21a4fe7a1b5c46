//! The selector on concrete rosters: tier order, availability, capacity,
//! the tie-break and its absent-entry quirk, and the identity fault.

use infuser::client::Client;
use infuser::select::{get_eligible_client, SelectError};
use infuser::snapshot::Snapshot;
use infuser::tiers::group_clients;

fn client(id: Option<u64>, name: &str, maximum: i32, priority: i32, online: bool, ignore: bool) -> Client {
    Client {
        id,
        name: name.to_string(),
        availability_start: String::new(),
        availability_end: String::new(),
        maximum_jobs: maximum,
        priority,
        online,
        ignore_online: ignore,
    }
}

fn snap(entries: Vec<(u64, i32)>) -> Snapshot {
    Snapshot { entries }
}

#[test]
fn single_eligible_client_is_selected() {
    let clients = vec![client(Some(1), "alpha", 2, 0, true, false)];
    let tiers = group_clients(&clients);
    let got = get_eligible_client(&tiers, &snap(vec![(1, 1)]));
    match got {
        Ok((c, load, maximum)) => {
            assert_eq!(c.id, Some(1));
            assert_eq!(load, 1);
            assert_eq!(maximum, 2);
        }
        Err(_) => panic!("expected a candidate"),
    }
}

#[test]
fn at_capacity_client_is_never_selected() {
    let clients = vec![client(Some(1), "alpha", 2, 0, true, false)];
    let tiers = group_clients(&clients);
    let got = get_eligible_client(&tiers, &snap(vec![(1, 2)]));
    assert!(matches!(got, Err(SelectError::NoEligibleClient)));
}

#[test]
fn over_capacity_client_is_never_selected() {
    let clients = vec![client(Some(1), "alpha", 2, 0, true, false)];
    let tiers = group_clients(&clients);
    let got = get_eligible_client(&tiers, &snap(vec![(1, 5)]));
    assert!(matches!(got, Err(SelectError::NoEligibleClient)));
}

#[test]
fn offline_client_is_never_selected() {
    // the offline client is idle, the online one busy: the busy one wins
    let clients = vec![
        client(Some(1), "off", 5, 0, false, false),
        client(Some(2), "on", 5, 0, true, false),
    ];
    let tiers = group_clients(&clients);
    let got = get_eligible_client(&tiers, &snap(vec![(1, 0), (2, 3)]));
    match got {
        Ok((c, load, _)) => {
            assert_eq!(c.id, Some(2));
            assert_eq!(load, 3);
        }
        Err(_) => panic!("expected the online client"),
    }
}

#[test]
fn only_offline_clients_exhaust_the_tier() {
    let clients = vec![client(Some(1), "off", 5, 0, false, false)];
    let tiers = group_clients(&clients);
    let got = get_eligible_client(&tiers, &snap(vec![]));
    assert!(matches!(got, Err(SelectError::NoEligibleClient)));
}

#[test]
fn ignore_online_makes_offline_client_eligible() {
    let clients = vec![client(Some(1), "off-but-ignored", 5, 0, false, true)];
    let tiers = group_clients(&clients);
    let got = get_eligible_client(&tiers, &snap(vec![(1, 1)]));
    match got {
        Ok((c, load, _)) => {
            assert_eq!(c.id, Some(1));
            assert_eq!(load, 1);
        }
        Err(_) => panic!("expected the ignore_online client"),
    }
}

#[test]
fn ignore_online_client_still_bound_by_capacity() {
    let clients = vec![client(Some(1), "off-but-ignored", 2, 0, false, true)];
    let tiers = group_clients(&clients);
    let got = get_eligible_client(&tiers, &snap(vec![(1, 2)]));
    assert!(matches!(got, Err(SelectError::NoEligibleClient)));
}

#[test]
fn lower_priority_tier_wins_even_when_busier() {
    // priority 1 is scanned before priority 5; its client wins despite load
    let clients = vec![
        client(Some(1), "late", 10, 5, true, false),
        client(Some(2), "early", 10, 1, true, false),
    ];
    let tiers = group_clients(&clients);
    let got = get_eligible_client(&tiers, &snap(vec![(1, 0), (2, 9)]));
    match got {
        Ok((c, load, _)) => {
            assert_eq!(c.id, Some(2));
            assert_eq!(load, 9);
        }
        Err(_) => panic!("expected the lower-priority-value client"),
    }
}

#[test]
fn exhausted_tier_falls_through_to_next() {
    let clients = vec![
        client(Some(1), "full", 1, 0, true, false),
        client(Some(2), "spare", 1, 7, true, false),
    ];
    let tiers = group_clients(&clients);
    let got = get_eligible_client(&tiers, &snap(vec![(1, 1)]));
    match got {
        Ok((c, load, maximum)) => {
            assert_eq!(c.id, Some(2));
            assert_eq!(load, 0);
            assert_eq!(maximum, 1);
        }
        Err(_) => panic!("expected the next tier's client"),
    }
}

#[test]
fn absent_snapshot_entry_counts_as_zero() {
    // scenario: {id 1, count 3} against {id 2, no entry}: id 2 wins at zero
    let clients = vec![
        client(Some(1), "busy", 5, 0, true, false),
        client(Some(2), "fresh", 5, 0, true, false),
    ];
    let tiers = group_clients(&clients);
    let got = get_eligible_client(&tiers, &snap(vec![(1, 3)]));
    match got {
        Ok((c, load, _)) => {
            assert_eq!(c.id, Some(2));
            assert_eq!(load, 0);
        }
        Err(_) => panic!("expected the absent-entry client"),
    }
}

#[test]
fn equal_counts_keep_the_earlier_client() {
    // the retained candidate is replaced only on a strictly lower count
    let clients = vec![
        client(Some(1), "first", 5, 0, true, false),
        client(Some(2), "second", 5, 0, true, false),
    ];
    let tiers = group_clients(&clients);
    let got = get_eligible_client(&tiers, &snap(vec![(1, 2), (2, 2)]));
    match got {
        Ok((c, _, _)) => assert_eq!(c.id, Some(1)),
        Err(_) => panic!("expected a candidate"),
    }
}

#[test]
fn strictly_lower_count_replaces_the_earlier_client() {
    let clients = vec![
        client(Some(1), "first", 5, 0, true, false),
        client(Some(2), "second", 5, 0, true, false),
    ];
    let tiers = group_clients(&clients);
    let got = get_eligible_client(&tiers, &snap(vec![(1, 3), (2, 2)]));
    match got {
        Ok((c, load, _)) => {
            assert_eq!(c.id, Some(2));
            assert_eq!(load, 2);
        }
        Err(_) => panic!("expected a candidate"),
    }
}

#[test]
fn absent_entry_replaces_even_an_equal_count() {
    // the scheduler's known quirk: a client with no snapshot entry
    // replaces the retained candidate unconditionally, here at equal counts
    let clients = vec![
        client(Some(1), "present-zero", 5, 0, true, false),
        client(Some(2), "absent", 5, 0, true, false),
    ];
    let tiers = group_clients(&clients);
    let got = get_eligible_client(&tiers, &snap(vec![(1, 0)]));
    match got {
        Ok((c, load, _)) => {
            assert_eq!(c.id, Some(2));
            assert_eq!(load, 0);
        }
        Err(_) => panic!("expected a candidate"),
    }
}

#[test]
fn present_equal_count_does_not_replace_absent_candidate() {
    // reversed order: the absent-entry client is retained at zero and a
    // later present client with count zero does not strictly beat it
    let clients = vec![
        client(Some(1), "absent", 5, 0, true, false),
        client(Some(2), "present-zero", 5, 0, true, false),
    ];
    let tiers = group_clients(&clients);
    let got = get_eligible_client(&tiers, &snap(vec![(2, 0)]));
    match got {
        Ok((c, _, _)) => assert_eq!(c.id, Some(1)),
        Err(_) => panic!("expected a candidate"),
    }
}

#[test]
fn missing_id_aborts_the_scan() {
    // an available client without an identity aborts at once, even though
    // an eligible client follows it in the same tier
    let clients = vec![
        client(None, "broken", 5, 0, true, false),
        client(Some(2), "fine", 5, 0, true, false),
    ];
    let tiers = group_clients(&clients);
    let got = get_eligible_client(&tiers, &snap(vec![]));
    assert!(matches!(got, Err(SelectError::MissingClientId)));
}

#[test]
fn offline_client_without_id_is_skipped_before_the_id_check() {
    let clients = vec![
        client(None, "broken-but-offline", 5, 0, false, false),
        client(Some(2), "fine", 5, 0, true, false),
    ];
    let tiers = group_clients(&clients);
    let got = get_eligible_client(&tiers, &snap(vec![]));
    match got {
        Ok((c, _, _)) => assert_eq!(c.id, Some(2)),
        Err(_) => panic!("expected the healthy client"),
    }
}

#[test]
fn empty_roster_yields_no_tiers_and_no_candidate() {
    let clients: Vec<Client> = Vec::new();
    let tiers = group_clients(&clients);
    assert_eq!(tiers.len(), 0);
    let got = get_eligible_client(&tiers, &snap(vec![]));
    assert!(matches!(got, Err(SelectError::NoEligibleClient)));
}

#[test]
fn grouping_orders_tiers_ascending_and_keeps_roster_order() {
    let clients = vec![
        client(Some(1), "a", 1, 3, true, false),
        client(Some(2), "b", 1, 1, true, false),
        client(Some(3), "c", 1, 3, true, false),
        client(Some(4), "d", 1, 2, true, false),
    ];
    let tiers = group_clients(&clients);
    let priorities: Vec<i32> = tiers.iter().map(|t| t.priority).collect();
    assert_eq!(priorities, vec![1, 2, 3]);
    let tier3: Vec<Option<u64>> = tiers[2].members.iter().map(|c| c.id).collect();
    assert_eq!(tier3, vec![Some(1), Some(3)]);
    assert_eq!(tiers[0].members.len(), 1);
    assert_eq!(tiers[0].members[0].id, Some(2));
}

#[test]
fn snapshot_lookup_takes_the_first_matching_entry() {
    let s = snap(vec![(1, 3), (1, 9), (2, 4)]);
    assert_eq!(s.lookup(1), Some(3));
    assert_eq!(s.lookup(2), Some(4));
    assert_eq!(s.lookup(7), None);
}
