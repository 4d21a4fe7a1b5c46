//! The scheduler's laws: properties of the tier scan and the submission
//! protocol, proved once and for all rosters, snapshots and stores.

use vstd::prelude::*;
use crate::client::{available, Client};
use crate::select::{
    eligible, find_by_name, find_by_name_from, scan_tier, scan_tiers_from, spec_select,
    SelectOutcome, TierOutcome,
};
use crate::snapshot::count_of;
use crate::store::{contains_path, store_wf};
use crate::submit::{submit_post, Outcome, SubmitError};
use crate::tiers::{
    insert_pri_from, pris, spec_tiers, tier_members, tier_members_from,
};
use crate::job::Job;

verus! {

/// Strictly ascending order, hence no duplicates.
pub open spec fn ascending(ps: Seq<i32>) -> bool {
    forall|a: int, b: int| 0 <= a < b < ps.len() ==> ps[a] < ps[b]
}

proof fn lemma_insert_pri_from(ps: Seq<i32>, p: i32, pos: int)
    requires
        ascending(ps),
        0 <= pos <= ps.len(),
    ensures
        ascending(insert_pri_from(ps, p, pos)),
        insert_pri_from(ps, p, pos).contains(p),
        forall|k: int|
            0 <= k < insert_pri_from(ps, p, pos).len() ==> (#[trigger] insert_pri_from(
                ps,
                p,
                pos,
            )[k] == p || ps.subrange(pos, ps.len() as int).contains(insert_pri_from(ps, p, pos)[k])),
        forall|i: int| pos <= i < ps.len() ==> insert_pri_from(ps, p, pos).contains(#[trigger] ps[i]),
    decreases ps.len() - pos,
{
    let r = insert_pri_from(ps, p, pos);
    let tail = ps.subrange(pos, ps.len() as int);
    if pos >= ps.len() {
        assert(r == seq![p]);
        assert(r[0] == p);
    } else if ps[pos] < p {
        lemma_insert_pri_from(ps, p, pos + 1);
        let r1 = insert_pri_from(ps, p, pos + 1);
        let tail1 = ps.subrange(pos + 1, ps.len() as int);
        assert(r == seq![ps[pos]] + r1);
        assert(r[0] == ps[pos]);
        // every element of the recursive result lies strictly above ps[pos]
        assert forall|k: int| 0 <= k < r1.len() implies ps[pos] < r1[k] by {
            if r1[k] == p {
            } else {
                assert(tail1.contains(r1[k]));
                let j = choose|j: int| 0 <= j < tail1.len() && tail1[j] == r1[k];
                assert(ps[pos + 1 + j] == r1[k]);
            }
        }
        assert forall|a: int, b: int| 0 <= a < b < r.len() implies r[a] < r[b] by {
            if a == 0 {
                assert(r[b] == r1[b - 1]);
            } else {
                assert(r[a] == r1[a - 1] && r[b] == r1[b - 1]);
            }
        }
        assert(r.contains(p)) by {
            let k = choose|k: int| 0 <= k < r1.len() && r1[k] == p;
            assert(r[k + 1] == p);
        }
        assert forall|k: int| 0 <= k < r.len() implies (r[k] == p || tail.contains(r[k])) by {
            if k == 0 {
                assert(tail[0] == ps[pos]);
            } else {
                if r1[k - 1] == p {
                } else {
                    assert(tail1.contains(r1[k - 1]));
                    let j = choose|j: int| 0 <= j < tail1.len() && tail1[j] == r1[k - 1];
                    assert(tail[j + 1] == r1[k - 1]);
                }
            }
        }
        assert forall|i: int| pos <= i < ps.len() implies r.contains(#[trigger] ps[i]) by {
            if i == pos {
                assert(r[0] == ps[pos]);
            } else {
                assert(r1.contains(ps[i]));
                let k = choose|k: int| 0 <= k < r1.len() && r1[k] == ps[i];
                assert(r[k + 1] == ps[i]);
            }
        }
    } else if ps[pos] == p {
        assert(r == tail);
        assert(tail[0] == ps[pos]);
        assert forall|i: int| pos <= i < ps.len() implies r.contains(#[trigger] ps[i]) by {
            assert(tail[i - pos] == ps[i]);
        }
    } else {
        assert(r == seq![p] + tail);
        assert(r[0] == p);
        assert forall|a: int, b: int| 0 <= a < b < r.len() implies r[a] < r[b] by {
            if a == 0 {
                assert(r[b] == ps[pos + b - 1]);
            } else {
                assert(r[a] == ps[pos + a - 1] && r[b] == ps[pos + b - 1]);
            }
        }
        assert forall|i: int| pos <= i < ps.len() implies r.contains(#[trigger] ps[i]) by {
            assert(r[i - pos + 1] == ps[i]);
        }
    }
}

/// The tier priority list is strictly ascending and holds exactly the
/// priorities present in the roster.
pub proof fn lemma_pris(clients: Seq<Client>)
    ensures
        ascending(pris(clients)),
        forall|q: i32|
            #[trigger] pris(clients).contains(q) ==> exists|i: int|
                0 <= i < clients.len() && clients[i].priority == q,
        forall|i: int|
            0 <= i < clients.len() ==> pris(clients).contains(#[trigger] clients[i].priority),
    decreases clients.len(),
{
    if clients.len() == 0 {
    } else {
        let dl = clients.drop_last();
        let p = clients.last().priority;
        let prev = pris(dl);
        lemma_pris(dl);
        lemma_insert_pri_from(prev, p, 0);
        let r = pris(clients);
        assert(prev.subrange(0, prev.len() as int) =~= prev);
        assert forall|q: i32| #[trigger] r.contains(q) implies exists|i: int|
            0 <= i < clients.len() && clients[i].priority == q by {
            let k = choose|k: int| 0 <= k < r.len() && r[k] == q;
            if r[k] == p {
                assert(clients[clients.len() - 1].priority == q);
            } else {
                assert(prev.contains(q));
                let i = choose|i: int| 0 <= i < dl.len() && dl[i].priority == q;
                assert(clients[i].priority == q);
            }
        }
        assert forall|i: int| 0 <= i < clients.len() implies r.contains(
            #[trigger] clients[i].priority,
        ) by {
            if i == clients.len() - 1 {
            } else {
                assert(dl[i] == clients[i]);
                assert(prev.contains(clients[i].priority));
                let k = choose|k: int| 0 <= k < prev.len() && prev[k] == clients[i].priority;
            }
        }
    }
}

/// Tier membership: the clients of priority `p` are exactly the roster
/// entries of that priority, each keeping its record.
pub proof fn lemma_tier_members_from(clients: Seq<Client>, p: i32, pos: int)
    requires
        0 <= pos <= clients.len(),
    ensures
        forall|k: int|
            0 <= k < tier_members_from(clients, p, pos).len() ==> (#[trigger] tier_members_from(
                clients,
                p,
                pos,
            )[k]).priority == p,
        forall|k: int|
            0 <= k < tier_members_from(clients, p, pos).len() ==> exists|i: int|
                pos <= i < clients.len() && clients[i] == (#[trigger] tier_members_from(
                    clients,
                    p,
                    pos,
                )[k]),
        forall|i: int|
            pos <= i < clients.len() && (#[trigger] clients[i]).priority == p
                ==> tier_members_from(clients, p, pos).contains(clients[i]),
    decreases clients.len() - pos,
{
    if pos >= clients.len() {
    } else {
        lemma_tier_members_from(clients, p, pos + 1);
        let r = tier_members_from(clients, p, pos);
        let r1 = tier_members_from(clients, p, pos + 1);
        if clients[pos].priority == p {
            assert(r == seq![clients[pos]] + r1);
            assert(r[0] == clients[pos]);
            assert forall|k: int| 0 <= k < r.len() implies exists|i: int|
                pos <= i < clients.len() && clients[i] == (#[trigger] r[k]) by {
                if k == 0 {
                    assert(clients[pos] == r[0]);
                } else {
                    assert(r[k] == r1[k - 1]);
                    let i = choose|i: int|
                        pos + 1 <= i < clients.len() && clients[i] == r1[k - 1];
                    assert(clients[i] == r[k]);
                }
            }
            assert forall|i: int|
                pos <= i < clients.len() && (#[trigger] clients[i]).priority == p implies r.contains(
                clients[i],
            ) by {
                if i == pos {
                    assert(r[0] == clients[pos]);
                } else {
                    assert(r1.contains(clients[i]));
                    let k = choose|k: int| 0 <= k < r1.len() && r1[k] == clients[i];
                    assert(r[k + 1] == clients[i]);
                }
            }
        } else {
            assert(r == r1);
        }
    }
}

/// What holds of any candidate the tier scan retains: the client is
/// available, carries an identity, and its reported count is its snapshot
/// count (zero when absent), strictly below its maximum when present.
pub open spec fn chosen_ok(
    members: Seq<Client>,
    snap: Seq<(u64, i32)>,
    idx: int,
    count: i32,
) -> bool {
    &&& 0 <= idx < members.len()
    &&& available(members[idx])
    &&& members[idx].id is Some
    &&& match count_of(snap, members[idx].id->0) {
        Option::None => count == 0,
        Option::Some(n) => count == n && n < members[idx].maximum_jobs,
    }
}

proof fn lemma_scan_tier_sound(
    members: Seq<Client>,
    snap: Seq<(u64, i32)>,
    pos: int,
    acc: Option<(int, i32)>,
)
    requires
        0 <= pos,
        acc matches Some(b) ==> chosen_ok(members, snap, b.0, b.1),
    ensures
        scan_tier(members, snap, pos, acc) matches TierOutcome::Chosen { idx, count }
            ==> chosen_ok(members, snap, idx, count),
    decreases members.len() - pos,
{
    if pos >= members.len() {
    } else {
        let c = members[pos];
        if !available(c) {
            lemma_scan_tier_sound(members, snap, pos + 1, acc);
        } else if c.id is None {
        } else {
            match count_of(snap, c.id->0) {
                Option::None => {
                    lemma_scan_tier_sound(members, snap, pos + 1, Some((pos, 0i32)));
                },
                Option::Some(n) => {
                    if n < c.maximum_jobs {
                        match acc {
                            Option::None => {
                                lemma_scan_tier_sound(members, snap, pos + 1, Some((pos, n)));
                            },
                            Option::Some(b) => {
                                if n < b.1 {
                                    lemma_scan_tier_sound(members, snap, pos + 1, Some((pos, n)));
                                } else {
                                    lemma_scan_tier_sound(members, snap, pos + 1, acc);
                                }
                            },
                        }
                    } else {
                        lemma_scan_tier_sound(members, snap, pos + 1, acc);
                    }
                },
            }
        }
    }
}

proof fn lemma_scan_tier_exhausted(
    members: Seq<Client>,
    snap: Seq<(u64, i32)>,
    pos: int,
    acc: Option<(int, i32)>,
)
    requires
        0 <= pos,
    ensures
        scan_tier(members, snap, pos, acc) is Exhausted ==> (acc is None && forall|i: int|
            pos <= i < members.len() ==> !eligible(#[trigger] members[i], snap)),
    decreases members.len() - pos,
{
    if pos >= members.len() {
    } else {
        let c = members[pos];
        if !available(c) {
            lemma_scan_tier_exhausted(members, snap, pos + 1, acc);
        } else if c.id is None {
        } else {
            match count_of(snap, c.id->0) {
                Option::None => {
                    lemma_scan_tier_exhausted(members, snap, pos + 1, Some((pos, 0i32)));
                },
                Option::Some(n) => {
                    if n < c.maximum_jobs {
                        match acc {
                            Option::None => {
                                lemma_scan_tier_exhausted(members, snap, pos + 1, Some((pos, n)));
                            },
                            Option::Some(b) => {
                                if n < b.1 {
                                    lemma_scan_tier_exhausted(members, snap, pos + 1, Some((
                                        pos,
                                        n,
                                    )));
                                } else {
                                    lemma_scan_tier_exhausted(members, snap, pos + 1, acc);
                                }
                            },
                        }
                    } else {
                        lemma_scan_tier_exhausted(members, snap, pos + 1, acc);
                    }
                },
            }
        }
    }
}

proof fn lemma_scan_tier_finds(members: Seq<Client>, snap: Seq<(u64, i32)>, pos: int)
    requires
        0 <= pos,
        forall|i: int| pos <= i < members.len() ==> !eligible(#[trigger] members[i], snap),
        forall|i: int|
            pos <= i < members.len() && available(#[trigger] members[i]) ==> members[i].id is Some,
    ensures
        scan_tier(members, snap, pos, None) is Exhausted,
    decreases members.len() - pos,
{
    if pos >= members.len() {
    } else {
        let c = members[pos];
        if !available(c) {
            lemma_scan_tier_finds(members, snap, pos + 1);
        } else {
            assert(c.id is Some);
            match count_of(snap, c.id->0) {
                Option::None => {
                    assert(eligible(c, snap));
                },
                Option::Some(n) => {
                    assert(n >= c.maximum_jobs);
                    lemma_scan_tier_finds(members, snap, pos + 1);
                },
            }
        }
    }
}

proof fn lemma_scan_tiers_from(tiers: Seq<Seq<Client>>, snap: Seq<(u64, i32)>, t0: int)
    requires
        0 <= t0,
    ensures
        scan_tiers_from(tiers, snap, t0) matches SelectOutcome::Chosen { tier, idx, count } ==> (t0
            <= tier < tiers.len() && scan_tier(tiers[tier], snap, 0, None)
            == TierOutcome::Chosen { idx, count } && forall|t: int|
            t0 <= t < tier ==> scan_tier(#[trigger] tiers[t], snap, 0, None) is Exhausted),
        scan_tiers_from(tiers, snap, t0) is NoneEligible <==> forall|t: int|
            t0 <= t < tiers.len() ==> scan_tier(#[trigger] tiers[t], snap, 0, None) is Exhausted,
    decreases tiers.len() - t0,
{
    if t0 >= tiers.len() {
    } else {
        match scan_tier(tiers[t0], snap, 0, None) {
            TierOutcome::Chosen { idx, count } => {},
            TierOutcome::Exhausted => {
                lemma_scan_tiers_from(tiers, snap, t0 + 1);
            },
            TierOutcome::MissingId => {},
        }
    }
}

/// Tiers are visited in strictly ascending priority order, and a client is
/// chosen only while no client of any strictly lower priority is eligible:
/// the scheduler never skips over an eligible lower tier.
pub proof fn law_lower_tiers_first(clients: Seq<Client>, snap: Seq<(u64, i32)>)
    ensures
        ascending(pris(clients)),
        spec_select(clients, snap) matches SelectOutcome::Chosen { tier, idx, count } ==> (0 <= tier
            < spec_tiers(clients).len() && 0 <= idx < spec_tiers(clients)[tier].len() && forall|
            i: int,
        |
            0 <= i < clients.len() && (#[trigger] clients[i]).priority
                < spec_tiers(clients)[tier][idx].priority ==> !eligible(clients[i], snap)),
{
    lemma_pris(clients);
    let tiers = spec_tiers(clients);
    let ps = pris(clients);
    lemma_scan_tiers_from(tiers, snap, 0);
    match spec_select(clients, snap) {
        SelectOutcome::Chosen { tier, idx, count } => {
            lemma_scan_tier_sound(tiers[tier], snap, 0, None);
            let w = tiers[tier][idx];
            lemma_tier_members_from(clients, ps[tier], 0);
            assert(w.priority == ps[tier]);
            assert forall|i: int|
                0 <= i < clients.len() && (#[trigger] clients[i]).priority
                    < w.priority implies !eligible(clients[i], snap) by {
                let q = clients[i].priority;
                assert(ps.contains(q));
                let t2 = choose|t2: int| 0 <= t2 < ps.len() && ps[t2] == q;
                // ascending order puts the lower priority in an earlier tier
                assert(t2 < tier);
                assert(scan_tier(tiers[t2], snap, 0, None) is Exhausted);
                lemma_scan_tier_exhausted(tiers[t2], snap, 0, None);
                lemma_tier_members_from(clients, ps[t2], 0);
                assert(tier_members(clients, q).contains(clients[i]));
                let k = choose|k: int|
                    0 <= k < tier_members(clients, q).len() && tier_members(clients, q)[k]
                        == clients[i];
                assert(tiers[t2][k] == clients[i]);
            }
        },
        SelectOutcome::NoneEligible => {},
        SelectOutcome::MissingId => {},
    }
}

/// What holds of every selected client: it passed the availability filter
/// (a client with `online == false` and `ignore_online == false` is never
/// selected), it carries an identity, and its reported count is its
/// snapshot count — zero when absent, and strictly below its configured
/// maximum when present. In particular a client whose snapshot count is at
/// or above its maximum is never selected.
pub proof fn law_selected_client_ok(clients: Seq<Client>, snap: Seq<(u64, i32)>)
    ensures
        spec_select(clients, snap) matches SelectOutcome::Chosen { tier, idx, count }
            ==> chosen_ok(spec_tiers(clients)[tier], snap, idx, count),
{
    let tiers = spec_tiers(clients);
    lemma_scan_tiers_from(tiers, snap, 0);
    match spec_select(clients, snap) {
        SelectOutcome::Chosen { tier, idx, count } => {
            lemma_scan_tier_sound(tiers[tier], snap, 0, None);
        },
        SelectOutcome::NoneEligible => {},
        SelectOutcome::MissingId => {},
    }
}

/// `b` is `a`, possibly with its `online` flag flipped — allowed only when
/// `a` asks for the flag to be ignored.
pub open spec fn same_but_online_ignored(a: Client, b: Client) -> bool {
    b == a || (a.ignore_online && b == Client { online: !a.online, ..a })
}

/// Two rosters that differ at most in the online flags of clients that
/// ignore them.
pub open spec fn rosters_online_equiv(m1: Seq<Client>, m2: Seq<Client>) -> bool {
    m1.len() == m2.len() && forall|i: int|
        0 <= i < m1.len() ==> same_but_online_ignored(#[trigger] m1[i], #[trigger] m2[i])
}

proof fn lemma_scan_tier_online_equiv(
    m1: Seq<Client>,
    m2: Seq<Client>,
    snap: Seq<(u64, i32)>,
    pos: int,
    acc: Option<(int, i32)>,
)
    requires
        rosters_online_equiv(m1, m2),
        0 <= pos,
    ensures
        scan_tier(m1, snap, pos, acc) == scan_tier(m2, snap, pos, acc),
    decreases m1.len() - pos,
{
    if pos >= m1.len() {
    } else {
        assert(same_but_online_ignored(m1[pos], m2[pos]));
        assert(available(m1[pos]) == available(m2[pos]));
        assert(m1[pos].id == m2[pos].id);
        assert(m1[pos].maximum_jobs == m2[pos].maximum_jobs);
        let c = m1[pos];
        if !available(c) {
            lemma_scan_tier_online_equiv(m1, m2, snap, pos + 1, acc);
        } else if c.id is None {
        } else {
            match count_of(snap, c.id->0) {
                Option::None => {
                    lemma_scan_tier_online_equiv(m1, m2, snap, pos + 1, Some((pos, 0i32)));
                },
                Option::Some(n) => {
                    if n < c.maximum_jobs {
                        match acc {
                            Option::None => {
                                lemma_scan_tier_online_equiv(m1, m2, snap, pos + 1, Some((
                                    pos,
                                    n,
                                )));
                            },
                            Option::Some(b) => {
                                if n < b.1 {
                                    lemma_scan_tier_online_equiv(m1, m2, snap, pos + 1, Some((
                                        pos,
                                        n,
                                    )));
                                } else {
                                    lemma_scan_tier_online_equiv(m1, m2, snap, pos + 1, acc);
                                }
                            },
                        }
                    } else {
                        lemma_scan_tier_online_equiv(m1, m2, snap, pos + 1, acc);
                    }
                },
            }
        }
    }
}

proof fn lemma_pris_online_equiv(m1: Seq<Client>, m2: Seq<Client>)
    requires
        rosters_online_equiv(m1, m2),
    ensures
        pris(m1) == pris(m2),
    decreases m1.len(),
{
    if m1.len() == 0 {
        assert(pris(m1) == pris(m2));
    } else {
        assert(rosters_online_equiv(m1.drop_last(), m2.drop_last()));
        lemma_pris_online_equiv(m1.drop_last(), m2.drop_last());
        assert(same_but_online_ignored(m1[m1.len() - 1], m2[m2.len() - 1]));
        assert(m1.last().priority == m2.last().priority);
    }
}

proof fn lemma_tier_members_online_equiv(m1: Seq<Client>, m2: Seq<Client>, p: i32, pos: int)
    requires
        rosters_online_equiv(m1, m2),
        0 <= pos,
    ensures
        rosters_online_equiv(tier_members_from(m1, p, pos), tier_members_from(m2, p, pos)),
    decreases m1.len() - pos,
{
    if pos >= m1.len() {
    } else {
        lemma_tier_members_online_equiv(m1, m2, p, pos + 1);
        assert(same_but_online_ignored(m1[pos], m2[pos]));
        assert(m1[pos].priority == m2[pos].priority);
        let r1 = tier_members_from(m1, p, pos);
        let r2 = tier_members_from(m2, p, pos);
        let q1 = tier_members_from(m1, p, pos + 1);
        let q2 = tier_members_from(m2, p, pos + 1);
        if m1[pos].priority == p {
            assert(r1 == seq![m1[pos]] + q1);
            assert(r2 == seq![m2[pos]] + q2);
            assert forall|i: int|
                0 <= i < r1.len() implies same_but_online_ignored(
                #[trigger] r1[i],
                #[trigger] r2[i],
            ) by {
                if i == 0 {
                    assert(r1[0] == m1[pos] && r2[0] == m2[pos]);
                } else {
                    assert(r1[i] == q1[i - 1] && r2[i] == q2[i - 1]);
                }
            }
        } else {
            assert(r1 == q1 && r2 == q2);
        }
    }
}

proof fn lemma_scan_tiers_online_equiv(
    tiers1: Seq<Seq<Client>>,
    tiers2: Seq<Seq<Client>>,
    snap: Seq<(u64, i32)>,
    t0: int,
)
    requires
        tiers1.len() == tiers2.len(),
        forall|t: int|
            0 <= t < tiers1.len() ==> rosters_online_equiv(
                #[trigger] tiers1[t],
                #[trigger] tiers2[t],
            ),
        0 <= t0,
    ensures
        scan_tiers_from(tiers1, snap, t0) == scan_tiers_from(tiers2, snap, t0),
    decreases tiers1.len() - t0,
{
    if t0 >= tiers1.len() {
    } else {
        lemma_scan_tier_online_equiv(tiers1[t0], tiers2[t0], snap, 0, None);
        match scan_tier(tiers1[t0], snap, 0, None) {
            TierOutcome::Chosen { idx, count } => {},
            TierOutcome::Exhausted => {
                lemma_scan_tiers_online_equiv(tiers1, tiers2, snap, t0 + 1);
            },
            TierOutcome::MissingId => {},
        }
    }
}

/// A client that ignores the online flag is treated exactly as if online:
/// flipping the online flag of any such clients changes neither any
/// client's eligibility nor the selector's outcome — the same tier, index
/// and count come out.
pub proof fn law_ignore_online(clients1: Seq<Client>, clients2: Seq<Client>, snap: Seq<(u64, i32)>)
    requires
        rosters_online_equiv(clients1, clients2),
    ensures
        forall|i: int|
            0 <= i < clients1.len() ==> eligible(#[trigger] clients1[i], snap) == eligible(
                clients2[i],
                snap,
            ),
        spec_select(clients1, snap) == spec_select(clients2, snap),
{
    assert forall|i: int|
        0 <= i < clients1.len() implies eligible(#[trigger] clients1[i], snap) == eligible(
        clients2[i],
        snap,
    ) by {
        assert(same_but_online_ignored(clients1[i], clients2[i]));
    }
    lemma_pris_online_equiv(clients1, clients2);
    let ps = pris(clients1);
    let tiers1 = spec_tiers(clients1);
    let tiers2 = spec_tiers(clients2);
    assert(tiers1.len() == tiers2.len());
    assert forall|t: int|
        0 <= t < tiers1.len() implies rosters_online_equiv(
        #[trigger] tiers1[t],
        #[trigger] tiers2[t],
    ) by {
        lemma_tier_members_online_equiv(clients1, clients2, ps[t], 0);
    }
    lemma_scan_tiers_online_equiv(tiers1, tiers2, snap, 0);
}

/// The selector reports every tier exhausted exactly when no client of the
/// roster is eligible — so the fallback resolver, which the coordinator
/// invokes precisely on that outcome, runs if and only if no tier yields
/// an eligible client. (The hypothesis rules out the identity fault, which
/// aborts the scan instead of exhausting it.)
pub proof fn law_fallback_iff_no_eligible(clients: Seq<Client>, snap: Seq<(u64, i32)>)
    requires
        forall|i: int|
            0 <= i < clients.len() && available(#[trigger] clients[i]) ==> clients[i].id is Some,
    ensures
        spec_select(clients, snap) is NoneEligible <==> (forall|i: int|
            0 <= i < clients.len() ==> !eligible(#[trigger] clients[i], snap)),
{
    lemma_pris(clients);
    let ps = pris(clients);
    let tiers = spec_tiers(clients);
    lemma_scan_tiers_from(tiers, snap, 0);
    if spec_select(clients, snap) is NoneEligible {
        assert forall|i: int|
            0 <= i < clients.len() implies !eligible(#[trigger] clients[i], snap) by {
            let q = clients[i].priority;
            assert(ps.contains(q));
            let t = choose|t: int| 0 <= t < ps.len() && ps[t] == q;
            lemma_tier_members_from(clients, q, 0);
            assert(tier_members(clients, q).contains(clients[i]));
            let k = choose|k: int|
                0 <= k < tier_members(clients, q).len() && tier_members(clients, q)[k]
                    == clients[i];
            assert(scan_tier(tiers[t], snap, 0, None) is Exhausted);
            lemma_scan_tier_exhausted(tiers[t], snap, 0, None);
            assert(tiers[t][k] == clients[i]);
        }
    }
    if forall|i: int| 0 <= i < clients.len() ==> !eligible(#[trigger] clients[i], snap) {
        assert forall|t: int|
            0 <= t < tiers.len() implies scan_tier(
            #[trigger] tiers[t],
            snap,
            0,
            None,
        ) is Exhausted by {
            lemma_tier_members_from(clients, ps[t], 0);
            let members = tiers[t];
            assert forall|k: int|
                0 <= k < members.len() implies !eligible(#[trigger] members[k], snap) && (available(
                members[k],
            ) ==> members[k].id is Some) by {
                let i = choose|i: int| 0 <= i < clients.len() && clients[i] == members[k];
            }
            lemma_scan_tier_finds(members, snap, 0);
        }
    }
}

/// Submitting a path that a completed submission already committed (or
/// found committed) is a no-op: the second call returns `NoOp` and leaves
/// the store exactly as the first left it, whatever roster, snapshot or
/// default client it runs with.
pub proof fn law_submit_idempotent(
    clients1: Seq<Client>,
    snap1: Seq<(u64, i32)>,
    default1: Seq<char>,
    clients2: Seq<Client>,
    snap2: Seq<(u64, i32)>,
    default2: Seq<char>,
    s0: Seq<Job>,
    s1: Seq<Job>,
    s2: Seq<Job>,
    path1: String,
    name1: String,
    subtitle1: String,
    params1: Vec<(String, String)>,
    path2: String,
    name2: String,
    subtitle2: String,
    params2: Vec<(String, String)>,
    r1: Outcome,
    r2: Outcome,
)
    requires
        submit_post(clients1, snap1, default1, s0, s1, path1, name1, subtitle1, params1, r1),
        !(r1 is Failed),
        path2@ == path1@,
        submit_post(clients2, snap2, default2, s1, s2, path2, name2, subtitle2, params2, r2),
    ensures
        r2 is NoOp,
        s2 == s1,
{
    if contains_path(s0, path1@) {
        assert(s1 == s0);
    } else {
        // the first call committed: the pushed job carries the path
        assert(s1[s0.len() as int].path@ == path1@);
        assert(contains_path(s1, path1@));
    }
}

/// When no tier yields a candidate and the configured default client is
/// not in the roster, the submission fails with the configuration error
/// and nothing is committed.
pub proof fn law_default_missing_fails(
    clients: Seq<Client>,
    snap: Seq<(u64, i32)>,
    default_name: Seq<char>,
    s0: Seq<Job>,
    s1: Seq<Job>,
    path: String,
    name: String,
    subtitle: String,
    params: Vec<(String, String)>,
    r: Outcome,
)
    requires
        submit_post(clients, snap, default_name, s0, s1, path, name, subtitle, params, r),
        !contains_path(s0, path@),
        spec_select(clients, snap) is NoneEligible,
        forall|i: int| 0 <= i < clients.len() ==> (#[trigger] clients[i]).name@ != default_name,
    ensures
        r == (Outcome::Failed { reason: SubmitError::DefaultClientMissing }),
        s1 == s0,
{
    lemma_find_by_name_from_none(clients, default_name, 0);
    assert(find_by_name(clients, default_name) is None);
}

proof fn lemma_find_by_name_from_none(clients: Seq<Client>, name: Seq<char>, pos: int)
    requires
        0 <= pos,
        forall|i: int| 0 <= i < clients.len() ==> (#[trigger] clients[i]).name@ != name,
    ensures
        find_by_name_from(clients, name, pos) is None,
    decreases clients.len() - pos,
{
    if pos >= clients.len() {
    } else {
        lemma_find_by_name_from_none(clients, name, pos + 1);
    }
}

/// In a well-formed store no path occurs twice: any two jobs carrying the
/// same path are the same job.
pub proof fn law_one_job_per_path(jobs: Seq<Job>, path: Seq<char>, i: int, j: int)
    requires
        store_wf(jobs),
        0 <= i < jobs.len(),
        0 <= j < jobs.len(),
        jobs[i].path@ == path,
        jobs[j].path@ == path,
    ensures
        i == j,
{
}

} // verus!
