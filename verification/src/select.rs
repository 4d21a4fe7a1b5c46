//! The eligibility selector: walk the tiers in ascending priority order and
//! pick, within the first tier that yields one, a candidate client; and the
//! fallback lookup of the configured default client by name.

use vstd::prelude::*;
use crate::client::{available, Client};
use crate::snapshot::{count_of, Snapshot};
use crate::tiers::{members_of, spec_tiers, Tier};

verus! {

/// Why no client was returned.
#[derive(Clone, Copy, PartialEq, Eq, Structural, Debug)]
pub enum SelectError {
    /// Every tier was exhausted without a candidate. A normal branch: the
    /// fallback resolver takes over.
    NoEligibleClient,
    /// A client that passed the availability filter has no identity, so it
    /// cannot be keyed against the snapshot. A fatal data-integrity fault:
    /// tier evaluation stops at once rather than silently skipping the
    /// record, which could starve a tier.
    MissingClientId,
}

/// A client is eligible when it passes the availability filter, carries an
/// identity, and either has no snapshot entry (counted as zero active jobs)
/// or a count strictly below its configured maximum.
pub open spec fn eligible(c: Client, snap: Seq<(u64, i32)>) -> bool {
    available(c) && c.id is Some && match count_of(snap, c.id->0) {
        Option::None => true,
        Option::Some(n) => n < c.maximum_jobs,
    }
}

/// The outcome of scanning one tier.
pub enum TierOutcome {
    /// `members[idx]` was retained, at `count` active jobs.
    Chosen { idx: int, count: i32 },
    /// No member was eligible: move on to the next tier.
    Exhausted,
    /// A member passing the availability filter has no identity.
    MissingId,
}

/// The left-to-right scan of one tier from position `pos`, with `acc` the
/// candidate retained so far (its index and its count).
///
/// Offline members (unless `ignore_online`) are skipped. A member with no
/// snapshot entry counts as zero active jobs and replaces the retained
/// candidate unconditionally, even when the retained count is lower — a
/// known quirk of this scheduler, kept as it is rather than silently
/// changed. A member with an entry is a candidate only below its maximum,
/// and replaces the retained candidate only with a strictly lower count.
pub open spec fn scan_tier(
    members: Seq<Client>,
    snap: Seq<(u64, i32)>,
    pos: int,
    acc: Option<(int, i32)>,
) -> TierOutcome
    decreases members.len() - pos,
{
    if pos < 0 || pos >= members.len() {
        match acc {
            Option::Some(p) => TierOutcome::Chosen { idx: p.0, count: p.1 },
            Option::None => TierOutcome::Exhausted,
        }
    } else {
        let c = members[pos];
        if !available(c) {
            scan_tier(members, snap, pos + 1, acc)
        } else if c.id is None {
            TierOutcome::MissingId
        } else {
            match count_of(snap, c.id->0) {
                Option::None => scan_tier(members, snap, pos + 1, Some((pos, 0i32))),
                Option::Some(n) => if n < c.maximum_jobs {
                    match acc {
                        Option::None => scan_tier(members, snap, pos + 1, Some((pos, n))),
                        Option::Some(b) => if n < b.1 {
                            scan_tier(members, snap, pos + 1, Some((pos, n)))
                        } else {
                            scan_tier(members, snap, pos + 1, acc)
                        },
                    }
                } else {
                    scan_tier(members, snap, pos + 1, acc)
                },
            }
        }
    }
}

/// The outcome of scanning the whole tier list.
pub enum SelectOutcome {
    /// Tier `tier` yielded member `idx`, at `count` active jobs.
    Chosen { tier: int, idx: int, count: i32 },
    /// Every tier was exhausted.
    NoneEligible,
    /// Some tier hit a member with no identity.
    MissingId,
}

/// The walk over the tier member lists from tier `t` on: the first tier
/// whose scan retains a candidate wins; an identity fault stops the walk.
pub open spec fn scan_tiers_from(
    tiers: Seq<Seq<Client>>,
    snap: Seq<(u64, i32)>,
    t: int,
) -> SelectOutcome
    decreases tiers.len() - t,
{
    if t < 0 || t >= tiers.len() {
        SelectOutcome::NoneEligible
    } else {
        match scan_tier(tiers[t], snap, 0, None) {
            TierOutcome::Chosen { idx, count } => SelectOutcome::Chosen { tier: t, idx, count },
            TierOutcome::Exhausted => scan_tiers_from(tiers, snap, t + 1),
            TierOutcome::MissingId => SelectOutcome::MissingId,
        }
    }
}

/// The walk over the whole tier list.
pub open spec fn scan_tiers(tiers: Seq<Seq<Client>>, snap: Seq<(u64, i32)>) -> SelectOutcome {
    scan_tiers_from(tiers, snap, 0)
}

/// The whole selector: the roster grouped into ascending priority tiers,
/// then walked for the first retained candidate.
pub open spec fn spec_select(clients: Seq<Client>, snap: Seq<(u64, i32)>) -> SelectOutcome {
    scan_tiers(spec_tiers(clients), snap)
}

/// The retained candidate of the executable scan, as the spec scan sees it.
pub open spec fn acc_view(o: Option<(usize, i32)>) -> Option<(int, i32)> {
    match o {
        Option::Some(p) => Some((p.0 as int, p.1)),
        Option::None => None,
    }
}

/// The executable scan of one tier.
pub(crate) enum TierScan {
    Found(usize, i32),
    Exhausted,
    MissingId,
}

pub(crate) fn scan_tier_exec(members: &Vec<Client>, snap: &Snapshot) -> (r: TierScan)
    ensures
        match scan_tier(members@, snap@, 0, None) {
            TierOutcome::Chosen { idx, count } => r matches TierScan::Found(i, c) && i as int
                == idx && c == count && i < members@.len(),
            TierOutcome::Exhausted => r matches TierScan::Exhausted,
            TierOutcome::MissingId => r matches TierScan::MissingId,
        },
{
    let mut best: Option<(usize, i32)> = None;
    let mut i: usize = 0;
    while i < members.len()
        invariant
            i <= members.len(),
            scan_tier(members@, snap@, 0, None) == scan_tier(
                members@,
                snap@,
                i as int,
                acc_view(best),
            ),
            best matches Some(p) ==> p.0 < i,
        decreases members.len() - i,
    {
        let c = &members[i];
        if c.online || c.ignore_online {
            match c.id {
                None => {
                    return TierScan::MissingId;
                },
                Some(cid) => {
                    match snap.lookup(cid) {
                        None => {
                            best = Some((i, 0));
                        },
                        Some(n) => {
                            if n < c.maximum_jobs {
                                match best {
                                    None => {
                                        best = Some((i, n));
                                    },
                                    Some(b) => {
                                        if n < b.1 {
                                            best = Some((i, n));
                                        }
                                    },
                                }
                            }
                        },
                    }
                },
            }
        }
        i += 1;
    }
    match best {
        Some(p) => TierScan::Found(p.0, p.1),
        None => TierScan::Exhausted,
    }
}

/// Walks the tiers in order and returns the first candidate: the chosen
/// client, its active-job count at selection time, and its configured
/// maximum. `Err(NoEligibleClient)` when every tier is exhausted;
/// `Err(MissingClientId)` when a client passing the availability filter has
/// no identity.
pub fn get_eligible_client(tiers: &Vec<Tier>, snap: &Snapshot) -> (r: Result<
    (Client, i32, i32),
    SelectError,
>)
    ensures
        match scan_tiers(members_of(tiers@), snap@) {
            SelectOutcome::Chosen { tier, idx, count } => r matches Ok(sel) && 0 <= tier
                < tiers@.len() && 0 <= idx < tiers@[tier].members@.len() && sel.0
                == tiers@[tier].members@[idx] && sel.1 == count && sel.2
                == tiers@[tier].members@[idx].maximum_jobs,
            SelectOutcome::NoneEligible => r matches Err(e) && e == SelectError::NoEligibleClient,
            SelectOutcome::MissingId => r matches Err(e) && e == SelectError::MissingClientId,
        },
{
    let mut t: usize = 0;
    while t < tiers.len()
        invariant
            t <= tiers.len(),
            scan_tiers(members_of(tiers@), snap@) == scan_tiers_from(
                members_of(tiers@),
                snap@,
                t as int,
            ),
        decreases tiers.len() - t,
    {
        proof {
            assert(members_of(tiers@)[t as int] == tiers@[t as int].members@);
        }
        match scan_tier_exec(&tiers[t].members, snap) {
            TierScan::Found(i, c) => {
                let chosen = tiers[t].members[i].clone();
                let maximum = chosen.maximum_jobs;
                return Ok((chosen, c, maximum));
            },
            TierScan::Exhausted => {
                t += 1;
            },
            TierScan::MissingId => {
                return Err(SelectError::MissingClientId);
            },
        }
    }
    Err(SelectError::NoEligibleClient)
}

/// The index of the first client whose name is `name`, looking from
/// position `pos` on.
pub open spec fn find_by_name_from(clients: Seq<Client>, name: Seq<char>, pos: int) -> Option<int>
    decreases clients.len() - pos,
{
    if pos < 0 || pos >= clients.len() {
        None
    } else if clients[pos].name@ == name {
        Some(pos)
    } else {
        find_by_name_from(clients, name, pos + 1)
    }
}

/// The index of the first client named `name`, if any.
pub open spec fn find_by_name(clients: Seq<Client>, name: Seq<char>) -> Option<int> {
    find_by_name_from(clients, name, 0)
}

/// The fallback resolver's lookup: the first client of the full roster
/// whose display name is `name`, searched without regard to tier,
/// availability or capacity.
pub fn find_client_by_name(clients: &Vec<Client>, name: &String) -> (r: Option<Client>)
    ensures
        match find_by_name(clients@, name@) {
            Option::Some(i) => r matches Some(c) && c == clients@[i],
            Option::None => r is None,
        },
{
    let mut i: usize = 0;
    while i < clients.len()
        invariant
            i <= clients.len(),
            find_by_name(clients@, name@) == find_by_name_from(clients@, name@, i as int),
        decreases clients.len() - i,
    {
        if clients[i].name == *name {
            return Some(clients[i].clone());
        }
        i += 1;
    }
    None
}

} // verus!
