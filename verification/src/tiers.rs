//! Priority grouping: partition the client roster into tiers, one per
//! priority value present, ordered by ascending priority. Within a tier
//! the clients keep their roster order.

use vstd::prelude::*;
use crate::client::Client;

verus! {

/// One tier: every client of the roster that shares `priority`, in roster
/// order.
pub struct Tier {
    pub priority: i32,
    pub members: Vec<Client>,
}

/// `p` inserted into the sorted, duplicate-free priority list `ps`, seen
/// from position `pos` on: entries below `p` keep their place, `p` lands
/// before the first entry not below it, and an entry equal to `p` is not
/// duplicated.
pub open spec fn insert_pri_from(ps: Seq<i32>, p: i32, pos: int) -> Seq<i32>
    decreases ps.len() - pos,
{
    if pos < 0 || pos >= ps.len() {
        seq![p]
    } else if ps[pos] < p {
        seq![ps[pos]] + insert_pri_from(ps, p, pos + 1)
    } else if ps[pos] == p {
        ps.subrange(pos, ps.len() as int)
    } else {
        seq![p] + ps.subrange(pos, ps.len() as int)
    }
}

/// `p` inserted into the sorted, duplicate-free priority list `ps`.
pub open spec fn insert_pri(ps: Seq<i32>, p: i32) -> Seq<i32> {
    insert_pri_from(ps, p, 0)
}

/// The distinct priorities present in `clients`, in ascending order.
pub open spec fn pris(clients: Seq<Client>) -> Seq<i32>
    decreases clients.len(),
{
    if clients.len() == 0 {
        Seq::empty()
    } else {
        insert_pri(pris(clients.drop_last()), clients.last().priority)
    }
}

/// The clients of priority `p` among `clients[pos..]`, in roster order.
pub open spec fn tier_members_from(clients: Seq<Client>, p: i32, pos: int) -> Seq<Client>
    decreases clients.len() - pos,
{
    if pos < 0 || pos >= clients.len() {
        Seq::empty()
    } else if clients[pos].priority == p {
        seq![clients[pos]] + tier_members_from(clients, p, pos + 1)
    } else {
        tier_members_from(clients, p, pos + 1)
    }
}

/// The clients of priority `p`, in roster order.
pub open spec fn tier_members(clients: Seq<Client>, p: i32) -> Seq<Client> {
    tier_members_from(clients, p, 0)
}

/// The member lists of a grouped roster: one sequence of clients per
/// priority present, ascending by priority.
pub open spec fn spec_tiers(clients: Seq<Client>) -> Seq<Seq<Client>> {
    pris(clients).map_values(|p: i32| tier_members(clients, p))
}

/// The member lists of an executable tier list.
pub open spec fn members_of(tiers: Seq<Tier>) -> Seq<Seq<Client>> {
    tiers.map_values(|t: Tier| t.members@)
}

/// `ps` with `p` placed at its sorted position (or left alone when already
/// present).
fn insert_priority(ps: Vec<i32>, p: i32) -> (r: Vec<i32>)
    ensures
        r@ == insert_pri(ps@, p),
{
    let ghost target = insert_pri(ps@, p);
    let mut out: Vec<i32> = Vec::new();
    let mut j: usize = 0;
    proof {
        assert(Seq::<i32>::empty() + insert_pri_from(ps@, p, 0) =~= insert_pri_from(ps@, p, 0));
    }
    while j < ps.len() && ps[j] < p
        invariant
            j <= ps.len(),
            target == insert_pri(ps@, p),
            target == out@ + insert_pri_from(ps@, p, j as int),
        decreases ps.len() - j,
    {
        proof {
            assert(insert_pri_from(ps@, p, j as int) == seq![ps@[j as int]] + insert_pri_from(
                ps@,
                p,
                j as int + 1,
            ));
            assert(out@.push(ps@[j as int]) + insert_pri_from(ps@, p, j as int + 1) =~= out@ + (
            seq![ps@[j as int]] + insert_pri_from(ps@, p, j as int + 1)));
        }
        out.push(ps[j]);
        j += 1;
    }
    let ghost j0 = j as int;
    if j == ps.len() {
        proof {
            assert(out@.push(p) =~= out@ + seq![p]);
        }
        out.push(p);
    } else if ps[j] == p {
        proof {
            assert(insert_pri_from(ps@, p, j0) == ps@.subrange(j0, ps@.len() as int));
        }
        while j < ps.len()
            invariant
                j0 <= j as int <= ps.len(),
                target == out@ + ps@.subrange(j as int, ps@.len() as int),
            decreases ps.len() - j,
        {
            proof {
                assert(ps@.subrange(j as int, ps@.len() as int) =~= seq![ps@[j as int]]
                    + ps@.subrange(j as int + 1, ps@.len() as int));
                assert(out@.push(ps@[j as int]) + ps@.subrange(j as int + 1, ps@.len() as int)
                    =~= out@ + (seq![ps@[j as int]] + ps@.subrange(
                    j as int + 1,
                    ps@.len() as int,
                )));
            }
            out.push(ps[j]);
            j += 1;
        }
        proof {
            assert(ps@.subrange(j as int, ps@.len() as int) =~= Seq::<i32>::empty());
            assert(out@ + Seq::<i32>::empty() =~= out@);
        }
    } else {
        proof {
            assert(insert_pri_from(ps@, p, j0) == seq![p] + ps@.subrange(j0, ps@.len() as int));
            assert(out@.push(p) + ps@.subrange(j0, ps@.len() as int) =~= out@ + (seq![p]
                + ps@.subrange(j0, ps@.len() as int)));
        }
        out.push(p);
        while j < ps.len()
            invariant
                j0 <= j as int <= ps.len(),
                target == out@ + ps@.subrange(j as int, ps@.len() as int),
            decreases ps.len() - j,
        {
            proof {
                assert(ps@.subrange(j as int, ps@.len() as int) =~= seq![ps@[j as int]]
                    + ps@.subrange(j as int + 1, ps@.len() as int));
                assert(out@.push(ps@[j as int]) + ps@.subrange(j as int + 1, ps@.len() as int)
                    =~= out@ + (seq![ps@[j as int]] + ps@.subrange(
                    j as int + 1,
                    ps@.len() as int,
                )));
            }
            out.push(ps[j]);
            j += 1;
        }
        proof {
            assert(ps@.subrange(j as int, ps@.len() as int) =~= Seq::<i32>::empty());
            assert(out@ + Seq::<i32>::empty() =~= out@);
        }
    }
    out
}

/// Every client of priority `p`, cloned out of the roster in order.
fn clients_with_priority(clients: &Vec<Client>, p: i32) -> (r: Vec<Client>)
    ensures
        r@ == tier_members(clients@, p),
{
    let mut out: Vec<Client> = Vec::new();
    let mut i: usize = 0;
    proof {
        assert(Seq::<Client>::empty() + tier_members_from(clients@, p, 0) =~= tier_members_from(
            clients@,
            p,
            0,
        ));
    }
    while i < clients.len()
        invariant
            i <= clients.len(),
            tier_members(clients@, p) == out@ + tier_members_from(clients@, p, i as int),
        decreases clients.len() - i,
    {
        if clients[i].priority == p {
            proof {
                assert(out@.push(clients@[i as int]) + tier_members_from(clients@, p, i as int + 1)
                    =~= out@ + (seq![clients@[i as int]] + tier_members_from(
                    clients@,
                    p,
                    i as int + 1,
                )));
            }
            out.push(clients[i].clone());
        }
        i += 1;
    }
    proof {
        assert(out@ + Seq::<Client>::empty() =~= out@);
    }
    out
}

/// Groups the roster into tiers: one per priority present, ascending by
/// priority, each holding its clients in roster order. An empty roster
/// yields no tiers.
pub fn group_clients(clients: &Vec<Client>) -> (r: Vec<Tier>)
    ensures
        r@.len() == pris(clients@).len(),
        forall|t: int|
            #![trigger r@[t]]
            0 <= t < r@.len() ==> r@[t].priority == pris(clients@)[t] && r@[t].members@
                == tier_members(clients@, pris(clients@)[t]),
        members_of(r@) == spec_tiers(clients@),
{
    let mut ps: Vec<i32> = Vec::new();
    let mut i: usize = 0;
    proof {
        assert(clients@.take(0) =~= Seq::<Client>::empty());
    }
    while i < clients.len()
        invariant
            i <= clients.len(),
            ps@ == pris(clients@.take(i as int)),
        decreases clients.len() - i,
    {
        let ghost prefix = clients@.take(i as int + 1);
        proof {
            assert(prefix.drop_last() =~= clients@.take(i as int));
            assert(prefix.last() == clients@[i as int]);
        }
        ps = insert_priority(ps, clients[i].priority);
        i += 1;
    }
    proof {
        assert(clients@.take(clients@.len() as int) =~= clients@);
    }
    let mut tiers: Vec<Tier> = Vec::new();
    let mut t: usize = 0;
    while t < ps.len()
        invariant
            t <= ps.len(),
            ps@ == pris(clients@),
            tiers@.len() == t as int,
            forall|k: int|
                #![trigger tiers@[k]]
                0 <= k < t as int ==> tiers@[k].priority == ps@[k] && tiers@[k].members@
                    == tier_members(clients@, ps@[k]),
        decreases ps.len() - t,
    {
        let members = clients_with_priority(clients, ps[t]);
        tiers.push(Tier { priority: ps[t], members });
        t += 1;
    }
    proof {
        assert(members_of(tiers@) =~= spec_tiers(clients@));
    }
    tiers
}

} // verus!
