//! What holds of an allocation of ports, whatever the plan and the state: what a
//! search that passes over the staying ports claims fits the allocation, ports stay
//! distinct, a finished allocation is stable, names that are no longer used lose their
//! port, and the table ends up in line with the plan.
use crate::machine_state::names_distinct;
use crate::ports::{
    allocated, has_port, in_line, kept_ports, missing_names, offer_fits, paired, ports_ascending,
    ports_distinct, ports_in_range, staying_ports, stays, FIRST_PORT, LAST_PORT,
};
use vstd::prelude::*;

verus! {

/// The entries that are kept are entries of the table with a needed name, and every
/// such entry is kept.
pub proof fn lemma_kept_members(ports: Seq<(Seq<char>, i32)>, needed: Seq<Seq<char>>)
    ensures
        forall|e: (Seq<char>, i32)| #[trigger]
            kept_ports(ports, needed).contains(e) <==> ports.contains(e) && needed.contains(e.0),
    decreases ports.len(),
{
    let kept = kept_ports(ports, needed);
    if ports.len() > 0 {
        let shorter = ports.drop_last();
        let before = kept_ports(shorter, needed);
        lemma_kept_members(shorter, needed);
        assert forall|e: (Seq<char>, i32)| #[trigger]
            kept.contains(e) <==> ports.contains(e) && needed.contains(e.0) by {
            assert(before.contains(e) <==> shorter.contains(e) && needed.contains(e.0));
            if kept.contains(e) {
                let j = choose|j: int| 0 <= j < kept.len() && kept[j] == e;
                if j < before.len() {
                    assert(before[j] == e);
                    assert(before.contains(e));
                    let i = choose|i: int| 0 <= i < shorter.len() && shorter[i] == e;
                    assert(ports[i] == e);
                } else {
                    assert(ports[ports.len() - 1] == e);
                }
            }
            if ports.contains(e) && needed.contains(e.0) {
                let i = choose|i: int| 0 <= i < ports.len() && ports[i] == e;
                if i < ports.len() - 1 {
                    assert(shorter[i] == e);
                    assert(shorter.contains(e));
                    let j = choose|j: int| 0 <= j < before.len() && before[j] == e;
                    assert(kept[j] == e);
                } else {
                    assert(kept[kept.len() - 1] == e);
                }
            }
        }
    }
}

/// An entry that is kept stays: its port is the port of an entry with a needed name.
pub proof fn lemma_kept_stay(ports: Seq<(Seq<char>, i32)>, needed: Seq<Seq<char>>)
    ensures
        forall|i: int|
            0 <= i < kept_ports(ports, needed).len() ==> stays(
                ports,
                needed,
                (#[trigger] kept_ports(ports, needed)[i]).1,
            ),
{
    let kept = kept_ports(ports, needed);
    lemma_kept_members(ports, needed);
    assert forall|i: int| 0 <= i < kept.len() implies stays(
        ports,
        needed,
        (#[trigger] kept[i]).1,
    ) by {
        assert(kept.contains(kept[i]));
        let k = choose|k: int| 0 <= k < ports.len() && ports[k] == kept[i];
        assert(needed.contains(ports[k].0) && ports[k].1 == kept[i].1);
    }
}

/// The ports that stay are the ports of the entries that stay.
pub proof fn lemma_staying_ports(ports: Seq<(Seq<char>, i32)>, needed: Seq<Seq<char>>)
    ensures
        forall|port: i32| #[trigger]
            staying_ports(ports, needed).contains(port) <==> stays(ports, needed, port),
    decreases ports.len(),
{
    let staying = staying_ports(ports, needed);
    if ports.len() > 0 {
        let shorter = ports.drop_last();
        let before = staying_ports(shorter, needed);
        lemma_staying_ports(shorter, needed);
        assert forall|port: i32| #[trigger] staying.contains(port) <==> stays(
            ports,
            needed,
            port,
        ) by {
            assert(before.contains(port) <==> stays(shorter, needed, port));
            if staying.contains(port) {
                let j = choose|j: int| 0 <= j < staying.len() && staying[j] == port;
                if j < before.len() {
                    assert(before[j] == port);
                    assert(before.contains(port));
                    let i = choose|i: int|
                        0 <= i < shorter.len() && needed.contains((#[trigger] shorter[i]).0)
                            && shorter[i].1 == port;
                    assert(ports[i] == shorter[i]);
                } else {
                    assert(needed.contains(ports[ports.len() - 1].0));
                    assert(ports[ports.len() - 1].1 == port);
                }
            }
            if stays(ports, needed, port) {
                let i = choose|i: int|
                    0 <= i < ports.len() && needed.contains((#[trigger] ports[i]).0) && ports[i].1
                        == port;
                if i < shorter.len() {
                    assert(shorter[i] == ports[i]);
                    assert(stays(shorter, needed, port));
                    let j = choose|j: int| 0 <= j < before.len() && before[j] == port;
                    assert(staying[j] == port);
                } else {
                    assert(staying[staying.len() - 1] == port);
                }
            }
        }
    }
}

/// What a search offers fits the allocation, where the search passed over the ports
/// that stay and claimed a port for every name without one.
pub proof fn lemma_search_fits(
    ports: Seq<(Seq<char>, i32)>,
    needed: Seq<Seq<char>>,
    claimed: Seq<i32>,
)
    requires
        ports_ascending(claimed),
        forall|i: int|
            0 <= i < claimed.len() ==> !staying_ports(ports, needed).contains(
                #[trigger] claimed[i],
            ),
        claimed.len() == missing_names(needed, ports).len(),
    ensures
        offer_fits(ports, needed, claimed),
{
    lemma_staying_ports(ports, needed);
}

/// Pruning keeps the ports distinct and within the range.
pub proof fn lemma_kept_valid(ports: Seq<(Seq<char>, i32)>, needed: Seq<Seq<char>>)
    ensures
        ports_distinct(ports) ==> ports_distinct(kept_ports(ports, needed)),
        ports_in_range(ports) ==> ports_in_range(kept_ports(ports, needed)),
    decreases ports.len(),
{
    let kept = kept_ports(ports, needed);
    if ports.len() > 0 {
        let shorter = ports.drop_last();
        let before = kept_ports(shorter, needed);
        lemma_kept_valid(shorter, needed);
        lemma_kept_members(shorter, needed);
        if ports_in_range(ports) {
            assert forall|i: int| 0 <= i < shorter.len() implies FIRST_PORT <= (
            #[trigger] shorter[i]).1 <= LAST_PORT by {
                assert(shorter[i] == ports[i]);
            }
            assert forall|i: int| 0 <= i < kept.len() implies FIRST_PORT <= (#[trigger] kept[i]).1
                <= LAST_PORT by {
                if i < before.len() {
                    assert(kept[i] == before[i]);
                } else {
                    assert(ports[ports.len() - 1] == kept[i]);
                }
            }
        }
        if ports_distinct(ports) {
            assert forall|i: int, j: int| 0 <= i < j < shorter.len() implies (
            #[trigger] shorter[i]).1 != (#[trigger] shorter[j]).1 by {
                assert(shorter[i] == ports[i]);
                assert(shorter[j] == ports[j]);
            }
            assert forall|i: int, j: int| 0 <= i < j < kept.len() implies (#[trigger] kept[i]).1
                != (#[trigger] kept[j]).1 by {
                assert(kept[i] == before[i]);
                if j < before.len() {
                    assert(kept[j] == before[j]);
                } else {
                    assert(before.contains(before[i]));
                    assert(shorter.contains(before[i]));
                    let k = choose|k: int| 0 <= k < shorter.len() && shorter[k] == before[i];
                    assert(ports[k] == before[i]);
                    assert(ports[ports.len() - 1] == kept[j]);
                }
            }
        }
    }
}

/// Pruning changes nothing where every name of the table is needed.
pub proof fn lemma_kept_all(ports: Seq<(Seq<char>, i32)>, needed: Seq<Seq<char>>)
    requires
        forall|i: int| 0 <= i < ports.len() ==> needed.contains((#[trigger] ports[i]).0),
    ensures
        kept_ports(ports, needed) == ports,
    decreases ports.len(),
{
    if ports.len() > 0 {
        let shorter = ports.drop_last();
        assert forall|i: int| 0 <= i < shorter.len() implies needed.contains(
            (#[trigger] shorter[i]).0,
        ) by {
            assert(shorter[i] == ports[i]);
        }
        lemma_kept_all(shorter, needed);
        assert(needed.contains(ports[ports.len() - 1].0));
        assert(shorter.push(ports.last()) =~= ports);
    } else {
        assert(kept_ports(ports, needed) =~= ports);
    }
}

/// The missing names are the needed names that have no port.
pub proof fn lemma_missing_members(needed: Seq<Seq<char>>, ports: Seq<(Seq<char>, i32)>)
    ensures
        forall|n: Seq<char>| #[trigger]
            missing_names(needed, ports).contains(n) <==> needed.contains(n) && !has_port(
                ports,
                n,
            ),
    decreases needed.len(),
{
    let missing = missing_names(needed, ports);
    if needed.len() > 0 {
        let shorter = needed.drop_last();
        let before = missing_names(shorter, ports);
        lemma_missing_members(shorter, ports);
        assert forall|n: Seq<char>| #[trigger]
            missing.contains(n) <==> needed.contains(n) && !has_port(ports, n) by {
            assert(before.contains(n) <==> shorter.contains(n) && !has_port(ports, n));
            if missing.contains(n) {
                let j = choose|j: int| 0 <= j < missing.len() && missing[j] == n;
                if j < before.len() {
                    assert(before[j] == n);
                    assert(before.contains(n));
                    let i = choose|i: int| 0 <= i < shorter.len() && shorter[i] == n;
                    assert(needed[i] == n);
                } else {
                    assert(needed[needed.len() - 1] == n);
                }
            }
            if needed.contains(n) && !has_port(ports, n) {
                let i = choose|i: int| 0 <= i < needed.len() && needed[i] == n;
                if i < needed.len() - 1 {
                    assert(shorter[i] == n);
                    assert(shorter.contains(n));
                    let j = choose|j: int| 0 <= j < before.len() && before[j] == n;
                    assert(missing[j] == n);
                } else {
                    assert(missing[missing.len() - 1] == n);
                }
            }
        }
    }
}

/// After an allocation no two names share a port, provided that this held before, that
/// the offered ports are ascending, and that none of them is held by an entry that
/// stays.
pub proof fn lemma_allocated_ports_distinct(
    ports: Seq<(Seq<char>, i32)>,
    needed: Seq<Seq<char>>,
    fresh: Seq<i32>,
)
    requires
        ports_distinct(ports),
        ports_ascending(fresh),
        forall|j: int| 0 <= j < fresh.len() ==> !stays(ports, needed, #[trigger] fresh[j]),
    ensures
        ports_distinct(allocated(ports, needed, fresh)),
{
    let kept = kept_ports(ports, needed);
    let all = allocated(ports, needed, fresh);
    lemma_kept_valid(ports, needed);
    lemma_kept_stay(ports, needed);
    assert forall|i: int, j: int| 0 <= i < j < all.len() implies (#[trigger] all[i]).1 != (
    #[trigger] all[j]).1 by {
        if j < kept.len() {
            assert(all[i] == kept[i]);
            assert(all[j] == kept[j]);
        } else if i < kept.len() {
            assert(all[i] == kept[i]);
            assert(stays(ports, needed, kept[i].1));
            assert(all[j].1 == fresh[j - kept.len()]);
        } else {
            assert(all[i].1 == fresh[i - kept.len()]);
            assert(all[j].1 == fresh[j - kept.len()]);
        }
    }
}

/// After an allocation every port is within the range of ports that are handed out,
/// provided that this held before and holds of the offered ports.
pub proof fn lemma_allocated_ports_in_range(
    ports: Seq<(Seq<char>, i32)>,
    needed: Seq<Seq<char>>,
    fresh: Seq<i32>,
)
    requires
        ports_in_range(ports),
        ports_ascending(fresh),
    ensures
        ports_in_range(allocated(ports, needed, fresh)),
{
    let kept = kept_ports(ports, needed);
    let all = allocated(ports, needed, fresh);
    lemma_kept_valid(ports, needed);
    assert forall|i: int| 0 <= i < all.len() implies FIRST_PORT <= (#[trigger] all[i]).1
        <= LAST_PORT by {
        if i < kept.len() {
            assert(all[i] == kept[i]);
        } else {
            assert(all[i].1 == fresh[i - kept.len()]);
        }
    }
}

/// An allocation that found a port for every missing name leaves nothing to do: a
/// second allocation for the same plan changes nothing, whatever ports it is offered.
pub proof fn lemma_allocation_stable(
    ports: Seq<(Seq<char>, i32)>,
    needed: Seq<Seq<char>>,
    fresh: Seq<i32>,
    again: Seq<i32>,
)
    requires
        missing_names(needed, ports).len() <= fresh.len(),
    ensures
        missing_names(needed, allocated(ports, needed, fresh)).len() == 0,
        allocated(allocated(ports, needed, fresh), needed, again) == allocated(
            ports,
            needed,
            fresh,
        ),
{
    let kept = kept_ports(ports, needed);
    let missing = missing_names(needed, ports);
    let pairs = paired(missing, fresh);
    let all = allocated(ports, needed, fresh);
    lemma_kept_members(ports, needed);
    lemma_missing_members(needed, ports);
    assert forall|i: int| 0 <= i < all.len() implies needed.contains((#[trigger] all[i]).0) by {
        if i < kept.len() {
            assert(all[i] == kept[i]);
            assert(kept.contains(kept[i]));
        } else {
            let k = i - kept.len();
            assert(all[i] == pairs[k]);
            assert(pairs[k].0 == missing[k]);
            assert(missing.contains(missing[k]));
        }
    }
    lemma_kept_all(all, needed);
    lemma_missing_members(needed, all);
    let missing2 = missing_names(needed, all);
    if missing2.len() > 0 {
        let n = missing2[0];
        assert(missing2.contains(n));
        assert(needed.contains(n) && !has_port(all, n));
        if has_port(ports, n) {
            let i = choose|i: int| 0 <= i < ports.len() && #[trigger] ports[i].0 == n;
            assert(ports.contains(ports[i]));
            assert(kept.contains(ports[i]));
            let j = choose|j: int| 0 <= j < kept.len() && kept[j] == ports[i];
            assert(all[j].0 == n);
        } else {
            assert(missing.contains(n));
            let k = choose|k: int| 0 <= k < missing.len() && missing[k] == n;
            assert(pairs[k].0 == n);
            assert(all[kept.len() + k].0 == n);
        }
        assert(false);
    }
    assert(paired(missing2, again) =~= Seq::empty());
    assert(all + paired(missing2, again) =~= all);
}

/// A name that the plan no longer refers to has no port after an allocation.
pub proof fn lemma_allocation_prunes(
    ports: Seq<(Seq<char>, i32)>,
    needed: Seq<Seq<char>>,
    fresh: Seq<i32>,
    name: Seq<char>,
)
    requires
        !needed.contains(name),
    ensures
        !has_port(allocated(ports, needed, fresh), name),
{
    let kept = kept_ports(ports, needed);
    let missing = missing_names(needed, ports);
    let pairs = paired(missing, fresh);
    let all = allocated(ports, needed, fresh);
    lemma_kept_members(ports, needed);
    lemma_missing_members(needed, ports);
    if has_port(all, name) {
        let i = choose|i: int| 0 <= i < all.len() && #[trigger] all[i].0 == name;
        if i < kept.len() {
            assert(all[i] == kept[i]);
            assert(kept.contains(kept[i]));
        } else {
            let k = i - kept.len();
            assert(all[i] == pairs[k]);
            assert(pairs[k].0 == missing[k]);
            assert(missing.contains(missing[k]));
        }
        assert(false);
    }
}

/// Pruning keeps the names distinct.
pub proof fn lemma_kept_names_distinct(ports: Seq<(Seq<char>, i32)>, needed: Seq<Seq<char>>)
    requires
        names_distinct(ports),
    ensures
        names_distinct(kept_ports(ports, needed)),
    decreases ports.len(),
{
    let kept = kept_ports(ports, needed);
    if ports.len() > 0 {
        let shorter = ports.drop_last();
        let before = kept_ports(shorter, needed);
        assert forall|i: int, j: int| 0 <= i < j < shorter.len() implies (#[trigger] shorter[i]).0
            != (#[trigger] shorter[j]).0 by {
            assert(shorter[i] == ports[i]);
            assert(shorter[j] == ports[j]);
        }
        lemma_kept_names_distinct(shorter, needed);
        lemma_kept_members(shorter, needed);
        if needed.contains(ports.last().0) {
            assert forall|i: int, j: int| 0 <= i < j < kept.len() implies (#[trigger] kept[i]).0
                != (#[trigger] kept[j]).0 by {
                assert(kept[i] == before[i]);
                if j < before.len() {
                    assert(kept[j] == before[j]);
                } else {
                    assert(before.contains(before[i]));
                    assert(shorter.contains(before[i]));
                    let k = choose|k: int| 0 <= k < shorter.len() && shorter[k] == before[i];
                    assert(ports[k] == before[i]);
                    assert(ports[ports.len() - 1] == kept[j]);
                }
            }
        }
    }
}

/// The missing names are distinct where the needed names are.
pub proof fn lemma_missing_distinct(needed: Seq<Seq<char>>, ports: Seq<(Seq<char>, i32)>)
    requires
        needed.no_duplicates(),
    ensures
        missing_names(needed, ports).no_duplicates(),
    decreases needed.len(),
{
    let missing = missing_names(needed, ports);
    if needed.len() > 0 {
        let shorter = needed.drop_last();
        let before = missing_names(shorter, ports);
        assert forall|i: int, j: int| 0 <= i < shorter.len() && 0 <= j < shorter.len() && i
            != j implies shorter[i] != shorter[j] by {
            assert(shorter[i] == needed[i]);
            assert(shorter[j] == needed[j]);
        }
        lemma_missing_distinct(shorter, ports);
        lemma_missing_members(shorter, ports);
        if !has_port(ports, needed.last()) {
            assert forall|i: int, j: int| 0 <= i < missing.len() && 0 <= j < missing.len() && i
                != j implies missing[i] != missing[j] by {
                let a = if i < j {
                    i
                } else {
                    j
                };
                let b = if i < j {
                    j
                } else {
                    i
                };
                assert(missing[a] == before[a]);
                if b < before.len() {
                    assert(missing[b] == before[b]);
                } else {
                    assert(before.contains(before[a]));
                    assert(shorter.contains(before[a]));
                    let k = choose|k: int| 0 <= k < shorter.len() && shorter[k] == before[a];
                    assert(needed[k] == before[a]);
                    assert(needed[needed.len() - 1] == missing[b]);
                }
            }
        }
    }
}

/// An allocation that found a port for every missing name brings the table in line
/// with the plan: afterwards every name that the plan refers to has exactly one entry,
/// and no other name has one.
pub proof fn lemma_allocation_brings_in_line(
    ports: Seq<(Seq<char>, i32)>,
    needed: Seq<Seq<char>>,
    fresh: Seq<i32>,
)
    requires
        names_distinct(ports),
        needed.no_duplicates(),
        missing_names(needed, ports).len() <= fresh.len(),
    ensures
        in_line(allocated(ports, needed, fresh), needed),
{
    let kept = kept_ports(ports, needed);
    let missing = missing_names(needed, ports);
    let pairs = paired(missing, fresh);
    let all = allocated(ports, needed, fresh);
    lemma_kept_names_distinct(ports, needed);
    lemma_missing_distinct(needed, ports);
    lemma_kept_members(ports, needed);
    lemma_missing_members(needed, ports);
    assert forall|i: int, j: int| 0 <= i < j < all.len() implies (#[trigger] all[i]).0 != (
    #[trigger] all[j]).0 by {
        if j < kept.len() {
            assert(all[i] == kept[i]);
            assert(all[j] == kept[j]);
        } else if i < kept.len() {
            assert(all[i] == kept[i]);
            assert(kept.contains(kept[i]));
            assert(ports.contains(kept[i]));
            let k = choose|k: int| 0 <= k < ports.len() && ports[k] == kept[i];
            assert(ports[k].0 == kept[i].0);
            assert(has_port(ports, kept[i].0));
            assert(all[j].0 == missing[j - kept.len()]);
            assert(missing.contains(missing[j - kept.len()]));
        } else {
            assert(all[i].0 == missing[i - kept.len()]);
            assert(all[j].0 == missing[j - kept.len()]);
        }
    }
    assert forall|n: Seq<char>| needed.contains(n) <==> has_port(all, n) by {
        if !needed.contains(n) {
            lemma_allocation_prunes(ports, needed, fresh, n);
        } else if has_port(ports, n) {
            let i = choose|i: int| 0 <= i < ports.len() && #[trigger] ports[i].0 == n;
            assert(ports.contains(ports[i]));
            assert(kept.contains(ports[i]));
            let j = choose|j: int| 0 <= j < kept.len() && kept[j] == ports[i];
            assert(all[j].0 == n);
        } else {
            assert(missing.contains(n));
            let k = choose|k: int| 0 <= k < missing.len() && missing[k] == n;
            assert(pairs[k].0 == n);
            assert(all[kept.len() + k].0 == n);
        }
    }
}

} // verus!
