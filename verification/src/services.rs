//! The order in which services are started: in waves. The services of one wave can be
//! started together; a wave is started when the wave before it is done.
//!
//! Services are referred to by their position in the plan. The pending services are a
//! map from names to services, kept as a vector of positions: no position stands twice
//! in it, and in a plan whose service names are distinct no name does.
use crate::config::{service_names_distinct, Config, Service};
use vstd::multiset::Multiset;
use vstd::prelude::*;
use vstd::seq_lib::{lemma_flatten_concat, lemma_multiset_commutative, to_multiset_build};

verus! {

/// Whether one of the services listed in `pending` is called `name`.
pub open spec fn is_pending(services: Seq<Service>, pending: Seq<usize>, name: Seq<char>) -> bool {
    exists|p: int|
        0 <= p < pending.len() && (#[trigger] pending[p]) < services.len()
            && services[pending[p] as int].name@ == name
}

/// Whether service `i` can start: none of its dependencies is the name of a pending
/// service.
pub open spec fn startable(services: Seq<Service>, pending: Seq<usize>, i: int) -> bool {
    forall|d: int|
        0 <= d < services[i].depends_on@.len() ==> !is_pending(
            services,
            pending,
            (#[trigger] services[i].depends_on@[d])@,
        )
}

/// Those of `some`, in their order, that can start while `pending` are pending.
pub open spec fn ready_among(
    services: Seq<Service>,
    pending: Seq<usize>,
    some: Seq<usize>,
) -> Seq<usize>
    decreases some.len(),
{
    if some.len() == 0 {
        Seq::empty()
    } else {
        let before = ready_among(services, pending, some.drop_last());
        if startable(services, pending, some.last() as int) {
            before.push(some.last())
        } else {
            before
        }
    }
}

/// Those of `some`, in their order, that cannot start while `pending` are pending.
pub open spec fn blocked_among(
    services: Seq<Service>,
    pending: Seq<usize>,
    some: Seq<usize>,
) -> Seq<usize>
    decreases some.len(),
{
    if some.len() == 0 {
        Seq::empty()
    } else {
        let before = blocked_among(services, pending, some.drop_last());
        if startable(services, pending, some.last() as int) {
            before
        } else {
            before.push(some.last())
        }
    }
}

/// The next wave: the pending services that can start.
pub open spec fn wave_of(services: Seq<Service>, pending: Seq<usize>) -> Seq<usize> {
    ready_among(services, pending, pending)
}

/// The services that are still pending after the next wave.
pub open spec fn rest_of(services: Seq<Service>, pending: Seq<usize>) -> Seq<usize> {
    blocked_among(services, pending, pending)
}

/// Every one of `some` is either ready or blocked.
pub proof fn lemma_ready_or_blocked(services: Seq<Service>, pending: Seq<usize>, some: Seq<usize>)
    ensures
        ready_among(services, pending, some).len() + blocked_among(services, pending, some).len()
            == some.len(),
    decreases some.len(),
{
    if some.len() > 0 {
        lemma_ready_or_blocked(services, pending, some.drop_last());
    }
}

/// The first `n` services that depend on nothing: they make the first wave.
pub open spec fn independent(services: Seq<Service>, n: int) -> Seq<usize>
    decreases n,
{
    if n <= 0 {
        Seq::empty()
    } else {
        let before = independent(services, n - 1);
        if services[n - 1].depends_on@.len() == 0 {
            before.push((n - 1) as usize)
        } else {
            before
        }
    }
}

/// The first `n` services that depend on something: they are pending after the first
/// wave.
pub open spec fn dependent(services: Seq<Service>, n: int) -> Seq<usize>
    decreases n,
{
    if n <= 0 {
        Seq::empty()
    } else {
        let before = dependent(services, n - 1);
        if services[n - 1].depends_on@.len() == 0 {
            before
        } else {
            before.push((n - 1) as usize)
        }
    }
}

/// The waves in which the pending services start, as long as each wave starts something.
pub open spec fn later_waves(services: Seq<Service>, pending: Seq<usize>) -> Seq<Seq<usize>>
    decreases pending.len(),
    via later_waves_decreases
{
    if wave_of(services, pending).len() == 0 {
        Seq::empty()
    } else {
        seq![wave_of(services, pending)] + later_waves(services, rest_of(services, pending))
    }
}

#[via_fn]
proof fn later_waves_decreases(services: Seq<Service>, pending: Seq<usize>) {
    lemma_ready_or_blocked(services, pending, pending);
}

/// The pending services that never start: those left when a wave would be empty.
pub open spec fn stalled_after(services: Seq<Service>, pending: Seq<usize>) -> Seq<usize>
    decreases pending.len(),
    via stalled_after_decreases
{
    if wave_of(services, pending).len() == 0 {
        pending
    } else {
        stalled_after(services, rest_of(services, pending))
    }
}

#[via_fn]
proof fn stalled_after_decreases(services: Seq<Service>, pending: Seq<usize>) {
    lemma_ready_or_blocked(services, pending, pending);
}

/// All waves of a plan: first the services that depend on nothing, then wave after
/// wave of those whose dependencies are no longer pending.
pub open spec fn planned_waves(services: Seq<Service>) -> Seq<Seq<usize>> {
    seq![independent(services, services.len() as int)] + later_waves(
        services,
        dependent(services, services.len() as int),
    )
}

/// The services of a plan that can never start, because each waits for another of them.
pub open spec fn planned_stalled(services: Seq<Service>) -> Seq<usize> {
    stalled_after(services, dependent(services, services.len() as int))
}

/// The ready ones are among `some` and can start; the blocked ones are among `some`.
pub proof fn lemma_ready_members(services: Seq<Service>, pending: Seq<usize>, some: Seq<usize>)
    ensures
        forall|k: int|
            0 <= k < ready_among(services, pending, some).len() ==> some.contains(
                #[trigger] ready_among(services, pending, some)[k],
            ) && startable(services, pending, ready_among(services, pending, some)[k] as int),
        forall|k: int|
            0 <= k < blocked_among(services, pending, some).len() ==> some.contains(
                #[trigger] blocked_among(services, pending, some)[k],
            ),
    decreases some.len(),
{
    if some.len() > 0 {
        let shorter = some.drop_last();
        lemma_ready_members(services, pending, shorter);
        let ready = ready_among(services, pending, some);
        let blocked = blocked_among(services, pending, some);
        assert forall|k: int| 0 <= k < ready.len() implies some.contains(#[trigger] ready[k])
            && startable(services, pending, ready[k] as int) by {
            if k < ready_among(services, pending, shorter).len() {
                let x = ready_among(services, pending, shorter)[k];
                assert(shorter.contains(x));
                let i = choose|i: int| 0 <= i < shorter.len() && shorter[i] == x;
                assert(some[i] == x);
            } else {
                assert(some[some.len() - 1] == ready[k]);
            }
        }
        assert forall|k: int| 0 <= k < blocked.len() implies some.contains(
            #[trigger] blocked[k],
        ) by {
            if k < blocked_among(services, pending, shorter).len() {
                let x = blocked_among(services, pending, shorter)[k];
                assert(shorter.contains(x));
                let i = choose|i: int| 0 <= i < shorter.len() && shorter[i] == x;
                assert(some[i] == x);
            } else {
                assert(some[some.len() - 1] == blocked[k]);
            }
        }
    }
}

/// Whatever a later wave holds was pending.
pub proof fn lemma_later_members(services: Seq<Service>, pending: Seq<usize>, w: int, b: int)
    requires
        0 <= w < later_waves(services, pending).len(),
        0 <= b < later_waves(services, pending)[w].len(),
    ensures
        pending.contains(later_waves(services, pending)[w][b]),
    decreases w,
{
    lemma_ready_members(services, pending, pending);
    let rest = rest_of(services, pending);
    if w > 0 {
        assert(later_waves(services, pending)[w] == later_waves(services, rest)[w - 1]);
        lemma_later_members(services, rest, w - 1, b);
        let x = later_waves(services, rest)[w - 1][b];
        let k = choose|k: int| 0 <= k < rest.len() && rest[k] == x;
        assert(pending.contains(rest[k]));
    }
}

/// Among the waves of pending services, no service of a wave depends on a service of
/// the same or a later wave.
pub proof fn lemma_later_waves_ordered(
    services: Seq<Service>,
    pending: Seq<usize>,
    early: int,
    a: int,
    d: int,
    late: int,
    b: int,
)
    requires
        forall|p: int| 0 <= p < pending.len() ==> (#[trigger] pending[p]) < services.len(),
        0 <= early <= late < later_waves(services, pending).len(),
        0 <= a < later_waves(services, pending)[early].len(),
        0 <= b < later_waves(services, pending)[late].len(),
        0 <= d < services[later_waves(services, pending)[early][a] as int].depends_on@.len(),
    ensures
        services[later_waves(services, pending)[late][b] as int].name@
            != services[later_waves(services, pending)[early][a] as int].depends_on@[d]@,
    decreases early,
{
    let waves = later_waves(services, pending);
    let rest = rest_of(services, pending);
    lemma_ready_members(services, pending, pending);
    if early == 0 {
        let s = waves[0][a];
        let t = waves[late][b];
        assert(waves[0] == wave_of(services, pending));
        assert(startable(services, pending, s as int));
        lemma_later_members(services, pending, late, b);
        let p = choose|p: int| 0 <= p < pending.len() && pending[p] == t;
        assert(pending[p] < services.len());
        if services[t as int].name@ == services[s as int].depends_on@[d]@ {
            assert(is_pending(services, pending, services[s as int].depends_on@[d]@));
            assert(false);
        }
    } else {
        assert(waves[early] == later_waves(services, rest)[early - 1]);
        assert(waves[late] == later_waves(services, rest)[late - 1]);
        assert forall|p: int| 0 <= p < rest.len() implies (#[trigger] rest[p])
            < services.len() by {
            assert(pending.contains(rest[p]));
        }
        lemma_later_waves_ordered(services, rest, early - 1, a, d, late - 1, b);
    }
}

/// The services of the first wave depend on nothing, and the others are within the plan.
pub proof fn lemma_first_wave(services: Seq<Service>, n: int)
    requires
        0 <= n <= services.len(),
        n <= usize::MAX,
    ensures
        forall|k: int|
            0 <= k < independent(services, n).len() ==> (#[trigger] independent(services, n)[k])
                < n && services[independent(services, n)[k] as int].depends_on@.len() == 0,
        forall|k: int|
            0 <= k < dependent(services, n).len() ==> (#[trigger] dependent(services, n)[k]) < n,
    decreases n,
{
    if n > 0 {
        lemma_first_wave(services, n - 1);
        let first = independent(services, n);
        let others = dependent(services, n);
        assert forall|k: int| 0 <= k < first.len() implies (#[trigger] first[k]) < n
            && services[first[k] as int].depends_on@.len() == 0 by {
            if k < independent(services, n - 1).len() {
                assert(first[k] == independent(services, n - 1)[k]);
            }
        }
        assert forall|k: int| 0 <= k < others.len() implies (#[trigger] others[k]) < n by {
            if k < dependent(services, n - 1).len() {
                assert(others[k] == dependent(services, n - 1)[k]);
            }
        }
    }
}

/// Dependencies start first: a service that another one depends on is in no wave from
/// the wave of that other one on. If it is started at all, then in an earlier wave.
pub proof fn lemma_dependencies_start_first(
    services: Seq<Service>,
    early: int,
    a: int,
    d: int,
    late: int,
    b: int,
)
    requires
        services.len() <= usize::MAX,
        0 <= early <= late < planned_waves(services).len(),
        0 <= a < planned_waves(services)[early].len(),
        0 <= b < planned_waves(services)[late].len(),
        0 <= d < services[planned_waves(services)[early][a] as int].depends_on@.len(),
    ensures
        services[planned_waves(services)[late][b] as int].name@
            != services[planned_waves(services)[early][a] as int].depends_on@[d]@,
{
    let n = services.len() as int;
    let pending = dependent(services, n);
    lemma_first_wave(services, n);
    if early == 0 {
        assert(planned_waves(services)[0] == independent(services, n));
    } else {
        assert(planned_waves(services)[early] == later_waves(services, pending)[early - 1]);
        assert(planned_waves(services)[late] == later_waves(services, pending)[late - 1]);
        lemma_later_waves_ordered(services, pending, early - 1, a, d, late - 1, b);
    }
}

proof fn lemma_nothing_in_nothing()
    ensures
        Seq::<usize>::empty().to_multiset() == Multiset::<usize>::empty(),
{
    broadcast use vstd::multiset::group_multiset_axioms;

    let none = Seq::<usize>::empty();
    none.to_multiset_ensures();
    assert forall|v: usize| none.to_multiset().count(v) == 0 by {
        assert(!none.contains(v));
    }
    assert(none.to_multiset() =~= Multiset::<usize>::empty());
}

/// The ready and the blocked together are `some`, each as often as it stands there.
pub proof fn lemma_ready_and_blocked(services: Seq<Service>, pending: Seq<usize>, some: Seq<usize>)
    ensures
        ready_among(services, pending, some).to_multiset().add(
            blocked_among(services, pending, some).to_multiset(),
        ) == some.to_multiset(),
    decreases some.len(),
{
    broadcast use vstd::multiset::group_multiset_axioms;

    let ready = ready_among(services, pending, some);
    let blocked = blocked_among(services, pending, some);
    if some.len() == 0 {
        lemma_nothing_in_nothing();
        assert(some =~= Seq::<usize>::empty());
        assert(ready.to_multiset().add(blocked.to_multiset()) =~= some.to_multiset());
    } else {
        let shorter = some.drop_last();
        lemma_ready_and_blocked(services, pending, shorter);
        let ready_before = ready_among(services, pending, shorter);
        let blocked_before = blocked_among(services, pending, shorter);
        assert(shorter.push(some.last()) =~= some);
        to_multiset_build(shorter, some.last());
        to_multiset_build(ready_before, some.last());
        to_multiset_build(blocked_before, some.last());
        assert(ready.to_multiset().add(blocked.to_multiset()) =~= some.to_multiset());
    }
}

/// The later waves and the stalled services together are the pending services, each as
/// often as it is pending.
pub proof fn lemma_later_waves_complete(services: Seq<Service>, pending: Seq<usize>)
    ensures
        later_waves(services, pending).flatten().to_multiset().add(
            stalled_after(services, pending).to_multiset(),
        ) == pending.to_multiset(),
    decreases pending.len(),
{
    broadcast use vstd::multiset::group_multiset_axioms;

    let wave = wave_of(services, pending);
    let rest = rest_of(services, pending);
    let stalled = stalled_after(services, pending);
    if wave.len() == 0 {
        lemma_nothing_in_nothing();
        assert(later_waves(services, pending).flatten() =~= Seq::<usize>::empty());
        assert(Seq::<usize>::empty().to_multiset().add(pending.to_multiset())
            =~= pending.to_multiset());
    } else {
        lemma_ready_or_blocked(services, pending, pending);
        lemma_ready_and_blocked(services, pending, pending);
        lemma_later_waves_complete(services, rest);
        let later = later_waves(services, rest);
        seq![wave].lemma_flatten_one_element();
        lemma_flatten_concat(seq![wave], later);
        assert(later_waves(services, pending).flatten() =~= wave + later.flatten());
        lemma_multiset_commutative(wave, later.flatten());
        assert(wave.to_multiset().add(later.flatten().to_multiset()).add(stalled.to_multiset())
            =~= wave.to_multiset().add(
            later.flatten().to_multiset().add(stalled.to_multiset()),
        ));
    }
}

/// The positions below `n`, in order.
pub open spec fn positions(n: int) -> Seq<usize> {
    Seq::new(
        if n > 0 {
            n as nat
        } else {
            0
        },
        |i: int| i as usize,
    )
}

/// The services that depend on nothing and those that depend on something are
/// together all services, each once.
pub proof fn lemma_independent_and_dependent(services: Seq<Service>, n: int)
    requires
        0 <= n <= usize::MAX,
    ensures
        independent(services, n).to_multiset().add(dependent(services, n).to_multiset())
            == positions(n).to_multiset(),
    decreases n,
{
    broadcast use vstd::multiset::group_multiset_axioms;

    let first = independent(services, n);
    let others = dependent(services, n);
    if n == 0 {
        lemma_nothing_in_nothing();
        assert(positions(n) =~= Seq::<usize>::empty());
        assert(first.to_multiset().add(others.to_multiset()) =~= positions(n).to_multiset());
    } else {
        lemma_independent_and_dependent(services, n - 1);
        let x = (n - 1) as usize;
        assert(positions(n - 1).push(x) =~= positions(n));
        to_multiset_build(positions(n - 1), x);
        to_multiset_build(independent(services, n - 1), x);
        to_multiset_build(dependent(services, n - 1), x);
        assert(first.to_multiset().add(others.to_multiset()) =~= positions(n).to_multiset());
    }
}

/// No service is started twice and none is forgotten: the waves of a plan and its
/// stalled services together hold every service of the plan, each once.
pub proof fn lemma_every_service_once(services: Seq<Service>)
    requires
        services.len() <= usize::MAX,
    ensures
        planned_waves(services).flatten().to_multiset().add(
            planned_stalled(services).to_multiset(),
        ) == positions(services.len() as int).to_multiset(),
{
    broadcast use vstd::multiset::group_multiset_axioms;

    let n = services.len() as int;
    let first = independent(services, n);
    let pending = dependent(services, n);
    let later = later_waves(services, pending);
    let stalled = planned_stalled(services);
    lemma_independent_and_dependent(services, n);
    lemma_later_waves_complete(services, pending);
    seq![first].lemma_flatten_one_element();
    lemma_flatten_concat(seq![first], later);
    assert(planned_waves(services).flatten() =~= first + later.flatten());
    lemma_multiset_commutative(first, later.flatten());
    assert(first.to_multiset().add(later.flatten().to_multiset()).add(stalled.to_multiset())
        =~= first.to_multiset().add(later.flatten().to_multiset().add(stalled.to_multiset())));
}

/// Splitting positions that are distinct gives positions that are distinct.
pub proof fn lemma_split_distinct(services: Seq<Service>, pending: Seq<usize>, some: Seq<usize>)
    requires
        some.no_duplicates(),
    ensures
        ready_among(services, pending, some).no_duplicates(),
        blocked_among(services, pending, some).no_duplicates(),
    decreases some.len(),
{
    if some.len() > 0 {
        let shorter = some.drop_last();
        let ready = ready_among(services, pending, shorter);
        let blocked = blocked_among(services, pending, shorter);
        lemma_split_distinct(services, pending, shorter);
        lemma_ready_members(services, pending, shorter);
        assert forall|k: int| 0 <= k < ready.len() implies ready[k] != some.last() by {
            assert(shorter.contains(ready[k]));
            let i = choose|i: int| 0 <= i < shorter.len() && shorter[i] == ready[k];
            assert(some[i] == ready[k]);
        }
        assert forall|k: int| 0 <= k < blocked.len() implies blocked[k] != some.last() by {
            assert(shorter.contains(blocked[k]));
            let i = choose|i: int| 0 <= i < shorter.len() && shorter[i] == blocked[k];
            assert(some[i] == blocked[k]);
        }
    }
}

/// No position stands twice among the services of the first wave or among the others.
pub proof fn lemma_positions_distinct(services: Seq<Service>, n: int)
    requires
        0 <= n <= services.len(),
        n <= usize::MAX,
    ensures
        independent(services, n).no_duplicates(),
        dependent(services, n).no_duplicates(),
    decreases n,
{
    if n > 0 {
        lemma_positions_distinct(services, n - 1);
        lemma_first_wave(services, n - 1);
    }
}

/// The waves of a plan, and what they leave out.
pub struct StartPlan {
    /// The waves, in the order in which they start; the first may be empty.
    pub waves: Vec<Vec<usize>>,
    /// The services that no wave holds.
    pub stalled: Vec<usize>,
}

/// The positions that a vector of waves holds.
pub open spec fn waves_of(waves: Seq<Vec<usize>>) -> Seq<Seq<usize>> {
    Seq::new(waves.len(), |i: int| waves[i]@)
}

fn names_pending(services: &Vec<Service>, pending: &Vec<usize>, name: &String) -> (r: bool)
    ensures
        r == is_pending(services@, pending@, name@),
{
    let mut p: usize = 0;
    while p < pending.len()
        invariant
            p <= pending.len(),
            forall|q: int|
                0 <= q < p ==> !((#[trigger] pending@[q]) < services@.len()
                    && services@[pending@[q] as int].name@ == name@),
        decreases pending.len() - p,
    {
        let at: usize = pending[p];
        if at < services.len() && services[at].name == *name {
            return true;
        }
        p += 1;
    }
    false
}

fn can_start(services: &Vec<Service>, pending: &Vec<usize>, i: usize) -> (r: bool)
    requires
        i < services.len(),
    ensures
        r == startable(services@, pending@, i as int),
{
    let service = &services[i];
    let mut d: usize = 0;
    while d < service.depends_on.len()
        invariant
            d <= service.depends_on.len(),
            *service == services@[i as int],
            forall|e: int|
                0 <= e < d ==> !is_pending(
                    services@,
                    pending@,
                    (#[trigger] service.depends_on@[e])@,
                ),
        decreases service.depends_on.len() - d,
    {
        if names_pending(services, pending, &service.depends_on[d]) {
            return false;
        }
        d += 1;
    }
    true
}

/// Splits the pending services into the next wave and the rest.
pub fn next_wave(config: &Config, pending: &Vec<usize>) -> (r: (Vec<usize>, Vec<usize>))
    requires
        service_names_distinct(config.services@),
        pending@.no_duplicates(),
        forall|p: int| 0 <= p < pending.len() ==> (#[trigger] pending[p]) < config.services.len(),
    ensures
        r.0@.no_duplicates(),
        r.1@.no_duplicates(),
        r.0@ == wave_of(config.services@, pending@),
        r.1@ == rest_of(config.services@, pending@),
        r.0@.len() + r.1@.len() == pending@.len(),
        forall|p: int| 0 <= p < r.1@.len() ==> (#[trigger] r.1@[p]) < config.services.len(),
{
    let mut wave: Vec<usize> = Vec::new();
    let mut rest: Vec<usize> = Vec::new();
    let mut k: usize = 0;
    while k < pending.len()
        invariant
            k <= pending.len(),
            forall|p: int|
                0 <= p < pending.len() ==> (#[trigger] pending[p]) < config.services.len(),
            wave@ == ready_among(config.services@, pending@, pending@.take(k as int)),
            rest@ == blocked_among(config.services@, pending@, pending@.take(k as int)),
            forall|p: int| 0 <= p < rest@.len() ==> (#[trigger] rest@[p]) < config.services.len(),
        decreases pending.len() - k,
    {
        assert(pending@.take(k + 1).drop_last() =~= pending@.take(k as int));
        let at: usize = pending[k];
        if can_start(&config.services, pending, at) {
            wave.push(at);
        } else {
            rest.push(at);
        }
        k += 1;
    }
    assert(pending@.take(pending.len() as int) =~= pending@);
    proof {
        lemma_ready_or_blocked(config.services@, pending@, pending@);
        lemma_split_distinct(config.services@, pending@, pending@);
    }
    (wave, rest)
}

/// Plans the start of all services: the first wave holds the services that depend on
/// nothing; each later wave holds the pending services none of whose dependencies is
/// still pending. Services that wait for each other are left over as stalled.
pub fn start_all(config: &Config) -> (plan: StartPlan)
    requires
        service_names_distinct(config.services@),
    ensures
        waves_of(plan.waves@) == planned_waves(config.services@),
        plan.stalled@ == planned_stalled(config.services@),
        plan.stalled@.no_duplicates(),
        forall|w: int| 0 <= w < plan.waves@.len() ==> (#[trigger] plan.waves@[w])@.no_duplicates(),
{
    let mut first: Vec<usize> = Vec::new();
    let mut pending: Vec<usize> = Vec::new();
    let mut i: usize = 0;
    while i < config.services.len()
        invariant
            i <= config.services.len(),
            first@ == independent(config.services@, i as int),
            pending@ == dependent(config.services@, i as int),
            forall|p: int|
                0 <= p < pending.len() ==> (#[trigger] pending[p]) < config.services.len(),
        decreases config.services.len() - i,
    {
        if config.services[i].depends_on.len() == 0 {
            first.push(i);
        } else {
            pending.push(i);
        }
        i += 1;
    }
    proof {
        lemma_positions_distinct(config.services@, config.services@.len() as int);
    }
    let ghost start = pending@;
    let mut waves: Vec<Vec<usize>> = Vec::new();
    let ghost first_wave = first@;
    waves.push(first);
    assert(waves_of(waves@) =~= seq![first_wave]);
    loop
        invariant
            service_names_distinct(config.services@),
            pending@.no_duplicates(),
            forall|w: int| 0 <= w < waves@.len() ==> (#[trigger] waves@[w])@.no_duplicates(),
            forall|p: int|
                0 <= p < pending.len() ==> (#[trigger] pending[p]) < config.services.len(),
            waves_of(waves@) + later_waves(config.services@, pending@) == seq![first_wave]
                + later_waves(config.services@, start),
            stalled_after(config.services@, pending@) == stalled_after(config.services@, start),
            start == dependent(config.services@, config.services@.len() as int),
            first_wave == independent(config.services@, config.services@.len() as int),
        decreases pending.len(),
    {
        let (wave, rest) = next_wave(config, &pending);
        if wave.len() == 0 {
            assert(waves_of(waves@) + Seq::<Seq<usize>>::empty() =~= waves_of(waves@));
            return StartPlan { waves, stalled: pending };
        }
        let ghost before = waves_of(waves@);
        let ghost this_wave = wave@;
        waves.push(wave);
        assert(waves_of(waves@) =~= before.push(this_wave));
        assert(before.push(this_wave) + later_waves(config.services@, rest@) =~= before + (
        seq![this_wave] + later_waves(config.services@, rest@)));
        pending = rest;
    }
}

} // verus!
