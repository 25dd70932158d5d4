//! The search for free ports: candidates are probed one after the other from the first
//! port upwards, and a candidate on which nothing answers is claimed. A port that an
//! entry of the table keeps is no candidate: it is passed over without a probe.
//!
//! The probe itself is made by the caller. `PortScan` says which port to probe next and
//! takes the outcome; `get_ports` replays a whole list of outcomes.
use crate::ports::{ports_ascending, FIRST_PORT, LAST_PORT};
use vstd::prelude::*;

verus! {

/// What an attempt to connect to a candidate port came to.
#[derive(Debug, Clone, Copy, PartialEq, Eq, Structural)]
pub enum Probe {
    /// Something answered: the port is in use.
    Connected,
    /// The connection was refused: the port is free.
    Refused,
    /// The attempt failed for another reason: nothing is known of the port.
    Failed,
}

/// The lowest port from `from` upwards that is not reserved, or the port after the last
/// where there is none.
pub open spec fn next_open(reserved: Seq<i32>, from: int) -> int
    decreases LAST_PORT + 1 - from,
{
    if from <= LAST_PORT && reserved.contains(from as i32) {
        next_open(reserved, from + 1)
    } else {
        from
    }
}

/// The next open port is not reserved, and every port that was passed over is.
pub proof fn lemma_next_open(reserved: Seq<i32>, from: int)
    requires
        FIRST_PORT <= from <= LAST_PORT + 1,
    ensures
        from <= next_open(reserved, from) <= LAST_PORT + 1,
        next_open(reserved, from) <= LAST_PORT ==> !reserved.contains(
            next_open(reserved, from) as i32,
        ),
        forall|p: i32| from <= p < next_open(reserved, from) ==> #[trigger] reserved.contains(p),
    decreases LAST_PORT + 1 - from,
{
    if from <= LAST_PORT && reserved.contains(from as i32) {
        lemma_next_open(reserved, from + 1);
    }
}

fn is_reserved(reserved: &Vec<i32>, port: i32) -> (r: bool)
    ensures
        r == reserved@.contains(port),
{
    let mut i: usize = 0;
    while i < reserved.len()
        invariant
            i <= reserved.len(),
            forall|j: int| 0 <= j < i ==> reserved@[j] != port,
        decreases reserved.len() - i,
    {
        if reserved[i] == port {
            return true;
        }
        i += 1;
    }
    false
}

fn skip_reserved(reserved: &Vec<i32>, from: i64) -> (r: i64)
    requires
        FIRST_PORT <= from <= LAST_PORT + 1,
    ensures
        r == next_open(reserved@, from as int),
        from <= r <= LAST_PORT + 1,
        r <= LAST_PORT ==> !reserved@.contains(r as i32),
{
    let mut candidate: i64 = from;
    while candidate <= 65535 && is_reserved(reserved, candidate as i32)
        invariant
            from <= candidate <= LAST_PORT + 1,
            next_open(reserved@, from as int) == next_open(reserved@, candidate as int),
        decreases LAST_PORT + 1 - candidate,
    {
        candidate += 1;
    }
    candidate
}

/// A search for a number of free ports among the ports that are not reserved.
pub struct PortScan {
    wanted: usize,
    next: i64,
    claimed: Vec<i32>,
    reserved: Vec<i32>,
}

impl PortScan {
    #[verifier::type_invariant]
    spec fn inv(&self) -> bool {
        &&& FIRST_PORT <= self.next <= LAST_PORT + 1
        &&& self.next <= LAST_PORT ==> !self.reserved@.contains(self.next as i32)
        &&& self.claimed@.len() <= self.wanted
        &&& ports_ascending(self.claimed@)
        &&& forall|i: int|
            0 <= i < self.claimed@.len() ==> (#[trigger] self.claimed@[i]) < self.next
                && !self.reserved@.contains(self.claimed@[i])
    }

    /// How many ports the search is to find.
    pub closed spec fn wanted(&self) -> nat {
        self.wanted as nat
    }

    /// The ports that are no candidates.
    pub closed spec fn reserved(&self) -> Seq<i32> {
        self.reserved@
    }

    /// The port that is probed next.
    pub closed spec fn candidate(&self) -> int {
        self.next as int
    }

    /// The ports that were claimed so far, in the order in which they were found.
    pub closed spec fn claimed(&self) -> Seq<i32> {
        self.claimed@
    }

    /// Nothing is left to probe: enough ports were claimed, or the candidates ran out.
    pub open spec fn finished(&self) -> bool {
        self.claimed().len() >= self.wanted() || self.candidate() > LAST_PORT
    }

    /// Starts a search for `length` free ports at the first port that is not reserved.
    pub fn new(length: usize, reserved: Vec<i32>) -> (scan: PortScan)
        ensures
            scan.wanted() == length,
            scan.reserved() == reserved@,
            scan.candidate() == next_open(reserved@, FIRST_PORT as int),
            scan.claimed() == Seq::<i32>::empty(),
    {
        let next = skip_reserved(&reserved, 49000);
        PortScan { wanted: length, next, claimed: Vec::new(), reserved }
    }

    /// The port to probe next, or `None` when the search is finished.
    pub fn next_probe(&self) -> (r: Option<i32>)
        ensures
            self.finished() ==> r is None,
            !self.finished() ==> r == Some(self.candidate() as i32),
            r matches Some(port) ==> FIRST_PORT <= port <= LAST_PORT && !self.reserved().contains(
                port,
            ),
    {
        proof {
            use_type_invariant(self);
        }
        if self.claimed.len() >= self.wanted || self.next > 65535 {
            None
        } else {
            Some(self.next as i32)
        }
    }

    /// Takes the outcome of the probe of the current candidate: a port in use is passed
    /// over, a free one is claimed, and the search moves to the next port that is not
    /// reserved. A finished search stays as it is.
    pub fn record(&mut self, in_use: bool)
        ensures
            final(self).wanted() == old(self).wanted(),
            final(self).reserved() == old(self).reserved(),
            old(self).finished() ==> final(self).candidate() == old(self).candidate(),
            old(self).finished() ==> final(self).claimed() == old(self).claimed(),
            !old(self).finished() ==> final(self).candidate() == next_open(
                old(self).reserved(),
                old(self).candidate() + 1,
            ),
            !old(self).finished() && in_use ==> final(self).claimed() == old(self).claimed(),
            !old(self).finished() && !in_use ==> final(self).claimed() == old(self).claimed().push(
                old(self).candidate() as i32,
            ),
    {
        proof {
            use_type_invariant(&*self);
        }
        if self.claimed.len() >= self.wanted || self.next > 65535 {
            return ;
        }
        let mut claimed: Vec<i32> = Vec::new();
        std::mem::swap(&mut claimed, &mut self.claimed);
        let mut reserved: Vec<i32> = Vec::new();
        std::mem::swap(&mut reserved, &mut self.reserved);
        let current: i64 = self.next;
        if !in_use {
            claimed.push(current as i32);
        }
        let next = skip_reserved(&reserved, current + 1);
        *self = PortScan { wanted: self.wanted, next, claimed, reserved };
    }

    /// Takes what the probe of the current candidate came to. A probe that failed for
    /// another reason than a refused connection leaves the search as it is and gives
    /// `false`: the search cannot go on.
    pub fn record_probe(&mut self, probe: Probe) -> (usable: bool)
        ensures
            usable == !(probe is Failed),
            final(self).wanted() == old(self).wanted(),
            final(self).reserved() == old(self).reserved(),
            probe is Failed || old(self).finished() ==> final(self).candidate() == old(
                self,
            ).candidate() && final(self).claimed() == old(self).claimed(),
            !(probe is Failed) && !old(self).finished() ==> final(self).candidate() == next_open(
                old(self).reserved(),
                old(self).candidate() + 1,
            ),
            probe is Connected && !old(self).finished() ==> final(self).claimed() == old(
                self,
            ).claimed(),
            probe is Refused && !old(self).finished() ==> final(self).claimed() == old(
                self,
            ).claimed().push(old(self).candidate() as i32),
    {
        match probe {
            Probe::Connected => {
                self.record(true);
                true
            },
            Probe::Refused => {
                self.record(false);
                true
            },
            Probe::Failed => false,
        }
    }

    /// Whether every port that was asked for has been claimed.
    pub fn is_complete(&self) -> (r: bool)
        ensures
            r == (self.claimed().len() == self.wanted()),
    {
        proof {
            use_type_invariant(self);
        }
        self.claimed.len() == self.wanted
    }

    /// The ports claimed so far: ascending within the range of ports, none of them
    /// reserved, and no more than were asked for.
    pub fn ports(&self) -> (r: Vec<i32>)
        ensures
            r@ == self.claimed(),
            ports_ascending(r@),
            r@.len() <= self.wanted(),
            forall|i: int| 0 <= i < r@.len() ==> !self.reserved().contains(#[trigger] r@[i]),
    {
        proof {
            use_type_invariant(self);
        }
        self.claimed.clone()
    }
}

/// The candidate and the claimed ports of a search for `length` ports after the
/// outcomes of its probes, one outcome for each candidate in turn; outcomes after the
/// end of the search count for nothing.
pub open spec fn scan_after(length: nat, reserved: Seq<i32>, outcomes: Seq<bool>) -> (
    int,
    Seq<i32>,
)
    decreases outcomes.len(),
{
    if outcomes.len() == 0 {
        (next_open(reserved, FIRST_PORT as int), Seq::empty())
    } else {
        let (candidate, claimed) = scan_after(length, reserved, outcomes.drop_last());
        if claimed.len() >= length || candidate > LAST_PORT {
            (candidate, claimed)
        } else if outcomes.last() {
            (next_open(reserved, candidate + 1), claimed)
        } else {
            (next_open(reserved, candidate + 1), claimed.push(candidate as i32))
        }
    }
}

/// The candidate that is probed after `k` probes, as long as candidates are left.
pub open spec fn probed(reserved: Seq<i32>, k: nat) -> int
    decreases k,
{
    if k == 0 {
        next_open(reserved, FIRST_PORT as int)
    } else {
        next_open(reserved, probed(reserved, (k - 1) as nat) + 1)
    }
}

/// How many of the outcomes a search for `length` ports takes before it is finished.
pub open spec fn probes_made(length: nat, reserved: Seq<i32>, outcomes: Seq<bool>) -> nat
    decreases outcomes.len(),
{
    if outcomes.len() == 0 {
        0
    } else {
        let (candidate, claimed) = scan_after(length, reserved, outcomes.drop_last());
        let before = probes_made(length, reserved, outcomes.drop_last());
        if claimed.len() >= length || candidate > LAST_PORT {
            before
        } else {
            before + 1
        }
    }
}

/// Of the first `n` candidates, those on which nothing answered, in order.
pub open spec fn free_among(reserved: Seq<i32>, outcomes: Seq<bool>, n: nat) -> Seq<i32>
    decreases n,
{
    if n == 0 {
        Seq::empty()
    } else {
        let before = free_among(reserved, outcomes, (n - 1) as nat);
        if outcomes[n - 1] {
            before
        } else {
            before.push(probed(reserved, (n - 1) as nat) as i32)
        }
    }
}

proof fn lemma_free_among_prefix(reserved: Seq<i32>, outcomes: Seq<bool>, n: nat)
    requires
        n < outcomes.len(),
    ensures
        free_among(reserved, outcomes.drop_last(), n) == free_among(reserved, outcomes, n),
    decreases n,
{
    if n > 0 {
        lemma_free_among_prefix(reserved, outcomes, (n - 1) as nat);
    }
}

/// What a search claims are the free candidates that it came to, all of them: the
/// outcomes that it takes are those of its candidates in turn, and the claimed ports
/// are exactly the candidates among them on which nothing answered. While the search
/// goes on, it has taken every outcome.
pub proof fn lemma_scan_claims_free(length: nat, reserved: Seq<i32>, outcomes: Seq<bool>)
    ensures
        probes_made(length, reserved, outcomes) <= outcomes.len(),
        scan_after(length, reserved, outcomes) == (
            probed(reserved, probes_made(length, reserved, outcomes)),
            free_among(reserved, outcomes, probes_made(length, reserved, outcomes)),
        ),
        scan_after(length, reserved, outcomes).1.len() < length && scan_after(
            length,
            reserved,
            outcomes,
        ).0 <= LAST_PORT ==> probes_made(length, reserved, outcomes) == outcomes.len(),
    decreases outcomes.len(),
{
    if outcomes.len() > 0 {
        let shorter = outcomes.drop_last();
        lemma_scan_claims_free(length, reserved, shorter);
        let made = probes_made(length, reserved, shorter);
        let (before, had) = scan_after(length, reserved, shorter);
        if had.len() >= length || before > LAST_PORT {
            if made > 0 {
                lemma_free_among_prefix(reserved, outcomes, (made - 1) as nat);
                assert(shorter[made - 1] == outcomes[made - 1]);
            }
        } else {
            assert(made == shorter.len());
            if made > 0 {
                lemma_free_among_prefix(reserved, outcomes, (made - 1) as nat);
                assert(shorter[made - 1] == outcomes[made - 1]);
            }
            assert(free_among(reserved, shorter, made) == free_among(reserved, outcomes, made));
            assert(outcomes[made as int] == outcomes.last());
        }
    }
}

/// The ports that a search for `length` ports claims when the probe of its `k`-th
/// candidate has the outcome `in_use[k]`: the lowest `length` ports that are not
/// reserved and on which nothing answered, or fewer where the outcomes do not reach
/// that far.
pub fn get_ports(length: usize, reserved: &Vec<i32>, in_use: &Vec<bool>) -> (r: Vec<i32>)
    ensures
        r@ == scan_after(length as nat, reserved@, in_use@).1,
        ports_ascending(r@),
        r@.len() <= length,
        forall|i: int| 0 <= i < r@.len() ==> !reserved@.contains(#[trigger] r@[i]),
{
    let mut scan = PortScan::new(length, reserved.clone());
    let mut i: usize = 0;
    while i < in_use.len()
        invariant
            i <= in_use.len(),
            scan.wanted() == length,
            scan.reserved() == reserved@,
            (scan.candidate(), scan.claimed()) == scan_after(
                length as nat,
                reserved@,
                in_use@.take(i as int),
            ),
        decreases in_use.len() - i,
    {
        assert(in_use@.take(i + 1).drop_last() =~= in_use@.take(i as int));
        scan.record(in_use[i]);
        i += 1;
    }
    assert(in_use@.take(in_use.len() as int) =~= in_use@);
    scan.ports()
}

} // verus!
