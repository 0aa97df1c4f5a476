//! The escape time of one orbit.
//!
//! An orbit is seen here through the one question that the escape test asks
//! of it: was the point reached after `i` updates beyond the escape radius?
//! The answers, in order, are a sequence of flags. The escape time under a cap
//! is the index of the first flag that is set among the first `cap` of them,
//! and the cap itself when none of those is set.

use vstd::prelude::*;

verus! {

/// Whether observation `i` found the orbit beyond the escape radius. An
/// observation that was never made counts as one that did not.
pub open spec fn exceeds_at(flags: Seq<bool>, i: int) -> bool {
    0 <= i < flags.len() && flags[i]
}

/// What it means for `t` to be the escape time of an orbit under `cap`: no
/// observation before `t` exceeded, and either observation `t` did or the cap
/// was used up.
pub open spec fn is_escape_time(flags: Seq<bool>, cap: nat, t: nat) -> bool {
    &&& t <= cap
    &&& forall|i: int| 0 <= i < t ==> !exceeds_at(flags, i)
    &&& t < cap ==> exceeds_at(flags, t as int)
}

/// The escape time of an orbit with observations `flags` under `cap`.
pub open spec fn escape_time(flags: Seq<bool>, cap: nat) -> nat
    decreases cap,
{
    if cap == 0 {
        0
    } else {
        let earlier = escape_time(flags, (cap - 1) as nat);
        if earlier < cap - 1 || exceeds_at(flags, cap - 1) {
            earlier
        } else {
            cap
        }
    }
}

/// `escape_time` is an escape time in the sense of `is_escape_time`.
pub proof fn lemma_escape_time_is_first(flags: Seq<bool>, cap: nat)
    ensures
        is_escape_time(flags, cap, escape_time(flags, cap)),
    decreases cap,
{
    if cap > 0 {
        lemma_escape_time_is_first(flags, (cap - 1) as nat);
    }
}

/// There is only one escape time: whatever satisfies `is_escape_time` is
/// `escape_time`.
pub proof fn lemma_escape_time_unique(flags: Seq<bool>, cap: nat, t: nat)
    requires
        is_escape_time(flags, cap, t),
    ensures
        t == escape_time(flags, cap),
{
    lemma_escape_time_is_first(flags, cap);
}

/// Raising the cap never lowers the escape time.
pub proof fn lemma_escape_time_monotone(flags: Seq<bool>, low: nat, high: nat)
    requires
        low <= high,
    ensures
        escape_time(flags, low) <= escape_time(flags, high),
{
    lemma_escape_time_is_first(flags, low);
    lemma_escape_time_is_first(flags, high);
    let a = escape_time(flags, low);
    let b = escape_time(flags, high);
    if b < a {
        assert(exceeds_at(flags, b as int));
    }
}

/// An orbit that escaped under one cap reports the same escape time under
/// every higher cap.
pub proof fn lemma_escaped_orbit_ignores_cap(flags: Seq<bool>, low: nat, high: nat)
    requires
        low <= high,
        escape_time(flags, low) < low,
    ensures
        escape_time(flags, high) == escape_time(flags, low),
{
    lemma_escape_time_is_first(flags, low);
    lemma_escape_time_unique(flags, high, escape_time(flags, low));
}

/// The escape time is the cap exactly when none of the first `cap`
/// observations exceeded.
pub proof fn lemma_escape_time_is_cap(flags: Seq<bool>, cap: nat)
    ensures
        escape_time(flags, cap) == cap <==> forall|i: int|
            0 <= i < cap ==> !exceeds_at(flags, i),
{
    lemma_escape_time_is_first(flags, cap);
    if forall|i: int| 0 <= i < cap ==> !exceeds_at(flags, i) {
        lemma_escape_time_unique(flags, cap, cap);
    }
}

/// The escape time is zero exactly when the cap is zero or the very first
/// observation exceeded.
pub proof fn lemma_escape_time_is_zero(flags: Seq<bool>, cap: nat)
    ensures
        escape_time(flags, cap) == 0 <==> cap == 0 || exceeds_at(flags, 0),
{
    lemma_escape_time_is_first(flags, cap);
    if cap == 0 || exceeds_at(flags, 0) {
        lemma_escape_time_unique(flags, cap, 0);
    }
}

/// The observations `flags` settle the escape time under `cap`: they reach
/// up to the cap or up to an observation that exceeded.
pub open spec fn is_settled(flags: Seq<bool>, cap: nat) -> bool {
    cap <= flags.len() || escape_time(flags, cap) < flags.len()
}

/// Once observations settle the escape time, further observations of the
/// same orbit have no say in it.
pub proof fn lemma_settled_escape_time_stays(flags: Seq<bool>, more: Seq<bool>, cap: nat)
    requires
        flags.is_prefix_of(more),
        is_settled(flags, cap),
    ensures
        escape_time(more, cap) == escape_time(flags, cap),
{
    lemma_escape_time_is_first(flags, cap);
    let t = escape_time(flags, cap);
    assert forall|i: int| 0 <= i < t implies !exceeds_at(more, i) by {
        assert(!exceeds_at(flags, i));
    }
    lemma_escape_time_unique(more, cap, t);
}

/// What a finished probe reports is the escape time of every orbit that its
/// observations are the beginning of.
pub proof fn lemma_outcome_is_orbit_escape_time(probe: EscapeProbe, orbit: Seq<bool>)
    requires
        probe.wf(),
        !probe.pending(),
        probe.observations().is_prefix_of(orbit),
    ensures
        is_settled(probe.observations(), probe.cap()),
        escape_time(probe.observations(), probe.cap()) == escape_time(orbit, probe.cap()),
{
    let seen = probe.observations();
    if probe.escaped {
        assert(exceeds_at(seen, probe.quiet as int));
    }
    assert forall|i: int| 0 <= i < probe.quiet implies !exceeds_at(seen, i) by {}
    lemma_escape_time_unique(seen, probe.cap(), probe.quiet as nat);
    lemma_settled_escape_time_stays(seen, orbit, probe.cap());
}

/// Two finished probes of one orbit, the second under a cap at least as high:
/// the second reports no less than the first, and the same where the first saw
/// the orbit escape.
pub proof fn lemma_higher_cap_reveals_more(low: EscapeProbe, high: EscapeProbe, orbit: Seq<bool>)
    requires
        low.wf(),
        high.wf(),
        !low.pending(),
        !high.pending(),
        low.observations().is_prefix_of(orbit),
        high.observations().is_prefix_of(orbit),
        low.cap() <= high.cap(),
    ensures
        escape_time(low.observations(), low.cap()) <= escape_time(
            high.observations(),
            high.cap(),
        ),
        escape_time(low.observations(), low.cap()) < low.cap() ==> escape_time(
            high.observations(),
            high.cap(),
        ) == escape_time(low.observations(), low.cap()),
{
    lemma_outcome_is_orbit_escape_time(low, orbit);
    lemma_outcome_is_orbit_escape_time(high, orbit);
    lemma_escape_time_monotone(orbit, low.cap(), high.cap());
    if escape_time(orbit, low.cap()) < low.cap() {
        lemma_escaped_orbit_ignores_cap(orbit, low.cap(), high.cap());
    }
}

/// A probe of one orbit: it is told, observation by observation, whether the
/// orbit was found beyond the escape radius, and says when to stop and with
/// which escape time.
pub struct EscapeProbe {
    cap: usize,
    quiet: usize,
    escaped: bool,
    seen: Ghost<Seq<bool>>,
}

impl EscapeProbe {
    /// The cap that the probe was made with.
    pub closed spec fn cap(&self) -> nat {
        self.cap as nat
    }

    /// The observations that the probe has taken so far, in order.
    pub closed spec fn observations(&self) -> Seq<bool> {
        self.seen@
    }

    /// The probe's invariant: it never takes more observations than the cap
    /// allows, and none after one that exceeded.
    pub closed spec fn wf(&self) -> bool {
        &&& self.quiet <= self.cap
        &&& self.escaped ==> self.quiet < self.cap
        &&& self.seen@.len() == self.quiet + if self.escaped { 1int } else { 0int }
        &&& forall|i: int| 0 <= i < self.quiet ==> !self.seen@[i]
        &&& self.escaped ==> self.seen@[self.quiet as int]
    }

    /// Whether the probe still waits for an observation: the cap is not used
    /// up and no observation has exceeded.
    pub open spec fn pending(&self) -> bool {
        &&& self.observations().len() < self.cap()
        &&& forall|i: int| !exceeds_at(self.observations(), i)
    }

    /// A probe that has seen nothing yet.
    pub fn new(cap: usize) -> (probe: Self)
        ensures
            probe.wf(),
            probe.cap() == cap,
            probe.observations() == Seq::<bool>::empty(),
    {
        EscapeProbe { cap, quiet: 0, escaped: false, seen: Ghost(Seq::empty()) }
    }

    /// Whether the probe has taken no observation yet.
    pub fn is_fresh(&self) -> (fresh: bool)
        requires
            self.wf(),
        ensures
            fresh == (self.observations().len() == 0),
    {
        self.quiet == 0 && !self.escaped
    }

    /// Whether another observation is wanted.
    pub fn is_pending(&self) -> (waiting: bool)
        requires
            self.wf(),
        ensures
            waiting == self.pending(),
    {
        proof {
            if self.escaped {
                assert(exceeds_at(self.observations(), self.quiet as int));
            }
        }
        !self.escaped && self.quiet < self.cap
    }

    /// Takes the next observation. A probe that waits for none ignores it.
    pub fn observe(&mut self, exceeds: bool)
        requires
            old(self).wf(),
        ensures
            final(self).wf(),
            final(self).cap() == old(self).cap(),
            final(self).observations() == if old(self).pending() {
                old(self).observations().push(exceeds)
            } else {
                old(self).observations()
            },
    {
        if self.is_pending() {
            proof {
                if self.escaped {
                    assert(exceeds_at(self.observations(), self.quiet as int));
                }
            }
            if exceeds {
                self.escaped = true;
            } else {
                self.quiet = self.quiet + 1;
            }
            proof {
                self.seen@ = self.seen@.push(exceeds);
            }
        }
    }

    /// The escape time, once the probe waits for no further observation.
    pub fn outcome(&self) -> (count: Option<usize>)
        requires
            self.wf(),
        ensures
            self.pending() ==> count is None,
            !self.pending() ==> (count matches Some(t) && t == escape_time(
                self.observations(),
                self.cap(),
            ) && t <= self.cap()),
            !self.pending() ==> is_settled(self.observations(), self.cap()),
    {
        if self.is_pending() {
            None
        } else {
            proof {
                if self.escaped {
                    assert(exceeds_at(self.observations(), self.quiet as int));
                }
                assert forall|i: int| 0 <= i < self.quiet implies !exceeds_at(
                    self.observations(),
                    i,
                ) by {}
                lemma_escape_time_unique(self.observations(), self.cap(), self.quiet as nat);
            }
            Some(self.quiet)
        }
    }
}

} // verus!
