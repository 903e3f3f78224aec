//! The counter behind every quota and budget entry: a limit, the usage last
//! confirmed by the usage oracle, and the amount reserved since then.
use vstd::prelude::*;

verus! {

/// Limit, confirmed usage and provisional reservations of one entry.
#[derive(Clone, Copy, Debug, PartialEq, Eq, Structural)]
pub struct Tally {
    /// Capacity of the entry; never negative.
    pub limit: i64,
    /// Usage as last reported by the oracle (or zero for a fresh entry).
    pub consumed: i64,
    /// Sum of the reservations not yet reflected by the oracle.
    pub outstanding: i64,
    /// Time of the most recent successful reservation.
    pub last_reserved_at: u64,
}

impl Tally {
    /// Every counter is non-negative.
    pub open spec fn wf(self) -> bool {
        &&& self.limit >= 0
        &&& self.consumed >= 0
        &&& self.outstanding >= 0
    }

    /// Confirmed usage plus outstanding reservations.
    pub open spec fn load(self) -> int {
        self.consumed + self.outstanding
    }

    /// The sum invariant: the load does not exceed the limit.
    pub open spec fn within_limit(self) -> bool {
        self.load() <= self.limit
    }

    /// The entry is in the "over" state: confirmed usage alone exceeds the limit.
    pub open spec fn is_over(self) -> bool {
        self.consumed > self.limit
    }

    /// Capacity left before the limit is reached, clamped at zero.
    pub open spec fn remaining(self) -> int {
        if self.load() < self.limit {
            self.limit - self.load()
        } else {
            0
        }
    }

    /// A reservation of `delta` units is accepted.
    pub open spec fn admits(self, delta: int) -> bool {
        0 <= delta && self.load() + delta <= self.limit
    }

    /// The tally after a reservation of `delta` units made at time `now`.
    pub open spec fn reserved(self, delta: int, now: u64) -> Tally {
        Tally {
            limit: self.limit,
            consumed: self.consumed,
            outstanding: (self.outstanding + delta) as i64,
            last_reserved_at: now,
        }
    }

    /// The outcome of `reserve`: the new tally and whether it was accepted.
    pub open spec fn reserve_step(self, delta: int, now: u64) -> (Tally, bool) {
        if self.admits(delta) {
            (self.reserved(delta, now), true)
        } else {
            (self, false)
        }
    }

    /// A fresh tally with nothing used or reserved.
    pub fn new(limit: i64) -> (r: Tally)
        requires
            limit >= 0,
        ensures
            r == (Tally { limit, consumed: 0, outstanding: 0, last_reserved_at: 0 }),
            r.wf(),
    {
        Tally { limit, consumed: 0, outstanding: 0, last_reserved_at: 0 }
    }

    /// Reserves `delta` units if the load stays within the limit; otherwise
    /// leaves the tally untouched and returns `false`.
    pub fn reserve(&mut self, delta: i64, now: u64) -> (ok: bool)
        requires
            old(self).wf(),
        ensures
            (*final(self), ok) == old(self).reserve_step(delta as int, now),
            final(self).wf(),
    {
        if delta < 0 {
            return false;
        }
        let load: i128 = self.consumed as i128 + self.outstanding as i128 + delta as i128;
        if load > self.limit as i128 {
            return false;
        }
        self.outstanding = self.outstanding + delta;
        self.last_reserved_at = now;
        true
    }

    /// Capacity left before the limit is reached, clamped at zero.
    pub fn remaining_capacity(&self) -> (r: i64)
        requires
            self.wf(),
        ensures
            r as int == self.remaining(),
            0 <= r <= self.limit,
    {
        let load: i128 = self.consumed as i128 + self.outstanding as i128;
        if load < self.limit as i128 {
            (self.limit as i128 - load) as i64
        } else {
            0
        }
    }
}

/// The outcome of `n` reservations of one unit each, made in turn against `t`:
/// the final tally and the number that were accepted.
pub open spec fn reserve_units(t: Tally, n: nat, now: u64) -> (Tally, nat)
    decreases n,
{
    if n == 0 {
        (t, 0)
    } else {
        let (prev, accepted) = reserve_units(t, (n - 1) as nat, now);
        let (next, ok) = prev.reserve_step(1, now);
        (next, if ok { accepted + 1 } else { accepted })
    }
}

/// A reservation never carries an entry past its limit: an accepted one
/// leaves the load within the limit, a rejected one changes nothing.
pub proof fn lemma_reserve_respects_limit(t: Tally, delta: int, now: u64)
    requires
        t.wf(),
    ensures
        t.reserve_step(delta, now).1 ==> t.reserve_step(delta, now).0.within_limit(),
        t.reserve_step(delta, now).1 ==> t.reserve_step(delta, now).0.load() == t.load() + delta,
        !t.reserve_step(delta, now).1 ==> t.reserve_step(delta, now).0 == t,
        t.reserve_step(delta, now).0.wf(),
{
}

/// Of `n` one-unit reservations made in turn against an entry with `k` units
/// of headroom, exactly `min(n, k)` are accepted, and no intermediate state
/// exceeds the limit.
pub proof fn lemma_reserve_units_accepts_min(t: Tally, n: nat, now: u64)
    requires
        t.wf(),
        t.within_limit(),
    ensures
        ({
            let k = t.limit - t.load();
            let (last, accepted) = reserve_units(t, n, now);
            &&& accepted == (if n <= k { n as int } else { k })
            &&& last.load() == t.load() + accepted
            &&& last.limit == t.limit
            &&& last.consumed == t.consumed
            &&& last.wf()
        }),
        forall|m: nat| m <= n ==> (#[trigger] reserve_units(t, m, now)).0.within_limit(),
    decreases n,
{
    if n > 0 {
        lemma_reserve_units_accepts_min(t, (n - 1) as nat, now);
    }
    assert forall|m: nat| m <= n implies (#[trigger] reserve_units(t, m, now)).0.within_limit() by {
        if m < n {
            lemma_reserve_units_accepts_min(t, (n - 1) as nat, now);
        }
    }
}

} // verus!
