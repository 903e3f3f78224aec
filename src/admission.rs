//! The admission controller: may a user start `count` more instances of a
//! flavor? The applicable quota entry is resolved by specificity (user, then
//! group, then global) and the user's budget is consulted as a second axis;
//! both must accept, and a reservation on one axis is rolled back when the
//! other rejects.
use vstd::prelude::*;

use crate::ledger::{Ledger, LedgerError, LedgerModel};
use crate::tally::Tally;

verus! {

/// The two independent axes of an admission decision.
#[derive(Clone, Copy, Debug, PartialEq, Eq, Structural)]
pub enum Axis {
    Quota,
    Budget,
}

/// The answer to an admission check.
#[derive(Clone, Copy, Debug, PartialEq, Eq, Structural)]
pub struct Decision {
    pub allowed: bool,
    /// Capacity left on the limiting axis (`i64::MAX` when nothing limits).
    pub remaining: i64,
    /// The axis that rejected the request, or the tightest axis when it was
    /// allowed; `None` when neither axis is constrained.
    pub limiting_factor: Option<Axis>,
}

impl Decision {
    /// The error that a denial stands for: `QuotaExceeded` or
    /// `BudgetExceeded` after the rejecting axis; `None` when allowed.
    pub fn rejection(&self) -> (r: Option<LedgerError>)
        ensures
            r == (if self.allowed {
                None
            } else {
                match self.limiting_factor {
                    Some(Axis::Quota) => Some(LedgerError::QuotaExceeded),
                    Some(Axis::Budget) => Some(LedgerError::BudgetExceeded),
                    None => None,
                }
            }),
    {
        if self.allowed {
            None
        } else {
            match self.limiting_factor {
                Some(Axis::Quota) => Some(LedgerError::QuotaExceeded),
                Some(Axis::Budget) => Some(LedgerError::BudgetExceeded),
                None => None,
            }
        }
    }
}

/// The position of the quota entry that governs `user` on `group`: the
/// user-scoped entry, else the group-scoped one, else the global one.
pub open spec fn applicable_quota(m: LedgerModel, user: u64, group: u64) -> Option<int> {
    if m.has_key(Some(group), Some(user)) {
        Some(m.key_pos(Some(group), Some(user)))
    } else if m.has_key(Some(group), None) {
        Some(m.key_pos(Some(group), None))
    } else if m.has_key(None, None) {
        Some(m.key_pos(None, None))
    } else {
        None
    }
}

/// The position of the budget entry of `user`, if any.
pub open spec fn applicable_budget(m: LedgerModel, user: u64) -> Option<int> {
    if m.has_budget_for(user) {
        Some(m.budget_owner_pos(user))
    } else {
        None
    }
}

pub open spec fn quota_tally_at(m: LedgerModel, q: Option<int>) -> Option<Tally> {
    match q {
        Some(i) => Some(m.quotas[i].tally),
        None => None,
    }
}

pub open spec fn budget_tally_at(m: LedgerModel, b: Option<int>) -> Option<Tally> {
    match b {
        Some(j) => Some(m.budgets[j].tally),
        None => None,
    }
}

/// An allowing decision that reports the tighter of the constrained axes
/// (the quota axis on a tie).
pub open spec fn tightest(q: Option<Tally>, b: Option<Tally>) -> Decision {
    match (q, b) {
        (None, None) => Decision { allowed: true, remaining: i64::MAX, limiting_factor: None },
        (Some(qt), None) => Decision {
            allowed: true,
            remaining: qt.remaining() as i64,
            limiting_factor: Some(Axis::Quota),
        },
        (None, Some(bt)) => Decision {
            allowed: true,
            remaining: bt.remaining() as i64,
            limiting_factor: Some(Axis::Budget),
        },
        (Some(qt), Some(bt)) => if qt.remaining() <= bt.remaining() {
            Decision {
                allowed: true,
                remaining: qt.remaining() as i64,
                limiting_factor: Some(Axis::Quota),
            }
        } else {
            Decision {
                allowed: true,
                remaining: bt.remaining() as i64,
                limiting_factor: Some(Axis::Budget),
            }
        },
    }
}

/// A denial by `axis`, whose tally is `t`.
pub open spec fn denial(axis: Axis, t: Tally) -> Decision {
    Decision { allowed: false, remaining: t.remaining() as i64, limiting_factor: Some(axis) }
}

/// The outcome of an admission check: the ledger afterwards and the decision.
pub open spec fn check_outcome(m: LedgerModel, user: u64, flavor: u64, count: u32, now: u64) -> (
    LedgerModel,
    Result<Decision, LedgerError>,
) {
    match m.flavor_group(flavor) {
        None => (m, Err(LedgerError::NotFound)),
        Some(group) => {
            let q = applicable_quota(m, user, group);
            let b = applicable_budget(m, user);
            let qt = quota_tally_at(m, q);
            let bt = budget_tally_at(m, b);
            if count == 0 {
                (m, Ok(tightest(qt, bt)))
            } else if qt is Some && !qt->0.admits(count as int) {
                (m, Ok(denial(Axis::Quota, qt->0)))
            } else if bt is Some && !bt->0.admits(count as int) {
                (m, Ok(denial(Axis::Budget, bt->0)))
            } else {
                let m1 = match q {
                    Some(i) => m.with_quota_tally(i, m.quotas[i].tally.reserved(count as int, now)),
                    None => m,
                };
                let m2 = match b {
                    Some(j) => m1.with_budget_tally(j, m.budgets[j].tally.reserved(count as int, now)),
                    None => m1,
                };
                (m2, Ok(tightest(quota_tally_at(m2, q), budget_tally_at(m2, b))))
            }
        },
    }
}

/// The allowing decision for the given tallies.
fn tightest_of(q: Option<Tally>, b: Option<Tally>) -> (r: Decision)
    requires
        q matches Some(t) ==> t.wf(),
        b matches Some(t) ==> t.wf(),
    ensures
        r == tightest(q, b),
{
    match (q, b) {
        (None, None) => Decision { allowed: true, remaining: i64::MAX, limiting_factor: None },
        (Some(qt), None) => Decision {
            allowed: true,
            remaining: qt.remaining_capacity(),
            limiting_factor: Some(Axis::Quota),
        },
        (None, Some(bt)) => Decision {
            allowed: true,
            remaining: bt.remaining_capacity(),
            limiting_factor: Some(Axis::Budget),
        },
        (Some(qt), Some(bt)) => {
            let qr = qt.remaining_capacity();
            let br = bt.remaining_capacity();
            if qr <= br {
                Decision { allowed: true, remaining: qr, limiting_factor: Some(Axis::Quota) }
            } else {
                Decision { allowed: true, remaining: br, limiting_factor: Some(Axis::Budget) }
            }
        },
    }
}

/// An admission check never carries an entry past its limit: every entry it
/// changes is within its limit afterwards; any other entry is left as it was.
pub proof fn lemma_check_respects_limits(m: LedgerModel, user: u64, flavor: u64, count: u32, now: u64)
    requires
        m.wf(),
    ensures
        ({
            let post = check_outcome(m, user, flavor, count, now).0;
            &&& post.quotas.len() == m.quotas.len()
            &&& post.budgets.len() == m.budgets.len()
            &&& forall|i: int|
                0 <= i < m.quotas.len() ==> #[trigger] post.quotas[i] == m.quotas[i]
                    || post.quotas[i].tally.within_limit()
            &&& forall|j: int|
                0 <= j < m.budgets.len() ==> #[trigger] post.budgets[j] == m.budgets[j]
                    || post.budgets[j].tally.within_limit()
        }),
{
}

/// A check for zero instances changes nothing, whatever the ledger holds.
pub proof fn lemma_zero_count_changes_nothing(m: LedgerModel, user: u64, flavor: u64, now: u64)
    ensures
        check_outcome(m, user, flavor, 0, now).0 == m,
        m.flavor_group(flavor) is Some ==> (check_outcome(m, user, flavor, 0, now).1 matches Ok(d)
            && d.allowed),
{
}

/// With a user-scoped entry for the flavor's group, the check consults that
/// entry alone: the quota axis is decided by it, and every other quota entry
/// (the group-scoped one included) is left as it was.
pub proof fn lemma_user_scope_overrides_group(
    m: LedgerModel,
    user: u64,
    flavor: u64,
    group: u64,
    count: u32,
    now: u64,
)
    requires
        m.wf(),
        m.flavor_group(flavor) == Some(group),
        m.has_key(Some(group), Some(user)),
    ensures
        ({
            let u = m.key_pos(Some(group), Some(user));
            let (post, r) = check_outcome(m, user, flavor, count, now);
            &&& applicable_quota(m, user, group) == Some(u)
            &&& forall|k: int|
                0 <= k < m.quotas.len() && k != u ==> #[trigger] post.quotas[k] == m.quotas[k]
            &&& count > 0 && !m.quotas[u].tally.admits(count as int) ==> r == Ok::<Decision, LedgerError>(
                denial(Axis::Quota, m.quotas[u].tally),
            )
            &&& (r matches Ok(d) && d.allowed && count > 0) ==> post.quotas[u].tally
                == m.quotas[u].tally.reserved(count as int, now)
        }),
{
}

/// A check that the quota axis would accept but the budget axis rejects is
/// denied by the budget and leaves the whole ledger, the quota entry's usage
/// and reservations included, as it was before the check.
pub proof fn lemma_budget_rejection_rolls_back(
    m: LedgerModel,
    user: u64,
    flavor: u64,
    group: u64,
    count: u32,
    now: u64,
)
    requires
        m.wf(),
        count > 0,
        m.flavor_group(flavor) == Some(group),
        applicable_quota(m, user, group) is Some,
        m.quotas[applicable_quota(m, user, group)->0].tally.admits(count as int),
        m.has_budget_for(user),
        !m.budgets[m.budget_owner_pos(user)].tally.admits(count as int),
    ensures
        ({
            let i = applicable_quota(m, user, group)->0;
            let (post, r) = check_outcome(m, user, flavor, count, now);
            &&& post == m
            &&& post.quotas[i].tally.consumed == m.quotas[i].tally.consumed
            &&& post.quotas[i].tally.outstanding == m.quotas[i].tally.outstanding
            &&& r == Ok::<Decision, LedgerError>(
                denial(Axis::Budget, m.budgets[m.budget_owner_pos(user)].tally),
            )
        }),
{
}

impl Ledger {
    /// The position of the quota entry that governs `user` on `group`.
    fn resolve_quota(&self, user: u64, group: u64) -> (r: Option<usize>)
        requires
            self@.wf(),
        ensures
            r matches Some(i) ==> i < self@.quotas.len(),
            match r {
                Some(i) => applicable_quota(self@, user, group) == Some(i as int),
                None => applicable_quota(self@, user, group) is None,
            },
    {
        match self.find_key(Some(group), Some(user)) {
            Some(i) => Some(i),
            None => match self.find_key(Some(group), None) {
                Some(i) => Some(i),
                None => self.find_key(None, None),
            },
        }
    }

    /// Decides whether `user` may start `count` more instances of `flavor`,
    /// reserving `count` units on every constrained axis when allowed. A
    /// count of zero is always allowed and changes nothing; an unknown flavor
    /// is `NotFound`; a denial leaves the ledger as it was.
    pub fn check(&mut self, user: u64, flavor: u64, count: u32, now: u64) -> (r: Result<Decision, LedgerError>)
        requires
            old(self)@.wf(),
        ensures
            (final(self)@, r) == check_outcome(old(self)@, user, flavor, count, now),
            final(self)@.wf(),
    {
        let group = match self.flavor_group_of(flavor) {
            Some(g) => g,
            None => {
                return Err(LedgerError::NotFound);
            },
        };
        let q = self.resolve_quota(user, group);
        let b = self.find_budget_for(user);
        let qt: Option<Tally> = match q {
            Some(i) => Some(self.quota_at(i).tally),
            None => None,
        };
        let bt: Option<Tally> = match b {
            Some(j) => Some(self.budget_at(j).tally),
            None => None,
        };
        if count == 0 {
            return Ok(tightest_of(qt, bt));
        }
        let delta = count as i64;
        let ghost m = self@;
        let mut quota_reserved: Option<(usize, Tally)> = None;
        if let Some(i) = q {
            let saved = self.quota_at(i).tally;
            let mut t = saved;
            if !t.reserve(delta, now) {
                return Ok(Decision {
                    allowed: false,
                    remaining: saved.remaining_capacity(),
                    limiting_factor: Some(Axis::Quota),
                });
            }
            self.set_quota_tally(i, t);
            quota_reserved = Some((i, saved));
        }
        let ghost m1 = self@;
        if let Some(j) = b {
            let saved = self.budget_at(j).tally;
            let mut t = saved;
            if !t.reserve(delta, now) {
                // compensate the reservation already made on the quota axis
                if let Some((i, before)) = quota_reserved {
                    self.set_quota_tally(i, before);
                    proof {
                        assert(self@.quotas =~= m.quotas);
                    }
                }
                return Ok(Decision {
                    allowed: false,
                    remaining: saved.remaining_capacity(),
                    limiting_factor: Some(Axis::Budget),
                });
            }
            self.set_budget_tally(j, t);
        }
        let qt2: Option<Tally> = match q {
            Some(i) => Some(self.quota_at(i).tally),
            None => None,
        };
        let bt2: Option<Tally> = match b {
            Some(j) => Some(self.budget_at(j).tally),
            None => None,
        };
        Ok(tightest_of(qt2, bt2))
    }
}

} // verus!
