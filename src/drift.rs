//! The drift detector: the entries whose confirmed usage exceeds their limit.
//! It only observes; nothing is clamped or corrected here.
use vstd::prelude::*;

use crate::ledger::{BudgetEntry, EntryRef, Ledger, LedgerModel, QuotaEntry};

verus! {

/// An entry in the "over" state.
#[derive(Clone, Copy, Debug, PartialEq, Eq, Structural)]
pub struct OverageRecord {
    pub entry: EntryRef,
    pub limit: i64,
    pub consumed: i64,
    /// `consumed - limit`, always positive.
    pub overage: i64,
}

/// The overage record of a quota entry, if its usage exceeds its limit.
pub open spec fn quota_overage(e: QuotaEntry) -> Option<OverageRecord> {
    if e.tally.is_over() {
        Some(
            OverageRecord {
                entry: EntryRef::Quota(e.id),
                limit: e.tally.limit,
                consumed: e.tally.consumed,
                overage: (e.tally.consumed - e.tally.limit) as i64,
            },
        )
    } else {
        None
    }
}

/// The overage record of a budget entry, if its usage exceeds its limit.
pub open spec fn budget_overage(e: BudgetEntry) -> Option<OverageRecord> {
    if e.tally.is_over() {
        Some(
            OverageRecord {
                entry: EntryRef::Budget(e.id),
                limit: e.tally.limit,
                consumed: e.tally.consumed,
                overage: (e.tally.consumed - e.tally.limit) as i64,
            },
        )
    } else {
        None
    }
}

/// The overage records of a sequence of quota entries, in order.
pub open spec fn quota_overs(s: Seq<QuotaEntry>) -> Seq<OverageRecord> {
    s.filter_map(|e: QuotaEntry| quota_overage(e))
}

/// The overage records of a sequence of budget entries, in order.
pub open spec fn budget_overs(s: Seq<BudgetEntry>) -> Seq<OverageRecord> {
    s.filter_map(|e: BudgetEntry| budget_overage(e))
}

/// Every entry of the ledger that is over its limit: quota entries first,
/// then budget entries, each in ledger order.
pub open spec fn over_records(m: LedgerModel) -> Seq<OverageRecord> {
    quota_overs(m.quotas) + budget_overs(m.budgets)
}

/// An over-limit quota entry appears among the overage records.
pub proof fn lemma_quota_overs_contain(s: Seq<QuotaEntry>, k: int)
    requires
        0 <= k < s.len(),
        quota_overage(s[k]) is Some,
    ensures
        quota_overs(s).contains(quota_overage(s[k])->0),
    decreases s.len(),
{
    let r = quota_overage(s[k])->0;
    if k == s.len() - 1 {
        assert(quota_overs(s) == quota_overs(s.drop_last()) + seq![r]);
        assert(quota_overs(s)[quota_overs(s).len() - 1] == r);
    } else {
        lemma_quota_overs_contain(s.drop_last(), k);
        let w = choose|w: int| 0 <= w < quota_overs(s.drop_last()).len() && quota_overs(s.drop_last())[w] == r;
        assert(quota_overs(s)[w] == r);
    }
}

/// An over-limit budget entry appears among the overage records.
pub proof fn lemma_budget_overs_contain(s: Seq<BudgetEntry>, k: int)
    requires
        0 <= k < s.len(),
        budget_overage(s[k]) is Some,
    ensures
        budget_overs(s).contains(budget_overage(s[k])->0),
    decreases s.len(),
{
    let r = budget_overage(s[k])->0;
    if k == s.len() - 1 {
        assert(budget_overs(s) == budget_overs(s.drop_last()) + seq![r]);
        assert(budget_overs(s)[budget_overs(s).len() - 1] == r);
    } else {
        lemma_budget_overs_contain(s.drop_last(), k);
        let w = choose|w: int| 0 <= w < budget_overs(s.drop_last()).len() && budget_overs(s.drop_last())[w] == r;
        assert(budget_overs(s)[w] == r);
    }
}

impl Ledger {
    /// Every entry whose confirmed usage is strictly greater than its limit,
    /// with the overage; entries at exactly their limit are not listed.
    pub fn list_over(&self) -> (r: Vec<OverageRecord>)
        requires
            self@.wf(),
        ensures
            r@ == over_records(self@),
    {
        let mut out: Vec<OverageRecord> = Vec::new();
        let n = self.quota_count();
        let mut i: usize = 0;
        while i < n
            invariant
                self@.wf(),
                n == self@.quotas.len(),
                i <= n,
                out@ == quota_overs(self@.quotas.subrange(0, i as int)),
            decreases n - i,
        {
            let e = self.quota_at(i);
            proof {
                let next = self@.quotas.subrange(0, i + 1);
                assert(next.drop_last() == self@.quotas.subrange(0, i as int));
                assert(next.last() == e);
                assert(e.tally.wf());
            }
            if e.tally.consumed > e.tally.limit {
                out.push(OverageRecord {
                    entry: EntryRef::Quota(e.id),
                    limit: e.tally.limit,
                    consumed: e.tally.consumed,
                    overage: e.tally.consumed - e.tally.limit,
                });
            }
            i += 1;
        }
        proof {
            assert(self@.quotas.subrange(0, n as int) == self@.quotas);
        }
        let ghost head = out@;
        let nb = self.budget_count();
        let mut j: usize = 0;
        while j < nb
            invariant
                self@.wf(),
                nb == self@.budgets.len(),
                j <= nb,
                head == quota_overs(self@.quotas),
                out@ == head + budget_overs(self@.budgets.subrange(0, j as int)),
            decreases nb - j,
        {
            let e = self.budget_at(j);
            proof {
                let next = self@.budgets.subrange(0, j + 1);
                assert(next.drop_last() == self@.budgets.subrange(0, j as int));
                assert(next.last() == e);
                assert(e.tally.wf());
            }
            if e.tally.consumed > e.tally.limit {
                let rec = OverageRecord {
                    entry: EntryRef::Budget(e.id),
                    limit: e.tally.limit,
                    consumed: e.tally.consumed,
                    overage: e.tally.consumed - e.tally.limit,
                };
                out.push(rec);
                proof {
                    assert(out@ == head + budget_overs(self@.budgets.subrange(0, j + 1)));
                }
            }
            j += 1;
        }
        proof {
            assert(self@.budgets.subrange(0, nb as int) == self@.budgets);
        }
        out
    }
}

} // verus!
