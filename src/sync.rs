//! Reconciliation: merging the usage oracle's readings into the ledger. The
//! oracle is authoritative, so a reading overwrites the cached usage; a
//! reservation older than the grace window is discarded as never
//! materialised, a younger one is kept. A missing or unusable reading leaves
//! its entry unchanged, and one failure never stops the others.
use vstd::prelude::*;

use crate::drift::{
    budget_overage, budget_overs, lemma_budget_overs_contain, lemma_quota_overs_contain,
    over_records, quota_overage, quota_overs, OverageRecord,
};
use crate::ledger::{lemma_with_tally, BudgetEntry, EntryRef, Ledger, LedgerModel, QuotaEntry};
use crate::tally::Tally;

verus! {

/// What the oracle reported for one entry: `None` when it could not be reached.
#[derive(Clone, Copy, Debug, PartialEq, Eq, Structural)]
pub struct UsageReading {
    pub entry: EntryRef,
    pub usage: Option<i64>,
}

/// The state an entry ended in after one reading.
#[derive(Clone, Copy, Debug, PartialEq, Eq, Structural)]
pub enum SyncStatus {
    /// No entry has that identifier.
    Missing,
    /// No usable reading (oracle unreachable, or a negative usage); the entry
    /// was left unchanged, to be retried on the next tick.
    Skipped,
    /// The reading matched the cached usage.
    InSync,
    /// The cached usage was overwritten.
    Corrected,
    /// The cached usage was overwritten and now exceeds the limit.
    CorrectedOver,
}

/// The report for one reading.
#[derive(Clone, Copy, Debug, PartialEq, Eq, Structural)]
pub struct SyncOutcome {
    pub entry: EntryRef,
    pub status: SyncStatus,
    /// The stale reservations that were discarded.
    pub discarded: i64,
}

/// The outstanding reservations of `t` are older than the grace window.
pub open spec fn is_stale(t: Tally, now: u64, grace: u64) -> bool {
    t.outstanding > 0 && now >= t.last_reserved_at && now - t.last_reserved_at > grace
}

/// The tally after the oracle reported `usage`.
pub open spec fn synced_tally(t: Tally, usage: i64, now: u64, grace: u64) -> Tally {
    Tally {
        limit: t.limit,
        consumed: usage,
        outstanding: if is_stale(t, now, grace) { 0 } else { t.outstanding },
        last_reserved_at: t.last_reserved_at,
    }
}

/// The outcome of one reading: the ledger afterwards and the report.
pub open spec fn apply_reading(m: LedgerModel, r: UsageReading, now: u64, grace: u64) -> (
    LedgerModel,
    SyncOutcome,
) {
    if !m.has_entry(r.entry) {
        (m, SyncOutcome { entry: r.entry, status: SyncStatus::Missing, discarded: 0 })
    } else if r.usage is None || r.usage->0 < 0 {
        (m, SyncOutcome { entry: r.entry, status: SyncStatus::Skipped, discarded: 0 })
    } else {
        let v = r.usage->0;
        let t = m.tally_of(r.entry);
        let status = if v == t.consumed {
            SyncStatus::InSync
        } else if v > t.limit {
            SyncStatus::CorrectedOver
        } else {
            SyncStatus::Corrected
        };
        (
            m.with_tally(r.entry, synced_tally(t, v, now, grace)),
            SyncOutcome {
                entry: r.entry,
                status,
                discarded: if is_stale(t, now, grace) { t.outstanding } else { 0 },
            },
        )
    }
}

/// The outcome of a whole cycle of readings, applied in order.
pub open spec fn sync_cycle(m: LedgerModel, rs: Seq<UsageReading>, now: u64, grace: u64) -> (
    LedgerModel,
    Seq<SyncOutcome>,
)
    decreases rs.len(),
{
    if rs.len() == 0 {
        (m, Seq::empty())
    } else {
        let (m1, reports) = sync_cycle(m, rs.drop_last(), now, grace);
        let (m2, report) = apply_reading(m1, rs.last(), now, grace);
        (m2, reports.push(report))
    }
}

/// The oracle wins: after a usable reading of `v` for an entry, its cached
/// usage is `v`, its limit is unchanged, and when `v` exceeds the limit the
/// drift detector reports the entry with an overage of `v - limit`.
pub proof fn lemma_oracle_wins(m: LedgerModel, target: EntryRef, v: i64, now: u64, grace: u64)
    requires
        m.wf(),
        m.has_entry(target),
        v >= 0,
    ensures
        ({
            let post = apply_reading(m, UsageReading { entry: target, usage: Some(v) }, now, grace).0;
            let limit = m.tally_of(target).limit;
            &&& post.wf()
            &&& post.tally_of(target).consumed == v
            &&& post.tally_of(target).limit == limit
            &&& v > limit ==> over_records(post).contains(
                OverageRecord {
                    entry: target,
                    limit,
                    consumed: v,
                    overage: (v - limit) as i64,
                },
            )
        }),
{
    let t = m.tally_of(target);
    let post = apply_reading(m, UsageReading { entry: target, usage: Some(v) }, now, grace).0;
    match target {
        EntryRef::Quota(id) => {
            assert(m.quotas[m.quota_pos(id)].tally.wf());
        },
        EntryRef::Budget(id) => {
            assert(m.budgets[m.budget_pos(id)].tally.wf());
        },
    }
    lemma_with_tally(m, target, synced_tally(t, v, now, grace));
    if v > t.limit {
        match target {
            EntryRef::Quota(id) => {
                let i = post.quota_pos(id);
                lemma_quota_overs_contain(post.quotas, i);
                let rec = quota_overage(post.quotas[i])->0;
                let w = choose|w: int|
                    0 <= w < quota_overs(post.quotas).len() && quota_overs(post.quotas)[w] == rec;
                assert(over_records(post)[w] == rec);
            },
            EntryRef::Budget(id) => {
                let j = post.budget_pos(id);
                lemma_budget_overs_contain(post.budgets, j);
                let rec = budget_overage(post.budgets[j])->0;
                let q = quota_overs(post.quotas).len();
                let w = choose|w: int|
                    0 <= w < budget_overs(post.budgets).len() && budget_overs(post.budgets)[w] == rec;
                assert(over_records(post)[q + w] == rec);
            },
        }
    }
}

impl Ledger {
    /// Merges one oracle reading into the ledger.
    pub fn sync_entry(&mut self, reading: UsageReading, now: u64, grace: u64) -> (r: SyncOutcome)
        requires
            old(self)@.wf(),
        ensures
            (final(self)@, r) == apply_reading(old(self)@, reading, now, grace),
            final(self)@.wf(),
    {
        let missing = SyncOutcome { entry: reading.entry, status: SyncStatus::Missing, discarded: 0 };
        let skipped = SyncOutcome { entry: reading.entry, status: SyncStatus::Skipped, discarded: 0 };
        let (quota_pos, budget_pos) = match reading.entry {
            EntryRef::Quota(id) => match self.find_quota(id) {
                Some(i) => (Some(i), None),
                None => {
                    return missing;
                },
            },
            EntryRef::Budget(id) => match self.find_budget(id) {
                Some(j) => (None, Some(j)),
                None => {
                    return missing;
                },
            },
        };
        let v = match reading.usage {
            Some(v) => v,
            None => {
                return skipped;
            },
        };
        if v < 0 {
            return skipped;
        }
        let t = match quota_pos {
            Some(i) => self.quota_at(i).tally,
            None => self.budget_at(budget_pos.unwrap()).tally,
        };
        let stale = t.outstanding > 0 && now >= t.last_reserved_at && now - t.last_reserved_at > grace;
        let n = Tally {
            limit: t.limit,
            consumed: v,
            outstanding: if stale { 0 } else { t.outstanding },
            last_reserved_at: t.last_reserved_at,
        };
        let status = if v == t.consumed {
            SyncStatus::InSync
        } else if v > t.limit {
            SyncStatus::CorrectedOver
        } else {
            SyncStatus::Corrected
        };
        match quota_pos {
            Some(i) => self.set_quota_tally(i, n),
            None => self.set_budget_tally(budget_pos.unwrap(), n),
        }
        SyncOutcome { entry: reading.entry, status, discarded: if stale { t.outstanding } else { 0 } }
    }

    /// Merges a cycle of oracle readings, in order, and reports on each.
    pub fn sync(&mut self, readings: &Vec<UsageReading>, now: u64, grace: u64) -> (r: Vec<SyncOutcome>)
        requires
            old(self)@.wf(),
        ensures
            (final(self)@, r@) == sync_cycle(old(self)@, readings@, now, grace),
            final(self)@.wf(),
    {
        let mut reports: Vec<SyncOutcome> = Vec::new();
        let mut k: usize = 0;
        while k < readings.len()
            invariant
                k <= readings@.len(),
                self@.wf(),
                (self@, reports@) == sync_cycle(old(self)@, readings@.subrange(0, k as int), now, grace),
            decreases readings@.len() - k,
        {
            proof {
                let next = readings@.subrange(0, k + 1);
                assert(next.drop_last() == readings@.subrange(0, k as int));
                assert(next.last() == readings@[k as int]);
            }
            let report = self.sync_entry(readings[k], now, grace);
            reports.push(report);
            k += 1;
        }
        proof {
            assert(readings@.subrange(0, readings@.len() as int) == readings@);
        }
        reports
    }

    /// Every entry of the ledger, quota entries first: the targets of a
    /// reconciliation cycle.
    pub fn sync_targets(&self) -> (r: Vec<EntryRef>)
        requires
            self@.wf(),
        ensures
            r@ == self@.quotas.map_values(|e: QuotaEntry| EntryRef::Quota(e.id))
                + self@.budgets.map_values(|e: BudgetEntry| EntryRef::Budget(e.id)),
    {
        let mut out: Vec<EntryRef> = Vec::new();
        let n = self.quota_count();
        let mut i: usize = 0;
        while i < n
            invariant
                n == self@.quotas.len(),
                i <= n,
                out@ =~= self@.quotas.subrange(0, i as int).map_values(
                    |e: QuotaEntry| EntryRef::Quota(e.id),
                ),
            decreases n - i,
        {
            out.push(EntryRef::Quota(self.quota_at(i).id));
            i += 1;
        }
        let ghost head = out@;
        let nb = self.budget_count();
        let mut j: usize = 0;
        while j < nb
            invariant
                n == self@.quotas.len(),
                nb == self@.budgets.len(),
                j <= nb,
                head =~= self@.quotas.subrange(0, n as int).map_values(
                    |e: QuotaEntry| EntryRef::Quota(e.id),
                ),
                out@ =~= head + self@.budgets.subrange(0, j as int).map_values(
                    |e: BudgetEntry| EntryRef::Budget(e.id),
                ),
            decreases nb - j,
        {
            out.push(EntryRef::Budget(self.budget_at(j).id));
            j += 1;
        }
        proof {
            assert(self@.quotas.subrange(0, n as int) == self@.quotas);
            assert(self@.budgets.subrange(0, nb as int) == self@.budgets);
        }
        out
    }
}

} // verus!
