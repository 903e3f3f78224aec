use quota_ledger::drift::OverageRecord;
use quota_ledger::ledger::{EntryRef, Ledger, ScopeKind};
use quota_ledger::sync::{SyncOutcome, SyncStatus, UsageReading};

fn reading(entry: EntryRef, usage: Option<i64>) -> UsageReading {
    UsageReading { entry, usage }
}

#[test]
fn oracle_value_overwrites_cached_usage_and_shows_overage() {
    let mut l = Ledger::new();
    let q = l.create(ScopeKind::Group, Some(1), None, 5).unwrap();
    let target = EntryRef::Quota(q.id);
    l.sync_entry(reading(target, Some(3)), 0, 60);
    assert_eq!(l.get(q.id).unwrap().tally.consumed, 3);
    assert_eq!(l.list_over(), vec![]);
    let out = l.sync_entry(reading(target, Some(7)), 0, 60);
    assert_eq!(out.status, SyncStatus::CorrectedOver);
    assert_eq!(l.get(q.id).unwrap().tally.consumed, 7);
    assert_eq!(
        l.list_over(),
        vec![OverageRecord { entry: target, limit: 5, consumed: 7, overage: 2 }]
    );
}

#[test]
fn usage_equal_to_limit_is_not_over() {
    let mut l = Ledger::new();
    let q = l.create(ScopeKind::Global, None, None, 5).unwrap();
    let b = l.create_budget(9, 3).unwrap();
    l.sync_entry(reading(EntryRef::Quota(q.id), Some(5)), 0, 60);
    l.sync_entry(reading(EntryRef::Budget(b.id), Some(4)), 0, 60);
    assert_eq!(
        l.list_over(),
        vec![OverageRecord { entry: EntryRef::Budget(b.id), limit: 3, consumed: 4, overage: 1 }]
    );
}

#[test]
fn unavailable_or_negative_reading_leaves_entry_unchanged() {
    let mut l = Ledger::new();
    let q = l.create(ScopeKind::Global, None, None, 5).unwrap();
    let target = EntryRef::Quota(q.id);
    let out = l.sync_entry(reading(target, None), 0, 60);
    assert_eq!(out, SyncOutcome { entry: target, status: SyncStatus::Skipped, discarded: 0 });
    let out = l.sync_entry(reading(target, Some(-1)), 0, 60);
    assert_eq!(out.status, SyncStatus::Skipped);
    assert_eq!(l.get(q.id).unwrap(), q);
}

#[test]
fn missing_entry_is_reported() {
    let mut l = Ledger::new();
    let out = l.sync_entry(reading(EntryRef::Budget(4), Some(1)), 0, 60);
    assert_eq!(out.status, SyncStatus::Missing);
}

#[test]
fn stale_reservations_are_discarded_young_ones_kept() {
    let mut l = Ledger::new();
    let q = l.create(ScopeKind::Global, None, None, 10).unwrap();
    let target = EntryRef::Quota(q.id);
    l.reserve(target, 3, 100).unwrap();
    let out = l.sync_entry(reading(target, Some(0)), 150, 60);
    assert_eq!(out, SyncOutcome { entry: target, status: SyncStatus::InSync, discarded: 0 });
    assert_eq!(l.get(q.id).unwrap().tally.outstanding, 3);
    let out = l.sync_entry(reading(target, Some(2)), 161, 60);
    assert_eq!(out, SyncOutcome { entry: target, status: SyncStatus::Corrected, discarded: 3 });
    let t = l.get(q.id).unwrap().tally;
    assert_eq!(t.outstanding, 0);
    assert_eq!(t.consumed, 2);
}

#[test]
fn a_cycle_isolates_failures() {
    let mut l = Ledger::new();
    let a = l.create(ScopeKind::Global, None, None, 10).unwrap();
    let b = l.create(ScopeKind::Group, Some(2), None, 10).unwrap();
    let targets = l.sync_targets();
    assert_eq!(targets, vec![EntryRef::Quota(a.id), EntryRef::Quota(b.id)]);
    let readings = vec![reading(targets[0], None), reading(targets[1], Some(4))];
    let report = l.sync(&readings, 0, 60);
    assert_eq!(report.len(), 2);
    assert_eq!(report[0].status, SyncStatus::Skipped);
    assert_eq!(report[1].status, SyncStatus::Corrected);
    assert_eq!(l.get(a.id).unwrap(), a);
    assert_eq!(l.get(b.id).unwrap().tally.consumed, 4);
}
