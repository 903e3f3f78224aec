use quota_ledger::admission::{Axis, Decision};
use quota_ledger::ledger::{EntryRef, Ledger, LedgerError, ScopeKind};

const FLAVOR: u64 = 11;
const GROUP: u64 = 5;
const USER: u64 = 42;

fn ledger_with_flavor() -> Ledger {
    let mut l = Ledger::new();
    l.assign_flavor(FLAVOR, GROUP);
    l
}

#[test]
fn group_quota_of_two_admits_two_and_rejects_the_third() {
    let mut l = ledger_with_flavor();
    let q = l.create(ScopeKind::Group, Some(GROUP), None, 2).unwrap();
    let first = l.check(USER, FLAVOR, 1, 1).unwrap();
    assert!(first.allowed);
    assert_eq!(first.remaining, 1);
    let second = l.check(USER + 1, FLAVOR, 1, 2).unwrap();
    assert!(second.allowed);
    assert_eq!(second.remaining, 0);
    let third = l.check(USER + 2, FLAVOR, 1, 3).unwrap();
    assert_eq!(
        third,
        Decision { allowed: false, remaining: 0, limiting_factor: Some(Axis::Quota) }
    );
    assert_eq!(third.rejection(), Some(LedgerError::QuotaExceeded));
    assert_eq!(first.rejection(), None);
    assert_eq!(l.get(q.id).unwrap().tally.outstanding, 2);
}

#[test]
fn user_scoped_entry_wins_over_group_entry() {
    let mut l = ledger_with_flavor();
    let u = l.create(ScopeKind::User, Some(GROUP), Some(USER), 5).unwrap();
    let g = l.create(ScopeKind::Group, Some(GROUP), None, 100).unwrap();
    let d = l.check(USER, FLAVOR, 3, 1).unwrap();
    assert!(d.allowed);
    assert_eq!(d.remaining, 2);
    assert_eq!(l.get(u.id).unwrap().tally.outstanding, 3);
    assert_eq!(l.get(g.id).unwrap(), g);
    let d = l.check(USER, FLAVOR, 3, 2).unwrap();
    assert_eq!(d, Decision { allowed: false, remaining: 2, limiting_factor: Some(Axis::Quota) });
    // another user falls back to the group entry
    let d = l.check(USER + 1, FLAVOR, 3, 3).unwrap();
    assert!(d.allowed);
    assert_eq!(d.remaining, 97);
}

#[test]
fn global_entry_applies_when_nothing_more_specific_exists() {
    let mut l = ledger_with_flavor();
    let g = l.create(ScopeKind::Global, None, None, 1).unwrap();
    assert!(l.check(USER, FLAVOR, 1, 1).unwrap().allowed);
    assert!(!l.check(USER, FLAVOR, 1, 2).unwrap().allowed);
    assert_eq!(l.get(g.id).unwrap().tally.outstanding, 1);
}

#[test]
fn zero_count_changes_nothing() {
    let mut l = ledger_with_flavor();
    let q = l.create(ScopeKind::Group, Some(GROUP), None, 1).unwrap();
    l.reserve(EntryRef::Quota(q.id), 1, 1).unwrap();
    let before = l.get(q.id).unwrap();
    let d = l.check(USER, FLAVOR, 0, 9).unwrap();
    assert!(d.allowed);
    assert_eq!(d.remaining, 0);
    assert_eq!(l.get(q.id).unwrap(), before);
}

#[test]
fn budget_rejection_rolls_back_quota_reservation() {
    let mut l = ledger_with_flavor();
    let q = l.create(ScopeKind::Group, Some(GROUP), None, 10).unwrap();
    let b = l.create_budget(USER, 1).unwrap();
    let d = l.check(USER, FLAVOR, 2, 1).unwrap();
    assert_eq!(d, Decision { allowed: false, remaining: 1, limiting_factor: Some(Axis::Budget) });
    assert_eq!(d.rejection(), Some(LedgerError::BudgetExceeded));
    assert_eq!(l.get(q.id).unwrap(), q);
    assert_eq!(l.get_budget(b.id).unwrap(), b);
}

#[test]
fn both_axes_reserve_and_report_the_tighter() {
    let mut l = ledger_with_flavor();
    let q = l.create(ScopeKind::Group, Some(GROUP), None, 10).unwrap();
    let b = l.create_budget(USER, 4).unwrap();
    let d = l.check(USER, FLAVOR, 2, 1).unwrap();
    assert_eq!(d, Decision { allowed: true, remaining: 2, limiting_factor: Some(Axis::Budget) });
    assert_eq!(l.get(q.id).unwrap().tally.outstanding, 2);
    assert_eq!(l.get_budget(b.id).unwrap().tally.outstanding, 2);
}

#[test]
fn unconstrained_flavor_is_allowed() {
    let mut l = ledger_with_flavor();
    let d = l.check(USER, FLAVOR, 1000, 1).unwrap();
    assert_eq!(d, Decision { allowed: true, remaining: i64::MAX, limiting_factor: None });
}

#[test]
fn unknown_flavor_is_not_found() {
    let mut l = ledger_with_flavor();
    assert_eq!(l.check(USER, FLAVOR + 1, 1, 1), Err(LedgerError::NotFound));
}
