use quota_ledger::ledger::{
    EntryRef, Ledger, LedgerError, ListFilter, QuotaPatch, ScopeKind, ValidationIssue,
};
use quota_ledger::sync::UsageReading;

#[test]
fn create_and_get_quota() {
    let mut l = Ledger::new();
    let e = l.create(ScopeKind::Group, Some(7), None, 10).unwrap();
    assert_eq!(e.id, 1);
    assert_eq!(e.tally.limit, 10);
    assert_eq!(e.tally.consumed, 0);
    assert_eq!(l.get(e.id), Ok(e));
    let f = l.create(ScopeKind::User, Some(7), Some(3), 2).unwrap();
    assert_eq!(f.id, 2);
}

#[test]
fn create_rejects_negative_limit() {
    let mut l = Ledger::new();
    assert_eq!(
        l.create(ScopeKind::Global, None, None, -1),
        Err(LedgerError::Invalid(ValidationIssue::NegativeLimit))
    );
    assert_eq!(l.quota_count(), 0);
}

#[test]
fn create_rejects_missing_or_extra_refs() {
    let mut l = Ledger::new();
    assert_eq!(
        l.create(ScopeKind::Group, None, None, 1),
        Err(LedgerError::Invalid(ValidationIssue::ScopeMismatch))
    );
    assert_eq!(
        l.create(ScopeKind::User, Some(1), None, 1),
        Err(LedgerError::Invalid(ValidationIssue::ScopeMismatch))
    );
    assert_eq!(
        l.create(ScopeKind::Global, Some(1), None, 1),
        Err(LedgerError::Invalid(ValidationIssue::ScopeMismatch))
    );
}

#[test]
fn create_rejects_duplicate_scope() {
    let mut l = Ledger::new();
    l.create(ScopeKind::User, Some(1), Some(2), 1).unwrap();
    assert_eq!(
        l.create(ScopeKind::User, Some(1), Some(2), 5),
        Err(LedgerError::Invalid(ValidationIssue::DuplicateScope))
    );
    assert!(l.create(ScopeKind::User, Some(1), Some(3), 5).is_ok());
}

#[test]
fn get_unknown_is_not_found() {
    let l = Ledger::new();
    assert_eq!(l.get(42), Err(LedgerError::NotFound));
}

#[test]
fn list_filters_by_group_and_user() {
    let mut l = Ledger::new();
    let a = l.create(ScopeKind::Group, Some(1), None, 10).unwrap();
    let b = l.create(ScopeKind::User, Some(1), Some(9), 3).unwrap();
    let c = l.create(ScopeKind::User, Some(2), Some(9), 4).unwrap();
    let g = l.create(ScopeKind::Global, None, None, 50).unwrap();
    assert_eq!(l.list(ListFilter::All), vec![a, b, c, g]);
    assert_eq!(l.list(ListFilter::ByGroup(1)), vec![a, b]);
    assert_eq!(l.list(ListFilter::ByUser(9)), vec![b, c]);
    assert_eq!(l.list(ListFilter::ByUser(8)), vec![]);
}

#[test]
fn filter_from_flags_prefers_all_then_group() {
    assert_eq!(ListFilter::from_flags(true, Some(1), Some(2)), ListFilter::All);
    assert_eq!(ListFilter::from_flags(false, Some(1), Some(2)), ListFilter::ByGroup(1));
    assert_eq!(ListFilter::from_flags(false, None, Some(2)), ListFilter::ByUser(2));
    assert_eq!(ListFilter::from_flags(false, None, None), ListFilter::All);
}

#[test]
fn modify_is_a_partial_update() {
    let mut l = Ledger::new();
    let e = l.create(ScopeKind::User, Some(1), Some(2), 3).unwrap();
    let patch = QuotaPatch { limit: Some(8), group: None, owner: None };
    let m = l.modify(e.id, patch).unwrap();
    assert_eq!(m.tally.limit, 8);
    assert_eq!(m.group, Some(1));
    assert_eq!(m.owner, Some(2));
    let patch = QuotaPatch { limit: None, group: None, owner: Some(5) };
    let m = l.modify(e.id, patch).unwrap();
    assert_eq!(m.tally.limit, 8);
    assert_eq!(m.owner, Some(5));
    assert_eq!(l.get(e.id), Ok(m));
}

#[test]
fn modify_errors() {
    let mut l = Ledger::new();
    let a = l.create(ScopeKind::User, Some(1), Some(2), 3).unwrap();
    l.create(ScopeKind::User, Some(1), Some(4), 3).unwrap();
    let g = l.create(ScopeKind::Group, Some(1), None, 3).unwrap();
    let none = QuotaPatch { limit: None, group: None, owner: None };
    assert_eq!(l.modify(99, none), Err(LedgerError::NotFound));
    let neg = QuotaPatch { limit: Some(-2), group: None, owner: None };
    assert_eq!(l.modify(a.id, neg), Err(LedgerError::Invalid(ValidationIssue::NegativeLimit)));
    let dup = QuotaPatch { limit: None, group: None, owner: Some(4) };
    assert_eq!(l.modify(a.id, dup), Err(LedgerError::Invalid(ValidationIssue::DuplicateScope)));
    let owner_on_group = QuotaPatch { limit: None, group: None, owner: Some(6) };
    assert_eq!(
        l.modify(g.id, owner_on_group),
        Err(LedgerError::Invalid(ValidationIssue::ScopeMismatch))
    );
    assert_eq!(l.get(a.id), Ok(a));
}

#[test]
fn modify_may_lower_limit_below_usage() {
    let mut l = Ledger::new();
    let e = l.create(ScopeKind::Global, None, None, 5).unwrap();
    l.reserve(EntryRef::Quota(e.id), 4, 1).unwrap();
    let m = l.modify(e.id, QuotaPatch { limit: Some(2), group: None, owner: None }).unwrap();
    assert_eq!(m.tally.limit, 2);
    assert_eq!(m.tally.outstanding, 4);
}

#[test]
fn delete_is_not_idempotent() {
    let mut l = Ledger::new();
    let e = l.create(ScopeKind::Global, None, None, 5).unwrap();
    assert_eq!(l.delete(e.id), Ok(()));
    assert_eq!(l.get(e.id), Err(LedgerError::NotFound));
    assert_eq!(l.delete(e.id), Err(LedgerError::NotFound));
}

#[test]
fn budgets_are_unique_per_user() {
    let mut l = Ledger::new();
    let b = l.create_budget(3, 100).unwrap();
    assert_eq!(b.id, 1);
    assert_eq!(l.get_budget(b.id), Ok(b));
    assert_eq!(l.budget_of(3), Some(b));
    assert_eq!(
        l.create_budget(3, 10),
        Err(LedgerError::Invalid(ValidationIssue::DuplicateScope))
    );
    assert_eq!(
        l.create_budget(4, -10),
        Err(LedgerError::Invalid(ValidationIssue::NegativeLimit))
    );
    assert_eq!(l.delete_budget(b.id), Ok(()));
    assert_eq!(l.budget_of(3), None);
    assert_eq!(l.delete_budget(b.id), Err(LedgerError::NotFound));
}

#[test]
fn reserve_reports_outstanding_and_rejections() {
    let mut l = Ledger::new();
    let q = l.create(ScopeKind::Global, None, None, 3).unwrap();
    let b = l.create_budget(1, 2).unwrap();
    assert_eq!(l.reserve(EntryRef::Quota(q.id), 2, 1), Ok(2));
    assert_eq!(l.reserve(EntryRef::Quota(q.id), 2, 2), Err(LedgerError::QuotaExceeded));
    assert_eq!(l.reserve(EntryRef::Quota(q.id), 1, 3), Ok(3));
    assert_eq!(l.reserve(EntryRef::Budget(b.id), 3, 4), Err(LedgerError::BudgetExceeded));
    assert_eq!(l.reserve(EntryRef::Budget(b.id), 2, 4), Ok(2));
    assert_eq!(l.reserve(EntryRef::Quota(77), 1, 5), Err(LedgerError::NotFound));
    assert_eq!(l.get(q.id).unwrap().tally.outstanding, 3);
}

#[test]
fn flavors_map_to_groups() {
    let mut l = Ledger::new();
    assert_eq!(l.flavor_group_of(1), None);
    l.assign_flavor(1, 10);
    l.assign_flavor(2, 20);
    assert_eq!(l.flavor_group_of(1), Some(10));
    l.assign_flavor(1, 30);
    assert_eq!(l.flavor_group_of(1), Some(30));
    assert_eq!(l.flavor_group_of(2), Some(20));
}

#[test]
fn unit_reserves_on_an_entry_succeed_exactly_up_to_headroom() {
    let mut l = Ledger::new();
    let q = l.create(ScopeKind::Group, Some(1), None, 5).unwrap();
    let target = EntryRef::Quota(q.id);
    l.sync_entry(UsageReading { entry: target, usage: Some(2) }, 0, 60);
    let mut ok: u32 = 0;
    let mut rejected: u32 = 0;
    for k in 0..5u64 {
        match l.reserve(target, 1, k) {
            Ok(_) => ok += 1,
            Err(e) => {
                assert_eq!(e, LedgerError::QuotaExceeded);
                rejected += 1;
            }
        }
        let t = l.get(q.id).unwrap().tally;
        assert!(t.consumed + t.outstanding <= t.limit);
    }
    assert_eq!(ok, 3);
    assert_eq!(rejected, 2);
}
