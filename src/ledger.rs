//! The quota ledger: quota entries, budget entries and the flavor catalogue,
//! with the create / list / get / modify / delete operations and the
//! per-entry `reserve` primitive.
use vstd::prelude::*;

use crate::tally::{lemma_reserve_respects_limit, lemma_reserve_units_accepts_min, reserve_units, Tally};

verus! {

/// The specificity level of a quota entry.
#[derive(Clone, Copy, Debug, PartialEq, Eq, Structural)]
pub enum ScopeKind {
    Global,
    Group,
    User,
}

/// Why an input was refused.
#[derive(Clone, Copy, Debug, PartialEq, Eq, Structural)]
pub enum ValidationIssue {
    /// The limit is negative.
    NegativeLimit,
    /// The references given do not fit the scope kind.
    ScopeMismatch,
    /// Another entry already covers the same scope.
    DuplicateScope,
}

/// The ledger's error taxonomy.
#[derive(Clone, Copy, Debug, PartialEq, Eq, Structural)]
pub enum LedgerError {
    Invalid(ValidationIssue),
    NotFound,
    QuotaExceeded,
    BudgetExceeded,
    /// No fresh identifier is left.
    Exhausted,
}

/// A reference to a quota or a budget entry by its identifier.
#[derive(Clone, Copy, Debug, PartialEq, Eq, Structural)]
pub enum EntryRef {
    Quota(u64),
    Budget(u64),
}

/// A cap on the number of instances of a resource group, at one scope.
#[derive(Clone, Copy, Debug, PartialEq, Eq, Structural)]
pub struct QuotaEntry {
    pub id: u64,
    pub kind: ScopeKind,
    /// The limited resource group; absent only for the global entry.
    pub group: Option<u64>,
    /// The user the entry applies to; present only for user-scoped entries.
    pub owner: Option<u64>,
    pub tally: Tally,
}

/// A cap on the abstract consumption of one user.
#[derive(Clone, Copy, Debug, PartialEq, Eq, Structural)]
pub struct BudgetEntry {
    pub id: u64,
    pub owner: u64,
    pub tally: Tally,
}

/// The resource group a flavor belongs to.
#[derive(Clone, Copy, Debug, PartialEq, Eq, Structural)]
pub struct FlavorLink {
    pub flavor: u64,
    pub group: u64,
}

/// At most one scope filter for listing quota entries.
#[derive(Clone, Copy, Debug, PartialEq, Eq, Structural)]
pub enum ListFilter {
    All,
    ByGroup(u64),
    ByUser(u64),
}

impl ListFilter {
    /// The filter chosen by command-line style flags: `all` wins over a group,
    /// a group over a user; with none of them set, every entry is listed.
    pub fn from_flags(all: bool, group: Option<u64>, user: Option<u64>) -> (r: ListFilter)
        ensures
            r == (if all {
                ListFilter::All
            } else if group is Some {
                ListFilter::ByGroup(group->0)
            } else if user is Some {
                ListFilter::ByUser(user->0)
            } else {
                ListFilter::All
            }),
    {
        if all {
            ListFilter::All
        } else if let Some(g) = group {
            ListFilter::ByGroup(g)
        } else if let Some(u) = user {
            ListFilter::ByUser(u)
        } else {
            ListFilter::All
        }
    }
}

/// A partial update of a quota entry: absent fields are left unchanged.
#[derive(Clone, Copy, Debug, PartialEq, Eq, Structural)]
pub struct QuotaPatch {
    pub limit: Option<i64>,
    pub group: Option<u64>,
    pub owner: Option<u64>,
}

/// The references of a quota entry fit its scope kind.
pub open spec fn refs_match(kind: ScopeKind, group: Option<u64>, owner: Option<u64>) -> bool {
    match kind {
        ScopeKind::Global => group is None && owner is None,
        ScopeKind::Group => group is Some && owner is None,
        ScopeKind::User => group is Some && owner is Some,
    }
}

/// A quota entry is selected by a list filter.
pub open spec fn selected_by(e: QuotaEntry, filter: ListFilter) -> bool {
    match filter {
        ListFilter::All => true,
        ListFilter::ByGroup(g) => e.group == Some(g),
        ListFilter::ByUser(u) => e.owner == Some(u),
    }
}

/// The entries of `s` that the filter selects, in order.
pub open spec fn listed(s: Seq<QuotaEntry>, filter: ListFilter) -> Seq<QuotaEntry> {
    s.filter(|e: QuotaEntry| selected_by(e, filter))
}

/// A quota entry with the fields of a patch applied.
pub open spec fn patched(e: QuotaEntry, p: QuotaPatch) -> QuotaEntry {
    QuotaEntry {
        id: e.id,
        kind: e.kind,
        group: if p.group is Some { p.group } else { e.group },
        owner: if p.owner is Some { p.owner } else { e.owner },
        tally: Tally {
            limit: match p.limit {
                Some(l) => l,
                None => e.tally.limit,
            },
            consumed: e.tally.consumed,
            outstanding: e.tally.outstanding,
            last_reserved_at: e.tally.last_reserved_at,
        },
    }
}

/// The abstract contents of a ledger.
pub struct LedgerModel {
    pub quotas: Seq<QuotaEntry>,
    pub budgets: Seq<BudgetEntry>,
    pub flavors: Seq<FlavorLink>,
    pub next_quota_id: u64,
    pub next_budget_id: u64,
}

impl LedgerModel {
    pub open spec fn has_quota(self, id: u64) -> bool {
        exists|i: int| 0 <= i < self.quotas.len() && #[trigger] self.quotas[i].id == id
    }

    /// The position of the quota entry with identifier `id`.
    pub open spec fn quota_pos(self, id: u64) -> int {
        choose|i: int| 0 <= i < self.quotas.len() && #[trigger] self.quotas[i].id == id
    }

    /// Some quota entry covers the scope given by `group` and `owner`.
    pub open spec fn has_key(self, group: Option<u64>, owner: Option<u64>) -> bool {
        exists|i: int|
            0 <= i < self.quotas.len() && #[trigger] self.quotas[i].group == group
                && self.quotas[i].owner == owner
    }

    /// The position of the quota entry that covers `group` and `owner`.
    pub open spec fn key_pos(self, group: Option<u64>, owner: Option<u64>) -> int {
        choose|i: int|
            0 <= i < self.quotas.len() && #[trigger] self.quotas[i].group == group
                && self.quotas[i].owner == owner
    }

    pub open spec fn has_budget(self, id: u64) -> bool {
        exists|j: int| 0 <= j < self.budgets.len() && #[trigger] self.budgets[j].id == id
    }

    pub open spec fn budget_pos(self, id: u64) -> int {
        choose|j: int| 0 <= j < self.budgets.len() && #[trigger] self.budgets[j].id == id
    }

    /// The user has a budget entry.
    pub open spec fn has_budget_for(self, owner: u64) -> bool {
        exists|j: int| 0 <= j < self.budgets.len() && #[trigger] self.budgets[j].owner == owner
    }

    pub open spec fn budget_owner_pos(self, owner: u64) -> int {
        choose|j: int| 0 <= j < self.budgets.len() && #[trigger] self.budgets[j].owner == owner
    }

    /// The resource group of a flavor, if the flavor is known.
    pub open spec fn flavor_group(self, flavor: u64) -> Option<u64> {
        if exists|k: int| 0 <= k < self.flavors.len() && #[trigger] self.flavors[k].flavor == flavor {
            let k = choose|k: int| 0 <= k < self.flavors.len() && #[trigger] self.flavors[k].flavor == flavor;
            Some(self.flavors[k].group)
        } else {
            None
        }
    }

    /// Well-formedness: counters valid, references fitting their scope,
    /// identifiers fresh below the counters and unique, one quota entry per
    /// scope, one budget per user, one group per flavor.
    pub open spec fn wf(self) -> bool {
        &&& forall|i: int|
            0 <= i < self.quotas.len() ==> {
                &&& (#[trigger] self.quotas[i]).tally.wf()
                &&& refs_match(self.quotas[i].kind, self.quotas[i].group, self.quotas[i].owner)
                &&& self.quotas[i].id < self.next_quota_id
            }
        &&& forall|i: int, k: int|
            0 <= i < self.quotas.len() && 0 <= k < self.quotas.len() && i != k ==> {
                &&& (#[trigger] self.quotas[i]).id != (#[trigger] self.quotas[k]).id
                &&& !(self.quotas[i].group == self.quotas[k].group && self.quotas[i].owner
                    == self.quotas[k].owner)
            }
        &&& forall|j: int|
            0 <= j < self.budgets.len() ==> {
                &&& (#[trigger] self.budgets[j]).tally.wf()
                &&& self.budgets[j].id < self.next_budget_id
            }
        &&& forall|j: int, k: int|
            0 <= j < self.budgets.len() && 0 <= k < self.budgets.len() && j != k ==> {
                &&& (#[trigger] self.budgets[j]).id != (#[trigger] self.budgets[k]).id
                &&& self.budgets[j].owner != self.budgets[k].owner
            }
        &&& forall|j: int, k: int|
            0 <= j < self.flavors.len() && 0 <= k < self.flavors.len() && j != k ==> (
            #[trigger] self.flavors[j]).flavor != (#[trigger] self.flavors[k]).flavor
    }

    /// The outcome of creating a quota entry.
    pub open spec fn create_outcome(
        self,
        kind: ScopeKind,
        group: Option<u64>,
        owner: Option<u64>,
        limit: i64,
    ) -> Result<QuotaEntry, LedgerError> {
        if limit < 0 {
            Err(LedgerError::Invalid(ValidationIssue::NegativeLimit))
        } else if !refs_match(kind, group, owner) {
            Err(LedgerError::Invalid(ValidationIssue::ScopeMismatch))
        } else if self.has_key(group, owner) {
            Err(LedgerError::Invalid(ValidationIssue::DuplicateScope))
        } else if self.next_quota_id == u64::MAX {
            Err(LedgerError::Exhausted)
        } else {
            Ok(
                QuotaEntry {
                    id: self.next_quota_id,
                    kind,
                    group,
                    owner,
                    tally: Tally { limit, consumed: 0, outstanding: 0, last_reserved_at: 0 },
                },
            )
        }
    }

    /// The ledger with a new quota entry appended.
    pub open spec fn with_quota(self, e: QuotaEntry) -> LedgerModel {
        LedgerModel {
            quotas: self.quotas.push(e),
            next_quota_id: (self.next_quota_id + 1) as u64,
            ..self
        }
    }

    /// Some entry other than the one at `pos` covers `group` and `owner`.
    pub open spec fn key_taken_elsewhere(self, group: Option<u64>, owner: Option<u64>, pos: int) -> bool {
        exists|k: int|
            0 <= k < self.quotas.len() && k != pos && #[trigger] self.quotas[k].group == group
                && self.quotas[k].owner == owner
    }

    /// The outcome of modifying the quota entry `id` by `p`.
    pub open spec fn modify_outcome(self, id: u64, p: QuotaPatch) -> Result<QuotaEntry, LedgerError> {
        if !self.has_quota(id) {
            Err(LedgerError::NotFound)
        } else {
            let pos = self.quota_pos(id);
            let n = patched(self.quotas[pos], p);
            if n.tally.limit < 0 {
                Err(LedgerError::Invalid(ValidationIssue::NegativeLimit))
            } else if !refs_match(n.kind, n.group, n.owner) {
                Err(LedgerError::Invalid(ValidationIssue::ScopeMismatch))
            } else if self.key_taken_elsewhere(n.group, n.owner, pos) {
                Err(LedgerError::Invalid(ValidationIssue::DuplicateScope))
            } else {
                Ok(n)
            }
        }
    }

    /// The outcome of creating a budget entry for `owner`.
    pub open spec fn create_budget_outcome(self, owner: u64, limit: i64) -> Result<BudgetEntry, LedgerError> {
        if limit < 0 {
            Err(LedgerError::Invalid(ValidationIssue::NegativeLimit))
        } else if self.has_budget_for(owner) {
            Err(LedgerError::Invalid(ValidationIssue::DuplicateScope))
        } else if self.next_budget_id == u64::MAX {
            Err(LedgerError::Exhausted)
        } else {
            Ok(
                BudgetEntry {
                    id: self.next_budget_id,
                    owner,
                    tally: Tally { limit, consumed: 0, outstanding: 0, last_reserved_at: 0 },
                },
            )
        }
    }

    /// The ledger with a new budget entry appended.
    pub open spec fn with_budget(self, e: BudgetEntry) -> LedgerModel {
        LedgerModel {
            budgets: self.budgets.push(e),
            next_budget_id: (self.next_budget_id + 1) as u64,
            ..self
        }
    }

    /// The entry that `target` names exists.
    pub open spec fn has_entry(self, target: EntryRef) -> bool {
        match target {
            EntryRef::Quota(id) => self.has_quota(id),
            EntryRef::Budget(id) => self.has_budget(id),
        }
    }

    /// The tally of the entry that `target` names.
    pub open spec fn tally_of(self, target: EntryRef) -> Tally {
        match target {
            EntryRef::Quota(id) => self.quotas[self.quota_pos(id)].tally,
            EntryRef::Budget(id) => self.budgets[self.budget_pos(id)].tally,
        }
    }

    /// The ledger with the tally of the entry that `target` names replaced.
    pub open spec fn with_tally(self, target: EntryRef, t: Tally) -> LedgerModel {
        match target {
            EntryRef::Quota(id) => self.with_quota_tally(self.quota_pos(id), t),
            EntryRef::Budget(id) => self.with_budget_tally(self.budget_pos(id), t),
        }
    }

    /// The outcome of `reserve`: the new ledger and the new outstanding total,
    /// or the error.
    pub open spec fn reserve_outcome(self, target: EntryRef, delta: int, now: u64) -> (
        LedgerModel,
        Result<i64, LedgerError>,
    ) {
        if !self.has_entry(target) {
            (self, Err(LedgerError::NotFound))
        } else {
            let (t, ok) = self.tally_of(target).reserve_step(delta, now);
            if ok {
                (self.with_tally(target, t), Ok(t.outstanding))
            } else {
                (
                    self,
                    Err(
                        match target {
                            EntryRef::Quota(_) => LedgerError::QuotaExceeded,
                            EntryRef::Budget(_) => LedgerError::BudgetExceeded,
                        },
                    ),
                )
            }
        }
    }

    /// The ledger with the tally of the quota entry at position `i` replaced.
    pub open spec fn with_quota_tally(self, i: int, t: Tally) -> LedgerModel {
        LedgerModel {
            quotas: self.quotas.update(
                i,
                QuotaEntry {
                    id: self.quotas[i].id,
                    kind: self.quotas[i].kind,
                    group: self.quotas[i].group,
                    owner: self.quotas[i].owner,
                    tally: t,
                },
            ),
            ..self
        }
    }

    /// The ledger with the tally of the budget entry at position `j` replaced.
    pub open spec fn with_budget_tally(self, j: int, t: Tally) -> LedgerModel {
        LedgerModel {
            budgets: self.budgets.update(
                j,
                BudgetEntry { id: self.budgets[j].id, owner: self.budgets[j].owner, tally: t },
            ),
            ..self
        }
    }
}

/// Replacing one tally by a valid one keeps the ledger well formed.
pub proof fn lemma_tally_update_keeps_wf(m: LedgerModel, i: int, j: int, t: Tally)
    requires
        m.wf(),
        t.wf(),
    ensures
        0 <= i < m.quotas.len() ==> m.with_quota_tally(i, t).wf(),
        0 <= j < m.budgets.len() ==> m.with_budget_tally(j, t).wf(),
{
    if 0 <= i < m.quotas.len() {
        let n = m.with_quota_tally(i, t);
        assert forall|a: int, b: int|
            0 <= a < n.quotas.len() && 0 <= b < n.quotas.len() && a != b implies {
                &&& (#[trigger] n.quotas[a]).id != (#[trigger] n.quotas[b]).id
                &&& !(n.quotas[a].group == n.quotas[b].group && n.quotas[a].owner
                    == n.quotas[b].owner)
            } by {
            assert(m.quotas[a].id != m.quotas[b].id);
        }
    }
    if 0 <= j < m.budgets.len() {
        let n = m.with_budget_tally(j, t);
        assert forall|a: int, b: int|
            0 <= a < n.budgets.len() && 0 <= b < n.budgets.len() && a != b implies {
                &&& (#[trigger] n.budgets[a]).id != (#[trigger] n.budgets[b]).id
                &&& n.budgets[a].owner != n.budgets[b].owner
            } by {
            assert(m.budgets[a].id != m.budgets[b].id);
        }
    }
}

/// Replacing the tally of an existing entry by a valid one keeps the ledger
/// well formed and the entry reachable under the same reference, now with
/// the new tally.
pub proof fn lemma_with_tally(m: LedgerModel, target: EntryRef, t: Tally)
    requires
        m.wf(),
        m.has_entry(target),
        t.wf(),
    ensures
        m.with_tally(target, t).wf(),
        m.with_tally(target, t).has_entry(target),
        m.with_tally(target, t).tally_of(target) == t,
{
    let post = m.with_tally(target, t);
    match target {
        EntryRef::Quota(id) => {
            let i = m.quota_pos(id);
            lemma_tally_update_keeps_wf(m, i, -1, t);
            assert(post.quotas[i].id == id);
            let p = post.quota_pos(id);
            if p != i {
                assert(post.quotas[p].id != post.quotas[i].id);
            }
        },
        EntryRef::Budget(id) => {
            let j = m.budget_pos(id);
            lemma_tally_update_keeps_wf(m, -1, j, t);
            assert(post.budgets[j].id == id);
            let p = post.budget_pos(id);
            if p != j {
                assert(post.budgets[p].id != post.budgets[j].id);
            }
        },
    }
}

/// The outcome of `n` one-unit reservations made in turn against the entry
/// `target`: the final ledger and the number that returned `Ok`.
pub open spec fn reserve_units_at(m: LedgerModel, target: EntryRef, n: nat, now: u64) -> (LedgerModel, nat)
    decreases n,
{
    if n == 0 {
        (m, 0)
    } else {
        let (prev, accepted) = reserve_units_at(m, target, (n - 1) as nat, now);
        let (next, r) = prev.reserve_outcome(target, 1, now);
        (next, if r is Ok { accepted + 1 } else { accepted })
    }
}

/// Reservations against one ledger entry behave exactly as on its tally.
pub proof fn lemma_reserve_units_at_follow_tally(m: LedgerModel, target: EntryRef, n: nat, now: u64)
    requires
        m.wf(),
        m.has_entry(target),
    ensures
        ({
            let (post, accepted) = reserve_units_at(m, target, n, now);
            let (t, tally_accepted) = reserve_units(m.tally_of(target), n, now);
            &&& post.wf()
            &&& post.has_entry(target)
            &&& post.tally_of(target) == t
            &&& accepted == tally_accepted
        }),
    decreases n,
{
    if n > 0 {
        lemma_reserve_units_at_follow_tally(m, target, (n - 1) as nat, now);
        let prev = reserve_units_at(m, target, (n - 1) as nat, now).0;
        let t = prev.tally_of(target);
        assert(t.wf()) by {
            match target {
                EntryRef::Quota(id) => {
                    assert(prev.quotas[prev.quota_pos(id)].tally.wf());
                },
                EntryRef::Budget(id) => {
                    assert(prev.budgets[prev.budget_pos(id)].tally.wf());
                },
            }
        }
        lemma_reserve_respects_limit(t, 1, now);
        if t.admits(1) {
            lemma_with_tally(prev, target, t.reserve_step(1, now).0);
        }
    }
}

/// Of `n` one-unit reservations made in turn against an entry with `k`
/// units of headroom, exactly `min(n, k)` succeed and the rest are rejected,
/// and the entry never exceeds its limit along the way.
pub proof fn lemma_reserve_units_at_accepts_min(m: LedgerModel, target: EntryRef, n: nat, now: u64)
    requires
        m.wf(),
        m.has_entry(target),
        m.tally_of(target).within_limit(),
    ensures
        ({
            let t = m.tally_of(target);
            let k = t.limit - t.load();
            let (post, accepted) = reserve_units_at(m, target, n, now);
            &&& accepted == (if n <= k { n as int } else { k })
            &&& post.tally_of(target).within_limit()
        }),
        forall|c: nat|
            c <= n ==> (#[trigger] reserve_units_at(m, target, c, now)).0.tally_of(target).within_limit(),
{
    let t = m.tally_of(target);
    assert(t.wf()) by {
        match target {
            EntryRef::Quota(id) => {
                assert(m.quotas[m.quota_pos(id)].tally.wf());
            },
            EntryRef::Budget(id) => {
                assert(m.budgets[m.budget_pos(id)].tally.wf());
            },
        }
    }
    lemma_reserve_units_accepts_min(t, n, now);
    lemma_reserve_units_at_follow_tally(m, target, n, now);
    assert forall|c: nat| c <= n implies (#[trigger] reserve_units_at(m, target, c, now)).0.tally_of(
        target,
    ).within_limit() by {
        lemma_reserve_units_at_follow_tally(m, target, c, now);
        assert(reserve_units(t, c, now).0.within_limit());
    }
}

/// The quota ledger.
pub struct Ledger {
    quotas: Vec<QuotaEntry>,
    budgets: Vec<BudgetEntry>,
    flavors: Vec<FlavorLink>,
    next_quota_id: u64,
    next_budget_id: u64,
}

impl View for Ledger {
    type V = LedgerModel;

    closed spec fn view(&self) -> LedgerModel {
        LedgerModel {
            quotas: self.quotas@,
            budgets: self.budgets@,
            flavors: self.flavors@,
            next_quota_id: self.next_quota_id,
            next_budget_id: self.next_budget_id,
        }
    }
}

/// Equality of two optional references.
pub fn same_ref(a: Option<u64>, b: Option<u64>) -> (r: bool)
    ensures
        r == (a == b),
{
    match (a, b) {
        (Some(x), Some(y)) => x == y,
        (None, None) => true,
        _ => false,
    }
}

impl Ledger {
    /// An empty ledger; identifiers are handed out from 1.
    pub fn new() -> (r: Ledger)
        ensures
            r@.wf(),
            r@.quotas.len() == 0,
            r@.budgets.len() == 0,
            r@.flavors.len() == 0,
            r@.next_quota_id == 1,
            r@.next_budget_id == 1,
    {
        Ledger {
            quotas: Vec::new(),
            budgets: Vec::new(),
            flavors: Vec::new(),
            next_quota_id: 1,
            next_budget_id: 1,
        }
    }

    /// The position of the quota entry with identifier `id`.
    pub(crate) fn find_quota(&self, id: u64) -> (r: Option<usize>)
        requires
            self@.wf(),
        ensures
            r is None <==> !self@.has_quota(id),
            r matches Some(i) ==> i < self@.quotas.len() && self@.quotas[i as int].id == id
                && i == self@.quota_pos(id),
    {
        let mut i: usize = 0;
        while i < self.quotas.len()
            invariant
                self@.wf(),
                i <= self.quotas@.len(),
                forall|k: int| 0 <= k < i ==> (#[trigger] self.quotas@[k]).id != id,
            decreases self.quotas@.len() - i,
        {
            if self.quotas[i].id == id {
                proof {
                    let p = self@.quota_pos(id);
                    assert(self@.quotas[i as int].id == id);
                    assert(self@.quotas[p].id == id);
                    if p != i {
                        assert(self@.quotas[p].id != self@.quotas[i as int].id);
                    }
                }
                return Some(i);
            }
            i += 1;
        }
        None
    }

    /// The position of the quota entry that covers the scope `group`, `owner`.
    pub(crate) fn find_key(&self, group: Option<u64>, owner: Option<u64>) -> (r: Option<usize>)
        requires
            self@.wf(),
        ensures
            r is None <==> !self@.has_key(group, owner),
            r matches Some(i) ==> i < self@.quotas.len() && self@.quotas[i as int].group == group
                && self@.quotas[i as int].owner == owner && i == self@.key_pos(group, owner),
    {
        let mut i: usize = 0;
        while i < self.quotas.len()
            invariant
                self@.wf(),
                i <= self.quotas@.len(),
                forall|k: int|
                    0 <= k < i ==> !((#[trigger] self.quotas@[k]).group == group
                        && self.quotas@[k].owner == owner),
            decreases self.quotas@.len() - i,
        {
            if same_ref(self.quotas[i].group, group) && same_ref(self.quotas[i].owner, owner) {
                proof {
                    let p = self@.key_pos(group, owner);
                    assert(self@.quotas[i as int].group == group);
                    assert(self@.quotas[p].group == group && self@.quotas[p].owner == owner);
                    if p != i {
                        assert(!(self@.quotas[p].group == self@.quotas[i as int].group
                            && self@.quotas[p].owner == self@.quotas[i as int].owner));
                    }
                }
                return Some(i);
            }
            i += 1;
        }
        None
    }

    /// The position of the budget entry with identifier `id`.
    pub(crate) fn find_budget(&self, id: u64) -> (r: Option<usize>)
        requires
            self@.wf(),
        ensures
            r is None <==> !self@.has_budget(id),
            r matches Some(j) ==> j < self@.budgets.len() && self@.budgets[j as int].id == id
                && j == self@.budget_pos(id),
    {
        let mut j: usize = 0;
        while j < self.budgets.len()
            invariant
                self@.wf(),
                j <= self.budgets@.len(),
                forall|k: int| 0 <= k < j ==> (#[trigger] self.budgets@[k]).id != id,
            decreases self.budgets@.len() - j,
        {
            if self.budgets[j].id == id {
                proof {
                    let p = self@.budget_pos(id);
                    assert(self@.budgets[j as int].id == id);
                    assert(self@.budgets[p].id == id);
                    if p != j {
                        assert(self@.budgets[p].id != self@.budgets[j as int].id);
                    }
                }
                return Some(j);
            }
            j += 1;
        }
        None
    }

    /// The position of the budget entry of `owner`.
    pub(crate) fn find_budget_for(&self, owner: u64) -> (r: Option<usize>)
        requires
            self@.wf(),
        ensures
            r is None <==> !self@.has_budget_for(owner),
            r matches Some(j) ==> j < self@.budgets.len() && self@.budgets[j as int].owner
                == owner && j == self@.budget_owner_pos(owner),
    {
        let mut j: usize = 0;
        while j < self.budgets.len()
            invariant
                self@.wf(),
                j <= self.budgets@.len(),
                forall|k: int| 0 <= k < j ==> (#[trigger] self.budgets@[k]).owner != owner,
            decreases self.budgets@.len() - j,
        {
            if self.budgets[j].owner == owner {
                proof {
                    let p = self@.budget_owner_pos(owner);
                    assert(self@.budgets[j as int].owner == owner);
                    assert(self@.budgets[p].owner == owner);
                    if p != j {
                        assert(self@.budgets[p].owner != self@.budgets[j as int].owner);
                    }
                }
                return Some(j);
            }
            j += 1;
        }
        None
    }

    /// The position of the catalogue link of `flavor`.
    fn find_flavor(&self, flavor: u64) -> (r: Option<usize>)
        requires
            self@.wf(),
        ensures
            r is None <==> self@.flavor_group(flavor) is None,
            r matches Some(k) ==> k < self@.flavors.len() && self@.flavors[k as int].flavor
                == flavor && self@.flavor_group(flavor) == Some(self@.flavors[k as int].group),
    {
        let mut k: usize = 0;
        while k < self.flavors.len()
            invariant
                self@.wf(),
                k <= self.flavors@.len(),
                forall|a: int| 0 <= a < k ==> (#[trigger] self.flavors@[a]).flavor != flavor,
            decreases self.flavors@.len() - k,
        {
            if self.flavors[k].flavor == flavor {
                proof {
                    assert(self@.flavors[k as int].flavor == flavor);
                    let c = choose|c: int|
                        0 <= c < self@.flavors.len() && #[trigger] self@.flavors[c].flavor == flavor;
                    assert(self@.flavors[c].flavor == flavor);
                    if c != k {
                        assert(self@.flavors[c].flavor != self@.flavors[k as int].flavor);
                    }
                }
                return Some(k);
            }
            k += 1;
        }
        None
    }

    /// The resource group that `flavor` belongs to, if it is known.
    pub fn flavor_group_of(&self, flavor: u64) -> (r: Option<u64>)
        requires
            self@.wf(),
        ensures
            r == self@.flavor_group(flavor),
    {
        match self.find_flavor(flavor) {
            Some(k) => Some(self.flavors[k].group),
            None => None,
        }
    }

    /// Records that `flavor` belongs to resource group `group`, replacing any
    /// earlier assignment of that flavor.
    pub fn assign_flavor(&mut self, flavor: u64, group: u64)
        requires
            old(self)@.wf(),
        ensures
            final(self)@.wf(),
            final(self)@.flavor_group(flavor) == Some(group),
            forall|f: u64| f != flavor ==> final(self)@.flavor_group(f) == old(self)@.flavor_group(f),
            final(self)@.quotas == old(self)@.quotas,
            final(self)@.budgets == old(self)@.budgets,
            final(self)@.next_quota_id == old(self)@.next_quota_id,
            final(self)@.next_budget_id == old(self)@.next_budget_id,
    {
        let link = FlavorLink { flavor, group };
        let found = self.find_flavor(flavor);
        match found {
            Some(k) => {
                self.flavors.set(k, link);
            },
            None => {
                self.flavors.push(link);
            },
        }
        proof {
            let m = self@;
            let o = old(self)@;
            let at: int = match found {
                Some(k) => k as int,
                None => o.flavors.len() as int,
            };
            assert(m.flavors[at] == link);
            assert(m.quotas == o.quotas);
            assert(m.budgets == o.budgets);
            if at < o.flavors.len() {
                assert(o.flavors[at].flavor == flavor);
            }
            assert forall|f: u64| f != flavor implies m.flavor_group(f) == o.flavor_group(f) by {
                if exists|c: int| 0 <= c < o.flavors.len() && #[trigger] o.flavors[c].flavor == f {
                    let c = choose|c: int| 0 <= c < o.flavors.len() && #[trigger] o.flavors[c].flavor == f;
                    assert(m.flavors[c] == o.flavors[c]);
                    assert(m.flavors[c].flavor == f);
                }
                if exists|c: int| 0 <= c < m.flavors.len() && #[trigger] m.flavors[c].flavor == f {
                    let c = choose|c: int| 0 <= c < m.flavors.len() && #[trigger] m.flavors[c].flavor == f;
                    assert(c != at);
                    assert(o.flavors[c].flavor == f);
                }
            }
            assert forall|j: int, k: int|
                0 <= j < m.flavors.len() && 0 <= k < m.flavors.len() && j != k implies (
                #[trigger] m.flavors[j]).flavor != (#[trigger] m.flavors[k]).flavor by {
                if j != at && k != at {
                    assert(o.flavors[j] == m.flavors[j]);
                    assert(o.flavors[k] == m.flavors[k]);
                } else if j != at {
                    assert(o.flavors[j] == m.flavors[j]);
                    assert(o.flavors[j].flavor != flavor);
                } else {
                    assert(o.flavors[k] == m.flavors[k]);
                    assert(o.flavors[k].flavor != flavor);
                }
            }
            assert(m.flavor_group(flavor) == Some(group)) by {
                assert(m.flavors[at].flavor == flavor);
                let c = choose|c: int| 0 <= c < m.flavors.len() && #[trigger] m.flavors[c].flavor == flavor;
                if c != at {
                    assert(m.flavors[c].flavor != m.flavors[at].flavor);
                }
            }
        }
    }

    /// Creates a quota entry for the scope given by `kind`, `group` and
    /// `owner`, with nothing used or reserved.
    pub fn create(&mut self, kind: ScopeKind, group: Option<u64>, owner: Option<u64>, limit: i64) -> (r:
        Result<QuotaEntry, LedgerError>)
        requires
            old(self)@.wf(),
        ensures
            r == old(self)@.create_outcome(kind, group, owner, limit),
            r matches Ok(e) ==> final(self)@ == old(self)@.with_quota(e),
            r is Err ==> final(self)@ == old(self)@,
            final(self)@.wf(),
    {
        if limit < 0 {
            return Err(LedgerError::Invalid(ValidationIssue::NegativeLimit));
        }
        let fits = match kind {
            ScopeKind::Global => group.is_none() && owner.is_none(),
            ScopeKind::Group => group.is_some() && owner.is_none(),
            ScopeKind::User => group.is_some() && owner.is_some(),
        };
        if !fits {
            return Err(LedgerError::Invalid(ValidationIssue::ScopeMismatch));
        }
        if self.find_key(group, owner).is_some() {
            return Err(LedgerError::Invalid(ValidationIssue::DuplicateScope));
        }
        if self.next_quota_id == u64::MAX {
            return Err(LedgerError::Exhausted);
        }
        let e = QuotaEntry { id: self.next_quota_id, kind, group, owner, tally: Tally::new(limit) };
        self.quotas.push(e);
        self.next_quota_id = self.next_quota_id + 1;
        proof {
            let m = self@;
            let o = old(self)@;
            let n = o.quotas.len() as int;
            assert(m.quotas[n] == e);
            assert forall|i: int, k: int|
                0 <= i < m.quotas.len() && 0 <= k < m.quotas.len() && i != k implies {
                    &&& (#[trigger] m.quotas[i]).id != (#[trigger] m.quotas[k]).id
                    &&& !(m.quotas[i].group == m.quotas[k].group && m.quotas[i].owner
                        == m.quotas[k].owner)
                } by {
                if i < n && k < n {
                    assert(o.quotas[i] == m.quotas[i] && o.quotas[k] == m.quotas[k]);
                } else if i < n {
                    assert(o.quotas[i] == m.quotas[i]);
                    assert(!(o.quotas[i].group == group && o.quotas[i].owner == owner));
                } else {
                    assert(o.quotas[k] == m.quotas[k]);
                    assert(!(o.quotas[k].group == group && o.quotas[k].owner == owner));
                }
            }
            assert(m.budgets == o.budgets);
            assert(m.flavors == o.flavors);
            assert forall|i: int| 0 <= i < m.quotas.len() implies {
                &&& (#[trigger] m.quotas[i]).tally.wf()
                &&& refs_match(m.quotas[i].kind, m.quotas[i].group, m.quotas[i].owner)
                &&& m.quotas[i].id < m.next_quota_id
            } by {
                if i < n {
                    assert(o.quotas[i] == m.quotas[i]);
                }
            }
        }
        Ok(e)
    }

    /// Whether an entry other than the one at `pos` covers `group` and `owner`.
    fn key_taken_elsewhere(&self, group: Option<u64>, owner: Option<u64>, pos: usize) -> (r: bool)
        ensures
            r == self@.key_taken_elsewhere(group, owner, pos as int),
    {
        let mut k: usize = 0;
        while k < self.quotas.len()
            invariant
                k <= self.quotas@.len(),
                forall|a: int|
                    0 <= a < k && a != pos ==> !((#[trigger] self.quotas@[a]).group == group
                        && self.quotas@[a].owner == owner),
            decreases self.quotas@.len() - k,
        {
            if k != pos && same_ref(self.quotas[k].group, group) && same_ref(self.quotas[k].owner, owner) {
                proof {
                    assert(self@.quotas[k as int].group == group);
                }
                return true;
            }
            k += 1;
        }
        false
    }

    /// Applies a partial update to the quota entry `id`; fields absent from
    /// the patch are left unchanged.
    pub fn modify(&mut self, id: u64, patch: QuotaPatch) -> (r: Result<QuotaEntry, LedgerError>)
        requires
            old(self)@.wf(),
        ensures
            r == old(self)@.modify_outcome(id, patch),
            r matches Ok(e) ==> final(self)@ == (LedgerModel {
                quotas: old(self)@.quotas.update(old(self)@.quota_pos(id), e),
                ..old(self)@
            }),
            r is Err ==> final(self)@ == old(self)@,
            final(self)@.wf(),
    {
        let pos = match self.find_quota(id) {
            Some(i) => i,
            None => {
                return Err(LedgerError::NotFound);
            },
        };
        let e = self.quotas[pos];
        let group = match patch.group {
            Some(g) => Some(g),
            None => e.group,
        };
        let owner = match patch.owner {
            Some(u) => Some(u),
            None => e.owner,
        };
        let limit = match patch.limit {
            Some(l) => l,
            None => e.tally.limit,
        };
        if limit < 0 {
            return Err(LedgerError::Invalid(ValidationIssue::NegativeLimit));
        }
        let fits = match e.kind {
            ScopeKind::Global => group.is_none() && owner.is_none(),
            ScopeKind::Group => group.is_some() && owner.is_none(),
            ScopeKind::User => group.is_some() && owner.is_some(),
        };
        if !fits {
            return Err(LedgerError::Invalid(ValidationIssue::ScopeMismatch));
        }
        if self.key_taken_elsewhere(group, owner, pos) {
            return Err(LedgerError::Invalid(ValidationIssue::DuplicateScope));
        }
        let n = QuotaEntry {
            id: e.id,
            kind: e.kind,
            group,
            owner,
            tally: Tally {
                limit,
                consumed: e.tally.consumed,
                outstanding: e.tally.outstanding,
                last_reserved_at: e.tally.last_reserved_at,
            },
        };
        self.quotas.set(pos, n);
        proof {
            let m = self@;
            let o = old(self)@;
            let p = pos as int;
            assert(n == patched(o.quotas[p], patch));
            assert forall|i: int, k: int|
                0 <= i < m.quotas.len() && 0 <= k < m.quotas.len() && i != k implies {
                    &&& (#[trigger] m.quotas[i]).id != (#[trigger] m.quotas[k]).id
                    &&& !(m.quotas[i].group == m.quotas[k].group && m.quotas[i].owner
                        == m.quotas[k].owner)
                } by {
                assert(o.quotas[i].id != o.quotas[k].id);
                if i == p {
                    assert(o.quotas[k] == m.quotas[k]);
                } else if k == p {
                    assert(o.quotas[i] == m.quotas[i]);
                }
            }
            assert forall|i: int| 0 <= i < m.quotas.len() implies {
                &&& (#[trigger] m.quotas[i]).tally.wf()
                &&& refs_match(m.quotas[i].kind, m.quotas[i].group, m.quotas[i].owner)
                &&& m.quotas[i].id < m.next_quota_id
            } by {
                assert(o.quotas[i].id < o.next_quota_id);
            }
        }
        Ok(n)
    }

    /// Deletes the quota entry `id`; deleting an absent entry is an error.
    pub fn delete(&mut self, id: u64) -> (r: Result<(), LedgerError>)
        requires
            old(self)@.wf(),
        ensures
            r is Err <==> !old(self)@.has_quota(id),
            r matches Err(e) ==> e == LedgerError::NotFound && final(self)@ == old(self)@,
            r is Ok ==> final(self)@ == (LedgerModel {
                quotas: old(self)@.quotas.remove(old(self)@.quota_pos(id)),
                ..old(self)@
            }),
            r is Ok ==> !final(self)@.has_quota(id),
            final(self)@.wf(),
    {
        let pos = match self.find_quota(id) {
            Some(i) => i,
            None => {
                return Err(LedgerError::NotFound);
            },
        };
        self.quotas.remove(pos);
        proof {
            let m = self@;
            let o = old(self)@;
            let p = pos as int;
            assert forall|a: int| 0 <= a < m.quotas.len() implies #[trigger] m.quotas[a] == o.quotas[
                if a < p { a } else { a + 1 }
            ] by {}
            assert forall|i: int, k: int|
                0 <= i < m.quotas.len() && 0 <= k < m.quotas.len() && i != k implies {
                    &&& (#[trigger] m.quotas[i]).id != (#[trigger] m.quotas[k]).id
                    &&& !(m.quotas[i].group == m.quotas[k].group && m.quotas[i].owner
                        == m.quotas[k].owner)
                } by {
                let oi = if i < p { i } else { i + 1 };
                let ok = if k < p { k } else { k + 1 };
                assert(o.quotas[oi].id != o.quotas[ok].id);
            }
            assert forall|i: int| 0 <= i < m.quotas.len() implies {
                &&& (#[trigger] m.quotas[i]).tally.wf()
                &&& refs_match(m.quotas[i].kind, m.quotas[i].group, m.quotas[i].owner)
                &&& m.quotas[i].id < m.next_quota_id
            } by {
                let oi = if i < p { i } else { i + 1 };
                assert(o.quotas[oi].id < o.next_quota_id);
            }
            if m.has_quota(id) {
                let w = choose|i: int| 0 <= i < m.quotas.len() && #[trigger] m.quotas[i].id == id;
                let ow = if w < p { w } else { w + 1 };
                assert(o.quotas[ow].id == id);
                assert(o.quotas[p].id == id);
                assert(false);
            }
        }
        Ok(())
    }

    /// Creates the budget entry of `owner`, with nothing used or reserved.
    pub fn create_budget(&mut self, owner: u64, limit: i64) -> (r: Result<BudgetEntry, LedgerError>)
        requires
            old(self)@.wf(),
        ensures
            r == old(self)@.create_budget_outcome(owner, limit),
            r matches Ok(e) ==> final(self)@ == old(self)@.with_budget(e),
            r is Err ==> final(self)@ == old(self)@,
            final(self)@.wf(),
    {
        if limit < 0 {
            return Err(LedgerError::Invalid(ValidationIssue::NegativeLimit));
        }
        if self.find_budget_for(owner).is_some() {
            return Err(LedgerError::Invalid(ValidationIssue::DuplicateScope));
        }
        if self.next_budget_id == u64::MAX {
            return Err(LedgerError::Exhausted);
        }
        let e = BudgetEntry { id: self.next_budget_id, owner, tally: Tally::new(limit) };
        self.budgets.push(e);
        self.next_budget_id = self.next_budget_id + 1;
        proof {
            let m = self@;
            let o = old(self)@;
            let n = o.budgets.len() as int;
            assert(m.budgets[n] == e);
            assert forall|j: int, k: int|
                0 <= j < m.budgets.len() && 0 <= k < m.budgets.len() && j != k implies {
                    &&& (#[trigger] m.budgets[j]).id != (#[trigger] m.budgets[k]).id
                    &&& m.budgets[j].owner != m.budgets[k].owner
                } by {
                if j < n && k < n {
                    assert(o.budgets[j] == m.budgets[j] && o.budgets[k] == m.budgets[k]);
                } else if j < n {
                    assert(o.budgets[j] == m.budgets[j]);
                    assert(o.budgets[j].owner != owner);
                } else {
                    assert(o.budgets[k] == m.budgets[k]);
                    assert(o.budgets[k].owner != owner);
                }
            }
            assert forall|j: int| 0 <= j < m.budgets.len() implies {
                &&& (#[trigger] m.budgets[j]).tally.wf()
                &&& m.budgets[j].id < m.next_budget_id
            } by {
                if j < n {
                    assert(o.budgets[j] == m.budgets[j]);
                }
            }
            assert(m.quotas == o.quotas);
            assert(m.flavors == o.flavors);
        }
        Ok(e)
    }

    /// The budget entry with identifier `id`, or `NotFound`.
    pub fn get_budget(&self, id: u64) -> (r: Result<BudgetEntry, LedgerError>)
        requires
            self@.wf(),
        ensures
            r matches Ok(e) ==> self@.has_budget(id) && e == self@.budgets[self@.budget_pos(id)],
            r matches Err(e) ==> !self@.has_budget(id) && e == LedgerError::NotFound,
    {
        match self.find_budget(id) {
            Some(j) => Ok(self.budgets[j]),
            None => Err(LedgerError::NotFound),
        }
    }

    /// The budget entry of `owner`, if there is one.
    pub fn budget_of(&self, owner: u64) -> (r: Option<BudgetEntry>)
        requires
            self@.wf(),
        ensures
            r is None <==> !self@.has_budget_for(owner),
            r matches Some(e) ==> e == self@.budgets[self@.budget_owner_pos(owner)],
    {
        match self.find_budget_for(owner) {
            Some(j) => Some(self.budgets[j]),
            None => None,
        }
    }

    /// Deletes the budget entry `id`; deleting an absent entry is an error.
    pub fn delete_budget(&mut self, id: u64) -> (r: Result<(), LedgerError>)
        requires
            old(self)@.wf(),
        ensures
            r is Err <==> !old(self)@.has_budget(id),
            r matches Err(e) ==> e == LedgerError::NotFound && final(self)@ == old(self)@,
            r is Ok ==> final(self)@ == (LedgerModel {
                budgets: old(self)@.budgets.remove(old(self)@.budget_pos(id)),
                ..old(self)@
            }),
            final(self)@.wf(),
    {
        let pos = match self.find_budget(id) {
            Some(j) => j,
            None => {
                return Err(LedgerError::NotFound);
            },
        };
        self.budgets.remove(pos);
        proof {
            let m = self@;
            let o = old(self)@;
            let p = pos as int;
            assert forall|a: int| 0 <= a < m.budgets.len() implies #[trigger] m.budgets[a] == o.budgets[
                if a < p { a } else { a + 1 }
            ] by {}
            assert forall|j: int, k: int|
                0 <= j < m.budgets.len() && 0 <= k < m.budgets.len() && j != k implies {
                    &&& (#[trigger] m.budgets[j]).id != (#[trigger] m.budgets[k]).id
                    &&& m.budgets[j].owner != m.budgets[k].owner
                } by {
                let oj = if j < p { j } else { j + 1 };
                let ok = if k < p { k } else { k + 1 };
                assert(o.budgets[oj].id != o.budgets[ok].id);
            }
            assert forall|j: int| 0 <= j < m.budgets.len() implies {
                &&& (#[trigger] m.budgets[j]).tally.wf()
                &&& m.budgets[j].id < m.next_budget_id
            } by {
                let oj = if j < p { j } else { j + 1 };
                assert(o.budgets[oj].id < o.next_budget_id);
            }
        }
        Ok(())
    }

    /// The number of quota entries.
    pub fn quota_count(&self) -> (r: usize)
        ensures
            r == self@.quotas.len(),
    {
        self.quotas.len()
    }

    /// The number of budget entries.
    pub fn budget_count(&self) -> (r: usize)
        ensures
            r == self@.budgets.len(),
    {
        self.budgets.len()
    }

    /// The quota entry at position `i`.
    pub(crate) fn quota_at(&self, i: usize) -> (r: QuotaEntry)
        requires
            i < self@.quotas.len(),
        ensures
            r == self@.quotas[i as int],
    {
        self.quotas[i]
    }

    /// The budget entry at position `j`.
    pub(crate) fn budget_at(&self, j: usize) -> (r: BudgetEntry)
        requires
            j < self@.budgets.len(),
        ensures
            r == self@.budgets[j as int],
    {
        self.budgets[j]
    }

    /// Replaces the tally of the quota entry at position `i`.
    pub(crate) fn set_quota_tally(&mut self, i: usize, t: Tally)
        requires
            old(self)@.wf(),
            i < old(self)@.quotas.len(),
            t.wf(),
        ensures
            final(self)@ == old(self)@.with_quota_tally(i as int, t),
            final(self)@.wf(),
    {
        let e = self.quotas[i];
        self.quotas.set(i, QuotaEntry { id: e.id, kind: e.kind, group: e.group, owner: e.owner, tally: t });
        proof {
            lemma_tally_update_keeps_wf(old(self)@, i as int, -1, t);
        }
    }

    /// Replaces the tally of the budget entry at position `j`.
    pub(crate) fn set_budget_tally(&mut self, j: usize, t: Tally)
        requires
            old(self)@.wf(),
            j < old(self)@.budgets.len(),
            t.wf(),
        ensures
            final(self)@ == old(self)@.with_budget_tally(j as int, t),
            final(self)@.wf(),
    {
        let e = self.budgets[j];
        self.budgets.set(j, BudgetEntry { id: e.id, owner: e.owner, tally: t });
        proof {
            lemma_tally_update_keeps_wf(old(self)@, -1, j as int, t);
        }
    }

    /// Atomically reserves `delta` units against the entry `target`: accepted
    /// only if confirmed usage plus outstanding reservations stays within the
    /// limit, in which case the new outstanding total is returned; a rejected
    /// reservation changes nothing.
    pub fn reserve(&mut self, target: EntryRef, delta: i64, now: u64) -> (r: Result<i64, LedgerError>)
        requires
            old(self)@.wf(),
        ensures
            (final(self)@, r) == old(self)@.reserve_outcome(target, delta as int, now),
            final(self)@.wf(),
    {
        match target {
            EntryRef::Quota(id) => {
                let i = match self.find_quota(id) {
                    Some(i) => i,
                    None => {
                        return Err(LedgerError::NotFound);
                    },
                };
                let mut t = self.quotas[i].tally;
                if t.reserve(delta, now) {
                    self.set_quota_tally(i, t);
                    Ok(t.outstanding)
                } else {
                    Err(LedgerError::QuotaExceeded)
                }
            },
            EntryRef::Budget(id) => {
                let j = match self.find_budget(id) {
                    Some(j) => j,
                    None => {
                        return Err(LedgerError::NotFound);
                    },
                };
                let mut t = self.budgets[j].tally;
                if t.reserve(delta, now) {
                    self.set_budget_tally(j, t);
                    Ok(t.outstanding)
                } else {
                    Err(LedgerError::BudgetExceeded)
                }
            },
        }
    }

    /// The quota entry with identifier `id`, or `NotFound`.
    pub fn get(&self, id: u64) -> (r: Result<QuotaEntry, LedgerError>)
        requires
            self@.wf(),
        ensures
            r matches Ok(e) ==> self@.has_quota(id) && e == self@.quotas[self@.quota_pos(id)],
            r matches Err(e) ==> !self@.has_quota(id) && e == LedgerError::NotFound,
    {
        match self.find_quota(id) {
            Some(i) => Ok(self.quotas[i]),
            None => Err(LedgerError::NotFound),
        }
    }

    /// The quota entries that the filter selects, in ledger order.
    pub fn list(&self, filter: ListFilter) -> (r: Vec<QuotaEntry>)
        ensures
            r@ == listed(self@.quotas, filter),
    {
        let mut out: Vec<QuotaEntry> = Vec::new();
        let mut i: usize = 0;
        while i < self.quotas.len()
            invariant
                i <= self.quotas@.len(),
                out@ == listed(self.quotas@.subrange(0, i as int), filter),
            decreases self.quotas@.len() - i,
        {
            let e = self.quotas[i];
            let keep = match filter {
                ListFilter::All => true,
                ListFilter::ByGroup(g) => same_ref(e.group, Some(g)),
                ListFilter::ByUser(u) => same_ref(e.owner, Some(u)),
            };
            proof {
                let next = self.quotas@.subrange(0, i + 1);
                assert(next.drop_last() == self.quotas@.subrange(0, i as int));
                assert(next.last() == e);
                assert(keep == selected_by(e, filter));
                reveal_with_fuel(Seq::filter, 1);
                assert(listed(next, filter) == if keep {
                    listed(self.quotas@.subrange(0, i as int), filter).push(e)
                } else {
                    listed(self.quotas@.subrange(0, i as int), filter)
                });
            }
            if keep {
                out.push(e);
            }
            i += 1;
        }
        proof {
            assert(self.quotas@.subrange(0, self.quotas@.len() as int) == self.quotas@);
        }
        out
    }
}

} // verus!
