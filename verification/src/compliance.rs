//! The compliance registry: KYC records, the allowlist of approved accounts
//! and the set of blocked jurisdictions, administered by one account.
use vstd::prelude::*;
use std::collections::HashMap;
use crate::AccountId;
use crate::allowlist::{ALLOWLIST_PAGE_SIZE, Allowlist, flatten, pages_after_push, pages_of_pushes};
use crate::jurisdiction::{Jurisdiction, parse_jurisdiction, spec_parse_jurisdiction};

verus! {

broadcast use vstd::std_specs::hash::group_hash_axioms;

/// Version of the registry's interface.
pub const COMPLIANCE_VERSION: u32 = 1;

/// Standing of a recorded account.
#[derive(Clone, Copy, Debug, PartialEq, Eq, Structural)]
pub enum ComplianceStatus {
    Approved,
    Suspended,
}

/// What the registry knows of one account.
#[derive(Clone, Copy, Debug, PartialEq, Eq, Structural)]
pub struct ComplianceRecord {
    pub address: AccountId,
    pub status: ComplianceStatus,
    pub jurisdiction: Jurisdiction,
    /// Last ledger sequence at which the approval holds; 0 means it never expires.
    pub expires_at: u32,
}

/// Why a registry operation was refused.
#[derive(Clone, Copy, Debug, PartialEq, Eq, Structural)]
pub enum ComplianceError {
    AlreadyInitialized,
    NotInitialized,
    RecordNotFound,
    InvalidExpiry,
    Unauthorized,
    InvalidJurisdiction,
}

impl ComplianceError {
    /// The numeric code of the error.
    pub open spec fn spec_code(self) -> u32 {
        match self {
            ComplianceError::AlreadyInitialized => 1,
            ComplianceError::NotInitialized => 2,
            ComplianceError::RecordNotFound => 3,
            ComplianceError::InvalidExpiry => 4,
            ComplianceError::Unauthorized => 5,
            ComplianceError::InvalidJurisdiction => 6,
        }
    }

    /// The numeric code under which the error is reported.
    pub fn code(&self) -> (r: u32)
        ensures
            r == self.spec_code(),
    {
        match self {
            ComplianceError::AlreadyInitialized => 1,
            ComplianceError::NotInitialized => 2,
            ComplianceError::RecordNotFound => 3,
            ComplianceError::InvalidExpiry => 4,
            ComplianceError::Unauthorized => 5,
            ComplianceError::InvalidJurisdiction => 6,
        }
    }
}

/// Whether an approval with this expiry has lapsed at ledger sequence `now`.
pub open spec fn is_expired(expires_at: u32, now: u32) -> bool {
    expires_at != 0 && now > expires_at
}

/// The abstract state of a registry.
pub struct RegistryView {
    /// The registry's own contract address.
    pub id: AccountId,
    pub admin: Option<AccountId>,
    pub records: Map<AccountId, ComplianceRecord>,
    pub allowlist: Seq<AccountId>,
    pub blocked: Set<Jurisdiction>,
}

impl RegistryView {
    /// Whether `a` may hold and move assets at ledger sequence `now`: it has an
    /// approved, unexpired record whose jurisdiction is not blocked.
    pub open spec fn allows(self, a: AccountId, now: u32) -> bool {
        &&& self.records.contains_key(a)
        &&& self.records[a].status == ComplianceStatus::Approved
        &&& !is_expired(self.records[a].expires_at, now)
        &&& !self.blocked.contains(self.records[a].jurisdiction)
    }

    /// The refusal an admin-only operation by `caller` meets, if any.
    pub open spec fn admin_check(self, caller: AccountId) -> Option<ComplianceError> {
        match self.admin {
            None => Some(ComplianceError::NotInitialized),
            Some(admin) => if admin == caller {
                None
            } else {
                Some(ComplianceError::Unauthorized)
            },
        }
    }

    /// Initialisation: sets the admin, once.
    pub open spec fn initialize(self, admin: AccountId) -> Result<RegistryView, ComplianceError> {
        if self.admin is Some {
            Err(ComplianceError::AlreadyInitialized)
        } else {
            Ok(RegistryView { admin: Some(admin), ..self })
        }
    }

    /// Approval by the admin: the code must be two ASCII letters (upper-cased),
    /// the expiry 0 or not before `now`; the record is replaced and the
    /// account listed at the end unless already listed.
    pub open spec fn add_to_allowlist(
        self,
        caller: AccountId,
        user: AccountId,
        code: Seq<char>,
        expires_at: u32,
        now: u32,
    ) -> Result<RegistryView, ComplianceError> {
        if self.admin_check(caller) is Some {
            Err(self.admin_check(caller).unwrap())
        } else if spec_parse_jurisdiction(code) is None {
            Err(ComplianceError::InvalidJurisdiction)
        } else if expires_at != 0 && expires_at < now {
            Err(ComplianceError::InvalidExpiry)
        } else {
            let rec = ComplianceRecord {
                address: user,
                status: ComplianceStatus::Approved,
                jurisdiction: spec_parse_jurisdiction(code).unwrap(),
                expires_at,
            };
            Ok(
                RegistryView {
                    records: self.records.insert(user, rec),
                    allowlist: if self.allowlist.contains(user) {
                        self.allowlist
                    } else {
                        self.allowlist.push(user)
                    },
                    ..self
                },
            )
        }
    }

    /// Suspension by the admin of a recorded account.
    pub open spec fn suspend(self, caller: AccountId, user: AccountId) -> Result<
        RegistryView,
        ComplianceError,
    > {
        if self.admin_check(caller) is Some {
            Err(self.admin_check(caller).unwrap())
        } else if !self.records.contains_key(user) {
            Err(ComplianceError::RecordNotFound)
        } else {
            let rec = ComplianceRecord { status: ComplianceStatus::Suspended, ..self.records[user] };
            Ok(RegistryView { records: self.records.insert(user, rec), ..self })
        }
    }

    /// Removal by the admin of a recorded account: record and list entry go.
    pub open spec fn remove(self, caller: AccountId, user: AccountId) -> Result<
        RegistryView,
        ComplianceError,
    > {
        if self.admin_check(caller) is Some {
            Err(self.admin_check(caller).unwrap())
        } else if !self.records.contains_key(user) {
            Err(ComplianceError::RecordNotFound)
        } else {
            Ok(
                RegistryView {
                    records: self.records.remove(user),
                    allowlist: self.allowlist.remove(self.allowlist.index_of(user)),
                    ..self
                },
            )
        }
    }

    /// Blocking of a jurisdiction by the admin.
    pub open spec fn block_jurisdiction(self, caller: AccountId, code: Seq<char>) -> Result<
        RegistryView,
        ComplianceError,
    > {
        if self.admin_check(caller) is Some {
            Err(self.admin_check(caller).unwrap())
        } else if spec_parse_jurisdiction(code) is None {
            Err(ComplianceError::InvalidJurisdiction)
        } else {
            Ok(
                RegistryView {
                    blocked: self.blocked.insert(spec_parse_jurisdiction(code).unwrap()),
                    ..self
                },
            )
        }
    }

    /// Unblocking of a jurisdiction by the admin.
    pub open spec fn unblock_jurisdiction(self, caller: AccountId, code: Seq<char>) -> Result<
        RegistryView,
        ComplianceError,
    > {
        if self.admin_check(caller) is Some {
            Err(self.admin_check(caller).unwrap())
        } else if spec_parse_jurisdiction(code) is None {
            Err(ComplianceError::InvalidJurisdiction)
        } else {
            Ok(
                RegistryView {
                    blocked: self.blocked.remove(spec_parse_jurisdiction(code).unwrap()),
                    ..self
                },
            )
        }
    }

    /// Whether the record of `a` survives pruning at `now`.
    pub open spec fn survives_pruning(self, a: AccountId, now: u32) -> bool {
        !is_expired(self.records[a].expires_at, now)
    }

    /// Pruning by the admin: every lapsed record and its list entry go.
    pub open spec fn prune_expired(self, caller: AccountId, now: u32) -> Result<
        RegistryView,
        ComplianceError,
    > {
        if self.admin_check(caller) is Some {
            Err(self.admin_check(caller).unwrap())
        } else {
            Ok(
                RegistryView {
                    records: Map::new(
                        |a: AccountId|
                            self.records.contains_key(a) && self.survives_pruning(a, now),
                        |a: AccountId| self.records[a],
                    ),
                    allowlist: self.allowlist.filter(|a: AccountId| self.survives_pruning(a, now)),
                    ..self
                },
            )
        }
    }
}

/// What a compliance-gated asset consults before letting an account hold or
/// move it: whether the account is allowed at a ledger sequence.
pub trait ComplianceGate {
    /// The contract address of the registry that answers.
    spec fn gate_id(&self) -> AccountId;

    /// Whether `a` is allowed at ledger sequence `now`.
    spec fn admits(&self, a: AccountId, now: u32) -> bool;

    /// Asks whether `a` is allowed at ledger sequence `now`.
    fn is_allowed(&self, a: AccountId, now: u32) -> (r: bool)
        ensures
            r == self.admits(a, now),
    ;
}

/// `after` is what `step` prescribes from `before`, and `r` reports it.
pub open spec fn applied(
    before: RegistryView,
    after: RegistryView,
    r: Result<(), ComplianceError>,
    step: Result<RegistryView, ComplianceError>,
) -> bool {
    match step {
        Ok(v) => r is Ok && after == v,
        Err(e) => r == Err::<(), ComplianceError>(e) && after == before,
    }
}

/// A compliance registry.
pub struct ComplianceRegistry {
    id: AccountId,
    admin: Option<AccountId>,
    records: HashMap<AccountId, ComplianceRecord>,
    allowlist: Allowlist,
    blocked: Vec<Jurisdiction>,
}

impl View for ComplianceRegistry {
    type V = RegistryView;

    closed spec fn view(&self) -> RegistryView {
        RegistryView {
            id: self.id,
            admin: self.admin,
            records: self.records@,
            allowlist: self.allowlist@,
            blocked: self.blocked@.to_set(),
        }
    }
}

impl ComplianceRegistry {
    /// The allowlist is well formed, it lists exactly the recorded accounts,
    /// and each record is filed under its own address with a valid code.
    pub closed spec fn wf(self) -> bool {
        &&& self.allowlist.wf()
        &&& forall|a: AccountId| #[trigger]
            self.records@.contains_key(a) <==> self.allowlist@.contains(a)
        &&& forall|a: AccountId| #[trigger]
            self.records@.contains_key(a) ==> {
                &&& self.records@[a].address == a
                &&& self.records@[a].jurisdiction.valid()
            }
    }

    /// The allowlist's pages, in order.
    pub closed spec fn allowlist_pages(self) -> Seq<Seq<AccountId>> {
        self.allowlist.pages_view()
    }

    /// Accounts are listed at most once, every recorded account is listed,
    /// and every record describes the account it is filed under.
    pub proof fn lemma_consistent(self)
        requires
            self.wf(),
        ensures
            self@.allowlist.no_duplicates(),
            forall|a: AccountId| #[trigger]
                self@.records.contains_key(a) <==> self@.allowlist.contains(a),
            forall|a: AccountId| #[trigger]
                self@.records.contains_key(a) ==> self@.records[a].address == a
                    && self@.records[a].jurisdiction.valid(),
    {
        self.allowlist.lemma_pages_bounded();
    }

    /// The allowlist's pages laid end to end are the allowlist, and none holds
    /// more than `ALLOWLIST_PAGE_SIZE` accounts.
    pub proof fn lemma_allowlist_pages(self)
        requires
            self.wf(),
        ensures
            flatten(self.allowlist_pages()) == self@.allowlist,
            forall|i: int|
                0 <= i < self.allowlist_pages().len() ==> #[trigger] self.allowlist_pages()[i].len()
                    <= ALLOWLIST_PAGE_SIZE,
    {
        self.allowlist.lemma_pages_bounded();
    }

    /// A registry at contract address `id` with no admin, no records and
    /// nothing blocked.
    pub fn new(id: AccountId) -> (r: Self)
        ensures
            r.wf(),
            r@.id == id,
            r@.admin is None,
            r@.records == Map::<AccountId, ComplianceRecord>::empty(),
            r@.allowlist == Seq::<AccountId>::empty(),
            r@.blocked == Set::<Jurisdiction>::empty(),
    {
        let r = ComplianceRegistry {
            id,
            admin: None,
            records: HashMap::new(),
            allowlist: Allowlist::new(),
            blocked: Vec::new(),
        };
        assert(r.blocked@.to_set() =~= Set::<Jurisdiction>::empty());
        r
    }

    /// The registry's interface version.
    pub fn version(&self) -> (r: u32)
        ensures
            r == COMPLIANCE_VERSION,
    {
        COMPLIANCE_VERSION
    }

    fn check_admin(&self, caller: AccountId) -> (r: Option<ComplianceError>)
        ensures
            r == self@.admin_check(caller),
    {
        match self.admin {
            None => Some(ComplianceError::NotInitialized),
            Some(admin) => if admin == caller {
                None
            } else {
                Some(ComplianceError::Unauthorized)
            },
        }
    }

    /// Makes `admin` the registry's administrator; only once.
    pub fn initialize(&mut self, admin: AccountId) -> (r: Result<(), ComplianceError>)
        requires
            old(self).wf(),
        ensures
            final(self).wf(),
            applied(old(self)@, final(self)@, r, old(self)@.initialize(admin)),
            final(self).allowlist_pages() == old(self).allowlist_pages(),
    {
        if self.admin.is_some() {
            return Err(ComplianceError::AlreadyInitialized);
        }
        self.admin = Some(admin);
        Ok(())
    }

    /// The administrator.
    pub fn get_admin(&self) -> (r: Result<AccountId, ComplianceError>)
        ensures
            match self@.admin {
                Some(a) => r == Ok::<AccountId, ComplianceError>(a),
                None => r == Err::<AccountId, ComplianceError>(ComplianceError::NotInitialized),
            },
    {
        match self.admin {
            Some(a) => Ok(a),
            None => Err(ComplianceError::NotInitialized),
        }
    }

    /// Records `user` as approved under jurisdiction `code` until ledger
    /// sequence `expires_at` (0: no expiry), listing it if it is not yet
    /// listed. The code is normalised to upper case.
    pub fn add_to_allowlist(
        &mut self,
        caller: AccountId,
        user: AccountId,
        code: &str,
        expires_at: u32,
        now: u32,
    ) -> (r: Result<(), ComplianceError>)
        requires
            old(self).wf(),
        ensures
            final(self).wf(),
            applied(
                old(self)@,
                final(self)@,
                r,
                old(self)@.add_to_allowlist(caller, user, code@, expires_at, now),
            ),
            final(self).allowlist_pages() == if r is Ok && !old(self)@.allowlist.contains(user) {
                pages_after_push(old(self).allowlist_pages(), user)
            } else {
                old(self).allowlist_pages()
            },
    {
        if let Some(e) = self.check_admin(caller) {
            return Err(e);
        }
        let jurisdiction = match parse_jurisdiction(code) {
            Some(j) => j,
            None => {
                return Err(ComplianceError::InvalidJurisdiction);
            },
        };
        if expires_at != 0 && expires_at < now {
            return Err(ComplianceError::InvalidExpiry);
        }
        let rec = ComplianceRecord {
            address: user,
            status: ComplianceStatus::Approved,
            jurisdiction,
            expires_at,
        };
        let ghost before = self.allowlist@;
        if !self.allowlist.contains(user) {
            self.allowlist.push(user);
        }
        self.records.insert(user, rec);
        proof {
            assert forall|a: AccountId| #[trigger]
                self.records@.contains_key(a) <==> self.allowlist@.contains(a) by {
                if a == user {
                    if !before.contains(user) {
                        assert(self.allowlist@[before.len() as int] == user);
                    }
                } else if self.allowlist@.contains(a) && !before.contains(user) {
                    let t = choose|t: int| 0 <= t < self.allowlist@.len() && self.allowlist@[t] == a;
                    assert(before[t] == a);
                } else if before.contains(a) && !before.contains(user) {
                    let t = choose|t: int| 0 <= t < before.len() && before[t] == a;
                    assert(self.allowlist@[t] == a);
                }
            }
        }
        Ok(())
    }

    /// The record of `user`, if any.
    pub fn get_record(&self, user: AccountId) -> (r: Option<ComplianceRecord>)
        ensures
            r == (if self@.records.contains_key(user) {
                Some(self@.records[user])
            } else {
                None
            }),
    {
        match self.records.get(&user) {
            Some(rec) => Some(*rec),
            None => None,
        }
    }

    /// The recorded status of `user`; `None` for an account never recorded.
    pub fn status_of(&self, user: AccountId) -> (r: Option<ComplianceStatus>)
        ensures
            r == (if self@.records.contains_key(user) {
                Some(self@.records[user].status)
            } else {
                None
            }),
    {
        match self.records.get(&user) {
            Some(rec) => Some(rec.status),
            None => None,
        }
    }

    fn blocked_contains(&self, j: Jurisdiction) -> (r: bool)
        ensures
            r == self@.blocked.contains(j),
    {
        let mut i: usize = 0;
        while i < self.blocked.len()
            invariant
                i <= self.blocked@.len(),
                forall|t: int| 0 <= t < i ==> self.blocked@[t] != j,
            decreases self.blocked@.len() - i,
        {
            if self.blocked[i] == j {
                proof {
                    assert(self.blocked@.contains(self.blocked@[i as int]));
                }
                return true;
            }
            i += 1;
        }
        false
    }

    /// Whether `user` may hold and move assets at ledger sequence `now`.
    pub fn is_allowed(&self, user: AccountId, now: u32) -> (r: bool)
        ensures
            r == self@.allows(user, now),
    {
        match self.records.get(&user) {
            None => false,
            Some(rec) => {
                if rec.status != ComplianceStatus::Approved {
                    false
                } else if rec.expires_at != 0 && now > rec.expires_at {
                    false
                } else {
                    !self.blocked_contains(rec.jurisdiction)
                }
            },
        }
    }

    /// Marks the record of `user` as suspended; it stays listed.
    pub fn suspend(&mut self, caller: AccountId, user: AccountId) -> (r: Result<
        (),
        ComplianceError,
    >)
        requires
            old(self).wf(),
        ensures
            final(self).wf(),
            applied(old(self)@, final(self)@, r, old(self)@.suspend(caller, user)),
            final(self).allowlist_pages() == old(self).allowlist_pages(),
    {
        if let Some(e) = self.check_admin(caller) {
            return Err(e);
        }
        let rec = match self.records.get(&user) {
            Some(rec) => *rec,
            None => {
                return Err(ComplianceError::RecordNotFound);
            },
        };
        let updated = ComplianceRecord { status: ComplianceStatus::Suspended, ..rec };
        self.records.insert(user, updated);
        proof {
            assert(self@.records =~= old(self)@.records.insert(user, updated));
        }
        Ok(())
    }

    /// Deletes the record of `user` and takes it off the allowlist.
    pub fn remove(&mut self, caller: AccountId, user: AccountId) -> (r: Result<
        (),
        ComplianceError,
    >)
        requires
            old(self).wf(),
        ensures
            final(self).wf(),
            applied(old(self)@, final(self)@, r, old(self)@.remove(caller, user)),
            final(self).allowlist_pages().len() == old(self).allowlist_pages().len(),
            r is Err ==> final(self).allowlist_pages() == old(self).allowlist_pages(),
            r is Ok ==> exists|k: int, j: int|
                0 <= k < old(self).allowlist_pages().len() && 0 <= j < old(self).allowlist_pages()[k].len()
                    && old(self).allowlist_pages()[k][j] == user && final(self).allowlist_pages()
                    == old(self).allowlist_pages().update(k, old(self).allowlist_pages()[k].remove(j)),
    {
        if let Some(e) = self.check_admin(caller) {
            return Err(e);
        }
        if !self.records.contains_key(&user) {
            return Err(ComplianceError::RecordNotFound);
        }
        let ghost before = self.allowlist@;
        proof {
            self.allowlist.lemma_pages_bounded();
        }
        self.allowlist.remove(user);
        self.records.remove(&user);
        proof {
            let k = before.index_of(user);
            assert(before[k] == user);
            assert forall|a: AccountId| #[trigger]
                self.records@.contains_key(a) <==> self.allowlist@.contains(a) by {
                if self.allowlist@.contains(a) {
                    let t = choose|t: int| 0 <= t < self.allowlist@.len() && self.allowlist@[t] == a;
                    let t1 = if t < k { t } else { t + 1 };
                    assert(before[t1] == a);
                    assert(before.contains(a));
                }
                if self.records@.contains_key(a) {
                    let t = choose|t: int| 0 <= t < before.len() && before[t] == a;
                    assert(t != k);
                    let t2 = if t < k { t } else { t - 1 };
                    assert(self.allowlist@[t2] == a);
                }
            }
        }
        Ok(())
    }

    /// Deletes every record whose approval has lapsed at `now`, together with
    /// its allowlist entry; the remaining entries keep their order.
    pub fn prune_expired(&mut self, caller: AccountId, now: u32) -> (r: Result<
        (),
        ComplianceError,
    >)
        requires
            old(self).wf(),
        ensures
            final(self).wf(),
            applied(old(self)@, final(self)@, r, old(self)@.prune_expired(caller, now)),
            r is Err ==> final(self).allowlist_pages() == old(self).allowlist_pages(),
            r is Ok ==> final(self).allowlist_pages() == pages_of_pushes(final(self)@.allowlist),
    {
        if let Some(e) = self.check_admin(caller) {
            return Err(e);
        }
        proof {
            self.lemma_consistent();
        }
        let listed = self.allowlist.to_vec();
        let ghost list = listed@;
        let ghost before = self.records@;
        let ghost keep = |a: AccountId| old(self)@.survives_pruning(a, now);
        let mut fresh = Allowlist::new();
        let mut i: usize = 0;
        while i < listed.len()
            invariant
                listed@ == list,
                i <= list.len(),
                list.no_duplicates(),
                forall|a: AccountId| #[trigger] before.contains_key(a) <==> list.contains(a),
                keep == (|a: AccountId| old(self)@.survives_pruning(a, now)),
                before == old(self)@.records,
                self.id == old(self).id,
                self.admin == old(self).admin,
                self.blocked@ == old(self).blocked@,
                fresh.wf(),
                fresh.pages_view() == pages_of_pushes(fresh@),
                fresh@ == list.take(i as int).filter(keep),
                forall|a: AccountId| #[trigger]
                    self.records@.contains_key(a) <==> (before.contains_key(a) && !(list.take(
                        i as int,
                    ).contains(a) && !keep(a))),
                forall|a: AccountId| #[trigger]
                    self.records@.contains_key(a) ==> self.records@[a] == before[a],
            decreases list.len() - i,
        {
            let a = listed[i];
            proof {
                assert(list.contains(a));
                if list.take(i as int).contains(a) {
                    let t = choose|t: int| 0 <= t < i && list.take(i as int)[t] == a;
                    assert(list[t] == list[i as int]);
                }
                if fresh@.contains(a) {
                    list.take(i as int).lemma_filter_contains_rev(keep, a);
                }
            }
            let expired = match self.records.get(&a) {
                Some(rec) => rec.expires_at != 0 && now > rec.expires_at,
                None => false,
            };
            let ghost prev = fresh@;
            if expired {
                self.records.remove(&a);
            } else {
                fresh.push(a);
                proof {
                    assert(fresh@.drop_last() =~= prev);
                }
            }
            proof {
                let tk = list.take(i + 1);
                assert(tk.drop_last() =~= list.take(i as int));
                assert(tk.last() == a);
                reveal(Seq::filter);
                assert(fresh@ == tk.filter(keep));
                assert forall|b: AccountId|
                    tk.contains(b) <==> (list.take(i as int).contains(b) || b == a) by {
                    if tk.contains(b) {
                        let t = choose|t: int| 0 <= t < tk.len() && tk[t] == b;
                        if t < i {
                            assert(list.take(i as int)[t] == b);
                        }
                    }
                    if list.take(i as int).contains(b) {
                        let t = choose|t: int| 0 <= t < i && list.take(i as int)[t] == b;
                        assert(tk[t] == b);
                    }
                    if b == a {
                        assert(tk[i as int] == b);
                    }
                }
            }
            i += 1;
        }
        proof {
            assert(list.take(i as int) =~= list);
            let pruned = old(self)@.prune_expired(caller, now).unwrap();
            assert(self.records@ =~= pruned.records);
            assert forall|a: AccountId| #[trigger]
                self.records@.contains_key(a) <==> fresh@.contains(a) by {
                if fresh@.contains(a) {
                    list.lemma_filter_contains_rev(keep, a);
                    let t = choose|t: int| 0 <= t < fresh@.len() && fresh@[t] == a;
                    list.lemma_filter_pred(keep, t);
                    assert(keep(fresh@[t]));
                }
                if self.records@.contains_key(a) {
                    let t = choose|t: int| 0 <= t < list.len() && list[t] == a;
                    list.lemma_filter_contains(keep, t);
                }
            }
        }
        self.allowlist = fresh;
        proof {
            let pruned = old(self)@.prune_expired(caller, now).unwrap();
            assert(list == old(self)@.allowlist);
            assert(self@.allowlist == pruned.allowlist);
            assert(self@.records == pruned.records);
            assert(self@ == pruned);
        }
        Ok(())
    }

    /// Adds the normalised `code` to the blocked jurisdictions.
    pub fn block_jurisdiction(&mut self, caller: AccountId, code: &str) -> (r: Result<
        (),
        ComplianceError,
    >)
        requires
            old(self).wf(),
        ensures
            final(self).wf(),
            applied(old(self)@, final(self)@, r, old(self)@.block_jurisdiction(caller, code@)),
            final(self).allowlist_pages() == old(self).allowlist_pages(),
    {
        if let Some(e) = self.check_admin(caller) {
            return Err(e);
        }
        let j = match parse_jurisdiction(code) {
            Some(j) => j,
            None => {
                return Err(ComplianceError::InvalidJurisdiction);
            },
        };
        if !self.blocked_contains(j) {
            self.blocked.push(j);
        }
        proof {
            assert(self.blocked@.to_set() =~= old(self).blocked@.to_set().insert(j)) by {
                assert(self.blocked@.contains(j)) by {
                    if !old(self).blocked@.contains(j) {
                        assert(self.blocked@[self.blocked@.len() - 1] == j);
                    }
                }
                assert forall|x: Jurisdiction| #[trigger]
                    self.blocked@.contains(x) implies x == j || old(self).blocked@.contains(
                    x,
                ) by {
                    let t = choose|t: int| 0 <= t < self.blocked@.len() && self.blocked@[t] == x;
                    if t < old(self).blocked@.len() {
                        assert(old(self).blocked@[t] == x);
                    }
                }
                assert forall|x: Jurisdiction| #[trigger]
                    old(self).blocked@.contains(x) implies self.blocked@.contains(x) by {
                    let t = choose|t: int|
                        0 <= t < old(self).blocked@.len() && old(self).blocked@[t] == x;
                    assert(self.blocked@[t] == x);
                }
            }
        }
        Ok(())
    }

    /// Removes the normalised `code` from the blocked jurisdictions.
    pub fn unblock_jurisdiction(&mut self, caller: AccountId, code: &str) -> (r: Result<
        (),
        ComplianceError,
    >)
        requires
            old(self).wf(),
        ensures
            final(self).wf(),
            applied(old(self)@, final(self)@, r, old(self)@.unblock_jurisdiction(caller, code@)),
            final(self).allowlist_pages() == old(self).allowlist_pages(),
    {
        if let Some(e) = self.check_admin(caller) {
            return Err(e);
        }
        let j = match parse_jurisdiction(code) {
            Some(j) => j,
            None => {
                return Err(ComplianceError::InvalidJurisdiction);
            },
        };
        let mut kept: Vec<Jurisdiction> = Vec::new();
        let mut i: usize = 0;
        while i < self.blocked.len()
            invariant
                i <= self.blocked@.len(),
                forall|x: Jurisdiction|
                    #[trigger] kept@.contains(x) <==> (x != j && self.blocked@.take(
                        i as int,
                    ).contains(x)),
            decreases self.blocked@.len() - i,
        {
            let x = self.blocked[i];
            let ghost prev = kept@;
            if x != j {
                kept.push(x);
            }
            proof {
                let tk = self.blocked@.take(i + 1);
                assert(tk =~= self.blocked@.take(i as int).push(x));
                assert forall|y: Jurisdiction| #[trigger]
                    kept@.contains(y) <==> (y != j && tk.contains(y)) by {
                    if kept@.contains(y) {
                        let t = choose|t: int| 0 <= t < kept@.len() && kept@[t] == y;
                        if t < prev.len() {
                            assert(prev[t] == y);
                            assert(prev.contains(y));
                            let s = choose|s: int|
                                0 <= s < self.blocked@.take(i as int).len() && self.blocked@.take(
                                    i as int,
                                )[s] == y;
                            assert(tk[s] == y);
                        } else {
                            assert(tk[i as int] == y);
                        }
                    }
                    if y != j && tk.contains(y) {
                        let s = choose|s: int| 0 <= s < tk.len() && tk[s] == y;
                        if s < i {
                            assert(self.blocked@.take(i as int)[s] == y);
                            assert(prev.contains(y));
                            let t = choose|t: int| 0 <= t < prev.len() && prev[t] == y;
                            assert(kept@[t] == y);
                        } else {
                            assert(kept@[kept@.len() - 1] == y);
                        }
                    }
                }
            }
            i += 1;
        }
        proof {
            assert(self.blocked@.take(i as int) =~= self.blocked@);
        }
        self.blocked = kept;
        proof {
            assert(self.blocked@.to_set() =~= old(self).blocked@.to_set().remove(j));
        }
        Ok(())
    }

    /// Whether the normalised `code` is blocked; an invalid code is not.
    pub fn is_jurisdiction_blocked(&self, code: &str) -> (r: bool)
        ensures
            r == (spec_parse_jurisdiction(code@) matches Some(j) && self@.blocked.contains(j)),
    {
        match parse_jurisdiction(code) {
            Some(j) => self.blocked_contains(j),
            None => false,
        }
    }

    /// The listed accounts, in the order they were first listed.
    pub fn get_allowlist(&self) -> (r: Vec<AccountId>)
        ensures
            r@ == self@.allowlist,
    {
        self.allowlist.to_vec()
    }

    /// The number of allowlist pages opened so far.
    pub fn allowlist_page_count(&self) -> (r: usize)
        ensures
            r == self.allowlist_pages().len(),
    {
        self.allowlist.page_count()
    }
}

impl ComplianceGate for ComplianceRegistry {
    open spec fn gate_id(&self) -> AccountId {
        self@.id
    }

    open spec fn admits(&self, a: AccountId, now: u32) -> bool {
        self@.allows(a, now)
    }

    fn is_allowed(&self, a: AccountId, now: u32) -> (r: bool) {
        ComplianceRegistry::is_allowed(self, a, now)
    }
}

/// The records keyed by their addresses; a later record for an address wins.
pub open spec fn records_by_address(s: Seq<ComplianceRecord>) -> Map<AccountId, ComplianceRecord>
    decreases s.len(),
{
    if s.len() == 0 {
        Map::empty()
    } else {
        records_by_address(s.drop_last()).insert(s.last().address, s.last())
    }
}

/// The addresses of the records, in order.
pub open spec fn record_addresses(s: Seq<ComplianceRecord>) -> Seq<AccountId> {
    s.map_values(|r: ComplianceRecord| r.address)
}

/// The records of the listed accounts, in list order.
pub open spec fn records_in_list_order(v: RegistryView) -> Seq<ComplianceRecord> {
    v.allowlist.map_values(|a: AccountId| v.records[a])
}

/// The registry state that persisted parts stand for: the records, in list
/// order, must name distinct accounts under valid jurisdiction codes.
pub open spec fn registry_from_parts(
    id: AccountId,
    admin: Option<AccountId>,
    records: Seq<ComplianceRecord>,
    blocked: Seq<Jurisdiction>,
) -> Option<RegistryView> {
    if record_addresses(records).no_duplicates() && forall|i: int|
        0 <= i < records.len() ==> #[trigger] records[i].jurisdiction.valid() {
        Some(
            RegistryView {
                id,
                admin,
                records: records_by_address(records),
                allowlist: record_addresses(records),
                blocked: blocked.to_set(),
            },
        )
    } else {
        None
    }
}

proof fn lemma_records_by_address(s: Seq<ComplianceRecord>)
    requires
        record_addresses(s).no_duplicates(),
    ensures
        forall|a: AccountId| #[trigger]
            records_by_address(s).contains_key(a) <==> record_addresses(s).contains(a),
        forall|i: int| 0 <= i < s.len() ==> records_by_address(s)[#[trigger] s[i].address] == s[i],
    decreases s.len(),
{
    if s.len() > 0 {
        let s2 = s.drop_last();
        assert(record_addresses(s2) =~= record_addresses(s).drop_last());
        lemma_records_by_address(s2);
        assert forall|a: AccountId| #[trigger]
            records_by_address(s).contains_key(a) <==> record_addresses(s).contains(a) by {
            assert(record_addresses(s)[s.len() - 1] == s.last().address);
            if record_addresses(s).contains(a) {
                let t = choose|t: int| 0 <= t < s.len() && record_addresses(s)[t] == a;
                if t < s.len() - 1 {
                    assert(record_addresses(s2)[t] == a);
                    assert(record_addresses(s2).contains(a));
                }
            }
            if records_by_address(s2).contains_key(a) {
                assert(record_addresses(s2).contains(a));
                let t = choose|t: int| 0 <= t < s2.len() && record_addresses(s2)[t] == a;
                assert(record_addresses(s)[t] == a);
            }
        }
        assert forall|i: int| 0 <= i < s.len() implies records_by_address(s)[#[trigger] s[i].address]
            == s[i] by {
            if i < s.len() - 1 {
                assert(record_addresses(s)[i] != record_addresses(s)[s.len() - 1]);
                assert(s2[i] == s[i]);
            }
        }
    }
}

/// Persisting a consistent registry and reading it back gives the same state.
pub proof fn law_registry_parts_round_trip(v: RegistryView, blocked: Seq<Jurisdiction>)
    requires
        v.allowlist.no_duplicates(),
        forall|a: AccountId| #[trigger] v.records.contains_key(a) <==> v.allowlist.contains(a),
        forall|a: AccountId| #[trigger]
            v.records.contains_key(a) ==> v.records[a].address == a
                && v.records[a].jurisdiction.valid(),
        blocked.to_set() == v.blocked,
    ensures
        registry_from_parts(v.id, v.admin, records_in_list_order(v), blocked) == Some(v),
{
    let s = records_in_list_order(v);
    assert forall|i: int| 0 <= i < v.allowlist.len() implies v.records.contains_key(
        #[trigger] v.allowlist[i],
    ) by {
        assert(v.allowlist.contains(v.allowlist[i]));
    }
    assert(record_addresses(s) =~= v.allowlist);
    assert forall|i: int| 0 <= i < s.len() implies #[trigger] s[i].jurisdiction.valid() by {
        assert(v.records.contains_key(v.allowlist[i]));
    }
    lemma_records_by_address(s);
    assert(records_by_address(s) =~= v.records) by {
        assert forall|a: AccountId| #[trigger] v.records.contains_key(a) implies records_by_address(
            s,
        )[a] == v.records[a] by {
            let t = choose|t: int| 0 <= t < v.allowlist.len() && v.allowlist[t] == a;
            assert(s[t].address == a);
        }
    }
}

/// A registry's persistent form: its contract address, its admin, the records of the listed
/// accounts in list order, and the blocked jurisdictions.
pub struct RegistryParts {
    pub id: AccountId,
    pub admin: Option<AccountId>,
    pub records: Vec<ComplianceRecord>,
    pub blocked: Vec<Jurisdiction>,
}

impl ComplianceRegistry {
    /// The registry's persistent form; reading it back gives this very state.
    pub fn to_parts(&self) -> (p: RegistryParts)
        requires
            self.wf(),
        ensures
            p.id == self@.id,
            p.admin == self@.admin,
            p.records@ == records_in_list_order(self@),
            p.blocked@.to_set() == self@.blocked,
            registry_from_parts(p.id, p.admin, p.records@, p.blocked@) == Some(self@),
    {
        proof {
            self.lemma_consistent();
        }
        let list = self.allowlist.to_vec();
        let mut records: Vec<ComplianceRecord> = Vec::new();
        let mut i: usize = 0;
        while i < list.len()
            invariant
                self.wf(),
                list@ == self@.allowlist,
                i <= list@.len(),
                records@ == records_in_list_order(self@).take(i as int),
            decreases list@.len() - i,
        {
            let a = list[i];
            proof {
                assert(self@.allowlist.contains(a));
            }
            match self.records.get(&a) {
                Some(rec) => {
                    records.push(*rec);
                },
                None => {
                    proof {
                        assert(false);
                    }
                },
            }
            proof {
                assert(records@ =~= records_in_list_order(self@).take(i + 1));
            }
            i += 1;
        }
        proof {
            assert(records_in_list_order(self@).take(i as int) =~= records_in_list_order(self@));
        }
        let mut blocked: Vec<Jurisdiction> = Vec::new();
        let mut k: usize = 0;
        while k < self.blocked.len()
            invariant
                k <= self.blocked@.len(),
                blocked@ == self.blocked@.take(k as int),
            decreases self.blocked@.len() - k,
        {
            blocked.push(self.blocked[k]);
            proof {
                assert(blocked@ =~= self.blocked@.take(k + 1));
            }
            k += 1;
        }
        proof {
            assert(self.blocked@.take(k as int) =~= self.blocked@);
        }
        proof {
            law_registry_parts_round_trip(self@, blocked@);
        }
        RegistryParts { id: self.id, admin: self.admin, records, blocked }
    }

    /// Rebuilds a registry from its persistent form; `None` when the records
    /// name an account twice or carry an invalid jurisdiction code.
    pub fn from_parts(parts: RegistryParts) -> (r: Option<Self>)
        ensures
            match registry_from_parts(parts.id, parts.admin, parts.records@, parts.blocked@) {
                Some(v) => r matches Some(x) && x.wf() && x@ == v && x.allowlist_pages()
                    == pages_of_pushes(v.allowlist),
                None => r is None,
            },
    {
        let ghost s = parts.records@;
        let ghost blocked0 = parts.blocked@;
        let RegistryParts { id, admin, records, blocked } = parts;
        let mut reg = ComplianceRegistry {
            id,
            admin,
            records: HashMap::new(),
            allowlist: Allowlist::new(),
            blocked,
        };
        let mut i: usize = 0;
        while i < records.len()
            invariant
                records@ == s,
                i <= s.len(),
                reg.wf(),
                reg.id == id,
                reg.admin == admin,
                reg.blocked@ == blocked0,
                s == parts.records@,
                blocked0 == parts.blocked@,
                admin == parts.admin,
                id == parts.id,
                reg.allowlist@ == record_addresses(s.take(i as int)),
                reg.allowlist.pages_view() == pages_of_pushes(reg.allowlist@),
                reg.records@ == records_by_address(s.take(i as int)),
                forall|t: int| 0 <= t < i ==> #[trigger] s[t].jurisdiction.valid(),
            decreases s.len() - i,
        {
            let rec = records[i];
            proof {
                reg.lemma_consistent();
                assert(s.take(i + 1).drop_last() =~= s.take(i as int));
                assert(record_addresses(s.take(i + 1)) =~= record_addresses(s.take(i as int)).push(
                    rec.address,
                ));
            }
            if !rec.jurisdiction.is_valid() {
                proof {
                    assert(!s[i as int].jurisdiction.valid());
                    assert(!(forall|t: int| 0 <= t < s.len() ==> #[trigger] s[t].jurisdiction.valid()));
                    assert(registry_from_parts(id, admin, s, blocked0) is None);
                }
                return None;
            }
            if reg.allowlist.contains(rec.address) {
                proof {
                    let prefix = record_addresses(s.take(i as int));
                    let t = choose|t: int| 0 <= t < prefix.len() && prefix[t] == rec.address;
                    assert(prefix[t] == s[t].address);
                    assert(record_addresses(s)[t] == s[t].address);
                    assert(record_addresses(s)[i as int] == s[i as int].address);
                    assert(record_addresses(s)[t] == record_addresses(s)[i as int]);
                    assert(!record_addresses(s).no_duplicates());
                    assert(registry_from_parts(id, admin, s, blocked0) is None);
                }
                return None;
            }
            let ghost before = reg.allowlist@;
            reg.allowlist.push(rec.address);
            reg.records.insert(rec.address, rec);
            proof {
                assert(reg.allowlist@.drop_last() =~= before);
                let user = rec.address;
                assert forall|a: AccountId| #[trigger]
                    reg.records@.contains_key(a) <==> reg.allowlist@.contains(a) by {
                    if a == user {
                        assert(reg.allowlist@[before.len() as int] == user);
                    } else if reg.allowlist@.contains(a) {
                        let t = choose|t: int| 0 <= t < reg.allowlist@.len() && reg.allowlist@[t] == a;
                        assert(before[t] == a);
                    } else if before.contains(a) {
                        let t = choose|t: int| 0 <= t < before.len() && before[t] == a;
                        assert(reg.allowlist@[t] == a);
                    }
                }
            }
            i += 1;
        }
        proof {
            assert(s.take(i as int) =~= s);
            reg.lemma_consistent();
        }
        Some(reg)
    }
}

} // verus!
