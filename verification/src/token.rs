//! The asset token: a fungible token for one real-world asset whose
//! issuance, transfers and burns are gated by a compliance registry.
use vstd::prelude::*;
use crate::AccountId;
use crate::compliance::ComplianceGate;
use crate::ledger::{BalanceLedger, all_nonnegative, balances_of, entries_sum, keys_distinct, sum_over};

verus! {

/// Version of the token's interface.
pub const TOKEN_VERSION: u32 = 1;

/// Descriptive and administrative state of the token.
#[derive(Debug)]
pub struct AssetMetadata {
    pub name: String,
    pub symbol: String,
    pub asset_type: String,
    pub total_supply: i128,
    pub decimals: u32,
    pub admin: AccountId,
    /// The registry that gates every balance movement.
    pub compliance_contract: AccountId,
    pub asset_description: String,
    pub valuation: i128,
    pub paused: bool,
}

impl AssetMetadata {
    /// A copy equal to `self`.
    pub fn duplicate(&self) -> (r: AssetMetadata)
        ensures
            r == *self,
    {
        AssetMetadata {
            name: self.name.clone(),
            symbol: self.symbol.clone(),
            asset_type: self.asset_type.clone(),
            total_supply: self.total_supply,
            decimals: self.decimals,
            admin: self.admin,
            compliance_contract: self.compliance_contract,
            asset_description: self.asset_description.clone(),
            valuation: self.valuation,
            paused: self.paused,
        }
    }
}

/// Why a token operation was refused.
#[derive(Clone, Copy, Debug, PartialEq, Eq, Structural)]
pub enum TokenError {
    AlreadyInitialized,
    NotInitialized,
    Unauthorized,
    InsufficientBalance,
    InvalidAmount,
    Paused,
    SenderNotCompliant,
    RecipientNotCompliant,
    Overflow,
    InvalidCompliance,
}

impl TokenError {
    /// The numeric code of the error.
    pub open spec fn spec_code(self) -> u32 {
        match self {
            TokenError::AlreadyInitialized => 1,
            TokenError::NotInitialized => 2,
            TokenError::Unauthorized => 3,
            TokenError::InsufficientBalance => 4,
            TokenError::InvalidAmount => 5,
            TokenError::Paused => 6,
            TokenError::SenderNotCompliant => 7,
            TokenError::RecipientNotCompliant => 8,
            TokenError::Overflow => 9,
            TokenError::InvalidCompliance => 11,
        }
    }

    /// The numeric code under which the error is reported.
    pub fn code(&self) -> (r: u32)
        ensures
            r == self.spec_code(),
    {
        match self {
            TokenError::AlreadyInitialized => 1,
            TokenError::NotInitialized => 2,
            TokenError::Unauthorized => 3,
            TokenError::InsufficientBalance => 4,
            TokenError::InvalidAmount => 5,
            TokenError::Paused => 6,
            TokenError::SenderNotCompliant => 7,
            TokenError::RecipientNotCompliant => 8,
            TokenError::Overflow => 9,
            TokenError::InvalidCompliance => 11,
        }
    }
}

/// Balances after crediting each `(account, amount)` of `r` in turn.
pub open spec fn credit_all(m: Map<AccountId, int>, r: Seq<(AccountId, i128)>) -> Map<AccountId, int>
    decreases r.len(),
{
    if r.len() == 0 {
        m
    } else {
        let m1 = credit_all(m, r.drop_last());
        m1.insert(r.last().0, m1[r.last().0] + r.last().1)
    }
}

/// Checks a batch of mints in order: the supply it leads to from `supply`,
/// or the first refusal one of its entries meets.
pub open spec fn batch_outcome(
    r: Seq<(AccountId, i128)>,
    supply: int,
    allowed: spec_fn(AccountId) -> bool,
) -> Result<int, TokenError>
    decreases r.len(),
{
    if r.len() == 0 {
        Ok(supply)
    } else {
        match batch_outcome(r.drop_last(), supply, allowed) {
            Err(e) => Err(e),
            Ok(s) => {
                let (to, amount) = r.last();
                if amount <= 0 {
                    Err(TokenError::InvalidAmount)
                } else if !allowed(to) {
                    Err(TokenError::RecipientNotCompliant)
                } else if s + amount > i128::MAX {
                    Err(TokenError::Overflow)
                } else {
                    Ok(s + amount)
                }
            },
        }
    }
}

/// The abstract state of a token: its metadata once initialised, and every
/// account's balance (0 for one that never held tokens).
pub struct TokenView {
    pub metadata: Option<AssetMetadata>,
    pub balances: Map<AccountId, int>,
}

impl TokenView {
    /// Every account has a balance (0 for one that never held tokens), none
    /// is negative, and none exceeds the supply.
    pub open spec fn valid(self) -> bool {
        &&& forall|a: AccountId| #[trigger] self.balances.contains_key(a)
        &&& forall|a: AccountId| 0 <= #[trigger] self.balances[a]
        &&& forall|a: AccountId|
            #[trigger] self.balances[a] <= match self.metadata {
                Some(md) => md.total_supply as int,
                None => 0,
            }
    }

    /// The refusal an admin-only operation by `caller` meets, if any.
    pub open spec fn admin_check(self, caller: AccountId) -> Option<TokenError> {
        match self.metadata {
            None => Some(TokenError::NotInitialized),
            Some(md) => if md.admin == caller {
                None
            } else {
                Some(TokenError::Unauthorized)
            },
        }
    }

    /// The same balances under other metadata.
    pub open spec fn with_metadata(self, md: AssetMetadata) -> TokenView {
        TokenView { metadata: Some(md), balances: self.balances }
    }

    /// Initialisation: the whole supply goes to the admin, who must be allowed.
    pub open spec fn initialize(
        self,
        md: AssetMetadata,
        allowed: spec_fn(AccountId) -> bool,
    ) -> Result<TokenView, TokenError> {
        if self.metadata is Some {
            Err(TokenError::AlreadyInitialized)
        } else if md.total_supply < 0 || md.valuation < 0 {
            Err(TokenError::InvalidAmount)
        } else if !allowed(md.admin) {
            Err(TokenError::RecipientNotCompliant)
        } else {
            Ok(
                TokenView {
                    metadata: Some(AssetMetadata { paused: false, ..md }),
                    balances: self.balances.insert(md.admin, md.total_supply as int),
                },
            )
        }
    }

    /// A transfer: the token must be unpaused, the amount positive, both
    /// parties allowed and the sender's balance sufficient.
    pub open spec fn transfer(
        self,
        from: AccountId,
        to: AccountId,
        amount: i128,
        allowed: spec_fn(AccountId) -> bool,
    ) -> Result<TokenView, TokenError> {
        match self.metadata {
            None => Err(TokenError::NotInitialized),
            Some(md) => if md.paused {
                Err(TokenError::Paused)
            } else if amount <= 0 {
                Err(TokenError::InvalidAmount)
            } else if !allowed(from) {
                Err(TokenError::SenderNotCompliant)
            } else if !allowed(to) {
                Err(TokenError::RecipientNotCompliant)
            } else if self.balances[from] < amount {
                Err(TokenError::InsufficientBalance)
            } else if from == to {
                Ok(self)
            } else {
                Ok(
                    TokenView {
                        metadata: self.metadata,
                        balances: self.balances.insert(from, self.balances[from] - amount).insert(
                            to,
                            self.balances[to] + amount,
                        ),
                    },
                )
            },
        }
    }

    /// A mint by the admin to an allowed account, within `i128` supply.
    pub open spec fn mint(
        self,
        caller: AccountId,
        to: AccountId,
        amount: i128,
        allowed: spec_fn(AccountId) -> bool,
    ) -> Result<TokenView, TokenError> {
        if self.admin_check(caller) is Some {
            Err(self.admin_check(caller).unwrap())
        } else {
            let md = self.metadata.unwrap();
            if md.paused {
                Err(TokenError::Paused)
            } else if amount <= 0 {
                Err(TokenError::InvalidAmount)
            } else if !allowed(to) {
                Err(TokenError::RecipientNotCompliant)
            } else if md.total_supply + amount > i128::MAX {
                Err(TokenError::Overflow)
            } else {
                Ok(
                    TokenView {
                        metadata: Some(
                            AssetMetadata { total_supply: (md.total_supply + amount) as i128, ..md },
                        ),
                        balances: self.balances.insert(to, self.balances[to] + amount),
                    },
                )
            }
        }
    }

    /// A batch mint by the admin: all entries checked in order, then all credited.
    pub open spec fn mint_batch(
        self,
        caller: AccountId,
        recipients: Seq<(AccountId, i128)>,
        allowed: spec_fn(AccountId) -> bool,
    ) -> Result<TokenView, TokenError> {
        if self.admin_check(caller) is Some {
            Err(self.admin_check(caller).unwrap())
        } else {
            let md = self.metadata.unwrap();
            if md.paused {
                Err(TokenError::Paused)
            } else {
                match batch_outcome(recipients, md.total_supply as int, allowed) {
                    Err(e) => Err(e),
                    Ok(s) => Ok(
                        TokenView {
                            metadata: Some(AssetMetadata { total_supply: s as i128, ..md }),
                            balances: credit_all(self.balances, recipients),
                        },
                    ),
                }
            }
        }
    }

    /// A burn by an allowed holder of part of its own balance.
    pub open spec fn burn(self, from: AccountId, amount: i128, allowed: spec_fn(AccountId) -> bool) -> Result<
        TokenView,
        TokenError,
    > {
        match self.metadata {
            None => Err(TokenError::NotInitialized),
            Some(md) => if md.paused {
                Err(TokenError::Paused)
            } else if amount <= 0 {
                Err(TokenError::InvalidAmount)
            } else if !allowed(from) {
                Err(TokenError::SenderNotCompliant)
            } else if self.balances[from] < amount {
                Err(TokenError::InsufficientBalance)
            } else {
                Ok(
                    TokenView {
                        metadata: Some(
                            AssetMetadata { total_supply: (md.total_supply - amount) as i128, ..md },
                        ),
                        balances: self.balances.insert(from, self.balances[from] - amount),
                    },
                )
            },
        }
    }

    /// Pausing or unpausing by the admin.
    pub open spec fn set_paused(self, caller: AccountId, paused: bool) -> Result<
        TokenView,
        TokenError,
    > {
        if self.admin_check(caller) is Some {
            Err(self.admin_check(caller).unwrap())
        } else {
            Ok(self.with_metadata(AssetMetadata { paused, ..self.metadata.unwrap() }))
        }
    }

    /// A new non-negative valuation, set by the admin.
    pub open spec fn update_valuation(self, caller: AccountId, valuation: i128) -> Result<
        TokenView,
        TokenError,
    > {
        if self.admin_check(caller) is Some {
            Err(self.admin_check(caller).unwrap())
        } else if valuation < 0 {
            Err(TokenError::InvalidAmount)
        } else {
            Ok(self.with_metadata(AssetMetadata { valuation, ..self.metadata.unwrap() }))
        }
    }

    /// A new registry, set by the admin; it must allow the admin.
    pub open spec fn set_compliance(
        self,
        caller: AccountId,
        compliance_contract: AccountId,
        new_allowed: spec_fn(AccountId) -> bool,
    ) -> Result<TokenView, TokenError> {
        if self.admin_check(caller) is Some {
            Err(self.admin_check(caller).unwrap())
        } else if !new_allowed(caller) {
            Err(TokenError::InvalidCompliance)
        } else {
            Ok(self.with_metadata(AssetMetadata { compliance_contract, ..self.metadata.unwrap() }))
        }
    }
}

/// Who `gate` allows at ledger sequence `now`.
pub open spec fn admitted<G: ComplianceGate>(gate: G, now: u32) -> spec_fn(AccountId) -> bool {
    |a: AccountId| gate.admits(a, now)
}

/// `after` is what `step` prescribes from `before`, and `r` reports it.
pub open spec fn token_applied(
    before: TokenView,
    after: TokenView,
    r: Result<(), TokenError>,
    step: Result<TokenView, TokenError>,
) -> bool {
    match step {
        Ok(v) => r is Ok && after == v,
        Err(e) => r == Err::<(), TokenError>(e) && after == before,
    }
}

/// A compliance-gated asset token. Every operation that consults compliance
/// takes the registry named by the token's `compliance_contract` (its
/// `gate_id` must be that address) and the current ledger sequence.
pub struct AssetToken {
    metadata: Option<AssetMetadata>,
    ledger: BalanceLedger,
}

impl View for AssetToken {
    type V = TokenView;

    closed spec fn view(&self) -> TokenView {
        TokenView { metadata: self.metadata, balances: self.ledger@ }
    }
}

impl AssetToken {
    /// The ledger is well formed and its balances add up to the supply
    /// (to 0 before initialisation).
    pub closed spec fn wf(self) -> bool {
        &&& self.ledger.wf()
        &&& match self.metadata {
            None => self.ledger.total() == 0,
            Some(md) => self.ledger.total() == md.total_supply,
        }
    }

    /// Every balance lies between 0 and the supply, only finitely many
    /// accounts hold tokens, and the total supply is the sum of their balances.
    pub proof fn lemma_supply_is_sum_of_balances(self)
        requires
            self.wf(),
        ensures
            self@.valid(),
            exists|holders: Seq<AccountId>|
                {
                    &&& holders.no_duplicates()
                    &&& forall|a: AccountId|
                        !holders.contains(a) ==> #[trigger] self@.balances[a] == 0
                    &&& sum_over(holders, self@.balances) == match self@.metadata {
                        Some(md) => md.total_supply as int,
                        None => 0,
                    }
                },
    {
        self.ledger.lemma_total_is_sum_of_balances();
        let holders = self.ledger.holders();
        assert(holders.no_duplicates());
    }

    /// A token that is not initialised yet.
    pub fn new() -> (r: Self)
        ensures
            r.wf(),
            r@.metadata is None,
            r@.balances == Map::new(|a: AccountId| true, |a: AccountId| 0int),
    {
        AssetToken { metadata: None, ledger: BalanceLedger::new() }
    }

    /// The token's interface version.
    pub fn version(&self) -> (r: u32)
        ensures
            r == TOKEN_VERSION,
    {
        TOKEN_VERSION
    }

    /// Sets up the token and mints the whole initial supply to the admin,
    /// who must be allowed by `gate`. The token starts unpaused.
    pub fn initialize<G: ComplianceGate>(
        &mut self,
        admin: AccountId,
        name: String,
        symbol: String,
        asset_type: String,
        total_supply: i128,
        decimals: u32,
        compliance_contract: AccountId,
        asset_description: String,
        valuation: i128,
        gate: &G,
        now: u32,
    ) -> (r: Result<(), TokenError>)
        requires
            gate.gate_id() == compliance_contract,
            old(self).wf(),
        ensures
            final(self).wf(),
            token_applied(
                old(self)@,
                final(self)@,
                r,
                old(self)@.initialize(
                    AssetMetadata {
                        name,
                        symbol,
                        asset_type,
                        total_supply,
                        decimals,
                        admin,
                        compliance_contract,
                        asset_description,
                        valuation,
                        paused: false,
                    },
                    admitted(*gate, now),
                ),
            ),
    {
        if self.metadata.is_some() {
            return Err(TokenError::AlreadyInitialized);
        }
        if total_supply < 0 || valuation < 0 {
            return Err(TokenError::InvalidAmount);
        }
        if !gate.is_allowed(admin, now) {
            return Err(TokenError::RecipientNotCompliant);
        }
        self.ledger.credit(admin, total_supply);
        self.metadata = Some(
            AssetMetadata {
                name,
                symbol,
                asset_type,
                total_supply,
                decimals,
                admin,
                compliance_contract,
                asset_description,
                valuation,
                paused: false,
            },
        );
        proof {
            assert(old(self).ledger@[admin] == 0) by {
                old(self).ledger.lemma_total_is_sum_of_balances();
            }
        }
        Ok(())
    }

    /// The balance of `a`; 0 for an account that never held tokens.
    pub fn balance(&self, a: AccountId) -> (r: i128)
        requires
            self.wf(),
        ensures
            r == self@.balances[a],
    {
        self.ledger.balance(a)
    }

    /// The total supply; 0 before initialisation.
    pub fn total_supply(&self) -> (r: i128)
        ensures
            r == match self@.metadata {
                Some(md) => md.total_supply,
                None => 0,
            },
    {
        match &self.metadata {
            Some(md) => md.total_supply,
            None => 0,
        }
    }

    /// A copy of the metadata.
    pub fn get_metadata(&self) -> (r: Result<AssetMetadata, TokenError>)
        ensures
            match self@.metadata {
                Some(md) => r == Ok::<AssetMetadata, TokenError>(md),
                None => r == Err::<AssetMetadata, TokenError>(TokenError::NotInitialized),
            },
    {
        match &self.metadata {
            Some(md) => Ok(md.duplicate()),
            None => Err(TokenError::NotInitialized),
        }
    }

    /// Moves `amount` from `from` to `to`; both must be allowed by `gate`.
    /// A transfer to oneself passes the same checks and changes nothing.
    pub fn transfer<G: ComplianceGate>(
        &mut self,
        from: AccountId,
        to: AccountId,
        amount: i128,
        gate: &G,
        now: u32,
    ) -> (r: Result<(), TokenError>)
        requires
            old(self)@.metadata matches Some(md) ==> gate.gate_id() == md.compliance_contract,
            old(self).wf(),
        ensures
            final(self).wf(),
            token_applied(
                old(self)@,
                final(self)@,
                r,
                old(self)@.transfer(from, to, amount, admitted(*gate, now)),
            ),
    {
        let paused = match &self.metadata {
            None => {
                return Err(TokenError::NotInitialized);
            },
            Some(md) => md.paused,
        };
        if paused {
            return Err(TokenError::Paused);
        }
        if amount <= 0 {
            return Err(TokenError::InvalidAmount);
        }
        if !gate.is_allowed(from, now) {
            return Err(TokenError::SenderNotCompliant);
        }
        if !gate.is_allowed(to, now) {
            return Err(TokenError::RecipientNotCompliant);
        }
        if self.ledger.balance(from) < amount {
            return Err(TokenError::InsufficientBalance);
        }
        if from == to {
            return Ok(());
        }
        self.ledger.debit(from, amount);
        self.ledger.credit(to, amount);
        proof {
            assert(self@.balances =~= old(self)@.balances.insert(
                from,
                old(self)@.balances[from] - amount,
            ).insert(to, old(self)@.balances[to] + amount));
        }
        Ok(())
    }

    /// Mints `amount` new tokens to `to`, who must be allowed by `gate`.
    pub fn mint<G: ComplianceGate>(
        &mut self,
        caller: AccountId,
        to: AccountId,
        amount: i128,
        gate: &G,
        now: u32,
    ) -> (r: Result<(), TokenError>)
        requires
            old(self)@.metadata matches Some(md) ==> gate.gate_id() == md.compliance_contract,
            old(self).wf(),
        ensures
            final(self).wf(),
            token_applied(old(self)@, final(self)@, r, old(self)@.mint(caller, to, amount, admitted(*gate, now))),
    {
        let (admin, paused, supply) = match &self.metadata {
            None => {
                return Err(TokenError::NotInitialized);
            },
            Some(md) => (md.admin, md.paused, md.total_supply),
        };
        if caller != admin {
            return Err(TokenError::Unauthorized);
        }
        if paused {
            return Err(TokenError::Paused);
        }
        if amount <= 0 {
            return Err(TokenError::InvalidAmount);
        }
        if !gate.is_allowed(to, now) {
            return Err(TokenError::RecipientNotCompliant);
        }
        let new_supply = match supply.checked_add(amount) {
            Some(s) => s,
            None => {
                return Err(TokenError::Overflow);
            },
        };
        self.ledger.credit(to, amount);
        self.set_supply(new_supply);
        Ok(())
    }

    fn set_supply(&mut self, supply: i128)
        requires
            old(self).metadata is Some,
        ensures
            final(self).ledger == old(self).ledger,
            final(self).metadata == Some(
                AssetMetadata { total_supply: supply, ..old(self).metadata.unwrap() },
            ),
    {
        if let Some(md) = &mut self.metadata {
            md.total_supply = supply;
        }
    }

    fn checked_batch<G: ComplianceGate>(
        &self,
        supply: i128,
        recipients: &[(AccountId, i128)],
        gate: &G,
        now: u32,
    ) -> (r: Result<i128, TokenError>)
        ensures
            match batch_outcome(recipients@, supply as int, admitted(*gate, now)) {
                Ok(s) => r matches Ok(v) && v == s,
                Err(e) => r == Err::<i128, TokenError>(e),
            },
    {
        let mut running: i128 = supply;
        let mut i: usize = 0;
        while i < recipients.len()
            invariant
                i <= recipients@.len(),
                batch_outcome(recipients@.take(i as int), supply as int, admitted(*gate, now)) == Ok::<
                    int,
                    TokenError,
                >(running as int),
            decreases recipients@.len() - i,
        {
            let (to, amount) = recipients[i];
            proof {
                assert(recipients@.take(i + 1).drop_last() =~= recipients@.take(i as int));
            }
            if amount <= 0 {
                proof {
                    lemma_batch_prefix_error(recipients@, supply as int, admitted(*gate, now), i + 1);
                }
                return Err(TokenError::InvalidAmount);
            }
            if !gate.is_allowed(to, now) {
                proof {
                    lemma_batch_prefix_error(recipients@, supply as int, admitted(*gate, now), i + 1);
                }
                return Err(TokenError::RecipientNotCompliant);
            }
            running = match running.checked_add(amount) {
                Some(s) => s,
                None => {
                    proof {
                        lemma_batch_prefix_error(recipients@, supply as int, admitted(*gate, now), i + 1);
                    }
                    return Err(TokenError::Overflow);
                },
            };
            i += 1;
        }
        proof {
            assert(recipients@.take(i as int) =~= recipients@);
        }
        Ok(running)
    }

    /// Mints to every `(account, amount)` of `recipients`, all or nothing: the
    /// first entry with a non-positive amount or a recipient not allowed by
    /// `gate` refuses the whole batch. An account listed twice is credited twice.
    pub fn mint_batch<G: ComplianceGate>(
        &mut self,
        caller: AccountId,
        recipients: &[(AccountId, i128)],
        gate: &G,
        now: u32,
    ) -> (r: Result<(), TokenError>)
        requires
            old(self)@.metadata matches Some(md) ==> gate.gate_id() == md.compliance_contract,
            old(self).wf(),
        ensures
            final(self).wf(),
            token_applied(
                old(self)@,
                final(self)@,
                r,
                old(self)@.mint_batch(caller, recipients@, admitted(*gate, now)),
            ),
    {
        let (admin, paused, supply) = match &self.metadata {
            None => {
                return Err(TokenError::NotInitialized);
            },
            Some(md) => (md.admin, md.paused, md.total_supply),
        };
        if caller != admin {
            return Err(TokenError::Unauthorized);
        }
        if paused {
            return Err(TokenError::Paused);
        }
        let new_supply = match self.checked_batch(supply, recipients, gate, now) {
            Ok(s) => s,
            Err(e) => {
                return Err(e);
            },
        };
        let ghost start = self.ledger@;
        let mut i: usize = 0;
        while i < recipients.len()
            invariant
                i <= recipients@.len(),
                self.ledger.wf(),
                self.metadata == old(self).metadata,
                self.ledger@ == credit_all(start, recipients@.take(i as int)),
                batch_outcome(recipients@, supply as int, admitted(*gate, now)) == Ok::<int, TokenError>(
                    new_supply as int,
                ),
                batch_outcome(recipients@.take(i as int), supply as int, admitted(*gate, now)) == Ok::<
                    int,
                    TokenError,
                >(self.ledger.total()),
            decreases recipients@.len() - i,
        {
            let (to, amount) = recipients[i];
            proof {
                assert(recipients@.take(i + 1).drop_last() =~= recipients@.take(i as int));
                if batch_outcome(recipients@.take(i + 1), supply as int, admitted(*gate, now)) is Err {
                    lemma_batch_prefix_error(recipients@, supply as int, admitted(*gate, now), i + 1);
                }
            }
            self.ledger.credit(to, amount);
            i += 1;
        }
        proof {
            assert(recipients@.take(i as int) =~= recipients@);
        }
        self.set_supply(new_supply);
        Ok(())
    }

    /// Destroys `amount` of the holder's own tokens; the holder must be
    /// allowed by `gate`.
    pub fn burn<G: ComplianceGate>(&mut self, from: AccountId, amount: i128, gate: &G, now: u32) -> (r:
        Result<(), TokenError>)
        requires
            old(self)@.metadata matches Some(md) ==> gate.gate_id() == md.compliance_contract,
            old(self).wf(),
        ensures
            final(self).wf(),
            token_applied(old(self)@, final(self)@, r, old(self)@.burn(from, amount, admitted(*gate, now))),
    {
        let (paused, supply) = match &self.metadata {
            None => {
                return Err(TokenError::NotInitialized);
            },
            Some(md) => (md.paused, md.total_supply),
        };
        if paused {
            return Err(TokenError::Paused);
        }
        if amount <= 0 {
            return Err(TokenError::InvalidAmount);
        }
        if !gate.is_allowed(from, now) {
            return Err(TokenError::SenderNotCompliant);
        }
        if self.ledger.balance(from) < amount {
            return Err(TokenError::InsufficientBalance);
        }
        proof {
            self.ledger.lemma_total_is_sum_of_balances();
        }
        self.ledger.debit(from, amount);
        self.set_supply(supply - amount);
        Ok(())
    }

    fn set_paused(&mut self, caller: AccountId, paused: bool) -> (r: Result<(), TokenError>)
        requires
            old(self).wf(),
        ensures
            final(self).wf(),
            token_applied(old(self)@, final(self)@, r, old(self)@.set_paused(caller, paused)),
    {
        match &mut self.metadata {
            None => Err(TokenError::NotInitialized),
            Some(md) => {
                if md.admin != caller {
                    return Err(TokenError::Unauthorized);
                }
                md.paused = paused;
                Ok(())
            },
        }
    }

    /// Stops all transfers, mints and burns.
    pub fn pause(&mut self, caller: AccountId) -> (r: Result<(), TokenError>)
        requires
            old(self).wf(),
        ensures
            final(self).wf(),
            token_applied(old(self)@, final(self)@, r, old(self)@.set_paused(caller, true)),
    {
        self.set_paused(caller, true)
    }

    /// Lets transfers, mints and burns resume.
    pub fn unpause(&mut self, caller: AccountId) -> (r: Result<(), TokenError>)
        requires
            old(self).wf(),
        ensures
            final(self).wf(),
            token_applied(old(self)@, final(self)@, r, old(self)@.set_paused(caller, false)),
    {
        self.set_paused(caller, false)
    }

    /// Records a new valuation of the underlying asset.
    pub fn update_valuation(&mut self, caller: AccountId, valuation: i128) -> (r: Result<
        (),
        TokenError,
    >)
        requires
            old(self).wf(),
        ensures
            final(self).wf(),
            token_applied(old(self)@, final(self)@, r, old(self)@.update_valuation(caller, valuation)),
    {
        match &mut self.metadata {
            None => Err(TokenError::NotInitialized),
            Some(md) => {
                if md.admin != caller {
                    return Err(TokenError::Unauthorized);
                }
                if valuation < 0 {
                    return Err(TokenError::InvalidAmount);
                }
                md.valuation = valuation;
                Ok(())
            },
        }
    }

    /// Makes the registry `compliance_contract` (held in `new_gate`) the one
    /// that gates the token, provided it allows the admin.
    pub fn set_compliance<G: ComplianceGate>(
        &mut self,
        caller: AccountId,
        compliance_contract: AccountId,
        new_gate: &G,
        now: u32,
    ) -> (r: Result<(), TokenError>)
        requires
            new_gate.gate_id() == compliance_contract,
            old(self).wf(),
        ensures
            final(self).wf(),
            token_applied(
                old(self)@,
                final(self)@,
                r,
                old(self)@.set_compliance(caller, compliance_contract, admitted(*new_gate, now)),
            ),
    {
        match &mut self.metadata {
            None => Err(TokenError::NotInitialized),
            Some(md) => {
                if md.admin != caller {
                    return Err(TokenError::Unauthorized);
                }
                if !new_gate.is_allowed(caller, now) {
                    return Err(TokenError::InvalidCompliance);
                }
                md.compliance_contract = compliance_contract;
                Ok(())
            },
        }
    }
}

/// Once a prefix of a batch is refused, the whole batch is refused the same way.
proof fn lemma_batch_prefix_error(
    r: Seq<(AccountId, i128)>,
    supply: int,
    allowed: spec_fn(AccountId) -> bool,
    i: int,
)
    requires
        0 <= i <= r.len(),
        batch_outcome(r.take(i), supply, allowed) is Err,
    ensures
        batch_outcome(r, supply, allowed) == batch_outcome(r.take(i), supply, allowed),
    decreases r.len(),
{
    if i == r.len() {
        assert(r.take(i) =~= r);
    } else {
        assert(r.drop_last().take(i) =~= r.take(i));
        lemma_batch_prefix_error(r.drop_last(), supply, allowed, i);
    }
}

/// The token state that persisted parts stand for: the holdings must name
/// distinct accounts with non-negative balances that add up to the supply.
pub open spec fn token_from_parts(
    metadata: Option<AssetMetadata>,
    holdings: Seq<(AccountId, i128)>,
) -> Option<TokenView> {
    if keys_distinct(holdings) && all_nonnegative(holdings) && entries_sum(holdings) == match metadata {
        Some(md) => md.total_supply as int,
        None => 0,
    } {
        Some(TokenView { metadata, balances: balances_of(holdings) })
    } else {
        None
    }
}

/// A token's persistent form: its metadata and one `(account, balance)`
/// entry per account that has ever held it.
pub struct TokenParts {
    pub metadata: Option<AssetMetadata>,
    pub holdings: Vec<(AccountId, i128)>,
}

impl AssetToken {
    /// The token's persistent form; reading it back gives this very state.
    pub fn to_parts(&self) -> (p: TokenParts)
        requires
            self.wf(),
        ensures
            p.metadata == self@.metadata,
            token_from_parts(p.metadata, p.holdings@) == Some(self@),
    {
        proof {
            self.ledger.lemma_entries();
        }
        let metadata = match &self.metadata {
            Some(md) => Some(md.duplicate()),
            None => None,
        };
        TokenParts { metadata, holdings: self.ledger.to_entries() }
    }

    /// Rebuilds a token from its persistent form; `None` when the holdings
    /// are inconsistent with each other or with the supply.
    pub fn from_parts(parts: TokenParts) -> (r: Option<AssetToken>)
        ensures
            match token_from_parts(parts.metadata, parts.holdings@) {
                Some(v) => r matches Some(t) && t.wf() && t@ == v,
                None => r is None,
            },
    {
        let TokenParts { metadata, holdings } = parts;
        let ledger = match BalanceLedger::from_entries(holdings) {
            Some(l) => l,
            None => {
                return None;
            },
        };
        proof {
            ledger.lemma_entries();
        }
        let expected: i128 = match &metadata {
            Some(md) => md.total_supply,
            None => 0,
        };
        match ledger.checked_total() {
            Some(t) => {
                if t != expected {
                    return None;
                }
            },
            None => {
                return None;
            },
        }
        Some(AssetToken { metadata, ledger })
    }
}

} // verus!
