//! Properties of the registry and the token that hold of every state and
//! every input, stated over the operations' abstract effects.
use vstd::prelude::*;
use crate::AccountId;
use crate::compliance::{ComplianceError, ComplianceRecord, ComplianceStatus, RegistryView, is_expired};
use crate::jurisdiction::{Jurisdiction, spec_parse_jurisdiction};
use crate::token::{AssetMetadata, TokenError, TokenView, batch_outcome, credit_all};

verus! {

// ---------------------------------------------------------------------------
// Registry
// ---------------------------------------------------------------------------

/// After a successful approval the account is recorded as approved, listed
/// exactly once, and allowed at `now` unless its jurisdiction is blocked.
pub proof fn law_approval_allows(
    v: RegistryView,
    caller: AccountId,
    user: AccountId,
    code: Seq<char>,
    expires_at: u32,
    now: u32,
)
    requires
        v.allowlist.no_duplicates(),
        v.add_to_allowlist(caller, user, code, expires_at, now) is Ok,
    ensures
        ({
            let w = v.add_to_allowlist(caller, user, code, expires_at, now).unwrap();
            let j = spec_parse_jurisdiction(code).unwrap();
            &&& w.records[user].status == ComplianceStatus::Approved
            &&& w.records[user].jurisdiction == j
            &&& w.allowlist.no_duplicates()
            &&& w.allowlist.contains(user)
            &&& w.allows(user, now) <==> !w.blocked.contains(j)
        }),
{
    let w = v.add_to_allowlist(caller, user, code, expires_at, now).unwrap();
    if !v.allowlist.contains(user) {
        assert(w.allowlist[v.allowlist.len() as int] == user);
        assert forall|x: int, y: int|
            0 <= x < w.allowlist.len() && 0 <= y < w.allowlist.len() && x != y implies w.allowlist[x]
            != w.allowlist[y] by {
            if x < v.allowlist.len() && y == v.allowlist.len() {
                assert(v.allowlist.contains(v.allowlist[x]));
            }
            if y < v.allowlist.len() && x == v.allowlist.len() {
                assert(v.allowlist.contains(v.allowlist[y]));
            }
        }
    }
}

/// A suspended account is allowed at no time, keeps its record, and stays
/// listed.
pub proof fn law_suspension_denies(v: RegistryView, caller: AccountId, user: AccountId, t: u32)
    requires
        v.suspend(caller, user) is Ok,
    ensures
        ({
            let w = v.suspend(caller, user).unwrap();
            &&& !w.allows(user, t)
            &&& w.records.contains_key(user)
            &&& w.records[user].status == ComplianceStatus::Suspended
            &&& w.allowlist == v.allowlist
        }),
{
}

/// A removed account has no record, is allowed at no time, and is no longer
/// listed; every other listed account keeps its relative order.
pub proof fn law_removal_forgets(v: RegistryView, caller: AccountId, user: AccountId, t: u32)
    requires
        v.allowlist.no_duplicates(),
        forall|a: AccountId| #[trigger] v.records.contains_key(a) <==> v.allowlist.contains(a),
        v.remove(caller, user) is Ok,
    ensures
        ({
            let w = v.remove(caller, user).unwrap();
            let k = v.allowlist.index_of(user);
            &&& !w.records.contains_key(user)
            &&& !w.allows(user, t)
            &&& !w.allowlist.contains(user)
            &&& w.allowlist == v.allowlist.subrange(0, k) + v.allowlist.subrange(
                k + 1,
                v.allowlist.len() as int,
            )
        }),
{
    let w = v.remove(caller, user).unwrap();
    let k = v.allowlist.index_of(user);
    assert(v.allowlist.contains(user));
    assert(v.allowlist[k] == user);
    if w.allowlist.contains(user) {
        let t2 = choose|t2: int| 0 <= t2 < w.allowlist.len() && w.allowlist[t2] == user;
        let t1 = if t2 < k {
            t2
        } else {
            t2 + 1
        };
        assert(v.allowlist[t1] == user);
    }
}

/// Once a jurisdiction is blocked, no account recorded under it is allowed.
pub proof fn law_blocking_denies(
    v: RegistryView,
    caller: AccountId,
    code: Seq<char>,
    a: AccountId,
    t: u32,
)
    requires
        v.block_jurisdiction(caller, code) is Ok,
        v.records.contains_key(a),
        v.records[a].jurisdiction == spec_parse_jurisdiction(code).unwrap(),
    ensures
        !v.block_jurisdiction(caller, code).unwrap().allows(a, t),
{
}

/// Unblocking a jurisdiction that was not blocked before undoes blocking it.
pub proof fn law_unblock_undoes_block(v: RegistryView, caller: AccountId, code: Seq<char>)
    requires
        v.block_jurisdiction(caller, code) is Ok,
        !v.blocked.contains(spec_parse_jurisdiction(code).unwrap()),
    ensures
        v.block_jurisdiction(caller, code).unwrap().unblock_jurisdiction(caller, code) == Ok::<
            RegistryView,
            ComplianceError,
        >(v),
{
    let w = v.block_jurisdiction(caller, code).unwrap();
    assert(w.blocked.remove(spec_parse_jurisdiction(code).unwrap()) =~= v.blocked);
}

/// An approval whose expiry has passed no longer allows the account.
pub proof fn law_expired_approval_denies(v: RegistryView, a: AccountId, now: u32)
    requires
        v.records.contains_key(a),
        is_expired(v.records[a].expires_at, now),
    ensures
        !v.allows(a, now),
{
}

/// Pruning at `now` keeps exactly the records that have not lapsed, unchanged,
/// and does not change who is allowed at `now`.
pub proof fn law_pruning_keeps_the_live(v: RegistryView, caller: AccountId, now: u32, a: AccountId)
    requires
        v.prune_expired(caller, now) is Ok,
    ensures
        ({
            let w = v.prune_expired(caller, now).unwrap();
            &&& w.records.contains_key(a) <==> (v.records.contains_key(a) && !is_expired(
                v.records[a].expires_at,
                now,
            ))
            &&& w.records.contains_key(a) ==> w.records[a] == v.records[a]
            &&& w.allows(a, now) == v.allows(a, now)
        }),
{
}

// ---------------------------------------------------------------------------
// Token
// ---------------------------------------------------------------------------

/// While the token is paused no transfer, burn, mint or batch mint goes
/// through, so no balance and not the supply can change; the admin is told
/// `Paused`.
pub proof fn law_paused_token_is_frozen(
    v: TokenView,
    caller: AccountId,
    from: AccountId,
    to: AccountId,
    amount: i128,
    recipients: Seq<(AccountId, i128)>,
    allowed: spec_fn(AccountId) -> bool,
)
    requires
        v.metadata matches Some(md) && md.paused,
    ensures
        v.transfer(from, to, amount, allowed) == Err::<TokenView, TokenError>(TokenError::Paused),
        v.burn(from, amount, allowed) == Err::<TokenView, TokenError>(TokenError::Paused),
        v.mint(caller, to, amount, allowed) is Err,
        v.mint_batch(caller, recipients, allowed) is Err,
        caller == v.metadata.unwrap().admin ==> v.mint(caller, to, amount, allowed) == Err::<
            TokenView,
            TokenError,
        >(TokenError::Paused) && v.mint_batch(caller, recipients, allowed) == Err::<
            TokenView,
            TokenError,
        >(TokenError::Paused),
{
}

/// A transfer to oneself never changes anything, however much it names.
pub proof fn law_self_transfer_changes_nothing(
    v: TokenView,
    a: AccountId,
    amount: i128,
    allowed: spec_fn(AccountId) -> bool,
)
    requires
        v.transfer(a, a, amount, allowed) is Ok,
    ensures
        v.transfer(a, a, amount, allowed) == Ok::<TokenView, TokenError>(v),
{
}

/// A transfer moves exactly `amount` from sender to recipient and touches no
/// other balance and no metadata.
pub proof fn law_transfer_moves_amount(
    v: TokenView,
    from: AccountId,
    to: AccountId,
    amount: i128,
    allowed: spec_fn(AccountId) -> bool,
    other: AccountId,
)
    requires
        v.valid(),
        v.transfer(from, to, amount, allowed) is Ok,
        from != to,
    ensures
        ({
            let w = v.transfer(from, to, amount, allowed).unwrap();
            &&& w.metadata == v.metadata
            &&& w.balances[from] == v.balances[from] - amount
            &&& w.balances[to] == v.balances[to] + amount
            &&& other != from && other != to ==> w.balances[other] == v.balances[other]
        }),
{
}

/// A mint adds `amount` to the recipient and to the supply, and to nothing else.
pub proof fn law_mint_adds_to_supply(
    v: TokenView,
    caller: AccountId,
    to: AccountId,
    amount: i128,
    allowed: spec_fn(AccountId) -> bool,
    other: AccountId,
)
    requires
        v.valid(),
        v.mint(caller, to, amount, allowed) is Ok,
    ensures
        ({
            let w = v.mint(caller, to, amount, allowed).unwrap();
            &&& w.metadata.unwrap().total_supply == v.metadata.unwrap().total_supply + amount
            &&& w.balances[to] == v.balances[to] + amount
            &&& other != to ==> w.balances[other] == v.balances[other]
        }),
{
}

/// A burn takes `amount` from the holder and from the supply.
pub proof fn law_burn_takes_from_supply(
    v: TokenView,
    from: AccountId,
    amount: i128,
    allowed: spec_fn(AccountId) -> bool,
    other: AccountId,
)
    requires
        v.valid(),
        v.burn(from, amount, allowed) is Ok,
    ensures
        ({
            let w = v.burn(from, amount, allowed).unwrap();
            &&& w.metadata.unwrap().total_supply == v.metadata.unwrap().total_supply - amount
            &&& w.balances[from] == v.balances[from] - amount
            &&& other != from ==> w.balances[other] == v.balances[other]
        }),
{
}

/// The total of the amounts of `r` addressed to `a`.
pub open spec fn amount_to(r: Seq<(AccountId, i128)>, a: AccountId) -> int
    decreases r.len(),
{
    if r.len() == 0 {
        0
    } else {
        amount_to(r.drop_last(), a) + if r.last().0 == a {
            r.last().1 as int
        } else {
            0
        }
    }
}

/// The total of all amounts of `r`.
pub open spec fn batch_total(r: Seq<(AccountId, i128)>) -> int
    decreases r.len(),
{
    if r.len() == 0 {
        0
    } else {
        batch_total(r.drop_last()) + r.last().1
    }
}

proof fn lemma_credit_all(m: Map<AccountId, int>, r: Seq<(AccountId, i128)>, a: AccountId)
    requires
        forall|b: AccountId| m.contains_key(b),
    ensures
        forall|b: AccountId| credit_all(m, r).contains_key(b),
        credit_all(m, r)[a] == m[a] + amount_to(r, a),
    decreases r.len(),
{
    if r.len() > 0 {
        lemma_credit_all(m, r.drop_last(), a);
    }
}

proof fn lemma_batch_total(r: Seq<(AccountId, i128)>, supply: int, allowed: spec_fn(AccountId) -> bool)
    requires
        batch_outcome(r, supply, allowed) is Ok,
    ensures
        batch_outcome(r, supply, allowed).unwrap() == supply + batch_total(r),
        batch_outcome(r, supply, allowed).unwrap() >= supply,
        r.len() > 0 ==> batch_outcome(r, supply, allowed).unwrap() <= i128::MAX,
    decreases r.len(),
{
    if r.len() > 0 {
        lemma_batch_total(r.drop_last(), supply, allowed);
    }
}

/// A batch mint credits every account with the sum of the amounts addressed
/// to it (an account listed twice is credited twice) and raises the supply by
/// the sum of all amounts.
pub proof fn law_batch_mint_credits_cumulatively(
    v: TokenView,
    caller: AccountId,
    recipients: Seq<(AccountId, i128)>,
    allowed: spec_fn(AccountId) -> bool,
    a: AccountId,
)
    requires
        v.valid(),
        v.mint_batch(caller, recipients, allowed) is Ok,
    ensures
        ({
            let w = v.mint_batch(caller, recipients, allowed).unwrap();
            &&& w.balances[a] == v.balances[a] + amount_to(recipients, a)
            &&& w.metadata.unwrap().total_supply == v.metadata.unwrap().total_supply
                + batch_total(recipients)
        }),
{
    lemma_credit_all(v.balances, recipients, a);
    lemma_batch_total(recipients, v.metadata.unwrap().total_supply as int, allowed);
}

/// An empty batch mint by the admin of an unpaused token changes nothing.
pub proof fn law_empty_batch_is_noop(v: TokenView, allowed: spec_fn(AccountId) -> bool)
    requires
        v.metadata matches Some(md) && !md.paused,
    ensures
        v.mint_batch(v.metadata.unwrap().admin, Seq::empty(), allowed) == Ok::<
            TokenView,
            TokenError,
        >(v),
{
}

/// Initialisation credits the whole initial supply to the admin and nothing
/// to anyone else; the token starts unpaused.
pub proof fn law_initialize_mints_supply_to_admin(
    v: TokenView,
    md: AssetMetadata,
    allowed: spec_fn(AccountId) -> bool,
    other: AccountId,
)
    requires
        v.valid(),
        v.initialize(md, allowed) is Ok,
    ensures
        ({
            let w = v.initialize(md, allowed).unwrap();
            &&& w.balances[md.admin] == md.total_supply
            &&& other != md.admin ==> w.balances[other] == 0
            &&& !w.metadata.unwrap().paused
            &&& w.metadata.unwrap().total_supply == md.total_supply
        }),
{
}

/// Pausing and then unpausing an unpaused token restores it exactly.
pub proof fn law_pause_then_unpause_restores(v: TokenView, caller: AccountId)
    requires
        v.metadata matches Some(md) && !md.paused,
        v.set_paused(caller, true) is Ok,
    ensures
        v.set_paused(caller, true).unwrap().set_paused(caller, false) == Ok::<TokenView, TokenError>(
            v,
        ),
{
}

/// Each administrative setter changes its own field only: no balance and no
/// other metadata field moves.
pub proof fn law_setters_change_one_field(
    v: TokenView,
    caller: AccountId,
    paused: bool,
    valuation: i128,
    compliance_contract: AccountId,
    new_allowed: spec_fn(AccountId) -> bool,
)
    requires
        v.metadata is Some,
    ensures
        v.set_paused(caller, paused) matches Ok(w) ==> w.balances == v.balances && w.metadata
            == Some(AssetMetadata { paused, ..v.metadata.unwrap() }),
        v.update_valuation(caller, valuation) matches Ok(w) ==> w.balances == v.balances
            && w.metadata == Some(AssetMetadata { valuation, ..v.metadata.unwrap() }),
        v.set_compliance(caller, compliance_contract, new_allowed) matches Ok(w) ==> w.balances
            == v.balances && w.metadata == Some(
            AssetMetadata { compliance_contract, ..v.metadata.unwrap() },
        ),
{
}

/// A new gate is accepted only if it allows the admin at the time of the switch,
/// and only from the admin.
pub proof fn law_new_gate_must_allow_admin(
    v: TokenView,
    caller: AccountId,
    compliance_contract: AccountId,
    new_allowed: spec_fn(AccountId) -> bool,
)
    requires
        v.set_compliance(caller, compliance_contract, new_allowed) is Ok,
    ensures
        new_allowed(v.metadata.unwrap().admin),
        caller == v.metadata.unwrap().admin,
{
}

// ---------------------------------------------------------------------------
// Jurisdiction codes
// ---------------------------------------------------------------------------

/// Whether `c` is an ASCII letter of either case.
pub open spec fn is_ascii_letter(c: char) -> bool {
    (65 <= c as u32 && c as u32 <= 90) || (97 <= c as u32 && c as u32 <= 122)
}

/// The code of the upper-case form of an ASCII letter.
pub open spec fn upper_case_code(c: char) -> u8 {
    if 97 <= c as u32 { (c as u32 - 32) as u8 } else { c as u32 as u8 }
}

/// A code is accepted exactly when it is two ASCII letters, and it then
/// stands for those letters upper-cased: every letter A-Z is accepted in
/// either case.
pub proof fn law_two_letter_codes_parse(s: Seq<char>)
    ensures
        spec_parse_jurisdiction(s) is Some <==> (s.len() == 2 && is_ascii_letter(s[0])
            && is_ascii_letter(s[1])),
        s.len() == 2 && is_ascii_letter(s[0]) && is_ascii_letter(s[1]) ==> spec_parse_jurisdiction(s)
            == Some(Jurisdiction { first: upper_case_code(s[0]), second: upper_case_code(s[1]) }),
        spec_parse_jurisdiction(s) matches Some(j) ==> 65 <= j.first <= 90 && 65 <= j.second <= 90,
{
}

// ---------------------------------------------------------------------------
// Registry: when operations succeed and what they record
// ---------------------------------------------------------------------------

/// Initialisation succeeds exactly on a registry without admin, and makes
/// the caller the admin.
pub proof fn law_initialize_succeeds_once(v: RegistryView, admin: AccountId)
    ensures
        v.initialize(admin) is Ok <==> v.admin is None,
        v.initialize(admin) matches Ok(w) ==> w.admin == Some(admin) && w.records == v.records
            && w.allowlist == v.allowlist && w.blocked == v.blocked,
{
}

/// An approval succeeds exactly when the admin asks, the code is two ASCII
/// letters and the expiry is 0 or not before `now`. It then records the
/// account as approved under the upper-cased code with exactly the expiry
/// given (a renewal replaces the old one), lists it, and leaves every other
/// record alone.
pub proof fn law_approval_records_given_terms(
    v: RegistryView,
    caller: AccountId,
    user: AccountId,
    code: Seq<char>,
    expires_at: u32,
    now: u32,
    other: AccountId,
)
    ensures
        v.add_to_allowlist(caller, user, code, expires_at, now) is Ok <==> (v.admin == Some(caller)
            && code.len() == 2 && is_ascii_letter(code[0]) && is_ascii_letter(code[1]) && (
        expires_at == 0 || expires_at >= now)),
        v.add_to_allowlist(caller, user, code, expires_at, now) matches Ok(w) ==> {
            &&& w.records.contains_key(user)
            &&& w.records[user] == ComplianceRecord {
                address: user,
                status: ComplianceStatus::Approved,
                jurisdiction: Jurisdiction {
                    first: upper_case_code(code[0]),
                    second: upper_case_code(code[1]),
                },
                expires_at,
            }
            &&& w.allowlist.contains(user)
            &&& other != user ==> (w.records.contains_key(other) == v.records.contains_key(other)
                && w.records[other] == v.records[other])
            &&& w.admin == v.admin && w.blocked == v.blocked
        },
{
    law_two_letter_codes_parse(code);
    if v.add_to_allowlist(caller, user, code, expires_at, now) is Ok {
        let w = v.add_to_allowlist(caller, user, code, expires_at, now).unwrap();
        if !v.allowlist.contains(user) {
            assert(w.allowlist[v.allowlist.len() as int] == user);
        }
    }
}

/// An approved account is allowed exactly up to its expiry (for ever with
/// expiry 0), unless its jurisdiction is blocked.
pub proof fn law_approval_allows_until_expiry(
    v: RegistryView,
    caller: AccountId,
    user: AccountId,
    code: Seq<char>,
    expires_at: u32,
    now: u32,
    t: u32,
)
    requires
        v.add_to_allowlist(caller, user, code, expires_at, now) is Ok,
    ensures
        ({
            let w = v.add_to_allowlist(caller, user, code, expires_at, now).unwrap();
            w.allows(user, t) <==> ((expires_at == 0 || t <= expires_at) && !w.blocked.contains(
                w.records[user].jurisdiction,
            ))
        }),
{
}

/// The admin can suspend and remove every recorded account, whatever its
/// status, and nobody else can; an unrecorded account cannot be.
pub proof fn law_admin_controls_records(v: RegistryView, caller: AccountId, user: AccountId)
    ensures
        v.suspend(caller, user) is Ok <==> (v.admin == Some(caller) && v.records.contains_key(user)),
        v.remove(caller, user) is Ok <==> (v.admin == Some(caller) && v.records.contains_key(user)),
        v.admin == Some(caller) && !v.records.contains_key(user) ==> v.remove(caller, user) == Err::<
            RegistryView,
            ComplianceError,
        >(ComplianceError::RecordNotFound),
        v.admin is Some && v.admin != Some(caller) ==> v.remove(caller, user) == Err::<
            RegistryView,
            ComplianceError,
        >(ComplianceError::Unauthorized),
        v.remove(caller, user) matches Ok(w) ==> !w.records.contains_key(user) && w.records
            == v.records.remove(user),
{
}

/// Blocking and unblocking succeed exactly when the admin names a two-letter
/// code, and add or take away exactly that code.
pub proof fn law_blocking_takes_valid_codes(v: RegistryView, caller: AccountId, code: Seq<char>)
    ensures
        v.block_jurisdiction(caller, code) is Ok <==> (v.admin == Some(caller) && code.len() == 2
            && is_ascii_letter(code[0]) && is_ascii_letter(code[1])),
        v.unblock_jurisdiction(caller, code) is Ok <==> (v.admin == Some(caller) && code.len() == 2
            && is_ascii_letter(code[0]) && is_ascii_letter(code[1])),
        v.block_jurisdiction(caller, code) matches Ok(w) ==> w.blocked == v.blocked.insert(
            Jurisdiction { first: upper_case_code(code[0]), second: upper_case_code(code[1]) },
        ) && w.records == v.records && w.allowlist == v.allowlist,
        v.unblock_jurisdiction(caller, code) matches Ok(w) ==> w.blocked == v.blocked.remove(
            Jurisdiction { first: upper_case_code(code[0]), second: upper_case_code(code[1]) },
        ) && w.records == v.records && w.allowlist == v.allowlist,
{
    law_two_letter_codes_parse(code);
}

/// Pruning succeeds exactly when the admin asks.
pub proof fn law_pruning_is_the_admins(v: RegistryView, caller: AccountId, now: u32)
    ensures
        v.prune_expired(caller, now) is Ok <==> v.admin == Some(caller),
{
}

// ---------------------------------------------------------------------------
// Token: when operations succeed
// ---------------------------------------------------------------------------

/// A transfer goes through exactly when the token is initialised and
/// unpaused, the amount positive, sender and recipient both allowed (whether
/// or not they already hold tokens), and the sender holds enough. A recipient
/// not allowed is refused with `RecipientNotCompliant` once the earlier checks
/// pass.
pub proof fn law_transfer_only_between_allowed(
    v: TokenView,
    from: AccountId,
    to: AccountId,
    amount: i128,
    allowed: spec_fn(AccountId) -> bool,
)
    ensures
        v.transfer(from, to, amount, allowed) is Ok <==> (v.metadata matches Some(md) && !md.paused
            && amount > 0 && allowed(from) && allowed(to) && v.balances[from] >= amount),
        (v.metadata matches Some(md) && !md.paused && amount > 0 && allowed(from) && !allowed(to))
            ==> v.transfer(from, to, amount, allowed) == Err::<TokenView, TokenError>(
            TokenError::RecipientNotCompliant,
        ),
        (v.metadata matches Some(md) && !md.paused && amount > 0 && !allowed(from)) ==> v.transfer(
            from,
            to,
            amount,
            allowed,
        ) == Err::<TokenView, TokenError>(TokenError::SenderNotCompliant),
{
}

/// A mint goes through exactly when the admin asks on an unpaused token, the
/// amount is positive, the recipient allowed (whatever it already holds) and
/// the supply stays within `i128`.
pub proof fn law_mint_only_to_allowed(
    v: TokenView,
    caller: AccountId,
    to: AccountId,
    amount: i128,
    allowed: spec_fn(AccountId) -> bool,
)
    ensures
        v.mint(caller, to, amount, allowed) is Ok <==> (v.metadata matches Some(md) && md.admin
            == caller && !md.paused && amount > 0 && allowed(to) && md.total_supply + amount
            <= i128::MAX),
        (v.metadata matches Some(md) && md.admin == caller && !md.paused && amount > 0 && !allowed(
            to,
        )) ==> v.mint(caller, to, amount, allowed) == Err::<TokenView, TokenError>(
            TokenError::RecipientNotCompliant,
        ),
{
}

proof fn lemma_batch_ok_entries(r: Seq<(AccountId, i128)>, supply: int, allowed: spec_fn(AccountId) -> bool)
    ensures
        batch_outcome(r, supply, allowed) is Ok <==> ((forall|i: int|
            0 <= i < r.len() ==> #[trigger] r[i].1 > 0 && allowed(r[i].0)) && (r.len() > 0
            ==> supply + batch_total(r) <= i128::MAX)),
    decreases r.len(),
{
    if r.len() > 0 {
        let r2 = r.drop_last();
        lemma_batch_ok_entries(r2, supply, allowed);
        if batch_outcome(r2, supply, allowed) is Ok {
            lemma_batch_total(r2, supply, allowed);
        }
        assert forall|i: int| 0 <= i < r2.len() implies r2[i] == r[i] by {}
        if (forall|i: int| 0 <= i < r.len() ==> #[trigger] r[i].1 > 0 && allowed(r[i].0)) {
            assert forall|i: int| 0 <= i < r2.len() implies #[trigger] r2[i].1 > 0 && allowed(
                r2[i].0,
            ) by {
                assert(r2[i] == r[i]);
            }
            // the running total only grows, so a bound on the whole bounds the prefix
            if r.len() > 1 {
                lemma_batch_total_positive(r2);
            }
        }
        if batch_outcome(r, supply, allowed) is Ok {
            assert(r[r.len() - 1] == r.last());
        }
    }
}

proof fn lemma_batch_total_positive(r: Seq<(AccountId, i128)>)
    requires
        forall|i: int| 0 <= i < r.len() ==> #[trigger] r[i].1 > 0,
    ensures
        batch_total(r) >= 0,
    decreases r.len(),
{
    if r.len() > 0 {
        let r2 = r.drop_last();
        assert forall|i: int| 0 <= i < r2.len() implies #[trigger] r2[i].1 > 0 by {
            assert(r2[i] == r[i]);
        }
        lemma_batch_total_positive(r2);
        assert(r[r.len() - 1].1 > 0);
    }
}

/// A batch mint goes through exactly when the admin asks on an unpaused
/// token, every entry has a positive amount and an allowed recipient, and the
/// supply stays within `i128`.
pub proof fn law_batch_mint_only_to_allowed(
    v: TokenView,
    caller: AccountId,
    recipients: Seq<(AccountId, i128)>,
    allowed: spec_fn(AccountId) -> bool,
)
    ensures
        v.mint_batch(caller, recipients, allowed) is Ok <==> (v.metadata matches Some(md)
            && md.admin == caller && !md.paused && (forall|i: int|
            0 <= i < recipients.len() ==> #[trigger] recipients[i].1 > 0 && allowed(
                recipients[i].0,
            )) && (recipients.len() > 0 ==> md.total_supply + batch_total(recipients)
            <= i128::MAX)),
{
    if v.metadata is Some {
        lemma_batch_ok_entries(recipients, v.metadata.unwrap().total_supply as int, allowed);
    }
}

/// A burn goes through exactly when the token is initialised and unpaused,
/// the amount positive, the holder allowed and holding enough.
pub proof fn law_burn_only_by_allowed(
    v: TokenView,
    from: AccountId,
    amount: i128,
    allowed: spec_fn(AccountId) -> bool,
)
    ensures
        v.burn(from, amount, allowed) is Ok <==> (v.metadata matches Some(md) && !md.paused && amount
            > 0 && allowed(from) && v.balances[from] >= amount),
{
}

/// Initialisation goes through exactly on a fresh token with non-negative
/// supply and valuation and an allowed admin.
pub proof fn law_initialize_only_for_allowed_admin(
    v: TokenView,
    md: AssetMetadata,
    allowed: spec_fn(AccountId) -> bool,
)
    ensures
        v.initialize(md, allowed) is Ok <==> (v.metadata is None && md.total_supply >= 0
            && md.valuation >= 0 && allowed(md.admin)),
{
}

/// The administrative setters go through exactly for the admin (a valuation
/// must be non-negative, a new registry must allow the admin) and set the
/// value they are given.
pub proof fn law_setters_are_the_admins(
    v: TokenView,
    caller: AccountId,
    paused: bool,
    valuation: i128,
    compliance_contract: AccountId,
    new_allowed: spec_fn(AccountId) -> bool,
)
    ensures
        v.set_paused(caller, paused) is Ok <==> (v.metadata matches Some(md) && md.admin == caller),
        v.set_paused(caller, paused) matches Ok(w) ==> w.metadata.unwrap().paused == paused,
        v.update_valuation(caller, valuation) is Ok <==> (v.metadata matches Some(md) && md.admin
            == caller && valuation >= 0),
        v.update_valuation(caller, valuation) matches Ok(w) ==> w.metadata.unwrap().valuation
            == valuation,
        v.set_compliance(caller, compliance_contract, new_allowed) is Ok <==> (v.metadata matches Some(
            md,
        ) && md.admin == caller && new_allowed(caller)),
        v.set_compliance(caller, compliance_contract, new_allowed) matches Ok(w)
            ==> w.metadata.unwrap().compliance_contract == compliance_contract,
{
}

} // verus!
