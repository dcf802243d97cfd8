//! Balances of the token's holders, kept as an association list with one
//! entry per account that has ever held tokens.
use vstd::prelude::*;
use crate::AccountId;

verus! {

/// The balance recorded for `a`; 0 for an account without an entry.
pub open spec fn lookup(s: Seq<(AccountId, i128)>, a: AccountId) -> int
    decreases s.len(),
{
    if s.len() == 0 {
        0
    } else if s.last().0 == a {
        s.last().1 as int
    } else {
        lookup(s.drop_last(), a)
    }
}

/// The sum of all recorded balances.
pub open spec fn entries_sum(s: Seq<(AccountId, i128)>) -> int
    decreases s.len(),
{
    if s.len() == 0 {
        0
    } else {
        entries_sum(s.drop_last()) + s.last().1
    }
}

/// The sum of `m` over the accounts of `h`.
pub open spec fn sum_over(h: Seq<AccountId>, m: Map<AccountId, int>) -> int
    decreases h.len(),
{
    if h.len() == 0 {
        0
    } else {
        sum_over(h.drop_last(), m) + m[h.last()]
    }
}

/// No account has two entries.
pub open spec fn keys_distinct(s: Seq<(AccountId, i128)>) -> bool {
    forall|i: int, j: int| 0 <= i < s.len() && 0 <= j < s.len() && i != j ==> s[i].0 != s[j].0
}

/// No recorded balance is negative.
pub open spec fn all_nonnegative(s: Seq<(AccountId, i128)>) -> bool {
    forall|i: int| 0 <= i < s.len() ==> s[i].1 >= 0
}

proof fn lemma_lookup_absent(s: Seq<(AccountId, i128)>, a: AccountId)
    requires
        forall|i: int| 0 <= i < s.len() ==> s[i].0 != a,
    ensures
        lookup(s, a) == 0,
    decreases s.len(),
{
    if s.len() > 0 {
        lemma_lookup_absent(s.drop_last(), a);
    }
}

proof fn lemma_lookup_index(s: Seq<(AccountId, i128)>, i: int)
    requires
        keys_distinct(s),
        0 <= i < s.len(),
    ensures
        lookup(s, s[i].0) == s[i].1,
    decreases s.len(),
{
    if i < s.len() - 1 {
        lemma_lookup_index(s.drop_last(), i);
    }
}

proof fn lemma_update(s: Seq<(AccountId, i128)>, i: int, v: i128, b: AccountId)
    requires
        keys_distinct(s),
        0 <= i < s.len(),
    ensures
        lookup(s.update(i, (s[i].0, v)), b) == if b == s[i].0 {
            v as int
        } else {
            lookup(s, b)
        },
        entries_sum(s.update(i, (s[i].0, v))) == entries_sum(s) - s[i].1 + v,
    decreases s.len(),
{
    let s2 = s.update(i, (s[i].0, v));
    if i == s.len() - 1 {
        assert(s2.drop_last() =~= s.drop_last());
        if b != s[i].0 {
        } else {
        }
    } else {
        lemma_update(s.drop_last(), i, v, b);
        assert(s2.drop_last() =~= s.drop_last().update(i, (s[i].0, v)));
    }
}

proof fn lemma_lookup_bounds(s: Seq<(AccountId, i128)>, a: AccountId)
    requires
        all_nonnegative(s),
    ensures
        0 <= lookup(s, a) <= entries_sum(s),
        0 <= entries_sum(s),
    decreases s.len(),
{
    if s.len() > 0 {
        lemma_lookup_bounds(s.drop_last(), a);
    }
}

proof fn lemma_sum_prefix_le(s: Seq<(AccountId, i128)>, k: int)
    requires
        all_nonnegative(s),
        0 <= k <= s.len(),
    ensures
        entries_sum(s.take(k)) <= entries_sum(s),
    decreases s.len(),
{
    if k < s.len() {
        assert(s.drop_last().take(k) =~= s.take(k));
        lemma_sum_prefix_le(s.drop_last(), k);
    } else {
        assert(s.take(k) =~= s);
    }
}

proof fn lemma_sum_over_congruent(h: Seq<AccountId>, m1: Map<AccountId, int>, m2: Map<AccountId, int>)
    requires
        forall|k: int| 0 <= k < h.len() ==> m1[#[trigger] h[k]] == m2[h[k]],
    ensures
        sum_over(h, m1) == sum_over(h, m2),
    decreases h.len(),
{
    if h.len() > 0 {
        let h2 = h.drop_last();
        assert forall|k: int| 0 <= k < h2.len() implies m1[#[trigger] h2[k]] == m2[h2[k]] by {
            assert(h2[k] == h[k]);
        }
        lemma_sum_over_congruent(h2, m1, m2);
        assert(m1[h[h.len() - 1]] == m2[h[h.len() - 1]]);
    }
}

/// The accounts of the entries, in order.
pub open spec fn holders_of(s: Seq<(AccountId, i128)>) -> Seq<AccountId> {
    s.map_values(|e: (AccountId, i128)| e.0)
}

/// The balances as a total map.
pub open spec fn balances_of(s: Seq<(AccountId, i128)>) -> Map<AccountId, int> {
    Map::new(|a: AccountId| true, |a: AccountId| lookup(s, a))
}

proof fn lemma_sum_is_sum_over_holders(s: Seq<(AccountId, i128)>)
    requires
        keys_distinct(s),
    ensures
        entries_sum(s) == sum_over(holders_of(s), balances_of(s)),
    decreases s.len(),
{
    if s.len() > 0 {
        let s2 = s.drop_last();
        lemma_sum_is_sum_over_holders(s2);
        let h = holders_of(s);
        assert(h.drop_last() =~= holders_of(s2));
        assert forall|k: int| 0 <= k < holders_of(s2).len() implies balances_of(s)[#[trigger] holders_of(
            s2,
        )[k]] == balances_of(s2)[holders_of(s2)[k]] by {
            assert(s2[k].0 != s.last().0);
        }
        lemma_sum_over_congruent(holders_of(s2), balances_of(s), balances_of(s2));
        assert(balances_of(s)[h.last()] == s.last().1);
    }
}

/// Balances per account.
pub struct BalanceLedger {
    entries: Vec<(AccountId, i128)>,
}

impl View for BalanceLedger {
    type V = Map<AccountId, int>;

    /// Every account's balance; 0 for one that never held tokens.
    closed spec fn view(&self) -> Map<AccountId, int> {
        balances_of(self.entries@)
    }
}

impl BalanceLedger {
    /// One entry per account, no negative balance.
    pub closed spec fn wf(self) -> bool {
        &&& keys_distinct(self.entries@)
        &&& all_nonnegative(self.entries@)
    }

    /// The sum of all balances.
    pub closed spec fn total(self) -> int {
        entries_sum(self.entries@)
    }

    /// The accounts that have ever held tokens.
    pub closed spec fn holders(self) -> Seq<AccountId> {
        holders_of(self.entries@)
    }

    /// Balances are non-negative and each is at most the total; only the
    /// finitely many listed holders can have a non-zero balance, and the
    /// total is the sum of their balances.
    pub proof fn lemma_total_is_sum_of_balances(self)
        requires
            self.wf(),
        ensures
            self.holders().no_duplicates(),
            forall|a: AccountId| #[trigger] self@.contains_key(a),
            forall|a: AccountId| 0 <= #[trigger] self@[a] <= self.total(),
            forall|a: AccountId| !self.holders().contains(a) ==> #[trigger] self@[a] == 0,
            self.total() == sum_over(self.holders(), self@),
    {
        let s = self.entries@;
        assert forall|a: AccountId| 0 <= #[trigger] self@[a] <= self.total() by {
            lemma_lookup_bounds(s, a);
        }
        assert forall|a: AccountId| !self.holders().contains(a) implies #[trigger] self@[a] == 0 by {
            assert forall|i: int| 0 <= i < s.len() implies s[i].0 != a by {
                assert(self.holders()[i] == s[i].0);
            }
            lemma_lookup_absent(s, a);
        }
        assert forall|i: int, j: int|
            0 <= i < self.holders().len() && 0 <= j < self.holders().len() && i != j implies self.holders()[i]
            != self.holders()[j] by {
            assert(self.holders()[i] == s[i].0);
            assert(self.holders()[j] == s[j].0);
        }
        lemma_sum_is_sum_over_holders(s);
    }

    /// A ledger in which nobody holds anything.
    pub fn new() -> (r: Self)
        ensures
            r.wf(),
            r.total() == 0,
            r.entries() == Seq::<(AccountId, i128)>::empty(),
            r@ == Map::new(|a: AccountId| true, |a: AccountId| 0int),
    {
        let r = BalanceLedger { entries: Vec::new() };
        assert(r@ =~= Map::new(|a: AccountId| true, |a: AccountId| 0int));
        r
    }

    fn find(&self, a: AccountId) -> (r: Option<usize>)
        ensures
            match r {
                Some(i) => i < self.entries@.len() && self.entries@[i as int].0 == a,
                None => forall|i: int| 0 <= i < self.entries@.len() ==> self.entries@[i].0 != a,
            },
    {
        let mut i: usize = 0;
        while i < self.entries.len()
            invariant
                i <= self.entries@.len(),
                forall|t: int| 0 <= t < i ==> self.entries@[t].0 != a,
            decreases self.entries@.len() - i,
        {
            if self.entries[i].0 == a {
                return Some(i);
            }
            i += 1;
        }
        None
    }

    /// The balance of `a`.
    pub fn balance(&self, a: AccountId) -> (r: i128)
        requires
            self.wf(),
        ensures
            r == self@[a],
    {
        match self.find(a) {
            Some(i) => {
                proof {
                    lemma_lookup_index(self.entries@, i as int);
                }
                self.entries[i].1
            },
            None => {
                proof {
                    lemma_lookup_absent(self.entries@, a);
                }
                0
            },
        }
    }

    /// Adds `amount` to the balance of `a`.
    pub fn credit(&mut self, a: AccountId, amount: i128)
        requires
            old(self).wf(),
            amount >= 0,
            old(self).total() + amount <= i128::MAX,
        ensures
            final(self).wf(),
            final(self)@ == old(self)@.insert(a, old(self)@[a] + amount),
            final(self).total() == old(self).total() + amount,
    {
        let ghost s = self.entries@;
        proof {
            lemma_lookup_bounds(s, a);
        }
        match self.find(a) {
            Some(i) => {
                proof {
                    lemma_lookup_index(s, i as int);
                }
                let v = self.entries[i].1 + amount;
                self.entries.set(i, (a, v));
                proof {
                    assert(self.entries@ == s.update(i as int, (s[i as int].0, v)));
                    assert forall|b: AccountId| #[trigger]
                        self@[b] == old(self)@.insert(a, old(self)@[a] + amount)[b] by {
                        lemma_update(s, i as int, v, b);
                    }
                    assert(self@ =~= old(self)@.insert(a, old(self)@[a] + amount));
                    lemma_update(s, i as int, v, a);
                }
            },
            None => {
                proof {
                    lemma_lookup_absent(s, a);
                }
                self.entries.push((a, amount));
                proof {
                    assert(self.entries@.drop_last() =~= s);
                    assert(self@ =~= old(self)@.insert(a, old(self)@[a] + amount));
                }
            },
        }
    }

    /// Takes `amount` from the balance of `a`.
    pub fn debit(&mut self, a: AccountId, amount: i128)
        requires
            old(self).wf(),
            0 <= amount <= old(self)@[a],
        ensures
            final(self).wf(),
            final(self)@ == old(self)@.insert(a, old(self)@[a] - amount),
            final(self).total() == old(self).total() - amount,
    {
        let ghost s = self.entries@;
        match self.find(a) {
            Some(i) => {
                proof {
                    lemma_lookup_index(s, i as int);
                }
                let v = self.entries[i].1 - amount;
                self.entries.set(i, (a, v));
                proof {
                    assert(self.entries@ == s.update(i as int, (s[i as int].0, v)));
                    assert forall|b: AccountId| #[trigger]
                        self@[b] == old(self)@.insert(a, old(self)@[a] - amount)[b] by {
                        lemma_update(s, i as int, v, b);
                    }
                    assert(self@ =~= old(self)@.insert(a, old(self)@[a] - amount));
                    lemma_update(s, i as int, v, a);
                }
            },
            None => {
                proof {
                    lemma_lookup_absent(s, a);
                }
                assert(amount == 0);
                assert(self@ =~= old(self)@.insert(a, old(self)@[a] - amount));
            },
        }
    }

    /// The entries in order: one per account that has ever held tokens.
    pub closed spec fn entries(self) -> Seq<(AccountId, i128)> {
        self.entries@
    }

    /// The view is the balances the entries record, and the total their sum.
    pub proof fn lemma_entries(self)
        ensures
            self@ == balances_of(self.entries()),
            self.total() == entries_sum(self.entries()),
            self.wf() == (keys_distinct(self.entries()) && all_nonnegative(self.entries())),
    {
    }

    /// A copy of the entries.
    pub fn to_entries(&self) -> (r: Vec<(AccountId, i128)>)
        ensures
            r@ == self.entries(),
    {
        let mut out: Vec<(AccountId, i128)> = Vec::new();
        let mut i: usize = 0;
        while i < self.entries.len()
            invariant
                i <= self.entries@.len(),
                out@ == self.entries@.take(i as int),
            decreases self.entries@.len() - i,
        {
            out.push(self.entries[i]);
            proof {
                assert(out@ =~= self.entries@.take(i + 1));
            }
            i += 1;
        }
        proof {
            assert(self.entries@.take(i as int) =~= self.entries@);
        }
        out
    }

    /// A ledger holding exactly these entries; `None` when an account occurs
    /// twice or a balance is negative.
    pub fn from_entries(v: Vec<(AccountId, i128)>) -> (r: Option<BalanceLedger>)
        ensures
            match r {
                Some(l) => l.wf() && l.entries() == v@,
                None => !(keys_distinct(v@) && all_nonnegative(v@)),
            },
    {
        let mut i: usize = 0;
        while i < v.len()
            invariant
                i <= v@.len(),
                keys_distinct(v@.take(i as int)),
                all_nonnegative(v@.take(i as int)),
            decreases v@.len() - i,
        {
            let (a, bal) = v[i];
            if bal < 0 {
                return None;
            }
            let mut j: usize = 0;
            while j < i
                invariant
                    i < v@.len(),
                    j <= i,
                    a == v@[i as int].0,
                    forall|t: int| 0 <= t < j ==> v@[t].0 != a,
                decreases i - j,
            {
                if v[j].0 == a {
                    return None;
                }
                j += 1;
            }
            proof {
                let p = v@.take(i + 1);
                assert forall|x: int, y: int|
                    0 <= x < p.len() && 0 <= y < p.len() && x != y implies p[x].0 != p[y].0 by {
                    if x < i && y < i {
                        assert(v@.take(i as int)[x] == p[x]);
                        assert(v@.take(i as int)[y] == p[y]);
                    }
                }
                assert forall|x: int| 0 <= x < p.len() implies p[x].1 >= 0 by {
                    if x < i {
                        assert(v@.take(i as int)[x] == p[x]);
                    }
                }
            }
            i += 1;
        }
        proof {
            assert(v@.take(i as int) =~= v@);
        }
        Some(BalanceLedger { entries: v })
    }

    /// The sum of all balances, or `None` when it exceeds `i128::MAX`.
    pub fn checked_total(&self) -> (r: Option<i128>)
        requires
            self.wf(),
        ensures
            match r {
                Some(t) => t == self.total(),
                None => self.total() > i128::MAX,
            },
    {
        let mut sum: i128 = 0;
        let mut i: usize = 0;
        while i < self.entries.len()
            invariant
                self.wf(),
                i <= self.entries@.len(),
                sum == entries_sum(self.entries@.take(i as int)),
            decreases self.entries@.len() - i,
        {
            proof {
                assert(self.entries@.take(i + 1).drop_last() =~= self.entries@.take(i as int));
            }
            sum = match sum.checked_add(self.entries[i].1) {
                Some(t) => t,
                None => {
                    proof {
                        lemma_sum_prefix_le(self.entries@, i + 1);
                    }
                    return None;
                },
            };
            i += 1;
        }
        proof {
            assert(self.entries@.take(i as int) =~= self.entries@);
        }
        Some(sum)
    }
}

} // verus!
