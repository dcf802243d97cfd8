//! The paginated allowlist: an insertion-ordered list of distinct accounts,
//! stored as fixed-capacity pages plus an index from each account to its page.
use vstd::prelude::*;
use std::collections::HashMap;
use crate::AccountId;

verus! {

broadcast use vstd::std_specs::hash::group_hash_axioms;

/// The number of accounts one page of the allowlist holds.
pub const ALLOWLIST_PAGE_SIZE: usize = 200;

/// The pages laid end to end.
pub open spec fn flatten(pages: Seq<Seq<AccountId>>) -> Seq<AccountId>
    decreases pages.len(),
{
    if pages.len() == 0 {
        Seq::empty()
    } else {
        flatten(pages.drop_last()) + pages.last()
    }
}

/// Position in the flattened list at which page `i` begins.
pub open spec fn page_offset(pages: Seq<Seq<AccountId>>, i: int) -> int {
    flatten(pages.take(i)).len() as int
}

/// Where a new account lands: at the end of the last page, or on a fresh page
/// when there is none or the last one is full.
pub open spec fn pages_after_push(pages: Seq<Seq<AccountId>>, a: AccountId) -> Seq<Seq<AccountId>> {
    if pages.len() == 0 || pages.last().len() >= ALLOWLIST_PAGE_SIZE {
        pages.push(seq![a])
    } else {
        pages.update(pages.len() - 1, pages.last().push(a))
    }
}

/// The pages that pushing the accounts of `s` in order onto an empty list
/// lays out.
pub open spec fn pages_of_pushes(s: Seq<AccountId>) -> Seq<Seq<AccountId>>
    decreases s.len(),
{
    if s.len() == 0 {
        Seq::empty()
    } else {
        pages_after_push(pages_of_pushes(s.drop_last()), s.last())
    }
}

proof fn lemma_flatten_push_page(p: Seq<Seq<AccountId>>, q: Seq<AccountId>)
    ensures
        flatten(p.push(q)) == flatten(p) + q,
{
    assert(p.push(q).drop_last() =~= p);
}

proof fn lemma_flatten_extend_last(p: Seq<Seq<AccountId>>, a: AccountId)
    requires
        p.len() > 0,
    ensures
        flatten(p.update(p.len() - 1, p.last().push(a))) == flatten(p).push(a),
{
    let p2 = p.update(p.len() - 1, p.last().push(a));
    assert(p2.drop_last() =~= p.drop_last());
    assert(flatten(p2) =~= flatten(p).push(a));
}

proof fn lemma_flatten_after_push(p: Seq<Seq<AccountId>>, a: AccountId)
    ensures
        flatten(pages_after_push(p, a)) == flatten(p).push(a),
{
    if p.len() == 0 || p.last().len() >= ALLOWLIST_PAGE_SIZE {
        lemma_flatten_push_page(p, seq![a]);
        assert(flatten(p) + seq![a] =~= flatten(p).push(a));
    } else {
        lemma_flatten_extend_last(p, a);
    }
}

/// Element `j` of page `i` sits at position `page_offset(p, i) + j`.
proof fn lemma_flatten_index(p: Seq<Seq<AccountId>>, i: int, j: int)
    requires
        0 <= i < p.len(),
        0 <= j < p[i].len(),
    ensures
        0 <= page_offset(p, i),
        page_offset(p, i) + j < flatten(p).len(),
        flatten(p)[page_offset(p, i) + j] == p[i][j],
    decreases p.len(),
{
    if i == p.len() - 1 {
        assert(p.take(i) =~= p.drop_last());
    } else {
        lemma_flatten_index(p.drop_last(), i, j);
        assert(p.drop_last().take(i) =~= p.take(i));
    }
}

/// Every position of the flattened list belongs to some page.
proof fn lemma_flatten_locate(p: Seq<Seq<AccountId>>, k: int)
    requires
        0 <= k < flatten(p).len(),
    ensures
        exists|i: int, j: int|
            0 <= i < p.len() && 0 <= j < p[i].len() && k == page_offset(p, i) + j
                && flatten(p)[k] == #[trigger] p[i][j],
    decreases p.len(),
{
    let front = flatten(p.drop_last());
    if k < front.len() {
        lemma_flatten_locate(p.drop_last(), k);
        let (i, j) = choose|i: int, j: int|
            0 <= i < p.drop_last().len() && 0 <= j < p.drop_last()[i].len() && k == page_offset(
                p.drop_last(),
                i,
            ) + j && flatten(p.drop_last())[k] == #[trigger] p.drop_last()[i][j];
        assert(p.drop_last().take(i) =~= p.take(i));
        assert(p[i][j] == p.drop_last()[i][j]);
    } else {
        let i = p.len() - 1;
        let j = k - front.len();
        assert(p.take(i) =~= p.drop_last());
        assert(p[i][j] == flatten(p)[k]);
    }
}

/// Removing element `j` of page `i` removes position `page_offset(p, i) + j`.
proof fn lemma_flatten_remove(p: Seq<Seq<AccountId>>, i: int, j: int)
    requires
        0 <= i < p.len(),
        0 <= j < p[i].len(),
    ensures
        flatten(p.update(i, p[i].remove(j))) == flatten(p).remove(page_offset(p, i) + j),
    decreases p.len(),
{
    let p2 = p.update(i, p[i].remove(j));
    if i == p.len() - 1 {
        assert(p.take(i) =~= p.drop_last());
        assert(p2.drop_last() =~= p.drop_last());
        let a = flatten(p.drop_last());
        let b = p[i];
        assert((a + b).remove(a.len() + j) =~= a + b.remove(j));
    } else {
        lemma_flatten_remove(p.drop_last(), i, j);
        lemma_flatten_index(p.drop_last(), i, j);
        assert(p.drop_last().take(i) =~= p.take(i));
        assert(p2.drop_last() =~= p.drop_last().update(i, p[i].remove(j)));
        let a = flatten(p.drop_last());
        let b = p.last();
        let k = page_offset(p, i) + j;
        assert((a + b).remove(k) =~= a.remove(k) + b);
    }
}

/// An ordered list of distinct accounts kept in pages of at most
/// `ALLOWLIST_PAGE_SIZE` entries, with an index from account to page.
pub struct Allowlist {
    pages: Vec<Vec<AccountId>>,
    page_of: HashMap<AccountId, usize>,
}

impl View for Allowlist {
    type V = Seq<AccountId>;

    /// The accounts in list order.
    closed spec fn view(&self) -> Seq<AccountId> {
        flatten(self.pages_view())
    }
}

impl Allowlist {
    /// The contents of each page.
    pub closed spec fn pages_view(self) -> Seq<Seq<AccountId>> {
        Seq::new(self.pages@.len(), |i: int| self.pages@[i]@)
    }

    /// Pages are bounded, the list holds no account twice, and the index
    /// maps exactly the listed accounts to their pages.
    pub closed spec fn wf(self) -> bool {
        let pv = self.pages_view();
        &&& forall|i: int| 0 <= i < pv.len() ==> #[trigger] pv[i].len() <= ALLOWLIST_PAGE_SIZE
        &&& flatten(pv).no_duplicates()
        &&& forall|i: int, j: int|
            0 <= i < pv.len() && 0 <= j < pv[i].len() ==> {
                &&& self.page_of@.contains_key(#[trigger] pv[i][j])
                &&& self.page_of@[pv[i][j]] == i
            }
        &&& forall|a: AccountId| #[trigger]
            self.page_of@.contains_key(a) ==> {
                &&& self.page_of@[a] < pv.len()
                &&& pv[self.page_of@[a] as int].contains(a)
            }
    }

    proof fn lemma_index_matches_list(self)
        requires
            self.wf(),
        ensures
            forall|a: AccountId| #[trigger] self.page_of@.contains_key(a) <==> self@.contains(a),
    {
        let pv = self.pages_view();
        assert forall|a: AccountId| #[trigger] self.page_of@.contains_key(a) <==> self@.contains(a) by {
            if self.page_of@.contains_key(a) {
                let i = self.page_of@[a] as int;
                let j = choose|j: int| 0 <= j < pv[i].len() && pv[i][j] == a;
                lemma_flatten_index(pv, i, j);
            }
            if self@.contains(a) {
                let k = choose|k: int| 0 <= k < self@.len() && self@[k] == a;
                lemma_flatten_locate(pv, k);
            }
        }
    }

    /// Every page holds at most `ALLOWLIST_PAGE_SIZE` accounts, the pages laid
    /// end to end are the list, and no account is listed twice.
    pub proof fn lemma_pages_bounded(self)
        requires
            self.wf(),
        ensures
            forall|i: int|
                0 <= i < self.pages_view().len() ==> #[trigger] self.pages_view()[i].len()
                    <= ALLOWLIST_PAGE_SIZE,
            flatten(self.pages_view()) == self@,
            self@.no_duplicates(),
    {
    }

    /// An empty list with no pages.
    pub fn new() -> (r: Self)
        ensures
            r.wf(),
            r@ == Seq::<AccountId>::empty(),
            r.pages_view() == Seq::<Seq<AccountId>>::empty(),
    {
        let r = Allowlist { pages: Vec::new(), page_of: HashMap::new() };
        assert(r.pages_view() =~= Seq::<Seq<AccountId>>::empty());
        r
    }

    /// Whether the account is listed.
    pub fn contains(&self, a: AccountId) -> (r: bool)
        requires
            self.wf(),
        ensures
            r == self@.contains(a),
    {
        proof {
            self.lemma_index_matches_list();
        }
        self.page_of.contains_key(&a)
    }

    /// The number of pages opened so far.
    pub fn page_count(&self) -> (r: usize)
        ensures
            r == self.pages_view().len(),
    {
        self.pages.len()
    }

    /// Appends an account that is not yet listed.
    pub fn push(&mut self, a: AccountId)
        requires
            old(self).wf(),
            !old(self)@.contains(a),
        ensures
            final(self).wf(),
            final(self)@ == old(self)@.push(a),
            final(self).pages_view() == pages_after_push(old(self).pages_view(), a),
    {
        proof {
            self.lemma_index_matches_list();
        }
        let ghost pv = self.pages_view();
        let n = self.pages.len();
        if n == 0 || self.pages[n - 1].len() >= ALLOWLIST_PAGE_SIZE {
            let mut page: Vec<AccountId> = Vec::new();
            page.push(a);
            self.pages.push(page);
            self.page_of.insert(a, n);
        } else {
            self.pages[n - 1].push(a);
            self.page_of.insert(a, n - 1);
        }
        proof {
            let pv2 = self.pages_view();
            assert(pv2 =~= pages_after_push(pv, a));
            lemma_flatten_after_push(pv, a);
            let s = flatten(pv);
            assert forall|x: int, y: int|
                0 <= x < s.push(a).len() && 0 <= y < s.push(a).len() && x != y implies s.push(a)[x]
                != s.push(a)[y] by {
                if x < s.len() && y < s.len() {
                } else if x < s.len() {
                    assert(s.contains(s[x]));
                } else if y < s.len() {
                    assert(s.contains(s[y]));
                }
            }
            assert forall|i: int, j: int| 0 <= i < pv2.len() && 0 <= j < pv2[i].len() implies {
                &&& self.page_of@.contains_key(#[trigger] pv2[i][j])
                &&& self.page_of@[pv2[i][j]] == i
            } by {
                if i < pv.len() && j < pv[i].len() {
                    assert(pv2[i][j] == pv[i][j]);
                    lemma_flatten_index(pv, i, j);
                    assert(pv[i][j] != a);
                } else {
                    assert(pv2[i][j] == a);
                }
            }
            assert forall|b: AccountId| #[trigger] self.page_of@.contains_key(b) implies {
                &&& self.page_of@[b] < pv2.len()
                &&& pv2[self.page_of@[b] as int].contains(b)
            } by {
                if b == a {
                    let i = self.page_of@[b] as int;
                    assert(pv2[i][pv2[i].len() - 1] == a);
                } else {
                    let i = self.page_of@[b] as int;
                    let j = choose|j: int| 0 <= j < pv[i].len() && pv[i][j] == b;
                    assert(pv2[i][j] == b);
                }
            }
        }
    }

    /// Removes a listed account; the others keep their order.
    pub fn remove(&mut self, a: AccountId)
        requires
            old(self).wf(),
            old(self)@.contains(a),
        ensures
            final(self).wf(),
            final(self)@ == old(self)@.remove(old(self)@.index_of(a)),
            final(self).pages_view().len() == old(self).pages_view().len(),
            exists|k: int, j: int|
                0 <= k < old(self).pages_view().len() && 0 <= j < old(self).pages_view()[k].len()
                    && old(self).pages_view()[k][j] == a && final(self).pages_view()
                    == old(self).pages_view().update(k, old(self).pages_view()[k].remove(j)),
    {
        proof {
            self.lemma_index_matches_list();
        }
        let ghost pv = self.pages_view();
        let k: usize = match self.page_of.get(&a) {
            Some(k) => *k,
            None => 0,
        };
        let j = position_of(&self.pages[k], a);
        self.pages[k].remove(j);
        self.page_of.remove(&a);
        proof {
            let pv2 = self.pages_view();
            assert(pv2 =~= pv.update(k as int, pv[k as int].remove(j as int)));
            lemma_flatten_remove(pv, k as int, j as int);
            lemma_flatten_index(pv, k as int, j as int);
            let s = flatten(pv);
            let g = page_offset(pv, k as int) + j;
            assert(s.index_of(a) == g) by {
                let t = s.index_of(a);
                assert(s.contains(a));
                assert(s[t] == a);
            }
            let s2 = s.remove(g);
            assert(s2 == flatten(pv2));
            assert forall|x: int, y: int|
                0 <= x < s2.len() && 0 <= y < s2.len() && x != y implies s2[x] != s2[y] by {
                let x1 = if x < g { x } else { x + 1 };
                let y1 = if y < g { y } else { y + 1 };
                assert(s2[x] == s[x1] && s2[y] == s[y1]);
            }
            assert forall|i: int, jj: int| 0 <= i < pv2.len() && 0 <= jj < pv2[i].len() implies {
                &&& self.page_of@.contains_key(#[trigger] pv2[i][jj])
                &&& self.page_of@[pv2[i][jj]] == i
            } by {
                if i == k {
                    let j1 = if jj < j { jj } else { jj + 1 };
                    assert(pv2[i][jj] == pv[i][j1]);
                    lemma_flatten_index(pv, i, j1);
                    assert(pv[i][j1] != a);
                } else {
                    assert(pv2[i][jj] == pv[i][jj]);
                }
            }
            assert forall|b: AccountId| #[trigger] self.page_of@.contains_key(b) implies {
                &&& self.page_of@[b] < pv2.len()
                &&& pv2[self.page_of@[b] as int].contains(b)
            } by {
                let i = self.page_of@[b] as int;
                let jb = choose|jb: int| 0 <= jb < pv[i].len() && pv[i][jb] == b;
                if i == k {
                    assert(jb != j);
                    let j2 = if jb < j { jb } else { jb - 1 };
                    assert(pv2[i][j2] == b);
                } else {
                    assert(pv2[i][jb] == b);
                }
            }
        }
    }

    /// The listed accounts in order.
    pub fn to_vec(&self) -> (r: Vec<AccountId>)
        ensures
            r@ == self@,
    {
        let ghost pv = self.pages_view();
        let mut out: Vec<AccountId> = Vec::new();
        let mut i: usize = 0;
        while i < self.pages.len()
            invariant
                pv == self.pages_view(),
                i <= self.pages@.len(),
                out@ == flatten(pv.take(i as int)),
            decreases self.pages@.len() - i,
        {
            let page = &self.pages[i];
            let mut j: usize = 0;
            while j < page.len()
                invariant
                    pv == self.pages_view(),
                    i < self.pages@.len(),
                    *page == self.pages@[i as int],
                    j <= page@.len(),
                    out@ == flatten(pv.take(i as int)) + page@.take(j as int),
                decreases page@.len() - j,
            {
                out.push(page[j]);
                j += 1;
                proof {
                    assert(page@.take(j as int) =~= page@.take(j - 1).push(page@[j - 1]));
                }
            }
            proof {
                assert(pv.take(i + 1) =~= pv.take(i as int).push(pv[i as int]));
                lemma_flatten_push_page(pv.take(i as int), pv[i as int]);
                assert(page@.take(j as int) =~= pv[i as int]);
            }
            i += 1;
        }
        proof {
            assert(pv.take(i as int) =~= pv);
        }
        out
    }
}

/// Index of a value known to occur in the page.
fn position_of(page: &Vec<AccountId>, a: AccountId) -> (r: usize)
    requires
        page@.contains(a),
    ensures
        r < page@.len(),
        page@[r as int] == a,
{
    let mut j: usize = 0;
    while j < page.len()
        invariant
            j <= page@.len(),
            page@.contains(a),
            forall|t: int| 0 <= t < j ==> page@[t] != a,
        decreases page@.len() - j,
    {
        if page[j] == a {
            return j;
        }
        j += 1;
    }
    proof {
        let t = choose|t: int| 0 <= t < page@.len() && page@[t] == a;
        assert(page@[t] != a);
    }
    0
}

} // verus!
