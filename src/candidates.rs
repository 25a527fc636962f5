//! Candidate sets: asset URLs unique by exact text, kept in lexicographic order.
use vstd::prelude::*;
use crate::quality::{pieces, push_all};
use crate::text::{same_chars, string_of};

verus! {

/// `a` comes strictly before `b` in lexicographic order of character codes.
pub open spec fn lex_lt(a: Seq<char>, b: Seq<char>) -> bool
    decreases a.len(),
{
    if a.len() == 0 {
        b.len() > 0
    } else if b.len() == 0 {
        false
    } else if a[0] != b[0] {
        (a[0] as int) < (b[0] as int)
    } else {
        lex_lt(a.drop_first(), b.drop_first())
    }
}

/// Every element comes strictly before each later one.
pub open spec fn strictly_sorted(s: Seq<Seq<char>>) -> bool {
    forall|i: int, j: int| 0 <= i < j < s.len() ==> lex_lt(#[trigger] s[i], #[trigger] s[j])
}

pub proof fn lemma_lex_irreflexive(a: Seq<char>)
    ensures
        !lex_lt(a, a),
    decreases a.len(),
{
    if a.len() > 0 {
        lemma_lex_irreflexive(a.drop_first());
    }
}

pub proof fn lemma_lex_total(a: Seq<char>, b: Seq<char>)
    ensures
        a == b || lex_lt(a, b) || lex_lt(b, a),
    decreases a.len(),
{
    if a.len() > 0 && b.len() > 0 && a[0] == b[0] {
        lemma_lex_total(a.drop_first(), b.drop_first());
        if a.drop_first() == b.drop_first() {
            assert(a =~= seq![a[0]] + a.drop_first());
            assert(b =~= seq![b[0]] + b.drop_first());
        }
    } else if a.len() > 0 && b.len() > 0 {
        assert((a[0] as int) != (b[0] as int));
    } else if a.len() == 0 && b.len() == 0 {
        assert(a =~= b);
    }
}

pub proof fn lemma_lex_asymmetric(a: Seq<char>, b: Seq<char>)
    ensures
        !(lex_lt(a, b) && lex_lt(b, a)),
    decreases a.len(),
{
    if a.len() > 0 && b.len() > 0 && a[0] == b[0] {
        lemma_lex_asymmetric(a.drop_first(), b.drop_first());
    }
}

pub proof fn lemma_lex_transitive(a: Seq<char>, b: Seq<char>, c: Seq<char>)
    requires
        lex_lt(a, b),
        lex_lt(b, c),
    ensures
        lex_lt(a, c),
    decreases a.len(),
{
    if a.len() > 0 && b.len() > 0 && c.len() > 0 && a[0] == b[0] && b[0] == c[0] {
        lemma_lex_transitive(a.drop_first(), b.drop_first(), c.drop_first());
    }
}

/// Two strictly sorted sequences that hold the same elements are the same sequence:
/// the order of a candidate list is fixed by its contents alone.
pub proof fn lemma_sorted_unique(a: Seq<Seq<char>>, b: Seq<Seq<char>>)
    requires
        strictly_sorted(a),
        strictly_sorted(b),
        a.to_set() == b.to_set(),
    ensures
        a == b,
    decreases a.len(),
{
    if a.len() == 0 {
        if b.len() > 0 {
            assert(a.to_set().contains(b[0]));
        }
        assert(a =~= b);
    } else if b.len() == 0 {
        assert(b.to_set().contains(a[0]));
    } else {
        assert(b.to_set().contains(a[0]));
        assert(a.to_set().contains(b[0]));
        let j = choose|j: int| 0 <= j < b.len() && b[j] == a[0];
        let i = choose|i: int| 0 <= i < a.len() && a[i] == b[0];
        if a[0] != b[0] {
            assert(j > 0 && i > 0);
            assert(lex_lt(b[0], b[j]));
            assert(lex_lt(a[0], a[i]));
            lemma_lex_asymmetric(a[0], b[0]);
        }
        let a1 = a.drop_first();
        let b1 = b.drop_first();
        assert forall|x: Seq<char>| a1.to_set().contains(x) <==> b1.to_set().contains(x) by {
            if a1.to_set().contains(x) {
                let k = choose|k: int| 0 <= k < a1.len() && a1[k] == x;
                assert(a[k + 1] == x);
                assert(lex_lt(a[0], a[k + 1]));
                lemma_lex_irreflexive(x);
                assert(b.to_set().contains(x));
                let m = choose|m: int| 0 <= m < b.len() && b[m] == x;
                assert(m != 0);
                assert(b1[m - 1] == x);
            }
            if b1.to_set().contains(x) {
                let k = choose|k: int| 0 <= k < b1.len() && b1[k] == x;
                assert(b[k + 1] == x);
                assert(lex_lt(b[0], b[k + 1]));
                lemma_lex_irreflexive(x);
                assert(a.to_set().contains(x));
                let m = choose|m: int| 0 <= m < a.len() && a[m] == x;
                assert(m != 0);
                assert(a1[m - 1] == x);
            }
        }
        assert(a1.to_set() =~= b1.to_set());
        assert(strictly_sorted(a1)) by {
            assert forall|i: int, j: int| 0 <= i < j < a1.len() implies lex_lt(
                #[trigger] a1[i],
                #[trigger] a1[j],
            ) by {
                assert(a1[i] == a[i + 1] && a1[j] == a[j + 1]);
            }
        }
        assert(strictly_sorted(b1)) by {
            assert forall|i: int, j: int| 0 <= i < j < b1.len() implies lex_lt(
                #[trigger] b1[i],
                #[trigger] b1[j],
            ) by {
                assert(b1[i] == b[i + 1] && b1[j] == b[j + 1]);
            }
        }
        lemma_sorted_unique(a1, b1);
        assert(a =~= seq![a[0]] + a1);
        assert(b =~= seq![b[0]] + b1);
    }
}

/// Whether `a` comes strictly before `b`.
pub fn lex_lt_exec(a: &[char], b: &[char]) -> (r: bool)
    ensures
        r == lex_lt(a@, b@),
{
    let mut i: usize = 0;
    assert(a@.skip(0) =~= a@ && b@.skip(0) =~= b@);
    while i < a.len() && i < b.len() && a[i] == b[i]
        invariant
            i <= a@.len(),
            i <= b@.len(),
            lex_lt(a@, b@) == lex_lt(a@.skip(i as int), b@.skip(i as int)),
        decreases a@.len() - i,
    {
        proof {
            assert(a@.skip(i as int).drop_first() =~= a@.skip(i + 1));
            assert(b@.skip(i as int).drop_first() =~= b@.skip(i + 1));
        }
        i = i + 1;
    }
    let ghost sa = a@.skip(i as int);
    let ghost sb = b@.skip(i as int);
    assert(sa.len() == a@.len() - i && sb.len() == b@.len() - i);
    if i == a.len() {
        i < b.len()
    } else if i == b.len() {
        false
    } else {
        assert(sa[0] == a@[i as int] && sb[0] == b@[i as int]);
        a[i] < b[i]
    }
}

/// The character sequences held by a sequence of strings.
pub open spec fn texts(v: Seq<String>) -> Seq<Seq<char>> {
    Seq::new(v.len(), |i: int| v[i]@)
}

/// A set of candidate URLs, unique by exact text and held in lexicographic order.
pub struct CandidateSet {
    pub items: Vec<Vec<char>>,
}

impl CandidateSet {
    /// The candidates in order.
    pub open spec fn list(&self) -> Seq<Seq<char>> {
        pieces(self.items@)
    }

    /// The candidates as a set.
    pub open spec fn members(&self) -> Set<Seq<char>> {
        self.list().to_set()
    }

    /// The order is strict, so no candidate appears twice.
    pub open spec fn wf(&self) -> bool {
        strictly_sorted(self.list())
    }

    /// An empty set.
    pub fn new() -> (r: CandidateSet)
        ensures
            r.wf(),
            r.list() == Seq::<Seq<char>>::empty(),
            r.members() == Set::<Seq<char>>::empty(),
    {
        let r = CandidateSet { items: Vec::new() };
        assert(r.list() =~= Seq::<Seq<char>>::empty());
        assert(r.members() =~= Set::<Seq<char>>::empty());
        r
    }

    /// The number of candidates.
    pub fn len(&self) -> (r: usize)
        ensures
            r == self.list().len(),
    {
        self.items.len()
    }

    /// Whether there are no candidates.
    pub fn is_empty(&self) -> (r: bool)
        requires
            self.wf(),
        ensures
            r == (self.members() == Set::<Seq<char>>::empty()),
    {
        if self.items.len() == 0 {
            assert(self.members() =~= Set::<Seq<char>>::empty());
            true
        } else {
            assert(self.members().contains(self.list()[0]));
            false
        }
    }

    /// Adds `x`; nothing changes when it is already present.
    pub fn insert(&mut self, x: &[char])
        requires
            old(self).wf(),
        ensures
            final(self).wf(),
            final(self).members() == old(self).members().insert(x@),
    {
        let ghost s = self.list();
        let n = self.items.len();
        let mut p: usize = 0;
        while p < n && lex_lt_exec(self.items[p].as_slice(), x)
            invariant
                n == self.items@.len(),
                s == self.list(),
                p <= n,
                forall|i: int| 0 <= i < p ==> lex_lt(#[trigger] s[i], x@),
            decreases n - p,
        {
            p = p + 1;
        }
        if p < n && same_chars(self.items[p].as_slice(), x) {
            assert(s.to_set().insert(x@) =~= s.to_set()) by {
                assert(s[p as int] == x@);
            }
            return;
        }
        let mut item: Vec<char> = Vec::new();
        push_all(&mut item, x);
        self.items.insert(p, item);
        let ghost t = self.list();
        assert(t =~= s.insert(p as int, x@));
        proof {
            if p < n {
                lemma_lex_total(s[p as int], x@);
            }
            assert forall|i: int, j: int| 0 <= i < j < t.len() implies lex_lt(
                #[trigger] t[i],
                #[trigger] t[j],
            ) by {
                if j < p {
                } else if j == p {
                } else if i < p {
                    if i < p && j > p {
                        assert(t[j] == s[j - 1]);
                        if j - 1 > i {
                        }
                    }
                } else if i == p {
                    assert(t[j] == s[j - 1]);
                    if j - 1 > p {
                        lemma_lex_transitive(x@, s[p as int], s[j - 1]);
                    }
                } else {
                    assert(t[i] == s[i - 1] && t[j] == s[j - 1]);
                }
            }
            assert forall|y: Seq<char>| #[trigger] t.to_set().contains(y) <==> s.to_set().insert(
                x@,
            ).contains(y) by {
                if t.to_set().contains(y) {
                    let k = choose|k: int| 0 <= k < t.len() && t[k] == y;
                    if k < p {
                        assert(s[k] == y);
                    } else if k > p {
                        assert(s[k - 1] == y);
                    }
                }
                if s.to_set().contains(y) {
                    let k = choose|k: int| 0 <= k < s.len() && s[k] == y;
                    if k < p {
                        assert(t[k] == y);
                    } else {
                        assert(t[k + 1] == y);
                    }
                }
                if y == x@ {
                    assert(t[p as int] == y);
                }
            }
            assert(t.to_set() =~= s.to_set().insert(x@));
        }
    }

    /// Adds every candidate of `other`.
    pub fn union_with(&mut self, other: &CandidateSet)
        requires
            old(self).wf(),
        ensures
            final(self).wf(),
            final(self).members() == old(self).members().union(other.members()),
    {
        let mut k: usize = 0;
        while k < other.items.len()
            invariant
                k <= other.list().len(),
                self.wf(),
                self.members() == old(self).members().union(other.list().take(k as int).to_set()),
            decreases other.list().len() - k,
        {
            self.insert(other.items[k].as_slice());
            assert(other.list().take(k + 1) =~= other.list().take(k as int).push(other.list()[k as int]));
            assert(other.list().take(k + 1).to_set() =~= other.list().take(k as int).to_set().insert(other.list()[k as int])) by {
                let ta = other.list().take(k + 1);
                let tb = other.list().take(k as int);
                assert forall|y: Seq<char>| ta.to_set().contains(y) <==> tb.to_set().insert(other.list()[k as int]).contains(y) by {
                    if ta.to_set().contains(y) {
                        let m = choose|m: int| 0 <= m < ta.len() && ta[m] == y;
                        if m < k {
                            assert(tb[m] == y);
                        }
                    }
                    if tb.to_set().contains(y) {
                        let m = choose|m: int| 0 <= m < tb.len() && tb[m] == y;
                        assert(ta[m] == y);
                    }
                    assert(ta[k as int] == other.list()[k as int]);
                }
            }
            k = k + 1;
            assert(self.members() =~= old(self).members().union(other.list().take(k as int).to_set()));
        }
        assert(other.list().take(k as int) =~= other.list());
    }

    /// The candidates as strings, in order.
    pub fn to_strings(&self) -> (r: Vec<String>)
        ensures
            texts(r@) == self.list(),
    {
        let mut r: Vec<String> = Vec::new();
        let mut k: usize = 0;
        while k < self.items.len()
            invariant
                k <= self.list().len(),
                r@.len() == k,
                forall|i: int| 0 <= i < k ==> (#[trigger] r@[i])@ == self.list()[i],
            decreases self.list().len() - k,
        {
            r.push(string_of(self.items[k].as_slice()));
            k = k + 1;
        }
        assert(texts(r@) =~= self.list());
        r
    }
}

} // verus!
