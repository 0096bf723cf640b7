//! Finite sets of user identifiers, kept as strictly increasing vectors.

use vstd::prelude::*;

verus! {

/// True when `s` is strictly increasing.
pub open spec fn strictly_sorted(s: Seq<u64>) -> bool {
    forall|i: int, j: int| 0 <= i < j < s.len() ==> s[i] < s[j]
}

/// A finite set of user identifiers.
///
/// The representation is a strictly increasing vector, so equal sets have
/// equal representations and the vector's length is the set's cardinality.
#[derive(Debug)]
pub struct UserSet {
    ids: Vec<u64>,
}

impl View for UserSet {
    type V = Set<u64>;

    closed spec fn view(&self) -> Set<u64> {
        self.ids@.to_set()
    }
}

impl UserSet {
    /// Well-formedness: the backing vector is strictly increasing.
    pub closed spec fn wf(&self) -> bool {
        strictly_sorted(self.ids@)
    }

    /// The empty set.
    pub fn new() -> (r: UserSet)
        ensures
            r.wf(),
            r@ == Set::<u64>::empty(),
    {
        let r = UserSet { ids: Vec::new() };
        proof {
            assert(r.ids@.to_set() =~= Set::<u64>::empty());
        }
        r
    }

    /// The set holding exactly `u`.
    pub fn singleton(u: u64) -> (r: UserSet)
        ensures
            r.wf(),
            r@ == Set::<u64>::empty().insert(u),
    {
        let mut ids: Vec<u64> = Vec::new();
        ids.push(u);
        let r = UserSet { ids };
        proof {
            assert(r.ids@.len() == 1 && r.ids@[0] == u);
            assert(r.ids@.contains(u));
            assert forall|y: u64| r.ids@.to_set().contains(y) implies y == u by {
                let k = choose|k: int| 0 <= k < r.ids@.len() && r.ids@[k] == y;
            }
            assert(r.ids@.to_set() =~= Set::<u64>::empty().insert(u));
        }
        r
    }

    /// The number of identifiers in the set.
    pub fn len(&self) -> (r: usize)
        requires
            self.wf(),
        ensures
            r == self@.len(),
    {
        proof {
            self.lemma_cardinality();
        }
        self.ids.len()
    }

    /// Whether the set is empty.
    pub fn is_empty(&self) -> (r: bool)
        requires
            self.wf(),
        ensures
            r == (self@ == Set::<u64>::empty()),
    {
        proof {
            self.lemma_cardinality();
            if self.ids@.len() == 0 {
                assert(self.ids@.to_set() =~= Set::<u64>::empty());
            } else {
                assert(self.ids@.to_set().contains(self.ids@[0]));
            }
        }
        self.ids.len() == 0
    }

    /// The set's cardinality equals the vector's length, and the set is finite.
    proof fn lemma_cardinality(&self)
        requires
            self.wf(),
        ensures
            self@.finite(),
            self@.len() == self.ids@.len(),
    {
        broadcast use vstd::seq_lib::seq_to_set_is_finite;

        assert(self.ids@.no_duplicates());
        self.ids@.unique_seq_to_set();
    }

    /// Executable well-formedness check: whether the backing vector is
    /// strictly increasing.
    pub fn check_wf(&self) -> (r: bool)
        ensures
            r == self.wf(),
    {
        if self.ids.len() <= 1 {
            return true;
        }
        let mut i: usize = 1;
        while i < self.ids.len()
            invariant
                1 <= i <= self.ids@.len(),
                strictly_sorted(self.ids@.take(i as int)),
            decreases self.ids@.len() - i,
        {
            if !(self.ids[i - 1] < self.ids[i]) {
                return false;
            }
            proof {
                let taken = self.ids@.take(i as int + 1);
                assert forall|pp: int, q: int| 0 <= pp < q < taken.len() implies taken[pp]
                    < taken[q] by {
                    if q < i {
                        assert(self.ids@.take(i as int)[pp] < self.ids@.take(i as int)[q]);
                    } else {
                        if pp < i - 1 {
                            assert(self.ids@.take(i as int)[pp] < self.ids@.take(i as int)[i - 1]);
                        }
                    }
                }
            }
            i += 1;
        }
        proof {
            assert(self.ids@.take(self.ids@.len() as int) == self.ids@);
        }
        true
    }

    /// Whether `x` is in the set.
    pub fn contains(&self, x: u64) -> (r: bool)
        ensures
            r == self@.contains(x),
    {
        let mut i: usize = 0;
        while i < self.ids.len()
            invariant
                0 <= i <= self.ids@.len(),
                forall|k: int| 0 <= k < i ==> self.ids@[k] != x,
            decreases self.ids@.len() - i,
        {
            if self.ids[i] == x {
                proof {
                    assert(self.ids@.contains(x));
                }
                return true;
            }
            i += 1;
        }
        proof {
            assert(!self.ids@.contains(x));
        }
        false
    }

    /// Insert `x`, keeping the vector strictly increasing.
    pub fn insert(&mut self, x: u64)
        requires
            old(self).wf(),
        ensures
            final(self).wf(),
            final(self)@ == old(self)@.insert(x),
    {
        let ghost orig = self.ids@;
        let mut i: usize = 0;
        while i < self.ids.len() && self.ids[i] < x
            invariant
                0 <= i <= self.ids@.len(),
                self.ids@ == orig,
                forall|k: int| 0 <= k < i ==> self.ids@[k] < x,
            decreases self.ids@.len() - i,
        {
            i += 1;
        }
        if i < self.ids.len() && self.ids[i] == x {
            proof {
                assert(self.ids@.contains(x));
                assert(self.ids@.to_set() =~= orig.to_set().insert(x));
            }
            return;
        }
        self.ids.insert(i, x);
        proof {
            let new = self.ids@;
            assert forall|p: int, q: int| 0 <= p < q < new.len() implies new[p] < new[q] by {
                if q < i {
                    assert(new[p] == orig[p] && new[q] == orig[q]);
                } else if p > i {
                    assert(new[p] == orig[p - 1] && new[q] == orig[q - 1]);
                } else if p < i && q == i {
                    assert(new[p] == orig[p]);
                } else if p == i && q > i {
                    assert(new[q] == orig[q - 1]);
                    if i < orig.len() {
                        assert(orig[i as int] != x && !(orig[i as int] < x));
                    }
                } else if p < i && q > i {
                    assert(new[p] == orig[p] && new[q] == orig[q - 1]);
                }
            }
            assert forall|y: u64| new.to_set().contains(y) implies orig.to_set().insert(x).contains(
                y,
            ) by {
                let k = choose|k: int| 0 <= k < new.len() && new[k] == y;
                if k < i {
                    assert(orig[k] == y);
                    assert(orig.contains(y));
                } else if k == i {
                } else {
                    assert(orig[k - 1] == y);
                    assert(orig.contains(y));
                }
            }
            assert forall|y: u64| orig.to_set().insert(x).contains(y) implies new.to_set().contains(
                y,
            ) by {
                if y == x {
                    assert(new[i as int] == x);
                    assert(new.contains(x));
                } else {
                    let k = choose|k: int| 0 <= k < orig.len() && orig[k] == y;
                    if k < i {
                        assert(new[k] == y);
                    } else {
                        assert(new[k + 1] == y);
                    }
                    assert(new.contains(y));
                }
            }
            assert(new.to_set() =~= orig.to_set().insert(x));
        }
    }

    /// A copy of this set.
    pub fn duplicate(&self) -> (r: UserSet)
        requires
            self.wf(),
        ensures
            r.wf(),
            r@ == self@,
    {
        let mut ids: Vec<u64> = Vec::new();
        let mut i: usize = 0;
        while i < self.ids.len()
            invariant
                0 <= i <= self.ids@.len(),
                ids@ == self.ids@.take(i as int),
            decreases self.ids@.len() - i,
        {
            ids.push(self.ids[i]);
            i += 1;
        }
        proof {
            assert(ids@ == self.ids@);
        }
        UserSet { ids }
    }

    /// The union of `self` and `other`.
    pub fn union(&self, other: &UserSet) -> (r: UserSet)
        requires
            self.wf(),
            other.wf(),
        ensures
            r.wf(),
            r@ == self@.union(other@),
    {
        let mut r = self.duplicate();
        let mut i: usize = 0;
        while i < other.ids.len()
            invariant
                0 <= i <= other.ids@.len(),
                r.wf(),
                r@ == self@.union(other.ids@.take(i as int).to_set()),
            decreases other.ids@.len() - i,
        {
            r.insert(other.ids[i]);
            proof {
                lemma_take_to_set_insert(other.ids@, i as int);
                assert(r@ =~= self@.union(other.ids@.take(i as int + 1).to_set()));
            }
            i += 1;
        }
        proof {
            assert(other.ids@.take(other.ids@.len() as int) == other.ids@);
            assert(r@ =~= self@.union(other@));
        }
        r
    }

    /// The intersection of `self` and `other`.
    pub fn intersect(&self, other: &UserSet) -> (r: UserSet)
        requires
            self.wf(),
        ensures
            r.wf(),
            r@ == self@.intersect(other@),
    {
        let mut out: Vec<u64> = Vec::new();
        let mut i: usize = 0;
        while i < self.ids.len()
            invariant
                0 <= i <= self.ids@.len(),
                self.wf(),
                strictly_sorted(out@),
                out@.to_set() == self.ids@.take(i as int).to_set().intersect(other@),
            decreases self.ids@.len() - i,
        {
            let x = self.ids[i];
            let ghost prev = out@;
            if other.contains(x) {
                proof {
                    lemma_prefix_elements_below(self.ids@, prev, other@, i as int, true);
                }
                out.push(x);
                proof {
                    lemma_push_to_set(prev, x);
                }
            }
            proof {
                lemma_take_to_set_insert(self.ids@, i as int);
                assert(out@.to_set() =~= self.ids@.take(i as int + 1).to_set().intersect(other@));
            }
            i += 1;
        }
        proof {
            assert(self.ids@.take(self.ids@.len() as int) == self.ids@);
        }
        UserSet { ids: out }
    }

    /// The elements of `self` not in `other`.
    pub fn difference(&self, other: &UserSet) -> (r: UserSet)
        requires
            self.wf(),
        ensures
            r.wf(),
            r@ == self@.difference(other@),
    {
        let mut out: Vec<u64> = Vec::new();
        let mut i: usize = 0;
        while i < self.ids.len()
            invariant
                0 <= i <= self.ids@.len(),
                self.wf(),
                strictly_sorted(out@),
                out@.to_set() == self.ids@.take(i as int).to_set().difference(other@),
            decreases self.ids@.len() - i,
        {
            let x = self.ids[i];
            let ghost prev = out@;
            if !other.contains(x) {
                proof {
                    lemma_prefix_elements_below(self.ids@, prev, other@, i as int, false);
                }
                out.push(x);
                proof {
                    lemma_push_to_set(prev, x);
                }
            }
            proof {
                lemma_take_to_set_insert(self.ids@, i as int);
                assert(out@.to_set() =~= self.ids@.take(i as int + 1).to_set().difference(other@));
            }
            i += 1;
        }
        proof {
            assert(self.ids@.take(self.ids@.len() as int) == self.ids@);
        }
        UserSet { ids: out }
    }

    /// Whether every element of `self` is in `other`.
    pub fn is_subset_of(&self, other: &UserSet) -> (r: bool)
        ensures
            r == self@.subset_of(other@),
    {
        let mut i: usize = 0;
        while i < self.ids.len()
            invariant
                0 <= i <= self.ids@.len(),
                forall|k: int| 0 <= k < i ==> other@.contains(#[trigger] self.ids@[k]),
            decreases self.ids@.len() - i,
        {
            if !other.contains(self.ids[i]) {
                proof {
                    assert(self.ids@.contains(self.ids@[i as int]));
                    assert(self@.contains(self.ids@[i as int]));
                }
                return false;
            }
            i += 1;
        }
        proof {
            assert forall|y: u64| self@.contains(y) implies other@.contains(y) by {
                let k = choose|k: int| 0 <= k < self.ids@.len() && self.ids@[k] == y;
                assert(other@.contains(self.ids@[k]));
            }
        }
        true
    }

    /// Build a set from any vector of identifiers.
    pub fn from_vec(v: &Vec<u64>) -> (r: UserSet)
        ensures
            r.wf(),
            r@ == v@.to_set(),
    {
        let mut r = UserSet::new();
        let mut i: usize = 0;
        while i < v.len()
            invariant
                0 <= i <= v@.len(),
                r.wf(),
                r@ == v@.take(i as int).to_set(),
            decreases v@.len() - i,
        {
            r.insert(v[i]);
            proof {
                lemma_take_to_set_insert(v@, i as int);
            }
            i += 1;
        }
        proof {
            assert(v@.take(v@.len() as int) == v@);
        }
        r
    }

    /// The elements, in increasing order.
    pub fn to_vec(&self) -> (r: Vec<u64>)
        requires
            self.wf(),
        ensures
            strictly_sorted(r@),
            r@.to_set() == self@,
            r@.len() == self@.len(),
            r@ == sorted_elems(self@),
    {
        proof {
            self.lemma_cardinality();
        }
        let s = self.duplicate();
        proof {
            s.lemma_cardinality();
            assert(strictly_sorted(s.ids@) && s.ids@.to_set() == self@);
            lemma_strictly_sorted_unique(s.ids@, sorted_elems(self@));
        }
        s.ids
    }
}

/// The elements of a finite set in strictly increasing order. Meaningful when
/// such an ordering exists; [`lemma_strictly_sorted_unique`] makes it unique.
pub open spec fn sorted_elems(s: Set<u64>) -> Seq<u64> {
    choose|q: Seq<u64>| strictly_sorted(q) && q.to_set() == s
}

/// Two strictly increasing sequences with the same elements are equal.
pub proof fn lemma_strictly_sorted_unique(a: Seq<u64>, b: Seq<u64>)
    requires
        strictly_sorted(a),
        strictly_sorted(b),
        a.to_set() == b.to_set(),
    ensures
        a == b,
    decreases a.len(),
{
    broadcast use vstd::seq_lib::seq_to_set_is_finite;

    assert(a.no_duplicates());
    assert(b.no_duplicates());
    a.unique_seq_to_set();
    b.unique_seq_to_set();
    if a.len() == 0 {
        assert(a =~= b);
    } else {
        assert(a.to_set().contains(a[0]));
        assert(b.to_set().contains(a[0]));
        assert(b.contains(a[0]));
        let jb = choose|j: int| 0 <= j < b.len() && b[j] == a[0];
        assert(a.to_set().contains(b[0]));
        assert(a.contains(b[0]));
        let ja = choose|j: int| 0 <= j < a.len() && a[j] == b[0];
        assert(a[0] <= a[ja] && b[0] <= b[jb]);
        assert(a[0] == b[0]);
        let at = a.subrange(1, a.len() as int);
        let bt = b.subrange(1, b.len() as int);
        assert(strictly_sorted(at));
        assert(strictly_sorted(bt));
        assert forall|y: u64| at.to_set().contains(y) implies bt.to_set().contains(y) by {
            let k = choose|k: int| 0 <= k < at.len() && #[trigger] at[k] == y;
            assert(a[k + 1] == y);
            assert(a[0] < y);
            assert(a.contains(y));
            assert(a.to_set().contains(y));
            assert(b.to_set().contains(y));
            assert(b.contains(y));
            let m = choose|m: int| 0 <= m < b.len() && #[trigger] b[m] == y;
            assert(m != 0);
            assert(bt[m - 1] == y);
            assert(bt.contains(y));
        }
        assert forall|y: u64| bt.to_set().contains(y) implies at.to_set().contains(y) by {
            let k = choose|k: int| 0 <= k < bt.len() && #[trigger] bt[k] == y;
            assert(b[k + 1] == y);
            assert(b[0] < y);
            assert(b.contains(y));
            assert(b.to_set().contains(y));
            assert(a.to_set().contains(y));
            assert(a.contains(y));
            let m = choose|m: int| 0 <= m < a.len() && #[trigger] a[m] == y;
            assert(m != 0);
            assert(at[m - 1] == y);
            assert(at.contains(y));
        }
        assert(at.to_set() =~= bt.to_set());
        lemma_strictly_sorted_unique(at, bt);
        assert(a =~= seq![a[0]] + at);
        assert(b =~= seq![b[0]] + bt);
    }
}

/// Pushing an element onto a sequence adds it to the sequence's set.
pub proof fn lemma_push_to_set(s: Seq<u64>, x: u64)
    ensures
        s.push(x).to_set() == s.to_set().insert(x),
{
    assert forall|y: u64| s.push(x).to_set().contains(y) implies s.to_set().insert(x).contains(
        y,
    ) by {
        let k = choose|k: int| 0 <= k < s.push(x).len() && #[trigger] s.push(x)[k] == y;
        if k < s.len() {
            assert(s[k] == y);
            assert(s.contains(y));
        }
    }
    assert forall|y: u64| s.to_set().insert(x).contains(y) implies s.push(x).to_set().contains(
        y,
    ) by {
        if y == x {
            assert(s.push(x)[s.len() as int] == y);
            assert(s.push(x).contains(y));
        } else {
            let k = choose|k: int| 0 <= k < s.len() && #[trigger] s[k] == y;
            assert(s.push(x)[k] == y);
            assert(s.push(x).contains(y));
        }
    }
    assert(s.push(x).to_set() =~= s.to_set().insert(x));
}

/// Elements drawn from a strict prefix of a strictly increasing sequence
/// all lie below the element at the prefix's end.
proof fn lemma_prefix_elements_below(
    ids: Seq<u64>,
    out: Seq<u64>,
    other: Set<u64>,
    i: int,
    keep_in: bool,
)
    requires
        0 <= i < ids.len(),
        strictly_sorted(ids),
        out.to_set() == if keep_in {
            ids.take(i).to_set().intersect(other)
        } else {
            ids.take(i).to_set().difference(other)
        },
    ensures
        forall|m: int| 0 <= m < out.len() ==> #[trigger] out[m] < ids[i],
{
    assert forall|m: int| 0 <= m < out.len() implies #[trigger] out[m] < ids[i] by {
        let y = out[m];
        assert(out.contains(y));
        assert(out.to_set().contains(y));
        assert(ids.take(i).to_set().contains(y));
        assert(ids.take(i).contains(y));
        let k = choose|k: int| 0 <= k < i && #[trigger] ids.take(i)[k] == y;
        assert(ids[k] == y);
        assert(ids[k] < ids[i]);
    }
}

/// Taking one more element of a sequence adds that element to the prefix's set.
pub proof fn lemma_take_to_set_insert(s: Seq<u64>, i: int)
    requires
        0 <= i < s.len(),
    ensures
        s.take(i + 1).to_set() == s.take(i).to_set().insert(s[i]),
{
    assert forall|y: u64| s.take(i + 1).to_set().contains(y) implies s.take(i).to_set().insert(
        s[i],
    ).contains(y) by {
        let k = choose|k: int| 0 <= k < i + 1 && #[trigger] s.take(i + 1)[k] == y;
        if k < i {
            assert(s.take(i)[k] == y);
            assert(s.take(i).contains(y));
        }
    }
    assert forall|y: u64| s.take(i).to_set().insert(s[i]).contains(y) implies s.take(
        i + 1,
    ).to_set().contains(y) by {
        if y == s[i] {
            assert(s.take(i + 1)[i] == y);
            assert(s.take(i + 1).contains(y));
        } else {
            let k = choose|k: int| 0 <= k < i && #[trigger] s.take(i)[k] == y;
            assert(s.take(i + 1)[k] == y);
            assert(s.take(i + 1).contains(y));
        }
    }
    assert(s.take(i + 1).to_set() =~= s.take(i).to_set().insert(s[i]));
}

} // verus!
