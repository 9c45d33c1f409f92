//! The frontier tracker: counts of outstanding timestamps and their minimal elements.

use vstd::prelude::*;
use crate::order::{Timestamp, lt, less_than};
use crate::change_batch::{ProgressError, ChangeBatch, has_key, delta_of, entries_wf, lemma_delta_at, fits};

verus! {

/// `m` lies in `s` and nothing else in `s` lies below it.
pub open spec fn minimal_in<T: Timestamp>(s: Seq<T>, m: T) -> bool {
    s.contains(m) && forall|x: T| s.contains(x) && #[trigger] x.leq(&m) ==> x == m
}

/// Below every element of a nonempty finite sequence lies a minimal one.
pub proof fn lemma_minimal_below<T: Timestamp>(s: Seq<T>, t: T)
    requires
        s.contains(t),
    ensures
        exists|m: T| minimal_in(s, m) && #[trigger] m.leq(&t),
    decreases s.len(),
{
    let x = s.last();
    let s2 = s.drop_last();
    assert(s =~= s2.push(x));
    assert forall|y: T| s.contains(y) <==> (s2.contains(y) || y == x) by {
        if s.contains(y) && y != x {
            let i = choose|i: int| 0 <= i < s.len() && s[i] == y;
            assert(s2[i] == y);
        }
        if s2.contains(y) {
            let i = choose|i: int| 0 <= i < s2.len() && s2[i] == y;
            assert(s[i] == y);
        }
        if y == x {
            assert(s[s.len() - 1] == y);
        }
    }
    if s2.contains(t) {
        lemma_minimal_below(s2, t);
        let m = choose|m: T| minimal_in(s2, m) && #[trigger] m.leq(&t);
        if x.leq(&m) && x != m {
            assert forall|y: T| s.contains(y) && #[trigger] y.leq(&x) implies y == x by {
                if y != x {
                    T::lemma_order(y, x, m);
                    T::lemma_order(m, x, m);
                }
            }
            T::lemma_order(x, m, t);
            assert(minimal_in(s, x) && x.leq(&t));
        } else {
            assert forall|y: T| s.contains(y) && #[trigger] y.leq(&m) implies y == m by {
                if y == x && !s2.contains(y) {
                }
            }
            assert(minimal_in(s, m) && m.leq(&t));
        }
    } else {
        assert(t == x);
        if exists|y: T| s2.contains(y) && #[trigger] y.leq(&x) && y != x {
            let y = choose|y: T| s2.contains(y) && #[trigger] y.leq(&x) && y != x;
            lemma_minimal_below(s2, y);
            let m = choose|m: T| minimal_in(s2, m) && #[trigger] m.leq(&y);
            T::lemma_order(m, y, x);
            assert forall|z: T| s.contains(z) && #[trigger] z.leq(&m) implies z == m by {
                if z == x && !s2.contains(z) {
                    T::lemma_order(x, m, y);
                    T::lemma_order(y, x, y);
                }
            }
            assert(minimal_in(s, m) && m.leq(&t));
        } else {
            T::lemma_order(x, x, x);
            assert(minimal_in(s, x) && x.leq(&t));
        }
    }
}

/// The timestamps that have an entry in a batch.
pub open spec fn keys<T>(s: Seq<(T, i64)>) -> Seq<T> {
    s.map_values(|p: (T, i64)| p.0)
}

/// A set of outstanding timestamps with counts, and the minimal ones among them.
pub struct MutableAntichain<T> {
    updates: ChangeBatch<T>,
    frontier: Vec<T>,
}

/// `t` has a positive count in `c` and no other timestamp with a positive count lies below it.
pub open spec fn is_minimal<T: Timestamp>(c: ChangeBatch<T>, t: T) -> bool {
    c.count(t) > 0 && forall|s: T| c.count(s) > 0 && #[trigger] s.leq(&t) ==> s == t
}

/// `f` lists, once each, exactly the minimal timestamps of `c`.
pub open spec fn is_frontier_of<T: Timestamp>(f: Seq<T>, c: ChangeBatch<T>) -> bool {
    &&& forall|i: int, j: int| 0 <= i < j < f.len() ==> f[i] != f[j]
    &&& forall|i: int| 0 <= i < f.len() ==> is_minimal(c, #[trigger] f[i])
    &&& forall|t: T| is_minimal(c, t) ==> f.contains(t)
}

impl<T: Timestamp> MutableAntichain<T> {
    /// The count recorded for `t`.
    pub closed spec fn count(&self, t: T) -> int {
        self.updates.count(t)
    }

    /// The frontier, as a sequence.
    pub closed spec fn frontier_view(&self) -> Seq<T> {
        self.frontier@
    }

    pub closed spec fn wf(&self) -> bool {
        &&& self.updates.wf()
        &&& forall|i: int| 0 <= i < self.updates.entries().len() ==> (#[trigger] self.updates.entries()[i]).1 > 0
        &&& is_frontier_of(self.frontier@, self.updates)
    }

    /// No count is negative, and the frontier is exactly the set of minimal
    /// timestamps with a positive count, each listed once.
    pub proof fn lemma_wf(&self)
        requires
            self.wf(),
        ensures
            forall|t: T| #[trigger] self.count(t) >= 0,
            forall|i: int, j: int| 0 <= i < j < self.frontier_view().len()
                ==> self.frontier_view()[i] != self.frontier_view()[j],
            forall|t: T| self.frontier_view().contains(t) <==> (self.count(t) > 0
                && forall|s: T| self.count(s) > 0 && #[trigger] s.leq(&t) ==> s == t),
    {
        let e = self.updates.entries();
        assert forall|t: T| #[trigger] self.count(t) >= 0 by {
            if has_key(e, t) {
                let k = choose|k: int| 0 <= k < e.len() && (#[trigger] e[k]).0 == t;
                lemma_delta_at(e, k);
            }
        }
        let f = self.frontier@;
        assert forall|t: T| f.contains(t) implies is_minimal(self.updates, t) by {
            let i = choose|i: int| 0 <= i < f.len() && f[i] == t;
            assert(is_minimal(self.updates, f[i]));
        }
    }

    /// A tracker with no outstanding timestamps.
    pub fn new() -> (r: MutableAntichain<T>)
        ensures
            r.wf(),
            forall|t: T| #[trigger] r.count(t) == 0,
            r.frontier_view().len() == 0,
    {
        MutableAntichain { updates: ChangeBatch::new(), frontier: Vec::new() }
    }

    /// A timestamp has a positive count exactly when it has an entry.
    proof fn lemma_positive(&self)
        requires
            self.updates.wf(),
            forall|i: int| 0 <= i < self.updates.entries().len() ==> (#[trigger] self.updates.entries()[i]).1 > 0,
        ensures
            forall|t: T| #[trigger] self.updates.count(t) > 0 <==> has_key(self.updates.entries(), t),
            forall|t: T| #[trigger] self.updates.count(t) >= 0,
            forall|t: T| keys(self.updates.entries()).contains(t) <==> has_key(self.updates.entries(), t),
    {
        let e = self.updates.entries();
        assert forall|t: T| #[trigger] self.updates.count(t) > 0 <==> has_key(e, t) by {
            if has_key(e, t) {
                let k = choose|k: int| 0 <= k < e.len() && (#[trigger] e[k]).0 == t;
                lemma_delta_at(e, k);
            }
        }
        assert forall|t: T| keys(e).contains(t) <==> has_key(e, t) by {
            if has_key(e, t) {
                let k = choose|k: int| 0 <= k < e.len() && (#[trigger] e[k]).0 == t;
                assert(keys(e)[k] == t);
            }
            if keys(e).contains(t) {
                let k = choose|k: int| 0 <= k < keys(e).len() && keys(e)[k] == t;
                assert(e[k].0 == t);
            }
        }
    }

    /// Recomputes the frontier from the counts.
    fn rebuild(&mut self)
        requires
            old(self).updates.wf(),
            forall|i: int| 0 <= i < old(self).updates.entries().len() ==> (#[trigger] old(self).updates.entries()[i]).1 > 0,
        ensures
            final(self).wf(),
            final(self).updates == old(self).updates,
    {
        proof { self.lemma_positive(); }
        let ghost e = self.updates.entries();
        let n = self.updates.len();
        let mut f: Vec<T> = Vec::new();
        let mut i: usize = 0;
        while i < n
            invariant
                e == self.updates.entries(),
                n == e.len(),
                i <= n,
                entries_wf(e),
                forall|t: T| #[trigger] self.updates.count(t) > 0 <==> has_key(e, t),
                forall|a: int, b: int| 0 <= a < b < f@.len() ==> f@[a] != f@[b],
                forall|a: int| #![trigger f@[a]] 0 <= a < f@.len() ==> exists|j: int| 0 <= j < i && #[trigger] e[j].0 == f@[a],
                forall|a: int| 0 <= a < f@.len() ==> is_minimal(self.updates, #[trigger] f@[a]),
                forall|j: int| 0 <= j < i && is_minimal(self.updates, #[trigger] e[j].0) ==> f@.contains(e[j].0),
            decreases n - i,
        {
            let t = self.updates.entry(i).0;
            let mut minimal = true;
            let mut j: usize = 0;
            while j < n
                invariant
                    e == self.updates.entries(),
                    n == e.len(),
                    i < n,
                    j <= n,
                    t == e[i as int].0,
                    minimal == forall|k: int| 0 <= k < j && k != i ==> !(#[trigger] e[k].0.leq(&t)),
                decreases n - j,
            {
                if j != i && self.updates.entry(j).0.less_equal(&t) {
                    minimal = false;
                }
                j = j + 1;
            }
            proof {
                assert(has_key(e, t));
                if minimal {
                    assert forall|s: T| self.updates.count(s) > 0 && #[trigger] s.leq(&t) implies s == t by {
                        let k = choose|k: int| 0 <= k < e.len() && (#[trigger] e[k]).0 == s;
                        if k != i {
                            assert(!e[k].0.leq(&t));
                        }
                    }
                    assert(is_minimal(self.updates, t));
                } else {
                    let k = choose|k: int| 0 <= k < n && k != i && (#[trigger] e[k].0.leq(&t));
                    assert(e[k].0 != e[i as int].0);
                    assert(self.updates.count(e[k].0) > 0);
                    assert(!is_minimal(self.updates, t));
                }
            }
            if minimal {
                let ghost f0 = f@;
                f.push(t);
                proof {
                    assert forall|a: int| 0 <= a < f0.len() implies f0[a] != t by {
                        let j = choose|j: int| 0 <= j < i && #[trigger] e[j].0 == f0[a];
                        assert(e[j].0 != e[i as int].0);
                    }
                    assert forall|a: int| #![trigger f@[a]] 0 <= a < f@.len() implies exists|j: int| 0 <= j < i + 1 && #[trigger] e[j].0 == f@[a] by {
                        if a < f0.len() {
                            assert(f@[a] == f0[a]);
                        } else {
                            assert(e[i as int].0 == f@[a]);
                        }
                    }
                    assert forall|j: int| 0 <= j < i + 1 && is_minimal(self.updates, #[trigger] e[j].0) implies f@.contains(e[j].0) by {
                        if j < i {
                            let a = choose|a: int| 0 <= a < f0.len() && f0[a] == e[j].0;
                            assert(f@[a] == e[j].0);
                        } else {
                            assert(f@[f0.len() as int] == e[j].0);
                        }
                    }
                }
            }
            i = i + 1;
        }
        proof {
            assert forall|t: T| is_minimal(self.updates, t) implies f@.contains(t) by {
                let k = choose|k: int| 0 <= k < e.len() && (#[trigger] e[k]).0 == t;
                assert(is_minimal(self.updates, e[k].0));
            }
        }
        self.frontier = f;
    }

    /// Applies the counts of `changes`, and recomputes the frontier.
    ///
    /// Refused, with nothing changed, where a count would become negative (a
    /// timestamp released more often than it was held) or exceed `i64::MAX`.
    pub fn update_iter(&mut self, changes: &ChangeBatch<T>) -> (r: Result<(), ProgressError>)
        requires
            old(self).wf(),
            changes.wf(),
        ensures
            final(self).wf(),
            r is Ok <==> forall|t: T| 0 <= #[trigger] old(self).count(t) + changes.count(t) <= i64::MAX,
            r == Err::<(), ProgressError>(ProgressError::FrontierUnderflow)
                ==> exists|t: T| #[trigger] old(self).count(t) + changes.count(t) < 0,
            r == Err::<(), ProgressError>(ProgressError::CountOverflow)
                ==> exists|t: T| #[trigger] old(self).count(t) + changes.count(t) > i64::MAX,
            r is Err ==> *final(self) == *old(self),
            r is Ok ==> forall|t: T| #[trigger] final(self).count(t) == old(self).count(t) + changes.count(t),
    {
        proof { self.lemma_positive(); }
        let ghost c = changes.entries();
        let m = changes.len();
        let mut i: usize = 0;
        while i < m
            invariant
                c == changes.entries(),
                changes.wf(),
                self.wf(),
                m == c.len(),
                i <= m,
                forall|k: int| 0 <= k < i ==> 0 <= #[trigger] self.updates.count(c[k].0) + c[k].1 <= i64::MAX,
            decreases m - i,
        {
            let (t, d) = changes.entry(i);
            let cur = self.updates.get(&t);
            let sum: i128 = cur as i128 + d as i128;
            if sum < 0 {
                proof { lemma_delta_at(c, i as int); }
                assert(self.count(t) + changes.count(t) < 0);
                return Err(ProgressError::FrontierUnderflow);
            }
            if sum > i64::MAX as i128 {
                proof { lemma_delta_at(c, i as int); }
                assert(self.count(t) + changes.count(t) > i64::MAX);
                return Err(ProgressError::CountOverflow);
            }
            i = i + 1;
        }
        let ghost old_self = *self;
        assert forall|t: T| 0 <= #[trigger] self.count(t) + changes.count(t) <= i64::MAX by {
            if has_key(c, t) {
                let k = choose|k: int| 0 <= k < c.len() && (#[trigger] c[k]).0 == t;
                lemma_delta_at(c, k);
            }
        }
        changes.add_into(&mut self.updates);
        proof {
            let e = self.updates.entries();
            assert forall|i: int| 0 <= i < e.len() implies (#[trigger] e[i]).1 > 0 by {
                lemma_delta_at(e, i);
                assert(self.updates.count(e[i].0) == old_self.count(e[i].0) + changes.count(e[i].0));
            }
        }
        self.rebuild();
        Ok(())
    }

    /// Whether applying `changes` leaves every count between zero and `i64::MAX`.
    pub fn accepts(&self, changes: &ChangeBatch<T>) -> (r: bool)
        requires
            self.wf(),
            changes.wf(),
        ensures
            r == forall|t: T| 0 <= #[trigger] self.count(t) + changes.count(t) <= i64::MAX,
    {
        proof { self.lemma_positive(); }
        let ghost c = changes.entries();
        let m = changes.len();
        let mut i: usize = 0;
        while i < m
            invariant
                c == changes.entries(),
                changes.wf(),
                self.wf(),
                m == c.len(),
                i <= m,
                forall|k: int| 0 <= k < i ==> 0 <= #[trigger] self.updates.count(c[k].0) + c[k].1 <= i64::MAX,
            decreases m - i,
        {
            let (t, d) = changes.entry(i);
            let cur = self.updates.get(&t);
            let sum: i128 = cur as i128 + d as i128;
            if sum < 0 || sum > i64::MAX as i128 {
                proof { lemma_delta_at(c, i as int); }
                assert(!(0 <= self.count(t) + changes.count(t) <= i64::MAX));
                return false;
            }
            i = i + 1;
        }
        assert forall|t: T| 0 <= #[trigger] self.count(t) + changes.count(t) <= i64::MAX by {
            if has_key(c, t) {
                let k = choose|k: int| 0 <= k < c.len() && (#[trigger] c[k]).0 == t;
                lemma_delta_at(c, k);
            }
        }
        true
    }

    /// Whether every frontier element is strictly below `time`.
    pub fn less_than(&self, time: &T) -> (r: bool)
        ensures
            r == forall|i: int| 0 <= i < self.frontier_view().len() ==> lt(#[trigger] self.frontier_view()[i], *time),
    {
        let mut i: usize = 0;
        while i < self.frontier.len()
            invariant
                i <= self.frontier@.len(),
                forall|k: int| 0 <= k < i ==> lt(#[trigger] self.frontier@[k], *time),
            decreases self.frontier@.len() - i,
        {
            if !less_than(&self.frontier[i], time) {
                assert(!lt(self.frontier_view()[i as int], *time));
                return false;
            }
            i = i + 1;
        }
        true
    }

    /// Whether every frontier element is less than or equal to `time`.
    pub fn less_equal(&self, time: &T) -> (r: bool)
        ensures
            r == forall|i: int| 0 <= i < self.frontier_view().len() ==> (#[trigger] self.frontier_view()[i]).leq(time),
    {
        let mut i: usize = 0;
        while i < self.frontier.len()
            invariant
                i <= self.frontier@.len(),
                forall|k: int| 0 <= k < i ==> (#[trigger] self.frontier@[k]).leq(time),
            decreases self.frontier@.len() - i,
        {
            if !self.frontier[i].less_equal(time) {
                assert(!self.frontier_view()[i as int].leq(time));
                return false;
            }
            i = i + 1;
        }
        true
    }

    /// Whether the frontier is empty: no timestamp is outstanding.
    pub fn is_empty(&self) -> (r: bool)
        requires
            self.wf(),
        ensures
            r == (self.frontier_view().len() == 0),
            r == forall|t: T| #[trigger] self.count(t) == 0,
    {
        proof {
            self.lemma_positive();
            self.lemma_wf();
            if self.frontier@.len() == 0 {
                assert forall|t: T| #[trigger] self.count(t) == 0 by {
                    if self.count(t) > 0 {
                        let ks = keys(self.updates.entries());
                        lemma_minimal_below(ks, t);
                        let m = choose|m: T| minimal_in(ks, m) && #[trigger] m.leq(&t);
                        assert(is_minimal(self.updates, m));
                        assert(self.frontier@.contains(m));
                    }
                }
            } else {
                assert(self.count(self.frontier@[0]) > 0);
            }
        }
        self.frontier.len() == 0
    }

    /// The frontier: the minimal timestamps with a positive count.
    pub fn frontier(&self) -> (r: &Vec<T>)
        ensures
            r@ == self.frontier_view(),
    {
        &self.frontier
    }

    /// Every timestamp with a positive count lies at or above a frontier element.
    pub proof fn lemma_below_frontier(&self)
        requires
            self.wf(),
        ensures
            forall|t: T| #[trigger] self.count(t) > 0 ==> exists|i: int| 0 <= i < self.frontier_view().len()
                && (#[trigger] self.frontier_view()[i]).leq(&t),
    {
        self.lemma_positive();
        assert forall|t: T| #[trigger] self.count(t) > 0 implies exists|i: int| 0 <= i < self.frontier_view().len()
            && (#[trigger] self.frontier_view()[i]).leq(&t) by {
            let ks = keys(self.updates.entries());
            lemma_minimal_below(ks, t);
            let m = choose|m: T| minimal_in(ks, m) && #[trigger] m.leq(&t);
            assert(is_minimal(self.updates, m));
            assert(self.frontier@.contains(m));
            let i = choose|i: int| 0 <= i < self.frontier@.len() && self.frontier@[i] == m;
            assert(self.frontier_view()[i].leq(&t));
        }
    }
}

/// The frontier holds no two comparable timestamps, and every timestamp with a
/// positive count lies at or above some frontier element.
pub proof fn lemma_frontier_minimal<T: Timestamp>(a: &MutableAntichain<T>)
    requires
        a.wf(),
    ensures
        forall|i: int, j: int| #![trigger a.frontier_view()[i], a.frontier_view()[j]]
            0 <= i < a.frontier_view().len() && 0 <= j < a.frontier_view().len() && i != j
            ==> !a.frontier_view()[i].leq(&a.frontier_view()[j]),
        forall|t: T| #[trigger] a.count(t) > 0 ==> exists|i: int| 0 <= i < a.frontier_view().len()
            && (#[trigger] a.frontier_view()[i]).leq(&t),
{
    a.lemma_wf();
    a.lemma_below_frontier();
    let f = a.frontier_view();
    assert forall|i: int, j: int| #![trigger f[i], f[j]] 0 <= i < f.len() && 0 <= j < f.len() && i != j
        implies !f[i].leq(&f[j]) by {
        assert(f.contains(f[i]));
        assert(f.contains(f[j]));
        if i < j {
            assert(f[i] != f[j]);
        } else {
            assert(f[j] != f[i]);
        }
    }
}

} // verus!
