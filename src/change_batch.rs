//! Signed per-timestamp deltas.

use vstd::prelude::*;
use crate::order::{Timestamp, same};

verus! {

/// Errors of progress accounting.
#[derive(Clone, Copy, Debug, PartialEq, Eq, Structural)]
pub enum ProgressError {
    /// A count would become negative.
    FrontierUnderflow,
    /// A count would no longer fit in an `i64`.
    CountOverflow,
}

/// Whether some entry of `s` has the key `t`.
pub open spec fn has_key<T>(s: Seq<(T, i64)>, t: T) -> bool {
    exists|i: int| 0 <= i < s.len() && (#[trigger] s[i]).0 == t
}

/// The delta recorded for `t` in a sequence of entries with distinct keys.
pub open spec fn delta_of<T>(s: Seq<(T, i64)>, t: T) -> int {
    if has_key(s, t) {
        s[choose|i: int| 0 <= i < s.len() && (#[trigger] s[i]).0 == t].1 as int
    } else {
        0
    }
}

/// Entries with distinct keys and nonzero deltas.
pub open spec fn entries_wf<T>(s: Seq<(T, i64)>) -> bool {
    &&& forall|i: int, j: int| 0 <= i < j < s.len() ==> (#[trigger] s[i]).0 != (#[trigger] s[j]).0
    &&& forall|i: int| 0 <= i < s.len() ==> (#[trigger] s[i]).1 != 0
}

/// Whether a count fits in an `i64`.
pub open spec fn fits(x: int) -> bool {
    i64::MIN <= x <= i64::MAX
}

pub proof fn lemma_delta_at<T>(s: Seq<(T, i64)>, i: int)
    requires
        entries_wf(s),
        0 <= i < s.len(),
    ensures
        delta_of(s, s[i].0) == s[i].1,
{
    let t = s[i].0;
    assert(has_key(s, t));
    let k = choose|k: int| 0 <= k < s.len() && (#[trigger] s[k]).0 == t;
    if k < i {
        assert(s[k].0 != s[i].0);
    } else if i < k {
        assert(s[i].0 != s[k].0);
    }
}

pub proof fn lemma_prefix_step<T>(s: Seq<(T, i64)>, i: int)
    requires
        entries_wf(s),
        0 <= i < s.len(),
    ensures
        forall|u: T| #[trigger] delta_of(s.subrange(0, i + 1), u) == delta_of(s.subrange(0, i), u)
            + if s[i].0 == u { s[i].1 as int } else { 0 },
{
    let shorter = s.subrange(0, i);
    let longer = s.subrange(0, i + 1);
    assert(entries_wf(shorter));
    assert(entries_wf(longer));
    assert forall|u: T| #[trigger] delta_of(longer, u) == delta_of(shorter, u)
        + if s[i].0 == u { s[i].1 as int } else { 0 } by {
        if has_key(longer, u) {
            let k = choose|k: int| 0 <= k < longer.len() && (#[trigger] longer[k]).0 == u;
            lemma_delta_at(longer, k);
            if k < i {
                assert(shorter[k] == longer[k]);
                lemma_delta_at(shorter, k);
                assert(s[k].0 != s[i].0);
            } else {
                assert(longer[i] == s[i]);
                if has_key(shorter, u) {
                    let j = choose|j: int| 0 <= j < shorter.len() && (#[trigger] shorter[j]).0 == u;
                    assert(s[j].0 != s[i].0);
                }
            }
        } else if has_key(shorter, u) {
            let k = choose|k: int| 0 <= k < shorter.len() && (#[trigger] shorter[k]).0 == u;
            assert(longer[k].0 == u);
        } else {
            assert(longer[i] == s[i]);
        }
    }
}

/// A mapping from timestamps to signed deltas, absent where the net delta is zero.
pub struct ChangeBatch<T> {
    updates: Vec<(T, i64)>,
}

impl<T: Timestamp> ChangeBatch<T> {
    /// The entries, one per timestamp with a nonzero net delta.
    pub closed spec fn entries(&self) -> Seq<(T, i64)> {
        self.updates@
    }

    pub open spec fn wf(&self) -> bool {
        entries_wf(self.entries())
    }

    /// The net delta recorded for `t`.
    pub open spec fn count(&self, t: T) -> int {
        delta_of(self.entries(), t)
    }

    /// An empty batch.
    pub fn new() -> (r: ChangeBatch<T>)
        ensures
            r.wf(),
            r.entries().len() == 0,
            forall|t: T| r.count(t) == 0,
    {
        ChangeBatch { updates: Vec::new() }
    }

    /// The index of the entry for `t`, if any.
    fn position(&self, t: &T) -> (r: Option<usize>)
        requires
            self.wf(),
        ensures
            match r {
                Some(i) => i < self.entries().len() && self.entries()[i as int].0 == *t,
                None => !has_key(self.entries(), *t),
            },
    {
        let mut i: usize = 0;
        while i < self.updates.len()
            invariant
                i <= self.updates@.len(),
                forall|j: int| 0 <= j < i ==> (#[trigger] self.updates@[j]).0 != *t,
            decreases self.updates@.len() - i,
        {
            if same(&self.updates[i].0, t) {
                return Some(i);
            }
            i = i + 1;
        }
        None
    }

    /// Adds `delta` to the count of `t`.
    pub fn update(&mut self, t: T, delta: i64)
        requires
            old(self).wf(),
            fits(old(self).count(t) + delta),
        ensures
            final(self).wf(),
            forall|u: T| #[trigger] final(self).count(u) == old(self).count(u) + if u == t { delta as int } else { 0 },
    {
        let ghost s0 = self.updates@;
        match self.position(&t) {
            Some(i) => {
                proof { lemma_delta_at(s0, i as int); }
                let c = self.updates[i].1 + delta;
                if c == 0 {
                    self.updates.remove(i);
                    let ghost s1 = self.updates@;
                    assert forall|u: T| #[trigger] delta_of(s1, u) == delta_of(s0, u) + if u == t { delta as int } else { 0 } by {
                        if has_key(s1, u) {
                            let k = choose|k: int| 0 <= k < s1.len() && (#[trigger] s1[k]).0 == u;
                            lemma_delta_at(s1, k);
                            if k < i {
                                assert(s1[k] == s0[k]);
                                lemma_delta_at(s0, k);
                            } else {
                                assert(s1[k] == s0[k + 1]);
                                lemma_delta_at(s0, k + 1);
                            }
                        } else if has_key(s0, u) {
                            let k = choose|k: int| 0 <= k < s0.len() && (#[trigger] s0[k]).0 == u;
                            lemma_delta_at(s0, k);
                            if k < i {
                                assert(s1[k] == s0[k]);
                            } else if k > i {
                                assert(s1[k - 1] == s0[k]);
                            }
                        }
                    }
                } else {
                    self.updates.set(i, (t, c));
                    let ghost s1 = self.updates@;
                    assert forall|u: T| #[trigger] delta_of(s1, u) == delta_of(s0, u) + if u == t { delta as int } else { 0 } by {
                        lemma_delta_at(s1, i as int);
                        if has_key(s1, u) {
                            let k = choose|k: int| 0 <= k < s1.len() && (#[trigger] s1[k]).0 == u;
                            lemma_delta_at(s1, k);
                            lemma_delta_at(s0, k);
                        } else if has_key(s0, u) {
                            let k = choose|k: int| 0 <= k < s0.len() && (#[trigger] s0[k]).0 == u;
                            assert(s1[k].0 == u);
                        }
                    }
                }
            },
            None => {
                if delta != 0 {
                    self.updates.push((t, delta));
                    let ghost s1 = self.updates@;
                    proof { lemma_delta_at(s1, s0.len() as int); }
                    assert forall|u: T| #[trigger] delta_of(s1, u) == delta_of(s0, u) + if u == t { delta as int } else { 0 } by {
                        if has_key(s1, u) && u != t {
                            let k = choose|k: int| 0 <= k < s1.len() && (#[trigger] s1[k]).0 == u;
                            lemma_delta_at(s1, k);
                            assert(s1[k] == s0[k]);
                            lemma_delta_at(s0, k);
                        } else if has_key(s0, u) {
                            let k = choose|k: int| 0 <= k < s0.len() && (#[trigger] s0[k]).0 == u;
                            assert(s1[k] == s0[k]);
                        }
                    }
                }
            },
        }
    }

    /// Whether every count is zero.
    pub fn is_empty(&self) -> (r: bool)
        requires
            self.wf(),
        ensures
            r == (forall|t: T| self.count(t) == 0),
    {
        if self.updates.len() == 0 {
            assert forall|t: T| self.count(t) == 0 by {
                assert(!has_key(self.updates@, t));
            }
            true
        } else {
            proof {
                lemma_delta_at(self.updates@, 0);
                assert(self.count(self.updates@[0].0) != 0);
            }
            false
        }
    }

    /// The number of timestamps with a nonzero count.
    pub fn len(&self) -> (r: usize)
        ensures
            r == self.entries().len(),
    {
        self.updates.len()
    }

    /// The `i`-th entry: a timestamp and its nonzero count.
    pub fn entry(&self, i: usize) -> (r: (T, i64))
        requires
            i < self.entries().len(),
        ensures
            r == self.entries()[i as int],
    {
        self.updates[i]
    }

    /// Adds `delta` to the count of `t` where the sum fits in an `i64`;
    /// otherwise changes nothing and reports the overflow.
    pub fn try_update(&mut self, t: T, delta: i64) -> (r: Result<(), ProgressError>)
        requires
            old(self).wf(),
        ensures
            final(self).wf(),
            r is Ok <==> fits(old(self).count(t) + delta),
            r is Err ==> r == Err::<(), ProgressError>(ProgressError::CountOverflow) && *final(self) == *old(self),
            r is Ok ==> forall|u: T| #[trigger] final(self).count(u) == old(self).count(u) + if u == t { delta as int } else { 0 },
    {
        let c = self.get(&t);
        let sum: i128 = c as i128 + delta as i128;
        if sum < i64::MIN as i128 || sum > i64::MAX as i128 {
            Err(ProgressError::CountOverflow)
        } else {
            self.update(t, delta);
            Ok(())
        }
    }

    /// The count of `t`.
    pub fn get(&self, t: &T) -> (r: i64)
        requires
            self.wf(),
        ensures
            r == self.count(*t),
    {
        match self.position(t) {
            Some(i) => {
                proof { lemma_delta_at(self.updates@, i as int); }
                self.updates[i].1
            },
            None => 0,
        }
    }

    /// Adds every count of `self` into `other`, leaving `self` empty.
    pub fn drain_into(&mut self, other: &mut ChangeBatch<T>)
        requires
            old(self).wf(),
            old(other).wf(),
            forall|t: T| fits(#[trigger] old(other).count(t) + old(self).count(t)),
        ensures
            final(self).wf(),
            final(other).wf(),
            forall|t: T| #[trigger] final(self).count(t) == 0,
            forall|t: T| #[trigger] final(other).count(t) == old(other).count(t) + old(self).count(t),
    {
        self.add_into(other);
        self.updates.clear();
        assert forall|t: T| #[trigger] self.count(t) == 0 by {
            assert(!has_key(self.updates@, t));
        }
    }

    /// Adds every count of `self` into `other`.
    pub fn add_into(&self, other: &mut ChangeBatch<T>)
        requires
            self.wf(),
            old(other).wf(),
            forall|t: T| fits(#[trigger] old(other).count(t) + self.count(t)),
        ensures
            final(other).wf(),
            forall|t: T| #[trigger] final(other).count(t) == old(other).count(t) + self.count(t),
    {
        let ghost s = self.updates@;
        let ghost o0 = *other;
        let mut i: usize = 0;
        assert forall|u: T| #[trigger] delta_of(s.subrange(0, 0), u) == 0 by {
            assert(!has_key(s.subrange(0, 0), u));
        }
        while i < self.updates.len()
            invariant
                self.updates@ == s,
                entries_wf(s),
                0 <= i <= s.len(),
                other.wf(),
                o0.wf(),
                forall|t: T| fits(#[trigger] o0.count(t) + delta_of(s, t)),
                forall|u: T| #[trigger] other.count(u) == o0.count(u) + delta_of(s.subrange(0, i as int), u),
            decreases s.len() - i,
        {
            let (t, d) = self.updates[i];
            proof {
                lemma_prefix_step(s, i as int);
                lemma_delta_at(s, i as int);
                let shorter = s.subrange(0, i as int);
                if has_key(shorter, t) {
                    let j = choose|j: int| 0 <= j < shorter.len() && (#[trigger] shorter[j]).0 == t;
                    assert(s[j].0 != s[i as int].0);
                }
                assert(fits(o0.count(t) + delta_of(s, t)));
            }
            other.update(t, d);
            i = i + 1;
        }
        assert(s.subrange(0, s.len() as int) =~= s);
    }
}

} // verus!
