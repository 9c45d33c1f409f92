//! Capabilities: tokens that grant the right to emit data at a timestamp.

use vstd::prelude::*;
use crate::order::{Timestamp, same};
use crate::change_batch::{ChangeBatch, fits};

verus! {

/// Errors in the use of capabilities.
#[derive(Clone, Copy, Debug, PartialEq, Eq, Structural)]
pub enum CapabilityError {
    /// A capability was moved backward in time, or presented to an output it does not belong to.
    InvalidCapability,
}

/// The record of capability changes at one output port of an operator.
///
/// Every capability names the port it belongs to; each of its operations
/// changes the counts of this record for that port, and of no other.
pub struct Internal<T> {
    port: usize,
    changes: ChangeBatch<T>,
}

/// Whether a single step of one fits beside the count `c`.
pub open spec fn can_step(c: int) -> bool {
    fits(c + 1) && fits(c - 1)
}

impl<T: Timestamp> Internal<T> {
    /// The port this record belongs to.
    pub closed spec fn port_view(&self) -> usize {
        self.port
    }

    /// The net number of capabilities held for `t` at this port.
    pub closed spec fn count(&self, t: T) -> int {
        self.changes.count(t)
    }

    pub closed spec fn wf(&self) -> bool {
        self.changes.wf()
    }

    /// An empty record for `port`.
    pub fn new(port: usize) -> (r: Internal<T>)
        ensures
            r.wf(),
            r.port_view() == port,
            forall|t: T| #[trigger] r.count(t) == 0,
    {
        Internal { port, changes: ChangeBatch::new() }
    }

    /// The port this record belongs to.
    pub fn port(&self) -> (r: usize)
        ensures
            r == self.port_view(),
    {
        self.port
    }

    /// The net count for `t`.
    pub fn get(&self, t: &T) -> (r: i64)
        requires
            self.wf(),
        ensures
            r == self.count(*t),
    {
        self.changes.get(t)
    }

    fn step(&mut self, t: T, delta: i64)
        requires
            old(self).wf(),
            delta == 1 || delta == -1,
            can_step(old(self).count(t)),
        ensures
            final(self).wf(),
            final(self).port_view() == old(self).port_view(),
            forall|u: T| #[trigger] final(self).count(u) == old(self).count(u) + if u == t { delta as int } else { 0 },
    {
        self.changes.update(t, delta);
    }

    /// Moves every recorded change into `target`, leaving this record empty.
    pub fn drain_into(&mut self, target: &mut ChangeBatch<T>)
        requires
            old(self).wf(),
            old(target).wf(),
            forall|t: T| fits(#[trigger] old(target).count(t) + old(self).count(t)),
        ensures
            final(self).wf(),
            final(target).wf(),
            final(self).port_view() == old(self).port_view(),
            forall|t: T| #[trigger] final(self).count(t) == 0,
            forall|t: T| #[trigger] final(target).count(t) == old(target).count(t) + old(self).count(t),
    {
        self.changes.drain_into(target);
    }
}

/// An operation on capabilities, as the counts of one port see it.
pub enum CapabilityOp<T> {
    /// A capability is created at a timestamp.
    Create(T),
    /// A capability at a timestamp is cloned.
    Clone(T),
    /// A new capability at the second timestamp is derived from one at the first, which stays.
    Delayed(T, T),
    /// A capability moves from the first timestamp to the second.
    Downgrade(T, T),
    /// A capability at a timestamp is dropped.
    Drop(T),
}

/// What one operation adds to the count of `t`.
pub open spec fn op_effect<T>(op: CapabilityOp<T>, t: T) -> int {
    match op {
        CapabilityOp::Create(s) => if s == t { 1 } else { 0 },
        CapabilityOp::Clone(s) => if s == t { 1 } else { 0 },
        CapabilityOp::Delayed(_, s) => if s == t { 1 } else { 0 },
        CapabilityOp::Downgrade(s, u) => (if u == t { 1int } else { 0 }) - (if s == t { 1int } else { 0 }),
        CapabilityOp::Drop(s) => if s == t { -1 } else { 0 },
    }
}

/// The number of operations in `ops` that create a capability at `t`.
pub open spec fn creations<T>(ops: Seq<CapabilityOp<T>>, t: T) -> int
    decreases ops.len(),
{
    if ops.len() == 0 { 0 } else {
        creations(ops.drop_last(), t) + match ops.last() {
            CapabilityOp::Create(s) => if s == t { 1int } else { 0 },
            _ => 0,
        }
    }
}

/// The number of operations in `ops` that clone a capability at `t`.
pub open spec fn clones<T>(ops: Seq<CapabilityOp<T>>, t: T) -> int
    decreases ops.len(),
{
    if ops.len() == 0 { 0 } else {
        clones(ops.drop_last(), t) + match ops.last() {
            CapabilityOp::Clone(s) => if s == t { 1int } else { 0 },
            _ => 0,
        }
    }
}

/// The number of operations in `ops` that delay or downgrade a capability to `t`.
pub open spec fn delays_in<T>(ops: Seq<CapabilityOp<T>>, t: T) -> int
    decreases ops.len(),
{
    if ops.len() == 0 { 0 } else {
        delays_in(ops.drop_last(), t) + match ops.last() {
            CapabilityOp::Delayed(_, s) => if s == t { 1int } else { 0 },
            CapabilityOp::Downgrade(_, s) => if s == t { 1int } else { 0 },
            _ => 0,
        }
    }
}

/// The number of operations in `ops` that downgrade a capability away from `t`.
pub open spec fn delays_out<T>(ops: Seq<CapabilityOp<T>>, t: T) -> int
    decreases ops.len(),
{
    if ops.len() == 0 { 0 } else {
        delays_out(ops.drop_last(), t) + match ops.last() {
            CapabilityOp::Downgrade(s, _) => if s == t { 1int } else { 0 },
            _ => 0,
        }
    }
}

/// The number of operations in `ops` that drop a capability at `t`.
pub open spec fn drops<T>(ops: Seq<CapabilityOp<T>>, t: T) -> int
    decreases ops.len(),
{
    if ops.len() == 0 { 0 } else {
        drops(ops.drop_last(), t) + match ops.last() {
            CapabilityOp::Drop(s) => if s == t { 1int } else { 0 },
            _ => 0,
        }
    }
}

/// Conservation of capabilities: where each count of a sequence of counts
/// arises from the one before by one capability operation, the count of `t`
/// after the first `k` operations is the starting count plus the creations,
/// clones and delays into `t`, less the delays out of `t` and the drops.
pub proof fn lemma_conservation<T>(counts: Seq<spec_fn(T) -> int>, ops: Seq<CapabilityOp<T>>, t: T)
    requires
        counts.len() == ops.len() + 1,
        forall|i: int, u: T| 0 <= i < ops.len() ==> #[trigger] counts[i + 1](u) == counts[i](u) + op_effect(ops[i], u),
    ensures
        forall|k: int| 0 <= k <= ops.len() ==> #[trigger] counts[k](t) == counts[0](t)
            + creations(ops.take(k), t) + clones(ops.take(k), t) + delays_in(ops.take(k), t)
            - delays_out(ops.take(k), t) - drops(ops.take(k), t),
    decreases ops.len(),
{
    if ops.len() > 0 {
        let n = ops.len() - 1;
        lemma_conservation(counts.drop_last(), ops.drop_last(), t);
        assert forall|k: int| 0 <= k <= ops.len() implies #[trigger] counts[k](t) == counts[0](t)
            + creations(ops.take(k), t) + clones(ops.take(k), t) + delays_in(ops.take(k), t)
            - delays_out(ops.take(k), t) - drops(ops.take(k), t) by {
            if k <= n {
                assert(ops.take(k) =~= ops.drop_last().take(k));
                assert(counts.drop_last()[k] == counts[k]);
            } else {
                assert(ops.take(k) =~= ops);
                assert(ops.drop_last().take(n) =~= ops.drop_last());
                assert(counts.drop_last()[n] == counts[n]);
                assert(counts[n + 1](t) == counts[n](t) + op_effect(ops[n], t));
            }
        }
    } else {
        assert forall|k: int| 0 <= k <= ops.len() implies #[trigger] counts[k](t) == counts[0](t)
            + creations(ops.take(k), t) + clones(ops.take(k), t) + delays_in(ops.take(k), t)
            - delays_out(ops.take(k), t) - drops(ops.take(k), t) by {
            assert(ops.take(k).len() == 0);
        }
    }
}

/// The right to emit data at a timestamp, on the output port it belongs to.
///
/// A capability is a token: it is neither copied nor cloned silently. Each
/// operation that makes or ends one records the change at its port.
#[derive(Debug)]
pub struct Capability<T> {
    time: T,
    port: usize,
}

/// What a session needs of a capability: its timestamp, and the port it
/// belongs to.
pub trait CapabilityTrait<T: Timestamp> {
    spec fn time_view(&self) -> T;

    /// Whether this capability may authorise output on `port`.
    spec fn valid_for(&self, port: usize) -> bool;

    /// The timestamp of this capability.
    fn time(&self) -> (r: &T)
        ensures
            *r == self.time_view(),
    ;

    /// Whether this capability may authorise output on `port`.
    fn valid_for_output(&self, port: usize) -> (r: bool)
        ensures
            r == self.valid_for(port),
    ;
}

impl<T: Timestamp> CapabilityTrait<T> for Capability<T> {
    closed spec fn time_view(&self) -> T {
        self.time
    }

    open spec fn valid_for(&self, port: usize) -> bool {
        self.port_view() == port
    }

    fn time(&self) -> (r: &T) {
        &self.time
    }

    fn valid_for_output(&self, port: usize) -> (r: bool) {
        self.port == port
    }
}

impl<T: Timestamp> Capability<T> {
    /// The port this capability belongs to.
    pub closed spec fn port_view(&self) -> usize {
        self.port
    }

    /// Creates a capability for `time` at the port of `internal`, counting it there.
    pub fn new(time: T, internal: &mut Internal<T>) -> (r: Capability<T>)
        requires
            old(internal).wf(),
            can_step(old(internal).count(time)),
        ensures
            r.time_view() == time,
            r.port_view() == old(internal).port_view(),
            final(internal).wf(),
            final(internal).port_view() == old(internal).port_view(),
            forall|u: T| #[trigger] final(internal).count(u) == old(internal).count(u)
                + op_effect(CapabilityOp::Create(time), u),
    {
        internal.step(time, 1);
        Capability { time, port: internal.port() }
    }

    /// The port this capability belongs to.
    pub fn port(&self) -> (r: usize)
        ensures
            r == self.port_view(),
    {
        self.port
    }

    /// A second capability for the same timestamp, counted at the same port.
    pub fn duplicate(&self, internal: &mut Internal<T>) -> (r: Capability<T>)
        requires
            old(internal).wf(),
            old(internal).port_view() == self.port_view(),
            can_step(old(internal).count(self.time_view())),
        ensures
            r.time_view() == self.time_view(),
            r.port_view() == self.port_view(),
            final(internal).wf(),
            final(internal).port_view() == old(internal).port_view(),
            forall|u: T| #[trigger] final(internal).count(u) == old(internal).count(u)
                + op_effect(CapabilityOp::Clone(self.time_view()), u),
    {
        internal.step(self.time, 1);
        Capability { time: self.time, port: self.port }
    }

    /// A new capability for `new_time`, which must not lie before this one's
    /// timestamp. This capability stays as it is.
    pub fn delayed(&self, new_time: &T, internal: &mut Internal<T>) -> (r: Capability<T>)
        requires
            old(internal).wf(),
            old(internal).port_view() == self.port_view(),
            can_step(old(internal).count(*new_time)),
            self.time_view().leq(new_time),
        ensures
            final(internal).wf(),
            final(internal).port_view() == old(internal).port_view(),
            r.time_view() == *new_time,
            r.port_view() == self.port_view(),
            forall|u: T| #[trigger] final(internal).count(u) == old(internal).count(u)
                + op_effect(CapabilityOp::Delayed(self.time_view(), *new_time), u),
    {
        match self.try_delayed(new_time, internal) {
            Ok(c) => c,
            Err(_) => Capability { time: *new_time, port: self.port },
        }
    }

    /// As [`Capability::delayed`], but refuses, with nothing changed, a
    /// `new_time` that does not lie at or after this capability's timestamp.
    pub fn try_delayed(&self, new_time: &T, internal: &mut Internal<T>) -> (r: Result<Capability<T>, CapabilityError>)
        requires
            old(internal).wf(),
            old(internal).port_view() == self.port_view(),
            can_step(old(internal).count(*new_time)),
        ensures
            final(internal).wf(),
            final(internal).port_view() == old(internal).port_view(),
            r is Ok <==> self.time_view().leq(new_time),
            r matches Ok(c) ==> c.time_view() == *new_time && c.port_view() == self.port_view(),
            r is Ok ==> forall|u: T| #[trigger] final(internal).count(u) == old(internal).count(u)
                + op_effect(CapabilityOp::Delayed(self.time_view(), *new_time), u),
            r is Err ==> *final(internal) == *old(internal),
    {
        if self.time.less_equal(new_time) {
            internal.step(*new_time, 1);
            Ok(Capability { time: *new_time, port: self.port })
        } else {
            Err(CapabilityError::InvalidCapability)
        }
    }

    /// Moves this capability to `new_time`, which must not lie before its
    /// timestamp.
    pub fn downgrade(&mut self, new_time: &T, internal: &mut Internal<T>) -> (r: Result<(), CapabilityError>)
        requires
            old(internal).wf(),
            old(internal).port_view() == old(self).port_view(),
            can_step(old(internal).count(*new_time)),
            can_step(old(internal).count(old(self).time_view())),
        ensures
            final(internal).wf(),
            final(internal).port_view() == old(internal).port_view(),
            final(self).port_view() == old(self).port_view(),
            r is Ok <==> old(self).time_view().leq(new_time),
            r is Ok ==> final(self).time_view() == *new_time,
            r is Ok ==> forall|u: T| #[trigger] final(internal).count(u) == old(internal).count(u)
                + op_effect(CapabilityOp::Downgrade(old(self).time_view(), *new_time), u),
            r is Err ==> *final(internal) == *old(internal) && *final(self) == *old(self),
    {
        if same(&self.time, new_time) {
            proof { T::lemma_order(self.time, self.time, self.time); }
            Ok(())
        } else if self.time.less_equal(new_time) {
            internal.step(*new_time, 1);
            internal.step(self.time, -1);
            self.time = *new_time;
            Ok(())
        } else {
            Err(CapabilityError::InvalidCapability)
        }
    }

    /// Gives up this capability where its port's record still exists;
    /// where the record has been torn down (`None`), there is nothing to count.
    pub fn release_if_live(self, internal: &mut Option<Internal<T>>)
        requires
            *old(internal) matches Some(i) ==> i.wf() && i.port_view() == self.port_view()
                && can_step(i.count(self.time_view())),
        ensures
            *old(internal) is None ==> *final(internal) is None,
            *old(internal) matches Some(i) ==> *final(internal) matches Some(f) && f.wf()
                && f.port_view() == i.port_view()
                && forall|u: T| #[trigger] f.count(u) == i.count(u) + op_effect(CapabilityOp::Drop(self.time_view()), u),
    {
        match internal {
            Some(i) => {
                self.release(i);
            },
            None => {},
        }
    }

    /// Gives up this capability, counting its end at its port.
    pub fn release(self, internal: &mut Internal<T>)
        requires
            old(internal).wf(),
            old(internal).port_view() == self.port_view(),
            can_step(old(internal).count(self.time_view())),
        ensures
            final(internal).wf(),
            final(internal).port_view() == old(internal).port_view(),
            forall|u: T| #[trigger] final(internal).count(u) == old(internal).count(u)
                + op_effect(CapabilityOp::Drop(self.time_view()), u),
    {
        internal.step(self.time, -1);
    }
}

/// The capability that comes with a batch of input: it grants output at the
/// batch's timestamp on each of the operator's output ports that the input
/// reaches, and is counted nowhere until it is turned into a [`Capability`]
/// for one of them.
#[derive(Debug)]
pub struct InputCapability<T> {
    time: T,
    ports: Vec<usize>,
}

impl<T: Timestamp> CapabilityTrait<T> for InputCapability<T> {
    closed spec fn time_view(&self) -> T {
        self.time
    }

    open spec fn valid_for(&self, port: usize) -> bool {
        self.ports_view().contains(port)
    }

    fn time(&self) -> (r: &T) {
        &self.time
    }

    fn valid_for_output(&self, port: usize) -> (r: bool) {
        let mut i: usize = 0;
        while i < self.ports.len()
            invariant
                i <= self.ports@.len(),
                forall|j: int| 0 <= j < i ==> self.ports@[j] != port,
            decreases self.ports@.len() - i,
        {
            if self.ports[i] == port {
                assert(self.ports_view()[i as int] == port);
                return true;
            }
            i = i + 1;
        }
        false
    }
}

impl<T: Timestamp> InputCapability<T> {
    /// The output ports this capability may authorise.
    pub closed spec fn ports_view(&self) -> Seq<usize> {
        self.ports@
    }

    /// The capability for a batch at `time` that may authorise output on each of `ports`.
    pub fn new(time: T, ports: Vec<usize>) -> (r: InputCapability<T>)
        ensures
            r.time_view() == time,
            r.ports_view() == ports@,
    {
        InputCapability { time, ports }
    }

    /// A capability for `new_time`, which must not lie before this one's
    /// timestamp, counted at the port of `internal`.
    pub fn delayed(&self, new_time: &T, internal: &mut Internal<T>) -> (r: Capability<T>)
        requires
            old(internal).wf(),
            self.ports_view().contains(old(internal).port_view()),
            can_step(old(internal).count(*new_time)),
            self.time_view().leq(new_time),
        ensures
            final(internal).wf(),
            final(internal).port_view() == old(internal).port_view(),
            r.time_view() == *new_time,
            r.port_view() == old(internal).port_view(),
            forall|u: T| #[trigger] final(internal).count(u) == old(internal).count(u)
                + op_effect(CapabilityOp::Delayed(self.time_view(), *new_time), u),
    {
        match self.try_delayed(new_time, internal) {
            Ok(c) => c,
            Err(_) => Capability { time: *new_time, port: internal.port() },
        }
    }

    /// As [`InputCapability::delayed`], but refuses, with nothing changed, a
    /// `new_time` that does not lie at or after this capability's timestamp.
    pub fn try_delayed(&self, new_time: &T, internal: &mut Internal<T>) -> (r: Result<Capability<T>, CapabilityError>)
        requires
            old(internal).wf(),
            self.ports_view().contains(old(internal).port_view()),
            can_step(old(internal).count(*new_time)),
        ensures
            final(internal).wf(),
            final(internal).port_view() == old(internal).port_view(),
            r is Ok <==> self.time_view().leq(new_time),
            r matches Ok(c) ==> c.time_view() == *new_time && c.port_view() == old(internal).port_view(),
            r is Ok ==> forall|u: T| #[trigger] final(internal).count(u) == old(internal).count(u)
                + op_effect(CapabilityOp::Delayed(self.time_view(), *new_time), u),
            r is Err ==> *final(internal) == *old(internal),
    {
        if self.time.less_equal(new_time) {
            internal.step(*new_time, 1);
            Ok(Capability { time: *new_time, port: internal.port() })
        } else {
            Err(CapabilityError::InvalidCapability)
        }
    }

    /// A capability for this timestamp, counted at the port of `internal`.
    pub fn retain(self, internal: &mut Internal<T>) -> (r: Capability<T>)
        requires
            old(internal).wf(),
            self.ports_view().contains(old(internal).port_view()),
            can_step(old(internal).count(self.time_view())),
        ensures
            r.time_view() == self.time_view(),
            r.port_view() == old(internal).port_view(),
            final(internal).wf(),
            final(internal).port_view() == old(internal).port_view(),
            forall|u: T| #[trigger] final(internal).count(u) == old(internal).count(u)
                + op_effect(CapabilityOp::Create(self.time_view()), u),
    {
        internal.step(self.time, 1);
        Capability { time: self.time, port: internal.port() }
    }
}

} // verus!
