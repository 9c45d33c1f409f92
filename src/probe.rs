//! Probes: observe, from outside the dataflow, the frontier at a stream.

use vstd::prelude::*;
use crate::order::{Timestamp, lt};
use crate::change_batch::{ChangeBatch, ProgressError, fits};
use crate::antichain::{MutableAntichain, lemma_frontier_minimal};
use crate::capability::CapabilityTrait;
use crate::channels::{queue_view, tee_push_all};
use crate::handles::{InputHandleCore, OutputWrapper, PullCounter, new_input_handle, flushed, records_at};
use crate::stream::{Scope, Source, StreamCore, Target};

verus! {

/// Where a probe handle is in its life.
#[derive(Clone, Copy, Debug, PartialEq, Eq, Structural)]
pub enum ProbeState {
    /// Not yet attached to a stream.
    Unbound,
    /// Attached, and mirroring the frontier of its stream.
    Bound,
    /// Attached, and its frontier has become empty: it never changes again.
    Exhausted,
}

/// Reports the frontier at the stream a probe is attached to.
pub struct Handle<T> {
    frontier: MutableAntichain<T>,
    state: ProbeState,
}

/// What one progress update may do to a handle: an exhausted handle stays as
/// it is, an attached one stays attached, and an attached handle whose
/// frontier is empty is exhausted.
pub open spec fn update_post<T: Timestamp>(a: Handle<T>, b: Handle<T>) -> bool {
    &&& a.state_view() == ProbeState::Exhausted ==> b.state_view() == ProbeState::Exhausted
        && b.frontier_view() == a.frontier_view()
    &&& a.state_view() != ProbeState::Unbound ==> b.state_view() != ProbeState::Unbound
    &&& b.state_view() != ProbeState::Unbound && b.frontier_view().len() == 0
        ==> b.state_view() == ProbeState::Exhausted
    &&& b.state_view() == ProbeState::Exhausted ==> b.frontier_view().len() == 0
}

impl<T: Timestamp> Handle<T> {
    pub closed spec fn state_view(&self) -> ProbeState {
        self.state
    }

    /// The frontier the handle reports.
    pub closed spec fn frontier_view(&self) -> Seq<T> {
        self.frontier.frontier_view()
    }

    /// The count of `t` in the mirrored frontier.
    pub closed spec fn count(&self, t: T) -> int {
        self.frontier.count(t)
    }

    pub closed spec fn wf(&self) -> bool {
        &&& self.frontier.wf()
        &&& self.state == ProbeState::Exhausted ==> self.frontier.frontier_view().len() == 0
    }

    /// A handle attached to nothing, with an empty frontier.
    pub fn new() -> (r: Handle<T>)
        ensures
            r.wf(),
            r.state_view() == ProbeState::Unbound,
            r.frontier_view().len() == 0,
            forall|t: T| #[trigger] r.count(t) == 0,
    {
        Handle { frontier: MutableAntichain::new(), state: ProbeState::Unbound }
    }

    /// Whether every frontier element is strictly below `time`.
    pub fn less_than(&self, time: &T) -> (r: bool)
        ensures
            r == forall|i: int| 0 <= i < self.frontier_view().len() ==> lt(#[trigger] self.frontier_view()[i], *time),
    {
        let r = self.frontier.less_than(time);
        assert(self.frontier_view() =~= self.frontier.frontier_view());
        r
    }

    /// Whether every frontier element is less than or equal to `time`.
    pub fn less_equal(&self, time: &T) -> (r: bool)
        ensures
            r == forall|i: int| 0 <= i < self.frontier_view().len() ==> (#[trigger] self.frontier_view()[i]).leq(time),
    {
        let r = self.frontier.less_equal(time);
        assert(self.frontier_view() =~= self.frontier.frontier_view());
        r
    }

    /// Whether the frontier is empty: no timestamp is outstanding.
    pub fn done(&self) -> (r: bool)
        requires
            self.wf(),
        ensures
            r == (self.frontier_view().len() == 0),
            r == forall|t: T| #[trigger] self.count(t) == 0,
    {
        let r = self.frontier.is_empty();
        proof {
            if r {
                assert forall|t: T| #[trigger] self.count(t) == 0 by {
                    assert(self.frontier.count(t) == 0);
                }
            } else {
                let t = choose|t: T| #[trigger] self.frontier.count(t) != 0;
                assert(self.count(t) != 0);
            }
        }
        r
    }

    /// The reported frontier is exactly the set of minimal timestamps with a
    /// positive count, each listed once; no count is negative; no two
    /// frontier elements are comparable; and every timestamp with a positive
    /// count lies at or above some frontier element.
    pub proof fn lemma_wf(&self)
        requires
            self.wf(),
        ensures
            forall|t: T| #[trigger] self.count(t) >= 0,
            forall|t: T| self.frontier_view().contains(t) <==> (self.count(t) > 0
                && forall|s: T| self.count(s) > 0 && #[trigger] s.leq(&t) ==> s == t),
            forall|i: int, j: int| #![trigger self.frontier_view()[i], self.frontier_view()[j]]
                0 <= i < self.frontier_view().len() && 0 <= j < self.frontier_view().len() && i != j
                ==> !self.frontier_view()[i].leq(&self.frontier_view()[j]),
            forall|t: T| #[trigger] self.count(t) > 0 ==> exists|i: int| 0 <= i < self.frontier_view().len()
                && (#[trigger] self.frontier_view()[i]).leq(&t),
    {
        let a = &self.frontier;
        a.lemma_wf();
        lemma_frontier_minimal(a);
        assert forall|t: T| #[trigger] self.count(t) >= 0 by {
            assert(a.count(t) >= 0);
        }
        assert forall|t: T| self.frontier_view().contains(t) <==> (self.count(t) > 0
            && forall|s: T| self.count(s) > 0 && #[trigger] s.leq(&t) ==> s == t) by {
            if self.frontier_view().contains(t) {
                assert(a.count(t) > 0);
                assert forall|s: T| self.count(s) > 0 && #[trigger] s.leq(&t) implies s == t by {
                    assert(a.count(s) > 0);
                }
            }
            if self.count(t) > 0 && forall|s: T| self.count(s) > 0 && #[trigger] s.leq(&t) ==> s == t {
                assert forall|s: T| a.count(s) > 0 && #[trigger] s.leq(&t) implies s == t by {
                    assert(self.count(s) > 0);
                }
            }
        }
        assert forall|t: T| #[trigger] self.count(t) > 0 implies exists|i: int| 0 <= i < self.frontier_view().len()
            && (#[trigger] self.frontier_view()[i]).leq(&t) by {
            assert(a.count(t) > 0);
            let i = choose|i: int| 0 <= i < a.frontier_view().len() && (#[trigger] a.frontier_view()[i]).leq(&t);
            assert(self.frontier_view()[i].leq(&t));
        }
    }

    /// Applies `function` to the frontier and returns its result.
    pub fn with_frontier<R, F: Fn(&Vec<T>) -> R>(&self, function: F) -> (r: R)
        requires
            forall|v: &Vec<T>| #[trigger] function.requires((v,)),
        ensures
            exists|v: &Vec<T>| v@ == self.frontier_view() && #[trigger] function.ensures((v,), r),
    {
        let v = self.frontier.frontier();
        function(v)
    }

    /// Attaches the handle to a stream.
    pub fn bind(&mut self)
        requires
            old(self).wf(),
        ensures
            final(self).wf(),
            final(self).frontier_view() == old(self).frontier_view(),
            forall|t: T| #[trigger] final(self).count(t) == old(self).count(t),
            final(self).state_view() == if old(self).state_view() == ProbeState::Unbound {
                ProbeState::Bound
            } else {
                old(self).state_view()
            },
    {
        if self.state == ProbeState::Unbound {
            self.state = ProbeState::Bound;
        }
    }

    /// Whether `changes` can be mirrored: every count stays between zero and
    /// `i64::MAX`.
    pub fn accepts(&self, changes: &ChangeBatch<T>) -> (r: bool)
        requires
            self.wf(),
            changes.wf(),
        ensures
            r == forall|t: T| 0 <= #[trigger] self.count(t) + changes.count(t) <= i64::MAX,
    {
        let r = self.frontier.accepts(changes);
        assert(r == forall|t: T| 0 <= #[trigger] self.frontier.count(t) + changes.count(t) <= i64::MAX);
        proof {
            if r {
                assert forall|t: T| 0 <= #[trigger] self.count(t) + changes.count(t) <= i64::MAX by {
                    assert(self.count(t) == self.frontier.count(t));
                }
            } else {
                let t = choose|t: T| !(0 <= #[trigger] self.frontier.count(t) + changes.count(t) <= i64::MAX);
                assert(self.count(t) == self.frontier.count(t));
            }
        }
        r
    }

    /// Mirrors a progress update of the attached stream's frontier. An
    /// exhausted handle ignores it.
    pub fn update(&mut self, changes: &ChangeBatch<T>)
        requires
            old(self).wf(),
            old(self).state_view() != ProbeState::Unbound,
            changes.wf(),
            forall|t: T| 0 <= #[trigger] old(self).count(t) + changes.count(t) <= i64::MAX,
        ensures
            final(self).wf(),
            update_post(*old(self), *final(self)),
            old(self).state_view() != ProbeState::Exhausted ==> forall|t: T| #[trigger] final(self).count(t)
                == old(self).count(t) + changes.count(t),
            old(self).state_view() == ProbeState::Exhausted ==> *final(self) == *old(self),
    {
        if self.state == ProbeState::Exhausted {
            return;
        }
        assert forall|t: T| 0 <= #[trigger] self.frontier.count(t) + changes.count(t) <= i64::MAX by {
            assert(self.count(t) == self.frontier.count(t));
        }
        let r = self.frontier.update_iter(changes);
        assert(r is Ok);
        if self.frontier.is_empty() {
            self.state = ProbeState::Exhausted;
        }
    }
}

/// Once an attached handle reports an empty frontier after an update, it
/// never again reports a nonempty one, whatever updates follow.
pub proof fn lemma_done_is_final<T: Timestamp>(hs: Seq<Handle<T>>, j: int)
    requires
        forall|i: int| 0 <= i < hs.len() - 1 ==> update_post(#[trigger] hs[i], hs[i + 1]),
        1 <= j < hs.len(),
        hs[j].state_view() != ProbeState::Unbound,
        hs[j].frontier_view().len() == 0,
    ensures
        forall|k: int| j <= k < hs.len() ==> (#[trigger] hs[k]).frontier_view().len() == 0,
    decreases hs.len(),
{
    assert(update_post(hs[j - 1], hs[j]));
    assert(hs[j].state_view() == ProbeState::Exhausted);
    assert forall|k: int| j <= k < hs.len() implies (#[trigger] hs[k]).frontier_view().len() == 0
        && hs[k].state_view() == ProbeState::Exhausted by {
        lemma_exhausted_stays(hs, j, k);
    }
}

proof fn lemma_exhausted_stays<T: Timestamp>(hs: Seq<Handle<T>>, j: int, k: int)
    requires
        forall|i: int| 0 <= i < hs.len() - 1 ==> update_post(#[trigger] hs[i], hs[i + 1]),
        0 <= j <= k < hs.len(),
        hs[j].state_view() == ProbeState::Exhausted,
        hs[j].frontier_view().len() == 0,
    ensures
        hs[k].state_view() == ProbeState::Exhausted,
        hs[k].frontier_view().len() == 0,
    decreases k - j,
{
    if k > j {
        lemma_exhausted_stays(hs, j, k - 1);
        assert(update_post(hs[k - 1], hs[k]));
    }
}

/// The messages of `q` that hold at least one record, in order.
pub open spec fn nonempty_msgs<T, D>(q: Seq<(T, Seq<D>)>) -> Seq<(T, Seq<D>)>
    decreases q.len(),
{
    if q.len() == 0 {
        Seq::empty()
    } else if q.last().1.len() > 0 {
        nonempty_msgs(q.drop_last()).push(q.last())
    } else {
        nonempty_msgs(q.drop_last())
    }
}

/// The progress one activation of a probe operator reports: changes to the
/// capabilities it holds, and the records it consumed and produced.
pub struct ProbeProgress<T> {
    pub internal: ChangeBatch<T>,
    pub consumed: ChangeBatch<T>,
    pub produced: ChangeBatch<T>,
}

/// The operator a probe installs: it forwards every message of the probed
/// stream to its own output, and mirrors the frontier it is told of into the
/// probe's handle.
pub struct ProbeOperator<T, D> {
    input: InputHandleCore<T, D>,
    output: OutputWrapper<T, D>,
    source: usize,
    dest: usize,
    out: usize,
    started: bool,
}

impl<T: Timestamp, D: Copy> ProbeOperator<T, D> {
    /// The registry of the probed stream.
    pub closed spec fn source_view(&self) -> usize {
        self.source
    }

    /// The destination of this operator in the probed stream's registry.
    pub closed spec fn dest_view(&self) -> usize {
        self.dest
    }

    /// The registry of this operator's output stream.
    pub closed spec fn out_view(&self) -> usize {
        self.out
    }

    /// Whether the operator has run once (and so given up its initial capability).
    pub closed spec fn started_view(&self) -> bool {
        self.started
    }

    /// The messages received and not yet forwarded.
    pub closed spec fn pending_view(&self) -> Seq<(T, Seq<D>)> {
        self.input.counter().pending_view()
    }

    pub closed spec fn wf(&self) -> bool {
        &&& self.input.wf()
        &&& self.output.handle_view().wf()
        &&& self.input.ports_view() == seq![self.out]
        &&& self.output.handle_view().port_view() == self.out
        &&& self.output.handle_view().time_view() is None
        &&& self.output.handle_view().pending_view().len() == 0
        &&& self.output.handle_view().outbox_view().len() == 0
        &&& self.source != self.out
        &&& forall|t: T| #[trigger] self.input.counter().consumed_count(t) == 0
        &&& forall|t: T| #[trigger] self.output.handle_view().produced_count(t) == 0
    }

    /// The messages pending here followed by those waiting at this
    /// operator's destination in `graph`.
    pub open spec fn received(&self, graph: Scope<T, D>) -> Seq<(T, Seq<D>)> {
        self.pending_view() + graph.tees_view()[self.source_view() as int][self.dest_view() as int]
    }

    /// Whether the registries this operator uses exist in `graph`.
    pub open spec fn placed_in(&self, graph: Scope<T, D>) -> bool {
        &&& self.source_view() < graph.tees_view().len()
        &&& self.dest_view() < graph.tees_view()[self.source_view() as int].len()
        &&& self.out_view() < graph.tees_view().len()
    }

    /// One activation: mirrors `frontier` (the changes to the frontier of the
    /// probed stream) into `handle`; on the first activation gives up the
    /// initial capability at the least timestamp; forwards every received
    /// message that holds records, unchanged and in order, to the output
    /// stream; and reports the progress made.
    ///
    /// Refused, with nothing changed, where `frontier` would drive a count of
    /// the handle below zero or past `i64::MAX`.
    pub fn step(&mut self, graph: &mut Scope<T, D>, handle: &mut Handle<T>, frontier: &ChangeBatch<T>)
        -> (r: Result<ProbeProgress<T>, ProgressError>)
        requires
            old(self).wf(),
            old(self).placed_in(*old(graph)),
            old(handle).wf(),
            old(handle).state_view() != ProbeState::Unbound,
            frontier.wf(),
        ensures
            r is Err <==> !forall|t: T| 0 <= #[trigger] old(handle).count(t) + frontier.count(t) <= i64::MAX,
            r is Err ==> *final(self) == *old(self) && *final(graph) == *old(graph) && *final(handle) == *old(handle),
            r is Ok ==> {
                &&& final(self).wf()
                &&& final(self).placed_in(*final(graph))
                &&& final(handle).wf()
                &&& update_post(*old(handle), *final(handle))
                &&& old(handle).state_view() != ProbeState::Exhausted ==> forall|t: T| #[trigger] final(handle).count(t)
                    == old(handle).count(t) + frontier.count(t)
                &&& final(self).started_view()
                &&& final(self).source_view() == old(self).source_view()
                &&& final(self).dest_view() == old(self).dest_view()
                &&& final(self).out_view() == old(self).out_view()
                &&& final(graph).id_view() == old(graph).id_view()
                &&& final(graph).edges_view() == old(graph).edges_view()
            },
            r is Ok ==> exists|k: int| #![trigger old(self).received(*old(graph)).take(k)] {
                let p = old(self).received(*old(graph));
                let fwd = nonempty_msgs(p.take(k));
                &&& 0 <= k <= p.len()
                &&& k < p.len() ==> (p[k].1.len() > i64::MAX
                    || !fits(records_at(p.take(k), p[k].0) + p[k].1.len()))
                &&& final(self).pending_view() == p.subrange(k, p.len() as int)
                &&& final(graph).tees_view() == old(graph).tees_view()
                    .update(old(self).source_view() as int, old(graph).tees_view()[old(self).source_view() as int]
                        .update(old(self).dest_view() as int, Seq::empty()))
                    .update(old(self).out_view() as int, tee_push_all(old(graph).tees_view()[old(self).out_view() as int], fwd))
                &&& r matches Ok(pr) && forall|t: T| #[trigger] pr.consumed.count(t) == records_at(p.take(k), t)
                    && pr.produced.count(t) == records_at(p.take(k), t)
            },
            r matches Ok(p) ==> {
                &&& p.internal.wf()
                &&& p.consumed.wf()
                &&& p.produced.wf()
                &&& forall|t: T| #[trigger] p.internal.count(t) == if !old(self).started_view() && t == T::minimum_spec() { -1int } else { 0 }
            },
    {
        if !handle.accepts(frontier) {
            return Err(ProgressError::FrontierUnderflow);
        }
        handle.update(frontier);
        let mut internal = ChangeBatch::new();
        if !self.started {
            internal.update(T::minimum(), -1);
            self.started = true;
        }
        let ghost g0 = *graph;
        let received = graph.take(self.source, self.dest);
        self.input.receive(received);
        let ghost gt = *graph;
        let ghost h1 = *handle;
        let ghost i0 = internal;
        let ghost src = self.source;
        let ghost dst = self.dest;
        let ghost started = self.started;
        let ghost p = self.input.counter().pending_view();
        let ghost mut k: int = 0;
        let ghost out_port = self.out;
        proof {
            assert(p.take(0) =~= Seq::<(T, Seq<D>)>::empty());
            assert(p.subrange(0, p.len() as int) =~= p);
        }
        loop
            invariant
                *graph == gt,
                *handle == h1,
                internal == i0,
                self.source == src,
                self.dest == dst,
                self.started == started,
                self.source != self.out,
                self.input.wf(),
                self.input.ports_view() == seq![out_port],
                self.out == out_port,
                self.output.handle_view().wf(),
                self.output.handle_view().port_view() == out_port,
                0 <= k <= p.len(),
                self.input.counter().pending_view() == p.subrange(k, p.len() as int),
                flushed(self.output.handle_view().outbox_view(), self.output.handle_view().time_view(),
                    self.output.handle_view().pending_view()) == nonempty_msgs(p.take(k)),
                forall|t: T| #[trigger] self.input.counter().consumed_count(t) == records_at(p.take(k), t),
                forall|t: T| #[trigger] self.output.handle_view().produced_count(t) == records_at(p.take(k), t),
            ensures
                !self.input.counter().can_take(),
                *graph == gt,
                *handle == h1,
                internal == i0,
                self.source == src,
                self.dest == dst,
                self.started == started,
                self.source != self.out,
                self.input.wf(),
                self.input.ports_view() == seq![out_port],
                self.out == out_port,
                self.output.handle_view().wf(),
                self.output.handle_view().port_view() == out_port,
                0 <= k <= p.len(),
                self.input.counter().pending_view() == p.subrange(k, p.len() as int),
                flushed(self.output.handle_view().outbox_view(), self.output.handle_view().time_view(),
                    self.output.handle_view().pending_view()) == nonempty_msgs(p.take(k)),
                forall|t: T| #[trigger] self.input.counter().consumed_count(t) == records_at(p.take(k), t),
                forall|t: T| #[trigger] self.output.handle_view().produced_count(t) == records_at(p.take(k), t),
            decreases p.len() - k,
        {
            match self.input.next() {
                Some((cap, data)) => {
                    let mut data = data;
                    let ghost t0 = cap.time_view();
                    let ghost d0 = data@;
                    proof {
                        assert(p.subrange(k, p.len() as int)[0] == p[k]);
                        assert(p.take(k + 1).drop_last() =~= p.take(k));
                        assert(p.take(k + 1).last() == p[k]);
                        assert(p.subrange(k + 1, p.len() as int) =~= p.subrange(k, p.len() as int).drop_first());
                        assert(self.output.handle_view().produced_count(t0) == records_at(p.take(k), t0));
                    }
                    let o = self.output.activate();
                    assert(cap.ports_view()[0] == out_port);
                    o.session(&cap);
                    let g = o.give_container(&mut data);
                    assert(g is Ok);
                    proof {
                        k = k + 1;
                    }
                },
                None => {
                    break;
                },
            }
        }
        let o = self.output.activate();
        o.cease();
        let outgoing = o.take_outbox();
        let produced = o.take_produced();
        let consumed = self.input.take_consumed();
        let ghost g1 = *graph;
        let ghost fwd = queue_view(outgoing@);
        let mut i: usize = 0;
        proof {
            assert(fwd.take(0) =~= Seq::<(T, Seq<D>)>::empty());
        }
        let ghost s1 = *self;
        while i < outgoing.len()
            invariant
                *self == s1,
                *handle == h1,
                internal == i0,
                g1.tees_view() == g0.tees_view().update(self.source as int, g0.tees_view()[self.source as int]
                    .update(self.dest as int, Seq::empty())),
                self.source < g0.tees_view().len(),
                self.dest < g0.tees_view()[self.source as int].len(),
                self.source != self.out,
                i <= outgoing@.len(),
                fwd == queue_view(outgoing@),
                self.out < g1.tees_view().len(),
                graph.id_view() == g1.id_view(),
                graph.edges_view() == g1.edges_view(),
                graph.tees_view() == g1.tees_view().update(self.out as int,
                    tee_push_all(g1.tees_view()[self.out as int], fwd.take(i as int))),
            decreases outgoing@.len() - i,
        {
            graph.push(self.out, &outgoing[i]);
            proof {
                assert(fwd.take(i + 1).drop_last() =~= fwd.take(i as int));
                assert(fwd.take(i + 1).last() == fwd[i as int]);
                assert(graph.tees_view() =~= g1.tees_view().update(self.out as int,
                    tee_push_all(g1.tees_view()[self.out as int], fwd.take(i + 1))));
            }
            i = i + 1;
        }
        proof {
            assert(fwd.take(fwd.len() as int) =~= fwd);
            assert(p == old(self).received(g0));
            if k < p.len() {
                assert(self.input.counter().pending_view()[0] == p[k]);
            }
            assert(fwd == nonempty_msgs(p.take(k)));
            assert(g1.tees_view()[self.out as int] == g0.tees_view()[self.out as int]);
            assert(self.input.counter().pending_view() == p.subrange(k, p.len() as int));
            assert(self.pending_view() == p.subrange(k, p.len() as int));
            assert(graph.tees_view().len() == g0.tees_view().len());
            assert(graph.tees_view()[self.source as int].len() == g0.tees_view()[self.source as int].len());
        }
        Ok(ProbeProgress { internal, consumed, produced })
    }
}

/// Installs probes on a stream.
pub trait Probe<T: Timestamp, D: Copy>: Sized {
    /// The identifier of the scope holding the stream.
    spec fn scope_id(&self) -> usize;

    /// The index of the stream's consumer registry in its scope.
    spec fn registry(&self) -> usize;

    /// Installs a probe operator, reading the stream, as node `node` of
    /// `graph`, attached to `handle`. Returns the operator and its output
    /// stream, which carries the same data.
    fn probe_with(&self, graph: &mut Scope<T, D>, handle: &mut Handle<T>, node: usize)
        -> (r: (ProbeOperator<T, D>, StreamCore))
        requires
            old(graph).id_view() == self.scope_id(),
            self.registry() < old(graph).tees_view().len(),
            old(handle).wf(),
        ensures
            r.0.wf(),
            r.0.placed_in(*final(graph)),
            !r.0.started_view(),
            r.0.pending_view().len() == 0,
            r.0.source_view() == self.registry(),
            r.0.dest_view() == old(graph).tees_view()[self.registry() as int].len(),
            r.0.out_view() == old(graph).tees_view().len(),
            r.1.name_view() == (Source { node, port: 0 }),
            r.1.ports_view() == r.0.out_view(),
            r.1.scope_view() == self.scope_id(),
            final(graph).id_view() == old(graph).id_view(),
            final(graph).edges_view().len() == old(graph).edges_view().len() + 1,
            final(graph).tees_view() == old(graph).tees_view().update(self.registry() as int,
                old(graph).tees_view()[self.registry() as int].push(Seq::empty())).push(Seq::empty()),
            final(handle).wf(),
            final(handle).frontier_view() == old(handle).frontier_view(),
            forall|t: T| #[trigger] final(handle).count(t) == old(handle).count(t),
            final(handle).state_view() == if old(handle).state_view() == ProbeState::Unbound {
                ProbeState::Bound
            } else {
                old(handle).state_view()
            },
    ;

    /// Installs a probe operator, reading the stream, as node `node` of
    /// `graph`, with a fresh handle. Returns the handle and the operator.
    fn probe(&self, graph: &mut Scope<T, D>, node: usize) -> (r: (Handle<T>, ProbeOperator<T, D>))
        requires
            old(graph).id_view() == self.scope_id(),
            self.registry() < old(graph).tees_view().len(),
        ensures
            r.0.wf(),
            r.0.state_view() == ProbeState::Bound,
            r.0.frontier_view().len() == 0,
            r.1.wf(),
            r.1.placed_in(*final(graph)),
            !r.1.started_view(),
            r.1.source_view() == self.registry(),
            final(graph).id_view() == old(graph).id_view(),
    ;
}

impl<T: Timestamp, D: Copy> Probe<T, D> for StreamCore {
    open spec fn scope_id(&self) -> usize {
        self.scope_view()
    }

    open spec fn registry(&self) -> usize {
        self.ports_view()
    }

    fn probe_with(&self, graph: &mut Scope<T, D>, handle: &mut Handle<T>, node: usize)
        -> (r: (ProbeOperator<T, D>, StreamCore))
    {
        let target = Target { node, port: 0 };
        let dest = self.connect_to(graph, target, node);
        let out = graph.new_tee();
        let stream = StreamCore::new(Source { node, port: 0 }, out, self.scope());
        let input = new_input_handle(PullCounter::new(), vec![out]);
        let output = OutputWrapper::new(out);
        handle.bind();
        let op = ProbeOperator { input, output, source: self.ports(), dest, out, started: false };
        proof {
            assert(op.pending_view() =~= Seq::<(T, Seq<D>)>::empty());
            assert(op.input.ports_view() =~= seq![out]);
        }
        (op, stream)
    }

    fn probe(&self, graph: &mut Scope<T, D>, node: usize) -> (r: (Handle<T>, ProbeOperator<T, D>)) {
        let mut handle = Handle::new();
        let (op, _stream) = self.probe_with(graph, &mut handle, node);
        (handle, op)
    }
}

} // verus!
