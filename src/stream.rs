//! Streams: the edges of a dataflow graph, and the scope that owns them.

use vstd::prelude::*;
use crate::channels::{Message, Tee, msg_view, queue_view, tee_push};

verus! {

/// An output port of an operator: where a stream's data comes from.
#[derive(Clone, Copy, Debug, PartialEq, Eq, Structural)]
pub struct Source {
    pub node: usize,
    pub port: usize,
}

/// An input port of an operator: where a stream's data goes.
#[derive(Clone, Copy, Debug, PartialEq, Eq, Structural)]
pub struct Target {
    pub node: usize,
    pub port: usize,
}

/// A dataflow scope: the edges of its graph and the consumer registry of each
/// of its streams.
pub struct Scope<T, D> {
    id: usize,
    edges: Vec<(Source, Target)>,
    tees: Vec<Tee<T, D>>,
}

impl<T: Copy, D: Copy> Scope<T, D> {
    pub closed spec fn id_view(&self) -> usize {
        self.id
    }

    /// The edges, in the order they were added.
    pub closed spec fn edges_view(&self) -> Seq<(Source, Target)> {
        self.edges@
    }

    /// For each registry, what each of its destinations holds.
    pub closed spec fn tees_view(&self) -> Seq<Seq<Seq<(T, Seq<D>)>>> {
        self.tees@.map_values(|t: Tee<T, D>| t.view())
    }

    /// An empty scope with identifier `id`.
    pub fn new(id: usize) -> (r: Scope<T, D>)
        ensures
            r.id_view() == id,
            r.edges_view().len() == 0,
            r.tees_view().len() == 0,
    {
        Scope { id, edges: Vec::new(), tees: Vec::new() }
    }

    pub fn id(&self) -> (r: usize)
        ensures
            r == self.id_view(),
    {
        self.id
    }

    /// Records an edge of the graph.
    pub fn add_edge(&mut self, source: Source, target: Target)
        ensures
            final(self).id_view() == old(self).id_view(),
            final(self).edges_view() == old(self).edges_view().push((source, target)),
            final(self).tees_view() == old(self).tees_view(),
    {
        self.edges.push((source, target));
    }

    /// Adds a registry with no destinations; returns its index.
    pub fn new_tee(&mut self) -> (r: usize)
        ensures
            r == old(self).tees_view().len(),
            final(self).id_view() == old(self).id_view(),
            final(self).edges_view() == old(self).edges_view(),
            final(self).tees_view() == old(self).tees_view().push(Seq::empty()),
    {
        let r = self.tees.len();
        let t = Tee::new();
        assert(t.view() =~= Seq::<Seq<(T, Seq<D>)>>::empty());
        self.tees.push(t);
        assert(self.tees_view() =~= old(self).tees_view().push(Seq::empty()));
        r
    }

    /// Adds a destination to registry `k`; returns the destination's index.
    pub fn add_pusher(&mut self, k: usize) -> (r: usize)
        requires
            k < old(self).tees_view().len(),
        ensures
            r == old(self).tees_view()[k as int].len(),
            final(self).id_view() == old(self).id_view(),
            final(self).edges_view() == old(self).edges_view(),
            final(self).tees_view() == old(self).tees_view().update(k as int,
                old(self).tees_view()[k as int].push(Seq::empty())),
    {
        let ghost before = self.tees@;
        let mut t = self.tees.remove(k);
        let r = t.add_pusher();
        self.tees.insert(k, t);
        assert(self.tees@ =~= before.update(k as int, t));
        assert(self.tees_view() =~= old(self).tees_view().update(k as int,
            old(self).tees_view()[k as int].push(Seq::empty())));
        r
    }

    /// Hands a copy of `message` to every destination of registry `k`.
    pub fn push(&mut self, k: usize, message: &Message<T, D>)
        requires
            k < old(self).tees_view().len(),
        ensures
            final(self).id_view() == old(self).id_view(),
            final(self).edges_view() == old(self).edges_view(),
            final(self).tees_view() == old(self).tees_view().update(k as int,
                tee_push(old(self).tees_view()[k as int], msg_view(*message))),
    {
        let ghost before = self.tees@;
        let mut t = self.tees.remove(k);
        t.push(message);
        self.tees.insert(k, t);
        assert(self.tees@ =~= before.update(k as int, t));
        assert(self.tees_view() =~= old(self).tees_view().update(k as int,
            tee_push(old(self).tees_view()[k as int], msg_view(*message))));
    }

    /// Takes what destination `d` of registry `k` has received.
    pub fn take(&mut self, k: usize, d: usize) -> (r: Vec<Message<T, D>>)
        requires
            k < old(self).tees_view().len(),
            d < old(self).tees_view()[k as int].len(),
        ensures
            queue_view(r@) == old(self).tees_view()[k as int][d as int],
            final(self).id_view() == old(self).id_view(),
            final(self).edges_view() == old(self).edges_view(),
            final(self).tees_view() == old(self).tees_view().update(k as int,
                old(self).tees_view()[k as int].update(d as int, Seq::empty())),
    {
        let ghost before = self.tees@;
        let mut t = self.tees.remove(k);
        let r = t.take(d);
        self.tees.insert(k, t);
        assert(self.tees@ =~= before.update(k as int, t));
        assert(self.tees_view() =~= old(self).tees_view().update(k as int,
            old(self).tees_view()[k as int].update(d as int, Seq::empty())));
        r
    }
}

/// A handle to a stream: the port its data comes from, the scope that holds
/// it, and the registry of its consumers in that scope.
///
/// Copies of a handle name the same registry, so they share its consumers.
#[derive(Clone, Copy, Debug)]
pub struct StreamCore {
    name: Source,
    scope: usize,
    ports: usize,
}

impl StreamCore {
    pub closed spec fn name_view(&self) -> Source {
        self.name
    }

    pub closed spec fn scope_view(&self) -> usize {
        self.scope
    }

    pub closed spec fn ports_view(&self) -> usize {
        self.ports
    }

    /// A stream from `source`, whose consumers registry `output` of scope
    /// `scope` holds.
    pub fn new(source: Source, output: usize, scope: usize) -> (r: StreamCore)
        ensures
            r.name_view() == source,
            r.ports_view() == output,
            r.scope_view() == scope,
    {
        StreamCore { name: source, ports: output, scope }
    }

    /// The port the stream's data comes from.
    pub fn name(&self) -> (r: &Source)
        ensures
            *r == self.name_view(),
    {
        &self.name
    }

    /// The identifier of the scope holding the stream.
    pub fn scope(&self) -> (r: usize)
        ensures
            r == self.scope_view(),
    {
        self.scope
    }

    /// The index of the stream's consumer registry in its scope.
    pub fn ports(&self) -> (r: usize)
        ensures
            r == self.ports_view(),
    {
        self.ports
    }

    /// The stream itself, with its record type fixed.
    pub fn container(self) -> (r: StreamCore)
        ensures
            r == self,
    {
        self.as_stream()
    }

    /// Connects the stream to `target`: records the edge in the scope and adds
    /// a destination that receives every message pushed on the stream from now
    /// on. Returns the destination's index. `identifier` names the edge.
    pub fn connect_to<T: Copy, D: Copy>(&self, graph: &mut Scope<T, D>, target: Target, identifier: usize) -> (r: usize)
        requires
            old(graph).id_view() == self.scope_view(),
            self.ports_view() < old(graph).tees_view().len(),
        ensures
            r == old(graph).tees_view()[self.ports_view() as int].len(),
            final(graph).id_view() == old(graph).id_view(),
            final(graph).edges_view() == old(graph).edges_view().push((self.name_view(), target)),
            final(graph).tees_view() == old(graph).tees_view().update(self.ports_view() as int,
                old(graph).tees_view()[self.ports_view() as int].push(Seq::empty())),
    {
        graph.add_edge(self.name, target);
        graph.add_pusher(self.ports)
    }
}

/// A value that can be turned into a stream.
pub trait AsStream {
    fn as_stream(self) -> StreamCore;
}

impl AsStream for StreamCore {
    fn as_stream(self) -> (r: StreamCore)
        ensures
            r == self,
    {
        self
    }
}

} // verus!
