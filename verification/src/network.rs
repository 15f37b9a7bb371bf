//! The registry of a server that also keeps every frame it routed, so that a
//! TCP node that joins late is first replayed all of them in order.
use vstd::prelude::*;

use crate::frame::TNetworkFrame;
use crate::server::network::{
    is_first_index, lemma_start_keeps_wf, lemma_stop_keeps_wf, lemma_targets_no_loopback, spec_next_id,
    spec_targets, spec_wf, Network as Registry, NetworkView as RegistryView,
};

verus! {

/// The registry as mathematical values: the connected nodes in the order in
/// which they started, the next identifier, and the routed frames in the
/// order in which they were routed.
pub struct NetworkView {
    pub nodes: Seq<u32>,
    pub next_id: u32,
    pub history: Seq<TNetworkFrame>,
}

/// The connected nodes of a server, known by their identifiers, and the
/// frames routed between them.
pub struct Network {
    registry: Registry,
    history: Vec<TNetworkFrame>,
}

impl View for Network {
    type V = NetworkView;

    closed spec fn view(&self) -> NetworkView {
        NetworkView {
            nodes: self.registry@.nodes,
            next_id: self.registry@.next_id,
            history: self.history@,
        }
    }
}

impl Network {
    /// No node and no frame yet; the first node gets identifier 0.
    pub fn new() -> (r: Network)
        ensures
            r@.nodes == Seq::<u32>::empty(),
            r@.next_id == 0,
            r@.history == Seq::<TNetworkFrame>::empty(),
            spec_wf(registry_of(r@)),
    {
        Network { registry: Registry::new(), history: Vec::new() }
    }

    /// The frames routed so far, oldest first: what a TCP node that joins
    /// now is sent before anything else.
    pub fn history(&self) -> (r: &Vec<TNetworkFrame>)
        ensures
            r@ == self@.history,
    {
        &self.history
    }

    /// Registers a node that starts: it gets the next identifier, and the
    /// counter moves on (wrapping like an atomic `fetch_add`). The history is unchanged.
    pub fn start(&mut self) -> (id: u32)
        ensures
            id == old(self)@.next_id,
            final(self)@.nodes == old(self)@.nodes.push(id),
            final(self)@.next_id == spec_next_id(id),
            final(self)@.history == old(self)@.history,
            final(self)@ == spec_step(old(self)@, RoutingEvent::Start),
            spec_wf(registry_of(old(self)@)) && old(self)@.next_id < u32::MAX ==> spec_wf(
                registry_of(final(self)@),
            ),
    {
        self.registry.start()
    }

    /// Registers a node once its replay is done: a node to which the history
    /// was replayed in full, or that needs none, starts as [`Network::start`]
    /// says; one whose replay failed is not registered and uses no identifier.
    pub fn start_after_replay(&mut self, replayed: bool) -> (r: Option<u32>)
        ensures
            replayed ==> r == Some(old(self)@.next_id) && final(self)@ == spec_step(
                old(self)@,
                RoutingEvent::Start,
            ),
            !replayed ==> r is None && final(self)@ == old(self)@,
    {
        if replayed {
            Some(self.start())
        } else {
            None
        }
    }

    /// The nodes to which a frame received from `from` goes: all connected
    /// nodes but `from`, in the order in which they started.
    pub fn targets(&self, from: u32) -> (r: Vec<u32>)
        ensures
            r@ == spec_targets(self@.nodes, from),
    {
        self.registry.targets(from)
    }

    /// Keeps a frame that was routed, after all earlier ones.
    pub fn record(&mut self, frame: TNetworkFrame)
        ensures
            final(self)@.history == old(self)@.history.push(frame),
            final(self)@.nodes == old(self)@.nodes,
            final(self)@.next_id == old(self)@.next_id,
            forall|from: u32| final(self)@ == spec_step(old(self)@, RoutingEvent::Route { from, frame }),
            spec_wf(registry_of(final(self)@)) == spec_wf(registry_of(old(self)@)),
    {
        self.history.push(frame);
    }

    /// Removes the node `id` when it stops: its first entry goes and the
    /// others keep their order. Tells whether `id` was connected. The history is unchanged.
    pub fn stop(&mut self, id: u32) -> (found: bool)
        ensures
            found == old(self)@.nodes.contains(id),
            final(self)@.next_id == old(self)@.next_id,
            final(self)@.history == old(self)@.history,
            found ==> exists|i: int|
                is_first_index(old(self)@.nodes, id, i) && final(self)@.nodes == old(self)@.nodes.remove(i),
            !found ==> final(self)@.nodes == old(self)@.nodes,
            final(self)@ == spec_step(old(self)@, RoutingEvent::Stop(id)),
            spec_wf(registry_of(old(self)@)) ==> spec_wf(registry_of(final(self)@))
                && !final(self)@.nodes.contains(id),
    {
        let found = self.registry.stop(id);
        proof {
            if found {
                let i = choose|i: int|
                    is_first_index(old(self)@.nodes, id, i) && self@.nodes == old(self)@.nodes.remove(i);
                lemma_first_index_unique(old(self)@.nodes, id, i);
            }
        }
        found
    }
}

/// What happens to a server's network, one step at a time.
pub enum RoutingEvent {
    /// A node starts and is registered.
    Start,
    /// The node with this identifier stops.
    Stop(u32),
    /// The node `from` received `frame`, which is forwarded and recorded.
    Route { from: u32, frame: TNetworkFrame },
}

/// The registry part of a view.
pub open spec fn registry_of(v: NetworkView) -> RegistryView {
    RegistryView { nodes: v.nodes, next_id: v.next_id }
}

/// The first position of `id` among the nodes.
pub open spec fn first_index(nodes: Seq<u32>, id: u32) -> int {
    choose|i: int| is_first_index(nodes, id, i)
}

/// The network after one event, as the contracts of [`Network::start`],
/// [`Network::stop`] and [`Network::record`] describe it.
pub open spec fn spec_step(v: NetworkView, e: RoutingEvent) -> NetworkView {
    match e {
        RoutingEvent::Start => NetworkView {
            nodes: v.nodes.push(v.next_id),
            next_id: spec_next_id(v.next_id),
            history: v.history,
        },
        RoutingEvent::Stop(id) => if v.nodes.contains(id) {
            NetworkView { nodes: v.nodes.remove(first_index(v.nodes, id)), ..v }
        } else {
            v
        },
        RoutingEvent::Route { from, frame } => NetworkView { history: v.history.push(frame), ..v },
    }
}

/// The network after a run of events.
pub open spec fn spec_run(v: NetworkView, t: Seq<RoutingEvent>) -> NetworkView
    decreases t.len(),
{
    if t.len() == 0 {
        v
    } else {
        spec_step(spec_run(v, t.drop_last()), t.last())
    }
}

/// The frames routed during a run by nodes other than `n`, in order.
pub open spec fn spec_routed_from_others(t: Seq<RoutingEvent>, n: u32) -> Seq<TNetworkFrame>
    decreases t.len(),
{
    if t.len() == 0 {
        Seq::empty()
    } else {
        let front = spec_routed_from_others(t.drop_last(), n);
        match t.last() {
            RoutingEvent::Route { from, frame } => if from != n {
                front.push(frame)
            } else {
                front
            },
            _ => front,
        }
    }
}

/// The frames forwarded to node `n` during a run that starts in `v`, in order.
pub open spec fn spec_delivered(v: NetworkView, t: Seq<RoutingEvent>, n: u32) -> Seq<TNetworkFrame>
    decreases t.len(),
{
    if t.len() == 0 {
        Seq::empty()
    } else {
        let front = spec_delivered(v, t.drop_last(), n);
        match t.last() {
            RoutingEvent::Route { from, frame } => if spec_targets(
                spec_run(v, t.drop_last()).nodes,
                from,
            ).contains(n) {
                front.push(frame)
            } else {
                front
            },
            _ => front,
        }
    }
}

/// No start during the run meets a counter at its largest value.
pub open spec fn no_wrap(v: NetworkView, t: Seq<RoutingEvent>) -> bool {
    forall|k: int|
        0 <= k < t.len() && (#[trigger] t[k]) is Start ==> spec_run(v, t.take(k)).next_id < u32::MAX
}

/// Only connected nodes route frames during the run.
pub open spec fn routes_connected(v: NetworkView, t: Seq<RoutingEvent>) -> bool {
    forall|k: int|
        0 <= k < t.len() ==> (#[trigger] t[k] matches RoutingEvent::Route { from, .. } ==> spec_run(
            v,
            t.take(k),
        ).nodes.contains(from))
}

/// The node `n` does not stop during the run.
pub open spec fn stays(t: Seq<RoutingEvent>, n: u32) -> bool {
    forall|k: int| 0 <= k < t.len() ==> #[trigger] t[k] != RoutingEvent::Stop(n)
}

proof fn lemma_take_drop_last<A>(t: Seq<A>, k: int)
    requires
        0 <= k < t.len(),
    ensures
        t.drop_last().take(k) == t.take(k),
        t.take(t.len() - 1) == t.drop_last(),
{
    assert(t.drop_last().take(k) =~= t.take(k));
    assert(t.take(t.len() - 1) =~= t.drop_last());
}

/// The hypotheses of a run carry over to all but its last event.
proof fn lemma_hypotheses_front(v: NetworkView, t: Seq<RoutingEvent>, n: u32)
    requires
        t.len() > 0,
    ensures
        no_wrap(v, t) ==> no_wrap(v, t.drop_last()),
        routes_connected(v, t) ==> routes_connected(v, t.drop_last()),
        stays(t, n) ==> stays(t.drop_last(), n),
        no_wrap(v, t) && t.last() is Start ==> spec_run(v, t.drop_last()).next_id < u32::MAX,
        routes_connected(v, t) ==> (t.last() matches RoutingEvent::Route { from, .. } ==> spec_run(
            v,
            t.drop_last(),
        ).nodes.contains(from)),
        stays(t, n) ==> t.last() != RoutingEvent::Stop(n),
{
    let f = t.drop_last();
    assert forall|k: int| 0 <= k < f.len() implies f.take(k) == t.take(k) && f[k] == t[k] by {
        lemma_take_drop_last(t, k);
    }
    lemma_take_drop_last(t, t.len() - 1);
    assert(t[t.len() - 1] == t.last());
}

/// One event keeps the network well formed, unless it starts a node when the
/// counter is at its largest value.
proof fn lemma_step_keeps_wf(v: NetworkView, e: RoutingEvent)
    requires
        spec_wf(registry_of(v)),
        e is Start ==> v.next_id < u32::MAX,
    ensures
        spec_wf(registry_of(spec_step(v, e))),
        e is Start ==> spec_step(v, e).next_id == v.next_id + 1,
        !(e is Start) ==> spec_step(v, e).next_id == v.next_id,
{
    match e {
        RoutingEvent::Start => {
            lemma_start_keeps_wf(registry_of(v));
        },
        RoutingEvent::Stop(id) => {
            if v.nodes.contains(id) {
                let k = choose|k: int| 0 <= k < v.nodes.len() && v.nodes[k] == id;
                lemma_first_index_exists(v.nodes, id, k);
                lemma_stop_keeps_wf(registry_of(v), id, first_index(v.nodes, id));
            }
        },
        RoutingEvent::Route { .. } => {},
    }
}

/// The first position of an identifier is the one that [`first_index`] names.
proof fn lemma_first_index_unique(nodes: Seq<u32>, id: u32, i: int)
    requires
        is_first_index(nodes, id, i),
    ensures
        first_index(nodes, id) == i,
{
    let j = first_index(nodes, id);
    assert(is_first_index(nodes, id, j));
    if j < i {
        assert(nodes[j] != id);
    } else if i < j {
        assert(nodes[i] != id);
    }
}

/// An identifier that occurs has a first position.
proof fn lemma_first_index_exists(nodes: Seq<u32>, id: u32, k: int)
    requires
        0 <= k < nodes.len(),
        nodes[k] == id,
    ensures
        is_first_index(nodes, id, first_index(nodes, id)),
    decreases k,
{
    if exists|j: int| 0 <= j < k && nodes[j] == id {
        let j = choose|j: int| 0 <= j < k && nodes[j] == id;
        lemma_first_index_exists(nodes, id, j);
    } else {
        assert(is_first_index(nodes, id, k));
    }
}

/// Before node `n` starts, no frame comes from it: every sender is a
/// connected node, and connected nodes have smaller identifiers than the
/// next one to be handed out.
proof fn lemma_before_join(v: NetworkView, t: Seq<RoutingEvent>, n: u32)
    requires
        spec_wf(registry_of(v)),
        no_wrap(v, t),
        routes_connected(v, t),
        spec_run(v, t).next_id <= n,
    ensures
        spec_wf(registry_of(spec_run(v, t))),
        v.next_id <= spec_run(v, t).next_id,
        spec_run(v, t).history == v.history + spec_routed_from_others(t, n),
    decreases t.len(),
{
    if t.len() > 0 {
        let f = t.drop_last();
        lemma_hypotheses_front(v, t, n);
        let w = spec_run(v, f);
        lemma_before_join(v, f, n);
        lemma_step_keeps_wf(w, t.last());
        if let RoutingEvent::Route { from, frame } = t.last() {
            let k = choose|k: int| 0 <= k < w.nodes.len() && w.nodes[k] == from;
            assert(w.nodes[k] < w.next_id);
        }
        assert(spec_run(v, t).history =~= v.history + spec_routed_from_others(t, n));
    }
}

/// Removing the first entry of another identifier keeps `n`.
proof fn lemma_stop_other_keeps(nodes: Seq<u32>, id: u32, n: u32)
    requires
        nodes.contains(n),
        nodes.contains(id),
        id != n,
    ensures
        nodes.remove(first_index(nodes, id)).contains(n),
{
    let k = choose|k: int| 0 <= k < nodes.len() && nodes[k] == id;
    lemma_first_index_exists(nodes, id, k);
    let i = first_index(nodes, id);
    let p = choose|p: int| 0 <= p < nodes.len() && nodes[p] == n;
    let r = nodes.remove(i);
    if p < i {
        assert(r[p] == n);
    } else {
        assert(r[p - 1] == n);
    }
}

/// While node `n` stays connected, it is forwarded every frame that another
/// node routes, in order.
proof fn lemma_while_joined(w: NetworkView, t: Seq<RoutingEvent>, n: u32)
    requires
        spec_wf(registry_of(w)),
        w.nodes.contains(n),
        no_wrap(w, t),
        routes_connected(w, t),
        stays(t, n),
    ensures
        spec_wf(registry_of(spec_run(w, t))),
        spec_run(w, t).nodes.contains(n),
        spec_delivered(w, t, n) == spec_routed_from_others(t, n),
    decreases t.len(),
{
    if t.len() > 0 {
        let f = t.drop_last();
        lemma_hypotheses_front(w, t, n);
        let x = spec_run(w, f);
        lemma_while_joined(w, f, n);
        lemma_step_keeps_wf(x, t.last());
        let y = spec_run(w, t);
        assert(y == spec_step(x, t.last()));
        match t.last() {
            RoutingEvent::Start => {
                let p = choose|p: int| 0 <= p < x.nodes.len() && x.nodes[p] == n;
                assert(y.nodes[p] == n);
            },
            RoutingEvent::Stop(id) => {
                if x.nodes.contains(id) {
                    lemma_stop_other_keeps(x.nodes, id, n);
                }
            },
            RoutingEvent::Route { from, frame } => {
                lemma_targets_no_loopback(x.nodes, from, n);
            },
        }
    }
}

/// Frames routed by others over two runs in a row are those of the first,
/// then those of the second.
proof fn lemma_routed_concat(a: Seq<RoutingEvent>, b: Seq<RoutingEvent>, n: u32)
    ensures
        spec_routed_from_others(a + b, n) == spec_routed_from_others(a, n) + spec_routed_from_others(b, n),
    decreases b.len(),
{
    if b.len() == 0 {
        assert(a + b =~= a);
        assert(spec_routed_from_others(a, n) + Seq::empty() =~= spec_routed_from_others(a, n));
    } else {
        assert((a + b).drop_last() =~= a + b.drop_last());
        assert((a + b).last() == b.last());
        lemma_routed_concat(a, b.drop_last(), n);
        assert(spec_routed_from_others(a + b, n) =~= spec_routed_from_others(a, n)
            + spec_routed_from_others(b, n));
    }
}

/// A node that joins late misses nothing and gets nothing twice: starting
/// from an empty network, a node that starts after the events `before` and
/// stays through the events `after` is replayed the history and then
/// forwarded frames, and together these are exactly the frames that the
/// other nodes routed, in the order in which they were routed. This holds
/// while identifiers do not wrap and only connected nodes route frames.
pub proof fn lemma_late_joiner_gets_every_frame_once(before: Seq<RoutingEvent>, after: Seq<RoutingEvent>)
    requires
        ({
            let v0 = NetworkView { nodes: Seq::empty(), next_id: 0, history: Seq::empty() };
            let w = spec_step(spec_run(v0, before), RoutingEvent::Start);
            &&& no_wrap(v0, before)
            &&& routes_connected(v0, before)
            &&& spec_run(v0, before).next_id < u32::MAX
            &&& no_wrap(w, after)
            &&& routes_connected(w, after)
            &&& stays(after, spec_run(v0, before).next_id)
        }),
    ensures
        ({
            let v0 = NetworkView { nodes: Seq::empty(), next_id: 0, history: Seq::empty() };
            let n = spec_run(v0, before).next_id;
            let w = spec_step(spec_run(v0, before), RoutingEvent::Start);
            w.history + spec_delivered(w, after, n) == spec_routed_from_others(
                before.push(RoutingEvent::Start) + after,
                n,
            )
        }),
{
    let v0 = NetworkView { nodes: Seq::empty(), next_id: 0, history: Seq::empty() };
    let u = spec_run(v0, before);
    let n = u.next_id;
    let w = spec_step(u, RoutingEvent::Start);
    lemma_before_join(v0, before, n);
    lemma_step_keeps_wf(u, RoutingEvent::Start);
    assert(w.nodes[w.nodes.len() - 1] == n);
    lemma_while_joined(w, after, n);
    let s = before.push(RoutingEvent::Start);
    assert(s.drop_last() =~= before);
    assert(spec_routed_from_others(s, n) == spec_routed_from_others(before, n));
    lemma_routed_concat(s, after, n);
    assert(v0.history + spec_routed_from_others(before, n) =~= spec_routed_from_others(before, n));
}

/// The number of starts in a run of events.
pub open spec fn spec_count_starts(t: Seq<RoutingEvent>) -> nat
    decreases t.len(),
{
    if t.len() == 0 {
        0
    } else {
        spec_count_starts(t.drop_last()) + if t.last() is Start {
            1nat
        } else {
            0nat
        }
    }
}

/// Over any run of events that starts no node when the counter is at its
/// largest value, the registry stays well formed: identifiers are held at
/// most once, rise in start order and lie below the counter; and the
/// counter has moved on by one for each start, so identifiers are handed out
/// as 0, 1, 2, ... from a new network.
pub proof fn lemma_run_keeps_wf(v: NetworkView, t: Seq<RoutingEvent>)
    requires
        spec_wf(registry_of(v)),
        no_wrap(v, t),
    ensures
        spec_wf(registry_of(spec_run(v, t))),
        spec_run(v, t).next_id == v.next_id + spec_count_starts(t),
    decreases t.len(),
{
    if t.len() > 0 {
        let f = t.drop_last();
        lemma_hypotheses_front(v, t, 0);
        lemma_run_keeps_wf(v, f);
        lemma_step_keeps_wf(spec_run(v, f), t.last());
    }
}

} // verus!
