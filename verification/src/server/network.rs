//! The registry of a server's connected nodes: each node gets an identifier
//! when it starts, and a frame that one node receives is forwarded to every
//! other node, never back to its sender.
use vstd::prelude::*;

verus! {

/// The registry as mathematical values: the identifiers of the connected
/// nodes in the order in which they started, and the identifier that the
/// next node will get.
pub struct NetworkView {
    pub nodes: Seq<u32>,
    pub next_id: u32,
}

/// The connected nodes of a server, known by their identifiers.
pub struct Network {
    nodes: Vec<u32>,
    id_acc: u32,
}

/// The counter after handing out `id`: one more, wrapping to zero after the largest `u32`.
pub open spec fn spec_next_id(id: u32) -> u32 {
    if id == u32::MAX {
        0
    } else {
        (id + 1) as u32
    }
}

/// The connected nodes except `from`, in the order in which they started.
pub open spec fn spec_targets(nodes: Seq<u32>, from: u32) -> Seq<u32> {
    nodes.filter(other_than(from))
}

/// Holds of every identifier but `from`.
pub open spec fn other_than(from: u32) -> spec_fn(u32) -> bool {
    |id: u32| id != from
}

/// `i` is the first position of `id` in `nodes`.
pub open spec fn is_first_index(nodes: Seq<u32>, id: u32, i: int) -> bool {
    &&& 0 <= i < nodes.len()
    &&& nodes[i] == id
    &&& forall|j: int| 0 <= j < i ==> nodes[j] != id
}

/// Identifiers rise in the order in which nodes started, and all lie below
/// the next one to be handed out; so no identifier is held twice.
pub open spec fn spec_wf(v: NetworkView) -> bool {
    &&& forall|i: int, j: int| 0 <= i < j < v.nodes.len() ==> v.nodes[i] < v.nodes[j]
    &&& forall|i: int| 0 <= i < v.nodes.len() ==> v.nodes[i] < v.next_id
}

impl View for Network {
    type V = NetworkView;

    closed spec fn view(&self) -> NetworkView {
        NetworkView { nodes: self.nodes@, next_id: self.id_acc }
    }
}

impl Network {
    /// A registry with no node; the first node gets identifier 0.
    pub fn new() -> (r: Network)
        ensures
            r@.nodes == Seq::<u32>::empty(),
            r@.next_id == 0,
            spec_wf(r@),
    {
        Network { nodes: Vec::new(), id_acc: 0 }
    }

    /// Registers a node that starts: it gets the next identifier, and the
    /// counter moves on (wrapping like an atomic `fetch_add`).
    pub fn start(&mut self) -> (id: u32)
        ensures
            id == old(self)@.next_id,
            final(self)@.nodes == old(self)@.nodes.push(id),
            final(self)@.next_id == spec_next_id(id),
            spec_wf(old(self)@) && old(self)@.next_id < u32::MAX ==> spec_wf(final(self)@),
    {
        let id = self.id_acc;
        self.id_acc = if id == u32::MAX { 0 } else { id + 1 };
        self.nodes.push(id);
        id
    }

    /// The nodes to which a frame received from `from` goes: all connected
    /// nodes but `from`, in the order in which they started.
    pub fn targets(&self, from: u32) -> (r: Vec<u32>)
        ensures
            r@ == spec_targets(self@.nodes, from),
    {
        let mut r: Vec<u32> = Vec::new();
        let mut i: usize = 0;
        while i < self.nodes.len()
            invariant
                i <= self.nodes@.len(),
                r@ == spec_targets(self.nodes@.subrange(0, i as int), from),
            decreases self.nodes@.len() - i,
        {
            let id = self.nodes[i];
            proof {
                let s = self.nodes@.subrange(0, i + 1);
                assert(s.drop_last() =~= self.nodes@.subrange(0, i as int));
                reveal_with_fuel(Seq::<u32>::filter, 1);
            }
            if id != from {
                r.push(id);
            }
            i = i + 1;
        }
        assert(self.nodes@.subrange(0, self.nodes@.len() as int) =~= self.nodes@);
        r
    }

    /// Removes the node `id` when it stops: its first entry goes and the
    /// others keep their order. Tells whether `id` was connected.
    pub fn stop(&mut self, id: u32) -> (found: bool)
        ensures
            found == old(self)@.nodes.contains(id),
            final(self)@.next_id == old(self)@.next_id,
            found ==> exists|i: int|
                is_first_index(old(self)@.nodes, id, i) && final(self)@.nodes == old(self)@.nodes.remove(i),
            !found ==> final(self)@.nodes == old(self)@.nodes,
            spec_wf(old(self)@) ==> spec_wf(final(self)@) && !final(self)@.nodes.contains(id),
    {
        let mut i: usize = 0;
        while i < self.nodes.len()
            invariant
                i <= self.nodes@.len(),
                self.nodes@ == old(self)@.nodes,
                self.id_acc == old(self)@.next_id,
                forall|j: int| 0 <= j < i ==> self.nodes@[j] != id,
            decreases self.nodes@.len() - i,
        {
            if self.nodes[i] == id {
                let ghost before_id = self.id_acc;
                let ghost before = self.nodes@;
                self.nodes.remove(i);
                assert(is_first_index(before, id, i as int));
                proof {
                    if spec_wf(old(self)@) {
                        lemma_stop_keeps_wf(old(self)@, id, i as int);
                        assert(self@ == NetworkView { nodes: before.remove(i as int), next_id: before_id });
                    }
                }
                return true;
            }
            i = i + 1;
        }
        false
    }
}

/// A new registry is well formed.
pub proof fn lemma_new_wf()
    ensures
        spec_wf(NetworkView { nodes: Seq::<u32>::empty(), next_id: 0 }),
{
}

/// Starting a node keeps the registry well formed as long as the counter has
/// not reached its largest value; after that it wraps, and the identifiers
/// start over.
pub proof fn lemma_start_keeps_wf(v: NetworkView)
    requires
        spec_wf(v),
        v.next_id < u32::MAX,
    ensures
        spec_wf(NetworkView { nodes: v.nodes.push(v.next_id), next_id: spec_next_id(v.next_id) }),
{
}

/// Stopping a node keeps the registry well formed and leaves no entry of it.
pub proof fn lemma_stop_keeps_wf(v: NetworkView, id: u32, i: int)
    requires
        spec_wf(v),
        is_first_index(v.nodes, id, i),
    ensures
        spec_wf(NetworkView { nodes: v.nodes.remove(i), next_id: v.next_id }),
        !v.nodes.remove(i).contains(id),
{
    let r = v.nodes.remove(i);
    assert forall|k: int| 0 <= k < r.len() implies r[k] != id by {
        if k < i {
            assert(r[k] == v.nodes[k]);
        } else {
            assert(r[k] == v.nodes[k + 1]);
        }
    }
}

/// Stopping a node undoes its start: the registry's nodes are those before it started.
pub proof fn lemma_stop_undoes_start(v: NetworkView)
    requires
        spec_wf(v),
    ensures
        is_first_index(v.nodes.push(v.next_id), v.next_id, v.nodes.len() as int),
        v.nodes.push(v.next_id).remove(v.nodes.len() as int) == v.nodes,
{
    assert(v.nodes.push(v.next_id).remove(v.nodes.len() as int) =~= v.nodes);
}

/// A frame never goes back to the node it came from, and goes to every other
/// connected node.
pub proof fn lemma_targets_no_loopback(nodes: Seq<u32>, from: u32, to: u32)
    ensures
        !spec_targets(nodes, from).contains(from),
        to != from && nodes.contains(to) ==> spec_targets(nodes, from).contains(to),
        spec_targets(nodes, from).contains(to) ==> nodes.contains(to),
{
    let p = other_than(from);
    let t = spec_targets(nodes, from);
    if t.contains(from) {
        let k = choose|k: int| 0 <= k < t.len() && t[k] == from;
        nodes.lemma_filter_pred(p, k);
    }
    if to != from && nodes.contains(to) {
        let k = choose|k: int| 0 <= k < nodes.len() && nodes[k] == to;
        nodes.lemma_filter_contains(p, k);
    }
    if t.contains(to) {
        nodes.lemma_filter_contains_rev(p, to);
    }
}

/// Strictly rising identifiers stay strictly rising when some are left out.
proof fn lemma_filter_keeps_rising(nodes: Seq<u32>, from: u32)
    requires
        forall|i: int, j: int| 0 <= i < j < nodes.len() ==> nodes[i] < nodes[j],
    ensures
        forall|i: int, j: int|
            0 <= i < j < spec_targets(nodes, from).len() ==> spec_targets(nodes, from)[i]
                < spec_targets(nodes, from)[j],
        forall|i: int|
            0 <= i < spec_targets(nodes, from).len() ==> nodes.contains(
                #[trigger] spec_targets(nodes, from)[i],
            ),
    decreases nodes.len(),
{
    reveal_with_fuel(Seq::<u32>::filter, 1);
    if nodes.len() > 0 {
        let front = nodes.drop_last();
        lemma_filter_keeps_rising(front, from);
        let t = spec_targets(front, from);
        assert forall|i: int| 0 <= i < t.len() implies t[i] < nodes.last() by {
            let k = choose|k: int| 0 <= k < front.len() && front[k] == t[i];
            assert(front[k] == nodes[k]);
        }
        assert forall|i: int|
            0 <= i < spec_targets(nodes, from).len() implies nodes.contains(
            #[trigger] spec_targets(nodes, from)[i],
        ) by {
            if i < t.len() {
                let k = choose|k: int| 0 <= k < front.len() && front[k] == t[i];
                assert(nodes[k] == front[k]);
            } else {
                assert(nodes[nodes.len() - 1] == nodes.last());
            }
        }
    }
}

/// In a well-formed registry a frame reaches each other node exactly once:
/// the targets hold no identifier twice.
pub proof fn lemma_targets_distinct(v: NetworkView, from: u32)
    requires
        spec_wf(v),
    ensures
        spec_targets(v.nodes, from).no_duplicates(),
{
    lemma_filter_keeps_rising(v.nodes, from);
}

} // verus!
