use vstd::prelude::*;

use crate::graph::adj_closed;

verus! {

/// The lifecycle of a vertex during one traversal: every known vertex starts
/// `Undiscovered`, becomes `Discovered` when it is first enqueued, and
/// `Processed` once it has been dequeued and its adjacency list scanned.
/// The transitions are monotonic; a vertex is never revisited.
pub enum BfsState {
    Undiscovered,
    Discovered,
    Processed,
}

/// One hook invocation of a breadth-first traversal, in the order the hooks
/// fire: the early visit of a dequeued vertex, a tree edge to a newly
/// discovered neighbor, a cross edge to an already discovered neighbor, and
/// the late visit once the adjacency list has been scanned.
#[derive(Clone, Copy, PartialEq, Eq, Structural, Debug)]
pub enum BfsEvent {
    EarlyVertex(i32),
    TreeEdge(i32, i32),
    CrossEdge(i32, i32),
    LateVertex(i32),
}

/// The four optional hook points of the traversal. Implementors may carry
/// mutable state of their own (a parent map, a distance table) and update it
/// as the hooks fire; every hook defaults to a no-op.
pub trait BfsHooks {
    fn vertex_processing_early(&mut self, v: i32) {
    }

    fn vertex_processing_late(&mut self, v: i32) {
    }

    fn edge_processing_in_tree(&mut self, from: i32, to: i32) {
    }

    fn edge_processing_out_tree(&mut self, from: i32, to: i32) {
    }
}

/// The traversal state of `v`. The state map is kept partial: a vertex with
/// no entry is still undiscovered.
pub open spec fn vertex_state(states: Map<i32, BfsState>, v: i32) -> BfsState {
    if states.contains_key(v) {
        states[v]
    } else {
        BfsState::Undiscovered
    }
}

/// The known vertices the traversal has not discovered yet.
pub open spec fn undiscovered(g: Map<i32, Seq<i32>>, states: Map<i32, BfsState>) -> Set<i32> {
    Set::new(|v: i32| g.contains_key(v) && vertex_state(states, v) is Undiscovered)
}

/// The termination measure of the traversal: every dequeue shrinks it by one,
/// because each enqueue discovers exactly one vertex.
pub open spec fn bfs_measure(
    g: Map<i32, Seq<i32>>,
    states: Map<i32, BfsState>,
    queue: Seq<i32>,
) -> nat {
    undiscovered(g, states).len() + queue.len()
}

/// What holds of the traversal state from initialization until the queue
/// empties: the graph's key set is finite, adjacency lists mention only keys,
/// and so does the queue.
pub open spec fn bfs_inv(
    g: Map<i32, Seq<i32>>,
    states: Map<i32, BfsState>,
    queue: Seq<i32>,
) -> bool {
    &&& g.dom().finite()
    &&& adj_closed(g)
    &&& forall|i: int| 0 <= i < queue.len() ==> g.contains_key(#[trigger] queue[i])
}

/// The traversal state left behind by a scan of (part of) an adjacency list:
/// the updated state map, the grown queue, and the edge events fired.
pub struct ScanResult {
    pub states: Map<i32, BfsState>,
    pub queue: Seq<i32>,
    pub events: Seq<BfsEvent>,
}

/// One scan over the remaining neighbors `l` of the vertex `v` being
/// processed, in stored order: an undiscovered neighbor is enqueued, marked
/// discovered and fires the tree-edge hook; a discovered one fires the
/// cross-edge hook; a processed one is skipped.
pub open spec fn scan_neighbors(
    l: Seq<i32>,
    states: Map<i32, BfsState>,
    queue: Seq<i32>,
    v: i32,
) -> ScanResult
    decreases l.len(),
{
    if l.len() == 0 {
        ScanResult { states, queue, events: Seq::empty() }
    } else {
        let w = l[0];
        if vertex_state(states, w) is Undiscovered {
            let r = scan_neighbors(
                l.drop_first(),
                states.insert(w, BfsState::Discovered),
                queue.push(w),
                v,
            );
            ScanResult {
                states: r.states,
                queue: r.queue,
                events: seq![BfsEvent::TreeEdge(v, w)] + r.events,
            }
        } else if vertex_state(states, w) is Discovered {
            let r = scan_neighbors(l.drop_first(), states, queue, v);
            ScanResult {
                states: r.states,
                queue: r.queue,
                events: seq![BfsEvent::CrossEdge(v, w)] + r.events,
            }
        } else {
            scan_neighbors(l.drop_first(), states, queue, v)
        }
    }
}

/// A scan keeps the sum of undiscovered vertices and queue length: each
/// enqueue turns exactly one vertex from undiscovered to discovered. It also
/// keeps the queue within the graph's keys.
pub proof fn lemma_scan_measure(
    g: Map<i32, Seq<i32>>,
    l: Seq<i32>,
    states: Map<i32, BfsState>,
    queue: Seq<i32>,
    v: i32,
)
    requires
        g.dom().finite(),
        forall|j: int| 0 <= j < l.len() ==> g.contains_key(#[trigger] l[j]),
        forall|i: int| 0 <= i < queue.len() ==> g.contains_key(#[trigger] queue[i]),
    ensures
        ({
            let r = scan_neighbors(l, states, queue, v);
            &&& undiscovered(g, r.states).len() + r.queue.len() == undiscovered(g, states).len()
                + queue.len()
            &&& forall|i: int| 0 <= i < r.queue.len() ==> g.contains_key(#[trigger] r.queue[i])
        }),
    decreases l.len(),
{
    vstd::set_lib::lemma_len_subset(undiscovered(g, states), g.dom());
    if l.len() > 0 {
        let w = l[0];
        if vertex_state(states, w) is Undiscovered {
            let states2 = states.insert(w, BfsState::Discovered);
            assert(undiscovered(g, states2) =~= undiscovered(g, states).remove(w));
            lemma_scan_measure(g, l.drop_first(), states2, queue.push(w), v);
        } else {
            lemma_scan_measure(g, l.drop_first(), states, queue, v);
        }
    }
}

/// The full traversal from a given state: dequeue the front vertex, fire its
/// early visit, mark it processed, scan its adjacency list, fire its late
/// visit, and continue until the queue empties.
pub open spec fn bfs_run(
    g: Map<i32, Seq<i32>>,
    states: Map<i32, BfsState>,
    queue: Seq<i32>,
) -> Seq<BfsEvent>
    decreases bfs_measure(g, states, queue)
        when bfs_inv(g, states, queue)
        via bfs_run_decreases
{
    if queue.len() == 0 {
        Seq::empty()
    } else {
        let v = queue[0];
        let r = scan_neighbors(g[v], states.insert(v, BfsState::Processed), queue.drop_first(), v);
        seq![BfsEvent::EarlyVertex(v)] + r.events + seq![BfsEvent::LateVertex(v)] + bfs_run(
            g,
            r.states,
            r.queue,
        )
    }
}

#[via_fn]
proof fn bfs_run_decreases(g: Map<i32, Seq<i32>>, states: Map<i32, BfsState>, queue: Seq<i32>) {
    if queue.len() != 0 {
        let v = queue[0];
        let states1 = states.insert(v, BfsState::Processed);
        lemma_scan_measure(g, g[v], states1, queue.drop_first(), v);
        vstd::set_lib::lemma_len_subset(undiscovered(g, states), g.dom());
        assert(undiscovered(g, states1).subset_of(undiscovered(g, states)));
        vstd::set_lib::lemma_len_subset(undiscovered(g, states1), undiscovered(g, states));
    }
}

/// The hook-invocation sequence of a breadth-first traversal of `g` from
/// `root`: a function of the graph and the root alone.
pub open spec fn bfs_trace(g: Map<i32, Seq<i32>>, root: i32) -> Seq<BfsEvent> {
    bfs_run(g, Map::<i32, BfsState>::empty().insert(root, BfsState::Discovered), seq![root])
}

/// A walk through the graph: at least one vertex, every entry a key, and
/// consecutive entries joined by a stored edge.
pub open spec fn is_path(g: Map<i32, Seq<i32>>, p: Seq<i32>) -> bool {
    &&& p.len() > 0
    &&& forall|i: int| 0 <= i < p.len() ==> g.contains_key(#[trigger] p[i])
    &&& forall|i: int| 0 <= i < p.len() - 1 ==> g[#[trigger] p[i]].contains(p[i + 1])
}

/// `to` can be reached from `from` along stored edges.
pub open spec fn reachable(g: Map<i32, Seq<i32>>, from: i32, to: i32) -> bool {
    exists|p: Seq<i32>| is_path(g, p) && p.first() == from && p.last() == to
}

/// Whether the vertex `v` is an argument of the hook invocation `ev`.
pub open spec fn event_mentions(ev: BfsEvent, v: i32) -> bool {
    match ev {
        BfsEvent::EarlyVertex(u) => u == v,
        BfsEvent::TreeEdge(a, b) => a == v || b == v,
        BfsEvent::CrossEdge(a, b) => a == v || b == v,
        BfsEvent::LateVertex(u) => u == v,
    }
}

proof fn lemma_reachable_refl(g: Map<i32, Seq<i32>>, v: i32)
    requires
        g.contains_key(v),
    ensures
        reachable(g, v, v),
{
    let p = seq![v];
    assert(is_path(g, p) && p.first() == v && p.last() == v);
}

proof fn lemma_reachable_step(g: Map<i32, Seq<i32>>, root: i32, v: i32, w: i32)
    requires
        reachable(g, root, v),
        g[v].contains(w),
        g.contains_key(w),
    ensures
        reachable(g, root, w),
{
    let p = choose|p: Seq<i32>| is_path(g, p) && p.first() == root && p.last() == v;
    let q = p.push(w);
    assert forall|i: int| 0 <= i < q.len() - 1 implies g[#[trigger] q[i]].contains(q[i + 1]) by {
        if i < p.len() - 1 {
            assert(q[i] == p[i] && q[i + 1] == p[i + 1]);
        } else {
            assert(q[i] == v && q[i + 1] == w);
        }
    }
    assert(is_path(g, q) && q.first() == root && q.last() == w);
}

/// A scan only mentions, enqueues and discovers vertices reachable from the
/// root, provided everything already discovered or queued is reachable and
/// the scanned vertex is.
proof fn lemma_scan_reachable(
    g: Map<i32, Seq<i32>>,
    root: i32,
    l: Seq<i32>,
    states: Map<i32, BfsState>,
    queue: Seq<i32>,
    v: i32,
)
    requires
        forall|j: int| 0 <= j < l.len() ==> g[v].contains(#[trigger] l[j]),
        forall|j: int| 0 <= j < l.len() ==> g.contains_key(#[trigger] l[j]),
        g.contains_key(v),
        reachable(g, root, v),
        forall|i: int| 0 <= i < queue.len() ==> reachable(g, root, #[trigger] queue[i]),
        forall|x: i32|
            !(#[trigger] vertex_state(states, x) is Undiscovered) ==> reachable(g, root, x),
    ensures
        ({
            let r = scan_neighbors(l, states, queue, v);
            &&& forall|i: int| 0 <= i < r.queue.len() ==> reachable(g, root, #[trigger] r.queue[i])
            &&& forall|x: i32|
                !(#[trigger] vertex_state(r.states, x) is Undiscovered) ==> reachable(g, root, x)
            &&& forall|k: int, x: i32|
                0 <= k < r.events.len() && #[trigger] event_mentions(r.events[k], x) ==> reachable(
                    g,
                    root,
                    x,
                )
        }),
    decreases l.len(),
{
    if l.len() > 0 {
        let w = l[0];
        if vertex_state(states, w) is Undiscovered {
            lemma_reachable_step(g, root, v, w);
            let states2 = states.insert(w, BfsState::Discovered);
            assert forall|x: i32|
                !(#[trigger] vertex_state(states2, x) is Undiscovered) implies reachable(
                g,
                root,
                x,
            ) by {
                if x != w {
                    assert(vertex_state(states2, x) == vertex_state(states, x));
                }
            }
            lemma_scan_reachable(g, root, l.drop_first(), states2, queue.push(w), v);
        } else {
            lemma_scan_reachable(g, root, l.drop_first(), states, queue, v);
        }
    }
}

/// The traversal from any well-formed state whose discovered and queued
/// vertices are all reachable from the root mentions only reachable vertices
/// in its events.
proof fn lemma_bfs_run_reachable(
    g: Map<i32, Seq<i32>>,
    root: i32,
    states: Map<i32, BfsState>,
    queue: Seq<i32>,
)
    requires
        bfs_inv(g, states, queue),
        forall|i: int| 0 <= i < queue.len() ==> reachable(g, root, #[trigger] queue[i]),
        forall|x: i32|
            !(#[trigger] vertex_state(states, x) is Undiscovered) ==> reachable(g, root, x),
    ensures
        forall|k: int, x: i32|
            0 <= k < bfs_run(g, states, queue).len() && #[trigger] event_mentions(
                bfs_run(g, states, queue)[k],
                x,
            ) ==> reachable(g, root, x),
    decreases bfs_measure(g, states, queue),
{
    if queue.len() != 0 {
        let v = queue[0];
        let states1 = states.insert(v, BfsState::Processed);
        assert forall|x: i32|
            !(#[trigger] vertex_state(states1, x) is Undiscovered) implies reachable(
            g,
            root,
            x,
        ) by {
            if x != v {
                assert(vertex_state(states1, x) == vertex_state(states, x));
            }
        }
        let r = scan_neighbors(g[v], states1, queue.drop_first(), v);
        lemma_scan_reachable(g, root, g[v], states1, queue.drop_first(), v);
        lemma_scan_measure(g, g[v], states1, queue.drop_first(), v);
        vstd::set_lib::lemma_len_subset(undiscovered(g, states), g.dom());
        assert(undiscovered(g, states1).subset_of(undiscovered(g, states)));
        vstd::set_lib::lemma_len_subset(undiscovered(g, states1), undiscovered(g, states));
        lemma_bfs_run_reachable(g, root, r.states, r.queue);
        let whole = bfs_run(g, states, queue);
        let rest = bfs_run(g, r.states, r.queue);
        assert(whole == seq![BfsEvent::EarlyVertex(v)] + r.events + seq![BfsEvent::LateVertex(v)]
            + rest);
        assert forall|k: int, x: i32|
            0 <= k < whole.len() && #[trigger] event_mentions(whole[k], x) implies reachable(
            g,
            root,
            x,
        ) by {
            if k == 0 {
                assert(whole[k] == BfsEvent::EarlyVertex(v));
            } else if k < 1 + r.events.len() {
                assert(whole[k] == r.events[k - 1]);
                assert(event_mentions(r.events[k - 1], x));
            } else if k == 1 + r.events.len() {
                assert(whole[k] == BfsEvent::LateVertex(v));
            } else {
                assert(whole[k] == rest[k - 2 - r.events.len()]);
                assert(event_mentions(rest[k - 2 - r.events.len()], x));
            }
        }
    }
}

/// Unreachable vertices never appear as an argument of any hook: every
/// vertex mentioned by any event of the traversal of `g` from `root` is
/// reachable from `root` along stored edges.
pub proof fn lemma_bfs_trace_reachable(g: Map<i32, Seq<i32>>, root: i32)
    requires
        g.dom().finite(),
        adj_closed(g),
        g.contains_key(root),
    ensures
        forall|k: int, x: i32|
            0 <= k < bfs_trace(g, root).len() && #[trigger] event_mentions(
                bfs_trace(g, root)[k],
                x,
            ) ==> reachable(g, root, x),
{
    lemma_reachable_refl(g, root);
    let states = Map::<i32, BfsState>::empty().insert(root, BfsState::Discovered);
    assert forall|x: i32|
        !(#[trigger] vertex_state(states, x) is Undiscovered) implies reachable(g, root, x) by {
        assert(x == root);
    }
    lemma_bfs_run_reachable(g, root, states, seq![root]);
}

/// Traversal is repeatable: the hook-invocation sequence is a function of
/// the graph and the root alone, so any two event sequences obtained from
/// the same unmutated graph and root are identical.
pub proof fn lemma_bfs_trace_deterministic(
    g: Map<i32, Seq<i32>>,
    root: i32,
    e1: Seq<BfsEvent>,
    e2: Seq<BfsEvent>,
)
    requires
        e1 == bfs_trace(g, root),
        e2 == bfs_trace(g, root),
    ensures
        e1 == e2,
{
}

/// The default hook set: all four hooks are no-ops.
pub struct BfsFunc;

impl BfsFunc {
    pub fn new() -> BfsFunc {
        BfsFunc
    }
}

impl BfsHooks for BfsFunc {

}

} // verus!
