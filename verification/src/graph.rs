use vstd::prelude::*;

use crate::bfs::BfsEvent;
use crate::bfs::BfsHooks;
use crate::bfs::BfsState;
use crate::bfs::bfs_inv;
use crate::bfs::bfs_measure;
use crate::bfs::bfs_run;
use crate::bfs::bfs_trace;
use crate::bfs::lemma_scan_measure;
use crate::bfs::scan_neighbors;
use crate::bfs::undiscovered;
use crate::errors::Endpoint;
use crate::errors::GraphError;

verus! {

broadcast use vstd::std_specs::hash::group_hash_axioms;

/// Every id stored in an adjacency list is itself a key of the mapping, so a
/// traversal can look every neighbor up without failing.
pub open spec fn adj_closed(g: Map<i32, Seq<i32>>) -> bool {
    forall|u: i32, i: int|
        g.contains_key(u) && 0 <= i < g[u].len() ==> g.contains_key(#[trigger] g[u][i])
}

/// The adjacency mapping after an idempotent vertex insertion: a fresh vertex
/// gets an empty adjacency list, a present one is left untouched.
pub open spec fn spec_add_vertex(g: Map<i32, Seq<i32>>, id: i32) -> Map<i32, Seq<i32>> {
    if g.contains_key(id) {
        g
    } else {
        g.insert(id, Seq::empty())
    }
}

/// The adjacency mapping after a successful edge insertion: `to` is appended
/// to `from`'s list, and in symmetric mode `from` is then appended to `to`'s
/// list (for a self-loop this appends to the same list twice).
pub open spec fn spec_add_edge(
    g: Map<i32, Seq<i32>>,
    from: i32,
    to: i32,
    symmetric: bool,
) -> Map<i32, Seq<i32>> {
    let g1 = g.insert(from, g[from].push(to));
    if symmetric {
        g1.insert(to, g1[to].push(from))
    } else {
        g1
    }
}

/// What a successful symmetric edge insertion does, list by list: `to` is
/// appended to `from`'s list and `from` to `to`'s list (for a self-loop, the
/// one list gets both entries), and every other list is untouched.
pub proof fn lemma_add_edge_appends(g: Map<i32, Seq<i32>>, from: i32, to: i32)
    requires
        g.contains_key(from),
        g.contains_key(to),
    ensures
        from != to ==> spec_add_edge(g, from, to, true)[from] == g[from].push(to),
        spec_add_edge(g, from, to, true)[to] == if from != to {
            g[to].push(from)
        } else {
            g[to].push(to).push(from)
        },
        spec_add_edge(g, from, to, true).dom() == g.dom(),
        forall|u: i32|
            g.contains_key(u) && u != from && u != to ==> spec_add_edge(g, from, to, true)[u]
                == #[trigger] g[u],
{
    assert(spec_add_edge(g, from, to, true).dom() =~= g.dom());
}

/// Vertex insertion is idempotent: adding an id a second time leaves the
/// adjacency mapping exactly as the first addition left it, whatever the
/// id's list already contained.
pub proof fn lemma_add_vertex_idempotent(g: Map<i32, Seq<i32>>, id: i32)
    ensures
        spec_add_vertex(spec_add_vertex(g, id), id) == spec_add_vertex(g, id),
{
}

/// An in-memory graph: a mapping from vertex id to the ordered list of its
/// adjacent vertex ids, plus a directionality flag. The flag is always
/// constructed set, so every graph built through this interface is symmetric;
/// the asymmetric branch of `add_edge` is dead configuration kept for
/// fidelity to the flag's meaning.
pub struct Graph {
    adjacency_list: std::collections::HashMap<i32, Vec<i32>>,
    symmetric: bool,
}

impl View for Graph {
    type V = Map<i32, Seq<i32>>;

    closed spec fn view(&self) -> Map<i32, Seq<i32>> {
        self.adjacency_list@.map_values(|l: Vec<i32>| l@)
    }
}

impl Graph {
    /// Whether edge insertion also records the reverse link.
    pub closed spec fn is_symmetric(&self) -> bool {
        self.symmetric
    }

    /// Well-formedness: the key set is finite and every stored neighbor is a
    /// key. Constructors establish this and the insertion operations
    /// preserve it.
    pub open spec fn wf(&self) -> bool {
        &&& self@.dom().finite()
        &&& adj_closed(self@)
    }

    /// A fresh graph: no vertices, symmetric mode.
    pub fn new() -> (g: Graph)
        ensures
            g@ == Map::<i32, Seq<i32>>::empty(),
            g.is_symmetric(),
            g.wf(),
    {
        let g = Graph { adjacency_list: std::collections::HashMap::new(), symmetric: true };
        proof {
            assert(g@ =~= Map::<i32, Seq<i32>>::empty());
        }
        g
    }

    /// Edge insertion: both endpoints must already be vertices. `from` is
    /// checked first, and the error names the missing endpoint. On success
    /// `to` is appended to `from`'s list and, in symmetric mode, `from` to
    /// `to`'s list; duplicates and self-loops are stored as-is.
    pub fn add_edge(&mut self, from: i32, to: i32) -> (r: Result<(), GraphError>)
        requires
            old(self).wf(),
        ensures
            r is Ok <==> old(self)@.contains_key(from) && old(self)@.contains_key(to),
            r is Ok ==> final(self)@ == spec_add_edge(
                old(self)@,
                from,
                to,
                old(self).is_symmetric(),
            ),
            !old(self)@.contains_key(from) ==> r == Err::<(), GraphError>(
                GraphError::UnknownVertex { which: Endpoint::FromVertex },
            ),
            old(self)@.contains_key(from) && !old(self)@.contains_key(to) ==> r == Err::<
                (),
                GraphError,
            >(GraphError::UnknownVertex { which: Endpoint::ToVertex }),
            r is Err ==> *final(self) == *old(self),
            final(self).is_symmetric() == old(self).is_symmetric(),
            final(self).wf(),
    {
        if self.adjacency_list.contains_key(&from) {
            if self.adjacency_list.contains_key(&to) {
                let mut from_list = self.adjacency_list.remove(&from).unwrap();
                from_list.push(to);
                self.adjacency_list.insert(from, from_list);
                if self.symmetric {
                    let mut to_list = self.adjacency_list.remove(&to).unwrap();
                    to_list.push(from);
                    self.adjacency_list.insert(to, to_list);
                }
                proof {
                    assert(self@ =~= spec_add_edge(
                        old(self)@,
                        from,
                        to,
                        old(self).is_symmetric(),
                    ));
                }
                Ok(())
            } else {
                Err(GraphError::UnknownVertex { which: Endpoint::ToVertex })
            }
        } else {
            Err(GraphError::UnknownVertex { which: Endpoint::FromVertex })
        }
    }

    /// Idempotent vertex insertion: a new id gets an empty adjacency list, a
    /// known id is left exactly as it was. Always succeeds.
    pub fn add_vertex(&mut self, id: i32)
        requires
            old(self).wf(),
        ensures
            final(self)@ == spec_add_vertex(old(self)@, id),
            final(self).is_symmetric() == old(self).is_symmetric(),
            final(self).wf(),
    {
        if !self.adjacency_list.contains_key(&id) {
            self.adjacency_list.insert(id, Vec::new());
            proof {
                assert(self@ =~= spec_add_vertex(old(self)@, id));
            }
        } else {
            proof {
                assert(self@ =~= spec_add_vertex(old(self)@, id));
            }
        }
    }

    /// The breadth-first traversal of this graph from `root`, returned as
    /// the sequence of hook invocations it performs, in order. The sequence
    /// is exactly `bfs_trace(self@, root)`: a function of the graph and the
    /// root alone. An unknown root is rejected before any work is done.
    pub fn bfs_events(&self, root: i32) -> (r: Result<Vec<BfsEvent>, GraphError>)
        requires
            self.wf(),
        ensures
            r is Ok <==> self@.contains_key(root),
            r is Ok ==> r.unwrap()@ == bfs_trace(self@, root),
            !self@.contains_key(root) ==> r == Err::<Vec<BfsEvent>, GraphError>(
                GraphError::UnknownRoot,
            ),
    {
        if !self.adjacency_list.contains_key(&root) {
            return Err(GraphError::UnknownRoot);
        }
        let ghost g = self@;
        let mut states: std::collections::HashMap<i32, BfsState> =
            std::collections::HashMap::new();
        states.insert(root, BfsState::Discovered);
        let mut queue: std::collections::VecDeque<i32> = std::collections::VecDeque::new();
        queue.push_back(root);
        let mut events: Vec<BfsEvent> = Vec::new();
        let ghost full = bfs_trace(g, root);
        proof {
            assert(states@ =~= Map::<i32, BfsState>::empty().insert(root, BfsState::Discovered));
            assert(queue@ =~= seq![root]);
        }
        while queue.len() != 0
            invariant
                self.wf(),
                g == self@,
                bfs_inv(g, states@, queue@),
                full == events@ + bfs_run(g, states@, queue@),
            decreases bfs_measure(g, states@, queue@),
        {
            let ghost states0 = states@;
            let ghost queue0 = queue@;
            let ghost ev0 = events@;
            let v = queue.pop_front().unwrap();
            events.push(BfsEvent::EarlyVertex(v));
            states.insert(v, BfsState::Processed);
            let ghost states1 = states@;
            let ghost queue1 = queue@;
            let ghost ev1 = events@;
            let al = self.adjacency_list.get(&v).unwrap();
            proof {
                assert(g.contains_key(v));
                assert(al@ == g[v]);
                assert(states1 == states0.insert(v, BfsState::Processed));
                assert(queue1 =~= queue0.drop_first());
            }
            let ghost sr = scan_neighbors(al@, states1, queue1, v);
            proof {
                assert(al@.skip(0) =~= al@);
            }
            let mut i: usize = 0;
            while i < al.len()
                invariant
                    i <= al@.len(),
                    g.contains_key(v),
                    al@ == g[v],
                    g.dom().finite(),
                    adj_closed(g),
                    forall|j: int| 0 <= j < queue@.len() ==> g.contains_key(#[trigger] queue@[j]),
                    sr == scan_neighbors(al@, states1, queue1, v),
                    scan_neighbors(al@.skip(i as int), states@, queue@, v).states == sr.states,
                    scan_neighbors(al@.skip(i as int), states@, queue@, v).queue == sr.queue,
                    ev1 + sr.events == events@ + scan_neighbors(
                        al@.skip(i as int),
                        states@,
                        queue@,
                        v,
                    ).events,
                decreases al@.len() - i,
            {
                let ghost pre_states = states@;
                let ghost pre_queue = queue@;
                let ghost pre_events = events@;
                let ghost rest = al@.skip(i as int);
                let w = al[i];
                proof {
                    assert(rest.len() > 0);
                    assert(rest[0] == al@[i as int]);
                    assert(rest.drop_first() =~= al@.skip(i as int + 1));
                    assert(g.contains_key(w));
                }
                match states.get(&w) {
                    Option::None => {
                        queue.push_back(w);
                        states.insert(w, BfsState::Discovered);
                        events.push(BfsEvent::TreeEdge(v, w));
                    },
                    Option::Some(s) => {
                        match s {
                            BfsState::Undiscovered => {
                                queue.push_back(w);
                                states.insert(w, BfsState::Discovered);
                                events.push(BfsEvent::TreeEdge(v, w));
                            },
                            BfsState::Discovered => {
                                events.push(BfsEvent::CrossEdge(v, w));
                            },
                            BfsState::Processed => {},
                        }
                    },
                }
                proof {
                    let scanned = scan_neighbors(rest, pre_states, pre_queue, v);
                    let tail = scan_neighbors(al@.skip(i as int + 1), states@, queue@, v);
                    assert(scanned.states == tail.states);
                    assert(scanned.queue == tail.queue);
                    assert(ev1 + sr.events =~= events@ + tail.events) by {
                        assert(pre_events + scanned.events =~= events@ + tail.events);
                    }
                }
                i = i + 1;
            }
            events.push(BfsEvent::LateVertex(v));
            proof {
                assert(al@.skip(al@.len() as int) =~= Seq::<i32>::empty());
                assert(states@ == sr.states);
                assert(queue@ =~= sr.queue);
                assert(bfs_run(g, states0, queue0) == seq![BfsEvent::EarlyVertex(v)] + sr.events
                    + seq![BfsEvent::LateVertex(v)] + bfs_run(g, sr.states, sr.queue));
                assert(ev1 == ev0.push(BfsEvent::EarlyVertex(v)));
                assert(events@ == ev1 + sr.events + seq![BfsEvent::LateVertex(v)]);
                assert(full == events@ + bfs_run(g, states@, queue@)) by {
                    assert(full == ev0 + bfs_run(g, states0, queue0));
                    assert(ev0 + (seq![BfsEvent::EarlyVertex(v)] + sr.events
                        + seq![BfsEvent::LateVertex(v)] + bfs_run(g, sr.states, sr.queue)) =~= (ev1
                        + sr.events + seq![BfsEvent::LateVertex(v)]) + bfs_run(
                        g,
                        sr.states,
                        sr.queue,
                    ));
                }
                lemma_scan_measure(g, al@, states1, queue1, v);
                vstd::set_lib::lemma_len_subset(undiscovered(g, states0), g.dom());
                assert(undiscovered(g, states1).subset_of(undiscovered(g, states0)));
                vstd::set_lib::lemma_len_subset(undiscovered(g, states1), undiscovered(g, states0));
            }
        }
        proof {
            assert(events@ =~= full);
        }
        Ok(events)
    }

    /// Runs the breadth-first traversal from `root` and fires the caller's
    /// hooks in traversal order: the invocations are exactly the events of
    /// `bfs_trace(self@, root)`, so two runs on an unmutated graph fire the
    /// same hooks in the same order. An unknown root is rejected before any
    /// hook fires.
    pub fn bfs<H: BfsHooks>(&self, root: i32, hooks: &mut H) -> (r: Result<(), GraphError>)
        requires
            self.wf(),
        ensures
            r is Ok <==> self@.contains_key(root),
            !self@.contains_key(root) ==> r == Err::<(), GraphError>(GraphError::UnknownRoot),
    {
        match self.bfs_events(root) {
            Result::Err(e) => Err(e),
            Result::Ok(events) => {
                let mut i: usize = 0;
                while i < events.len()
                    invariant
                        i <= events@.len(),
                    decreases events@.len() - i,
                {
                    match events[i] {
                        BfsEvent::EarlyVertex(v) => hooks.vertex_processing_early(v),
                        BfsEvent::TreeEdge(a, b) => hooks.edge_processing_in_tree(a, b),
                        BfsEvent::CrossEdge(a, b) => hooks.edge_processing_out_tree(a, b),
                        BfsEvent::LateVertex(v) => hooks.vertex_processing_late(v),
                    }
                    i = i + 1;
                }
                Ok(())
            },
        }
    }
}

} // verus!
