use bfs_graph::BfsEvent;
use bfs_graph::BfsFunc;
use bfs_graph::BfsHooks;
use bfs_graph::Graph;
use bfs_graph::GraphError;

struct ParentRecorder {
    parents: std::collections::HashMap<i32, i32>,
}

impl BfsHooks for ParentRecorder {
    fn edge_processing_in_tree(&mut self, from: i32, to: i32) {
        self.parents.insert(to, from);
    }
}

struct EventRecorder {
    events: Vec<BfsEvent>,
}

impl BfsHooks for EventRecorder {
    fn vertex_processing_early(&mut self, v: i32) {
        self.events.push(BfsEvent::EarlyVertex(v));
    }

    fn vertex_processing_late(&mut self, v: i32) {
        self.events.push(BfsEvent::LateVertex(v));
    }

    fn edge_processing_in_tree(&mut self, from: i32, to: i32) {
        self.events.push(BfsEvent::TreeEdge(from, to));
    }

    fn edge_processing_out_tree(&mut self, from: i32, to: i32) {
        self.events.push(BfsEvent::CrossEdge(from, to));
    }
}

fn example_graph() -> Graph {
    let mut g = Graph::new();
    for id in 1..=8 {
        g.add_vertex(id);
    }
    g.add_edge(1, 2).unwrap();
    g.add_edge(1, 7).unwrap();
    g.add_edge(1, 8).unwrap();
    g.add_edge(2, 3).unwrap();
    g.add_edge(2, 5).unwrap();
    g.add_edge(2, 7).unwrap();
    g.add_edge(3, 4).unwrap();
    g.add_edge(3, 5).unwrap();
    g.add_edge(4, 5).unwrap();
    g.add_edge(5, 6).unwrap();
    g
}

#[test]
fn bfs_success() {
    let g = example_graph();

    let mut recorder = ParentRecorder { parents: std::collections::HashMap::new() };
    assert!(g.bfs(1, &mut recorder).is_ok());

    let mut expected_parents: std::collections::HashMap<i32, i32> =
        std::collections::HashMap::new();
    expected_parents.insert(2, 1);
    expected_parents.insert(7, 1);
    expected_parents.insert(8, 1);
    expected_parents.insert(3, 2);
    expected_parents.insert(5, 2);
    expected_parents.insert(4, 3);
    expected_parents.insert(6, 5);
    assert_eq!(recorder.parents, expected_parents);
}

#[test]
fn bfs_fail() {
    let g = Graph::new();
    let mut bfs_functions = BfsFunc::new();
    assert_eq!(
        g.bfs(1, &mut bfs_functions).err().unwrap().message(),
        "Root vertex doesn't exist in the graph"
    );
}

#[test]
fn bfs_unknown_root_fires_no_hook() {
    let mut g = Graph::new();
    g.add_vertex(1);
    let mut recorder = EventRecorder { events: Vec::new() };
    let r = g.bfs(9, &mut recorder);
    assert!(matches!(r, Err(GraphError::UnknownRoot)));
    assert!(recorder.events.is_empty());
    assert!(matches!(g.bfs_events(9), Err(GraphError::UnknownRoot)));
}

#[test]
fn bfs_hooks_fire_in_event_order() {
    let mut g = Graph::new();
    g.add_vertex(1);
    g.add_vertex(2);
    g.add_vertex(3);
    g.add_edge(1, 2).unwrap();
    g.add_edge(1, 3).unwrap();
    g.add_edge(2, 3).unwrap();
    let mut recorder = EventRecorder { events: Vec::new() };
    assert!(g.bfs(1, &mut recorder).is_ok());
    let expected = vec![
        BfsEvent::EarlyVertex(1),
        BfsEvent::TreeEdge(1, 2),
        BfsEvent::TreeEdge(1, 3),
        BfsEvent::LateVertex(1),
        BfsEvent::EarlyVertex(2),
        BfsEvent::CrossEdge(2, 3),
        BfsEvent::LateVertex(2),
        BfsEvent::EarlyVertex(3),
        BfsEvent::LateVertex(3),
    ];
    assert_eq!(recorder.events, expected);
    assert_eq!(g.bfs_events(1).unwrap(), expected);
}

#[test]
fn bfs_symmetric_edge_is_stored_both_ways() {
    let mut g = Graph::new();
    g.add_vertex(1);
    g.add_vertex(2);
    g.add_edge(1, 2).unwrap();
    let from_two = g.bfs_events(2).unwrap();
    assert_eq!(
        from_two,
        vec![
            BfsEvent::EarlyVertex(2),
            BfsEvent::TreeEdge(2, 1),
            BfsEvent::LateVertex(2),
            BfsEvent::EarlyVertex(1),
            BfsEvent::LateVertex(1),
        ]
    );
}

#[test]
fn bfs_parallel_edge_fires_cross_edge() {
    let mut g = Graph::new();
    g.add_vertex(1);
    g.add_vertex(2);
    g.add_edge(1, 2).unwrap();
    g.add_edge(1, 2).unwrap();
    let events = g.bfs_events(1).unwrap();
    assert_eq!(
        events,
        vec![
            BfsEvent::EarlyVertex(1),
            BfsEvent::TreeEdge(1, 2),
            BfsEvent::CrossEdge(1, 2),
            BfsEvent::LateVertex(1),
            BfsEvent::EarlyVertex(2),
            BfsEvent::LateVertex(2),
        ]
    );
}

#[test]
fn bfs_self_loop_is_skipped_once_processed() {
    let mut g = Graph::new();
    g.add_vertex(1);
    g.add_edge(1, 1).unwrap();
    let events = g.bfs_events(1).unwrap();
    assert_eq!(events, vec![BfsEvent::EarlyVertex(1), BfsEvent::LateVertex(1)]);
}

#[test]
fn bfs_twice_gives_identical_hook_sequences() {
    let g = example_graph();
    let mut first = EventRecorder { events: Vec::new() };
    let mut second = EventRecorder { events: Vec::new() };
    assert!(g.bfs(1, &mut first).is_ok());
    assert!(g.bfs(1, &mut second).is_ok());
    assert_eq!(first.events, second.events);
}

#[test]
fn bfs_never_touches_unreachable_vertices() {
    let mut g = Graph::new();
    g.add_vertex(1);
    g.add_vertex(2);
    g.add_vertex(3);
    g.add_vertex(4);
    g.add_edge(1, 2).unwrap();
    g.add_edge(3, 4).unwrap();
    let mut recorder = EventRecorder { events: Vec::new() };
    assert!(g.bfs(1, &mut recorder).is_ok());
    for ev in recorder.events {
        let mentioned = match ev {
            BfsEvent::EarlyVertex(v) => vec![v],
            BfsEvent::TreeEdge(a, b) => vec![a, b],
            BfsEvent::CrossEdge(a, b) => vec![a, b],
            BfsEvent::LateVertex(v) => vec![v],
        };
        for v in mentioned {
            assert!(v == 1 || v == 2);
        }
    }
}

#[test]
fn add_vertex_twice_leaves_adjacency_unchanged() {
    let mut g = Graph::new();
    g.add_vertex(1);
    g.add_vertex(2);
    g.add_edge(1, 2).unwrap();
    let before = g.bfs_events(1).unwrap();
    g.add_vertex(1);
    g.add_vertex(2);
    let after = g.bfs_events(1).unwrap();
    assert_eq!(before, after);

    let mut fresh = Graph::new();
    fresh.add_vertex(5);
    fresh.add_vertex(5);
    assert_eq!(
        fresh.bfs_events(5).unwrap(),
        vec![BfsEvent::EarlyVertex(5), BfsEvent::LateVertex(5)]
    );
}
