use dampen_core::handler::HandlerCallGraph;

#[test]
fn reachability_and_cycle_prediction() {
    let mut g = HandlerCallGraph::new();
    g.add_dependency("a", "b");
    g.add_dependency("b", "c");
    assert!(g.would_create_cycle("c", "a"));
    assert!(!g.would_create_cycle("a", "c"));
    assert!(g.would_create_cycle("x", "x"));
    assert!(!g.would_create_cycle("x", "y"));
}

#[test]
fn acyclic_graph_has_no_cycle() {
    let mut g = HandlerCallGraph::new();
    g.add_dependency("a", "b");
    g.add_dependency("a", "c");
    g.add_dependency("b", "d");
    g.add_dependency("c", "d");
    assert_eq!(g.detect_cycles(), None);
    // Adding an edge that would_create_cycle rejects keeps it acyclic.
    assert!(!g.would_create_cycle("d", "e"));
    g.add_dependency("d", "e");
    assert_eq!(g.detect_cycles(), None);
}

#[test]
fn cycle_is_reported_as_a_closed_walk() {
    let mut g = HandlerCallGraph::new();
    g.add_dependency("a", "b");
    g.add_dependency("b", "c");
    assert!(g.would_create_cycle("c", "a"));
    g.add_dependency("c", "a");
    let cycle = g.detect_cycles().expect("cycle");
    assert!(cycle.len() >= 2);
    assert_eq!(cycle.first(), cycle.last());
    for w in cycle.windows(2) {
        assert!(g.dependents_of(&w[1]).contains(&w[0]));
    }
}

#[test]
fn self_dependency_is_a_cycle() {
    let mut g = HandlerCallGraph::new();
    g.add_dependency("a", "a");
    assert_eq!(g.detect_cycles(), Some(vec!["a".to_string(), "a".to_string()]));
}

#[test]
fn dependents_are_listed_once() {
    let mut g = HandlerCallGraph::new();
    g.add_dependency("a", "x");
    g.add_dependency("a", "x");
    g.add_dependency("b", "x");
    g.add_dependency("c", "y");
    let mut d = g.dependents_of("x");
    d.sort();
    assert_eq!(d, vec!["a".to_string(), "b".to_string()]);
    assert!(g.dependents_of("z").is_empty());
}

#[test]
fn detected_cycle_visits_each_handler_once() {
    let g1 = HandlerCallGraph::new();
    assert_eq!(g1.detect_cycles(), None);
    let mut g2 = HandlerCallGraph::new();
    g2.add_dependency("a", "b");
    g2.add_dependency("b", "a");
    let c = g2.detect_cycles().expect("cycle");
    let ab = vec!["a".to_string(), "b".to_string(), "a".to_string()];
    let ba = vec!["b".to_string(), "a".to_string(), "b".to_string()];
    assert!(c == ab || c == ba);
    let mut g3 = HandlerCallGraph::new();
    g3.add_dependency("a", "b");
    g3.add_dependency("b", "c");
    assert_eq!(g3.detect_cycles(), None);
}
