use task_graph::dashboard::{GraphEdge, GraphNode};
use task_graph::graph::{focus_graph, graph_task_ids, type_clause, GraphLink};

fn node(id: &str) -> GraphNode {
    GraphNode { id: id.to_string(), title: format!("T {}", id), status: "pending".to_string(), priority: 5 }
}

fn link(from: &str, to: &str) -> GraphLink {
    GraphLink {
        from_id: from.to_string(),
        to_id: to.to_string(),
        dep_type: "blocks".to_string(),
        from_task: Some(node(from)),
        to_task: Some(node(to)),
    }
}

fn ids(nodes: &[GraphNode]) -> Vec<&str> {
    nodes.iter().map(|n| n.id.as_str()).collect()
}

fn edges(es: &[GraphEdge]) -> Vec<(&str, &str)> {
    es.iter().map(|e| (e.from_id.as_str(), e.to_id.as_str())).collect()
}

#[test]
fn focus_graph_walks_both_directions() {
    // a -> b -> c -> d, and e -> c
    let links = vec![link("a", "b"), link("b", "c"), link("c", "d"), link("e", "c")];
    let g = focus_graph("c", Some(node("c")), &links, -1);
    assert_eq!(ids(&g.nodes), vec!["c", "b", "e", "a", "d"]);
    assert_eq!(edges(&g.edges), vec![("b", "c"), ("e", "c"), ("a", "b"), ("c", "d")]);
}

#[test]
fn focus_graph_respects_depth() {
    let links = vec![link("a", "b"), link("b", "c"), link("c", "d"), link("d", "e")];
    let g = focus_graph("c", Some(node("c")), &links, 1);
    assert_eq!(ids(&g.nodes), vec!["c", "b", "d"]);
    assert_eq!(edges(&g.edges), vec![("b", "c"), ("c", "d")]);
    let g0 = focus_graph("c", Some(node("c")), &links, 0);
    assert_eq!(ids(&g0.nodes), vec!["c"]);
    assert!(g0.edges.is_empty());
}

#[test]
fn focus_graph_lists_each_task_once() {
    // a cycle a -> b -> a
    let links = vec![link("a", "b"), link("b", "a")];
    let g = focus_graph("a", Some(node("a")), &links, 5);
    assert_eq!(ids(&g.nodes), vec!["a", "b"]);
    assert_eq!(edges(&g.edges), vec![("b", "a"), ("a", "b"), ("a", "b")]);
}

#[test]
fn focus_graph_skips_dead_ends_and_missing_focus() {
    let mut dead = link("x", "c");
    dead.from_task = None;
    let links = vec![dead, link("b", "c")];
    let g = focus_graph("c", None, &links, 2);
    assert_eq!(ids(&g.nodes), vec!["b"]);
    assert_eq!(edges(&g.edges), vec![("b", "c")]);
}

#[test]
fn whole_graph_ids_and_type_clause() {
    let es = vec![
        GraphEdge { from_id: "a".to_string(), to_id: "b".to_string(), dep_type: "blocks".to_string() },
        GraphEdge { from_id: "b".to_string(), to_id: "c".to_string(), dep_type: "blocks".to_string() },
        GraphEdge { from_id: "a".to_string(), to_id: "c".to_string(), dep_type: "follows".to_string() },
    ];
    assert_eq!(graph_task_ids(&es), vec!["a".to_string(), "b".to_string(), "c".to_string()]);
    assert_eq!(type_clause(Some("follows")), "AND d.dep_type = 'follows'");
    assert_eq!(type_clause(Some("other")), "");
    assert_eq!(type_clause(None), "");
}
