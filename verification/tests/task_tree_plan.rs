use task_graph::ids::IdsConfig;
use task_graph::task_tree::{plan_task_tree, plan_task_tree_with, tree_warnings, TreePlan};
use task_graph::types::TaskTreeInput;

fn node(id: Option<&str>, title: &str, children: Vec<TaskTreeInput>) -> TaskTreeInput {
    TaskTreeInput {
        ref_id: None,
        id: id.map(|s| s.to_string()),
        title: Some(title.to_string()),
        description: None,
        phase: None,
        priority: None,
        points: None,
        time_estimate_ms: None,
        tags: None,
        needed_tags: None,
        wanted_tags: None,
        join_mode: None,
        children,
    }
}

fn reference(id: &str) -> TaskTreeInput {
    let mut n = node(None, "", vec![]);
    n.title = None;
    n.ref_id = Some(id.to_string());
    n
}

fn auth_tree() -> TaskTreeInput {
    node(
        Some("root"),
        "Implement auth",
        vec![
            node(Some("a"), "Design schema", vec![]),
            node(
                Some("b"),
                "Implement endpoints",
                vec![node(Some("c"), "Login endpoint", vec![]), node(Some("d"), "Logout endpoint", vec![])],
            ),
        ],
    )
}

fn edge(from: &str, to: &str, kind: &str) -> (String, String, String) {
    (from.to_string(), to.to_string(), kind.to_string())
}

fn ok(r: Result<TreePlan, String>) -> TreePlan {
    match r {
        Ok(p) => p,
        Err(e) => panic!("unexpected error: {}", e),
    }
}

#[test]
fn tree_plan_visits_nodes_in_preorder_with_sibling_chain() {
    let input = auth_tree();
    let p = ok(plan_task_tree_with(&input, None, "contains", Some("follows"), &vec![], &vec![], "pending"));
    assert_eq!(p.root_id, "root");
    assert_eq!(p.ids, vec!["root", "a", "b", "c", "d"]);
    assert_eq!(
        p.edges,
        vec![
            edge("root", "a", "contains"),
            edge("root", "b", "contains"),
            edge("a", "b", "follows"),
            edge("b", "c", "contains"),
            edge("b", "d", "contains"),
            edge("c", "d", "follows"),
        ]
    );
    assert_eq!(p.new_tasks.len(), 5);
    assert_eq!(p.new_tasks[3].id, "c");
    assert_eq!(p.new_tasks[3].title, "Login endpoint");
    assert_eq!(p.new_tasks[3].status, "pending");
    assert_eq!(p.new_tasks[3].priority, 5);
    assert!(p.new_tasks[3].tags.is_empty());
}

#[test]
fn tree_plan_without_sibling_type_runs_siblings_in_parallel() {
    let input = auth_tree();
    let p = ok(plan_task_tree_with(&input, Some("epic"), "contains", None, &vec![], &vec![], "pending"));
    assert_eq!(
        p.edges,
        vec![
            edge("epic", "root", "contains"),
            edge("root", "a", "contains"),
            edge("root", "b", "contains"),
            edge("b", "c", "contains"),
            edge("b", "d", "contains"),
        ]
    );
}

#[test]
fn tree_plan_refuses_missing_reference() {
    let input = node(Some("root"), "Root", vec![node(Some("a"), "A", vec![]), reference("ghost")]);
    let r = plan_task_tree_with(&input, None, "contains", None, &vec!["other".to_string()], &vec![], "pending");
    assert_eq!(r.err(), Some("Referenced task 'ghost' not found".to_string()));
}

#[test]
fn tree_plan_reference_keeps_existing_task() {
    let input = node(Some("root"), "Root", vec![reference("old"), node(Some("a"), "A", vec![])]);
    let p = ok(plan_task_tree_with(&input, None, "contains", Some("follows"), &vec!["old".to_string()], &vec![], "todo"));
    assert_eq!(p.ids, vec!["root", "old", "a"]);
    assert_eq!(p.new_tasks.len(), 2);
    assert_eq!(p.new_tasks[1].id, "a");
    assert_eq!(p.new_tasks[1].status, "todo");
    assert_eq!(p.edges, vec![edge("root", "old", "contains"), edge("root", "a", "contains"), edge("old", "a", "follows")]);
}

#[test]
fn tree_plan_reference_to_earlier_node_is_found() {
    let input = node(Some("root"), "Root", vec![node(Some("a"), "A", vec![]), reference("a")]);
    let p = ok(plan_task_tree_with(&input, None, "contains", None, &vec![], &vec![], "pending"));
    assert_eq!(p.ids, vec!["root", "a", "a"]);
    assert_eq!(p.new_tasks.len(), 2);
}

#[test]
fn tree_plan_takes_generated_ids_in_preorder() {
    let input = node(None, "Root", vec![node(None, "A", vec![]), node(Some("b"), "B", vec![node(None, "C", vec![])])]);
    let fresh = vec!["f1".to_string(), "f2".to_string(), "f3".to_string()];
    let p = ok(plan_task_tree_with(&input, None, "contains", None, &vec![], &fresh, "pending"));
    assert_eq!(p.ids, vec!["f1", "f2", "b", "f3"]);
    assert_eq!(p.root_id, "f1");
}

#[test]
fn tree_plan_keeps_node_fields() {
    let mut input = node(Some("root"), "Root", vec![]);
    input.priority = Some(9);
    input.description = Some("details".to_string());
    input.phase = Some("build".to_string());
    input.points = Some(3);
    input.tags = Some(vec!["x".to_string()]);
    input.needed_tags = Some(vec!["rust".to_string()]);
    let p = ok(plan_task_tree_with(&input, None, "contains", None, &vec![], &vec![], "pending"));
    let t = &p.new_tasks[0];
    assert_eq!(t.priority, 9);
    assert_eq!(t.description.as_deref(), Some("details"));
    assert_eq!(t.phase.as_deref(), Some("build"));
    assert_eq!(t.points, Some(3));
    assert_eq!(t.tags, vec!["x"]);
    assert_eq!(t.needed_tags, vec!["rust"]);
    assert!(t.wanted_tags.is_empty());
}

#[test]
fn tree_plan_generates_ids_of_configured_words() {
    let input = node(None, "Root", vec![node(None, "A", vec![])]);
    let cfg = IdsConfig { task_id_words: 3, agent_id_words: 2 };
    let p = ok(plan_task_tree(&input, None, "contains", None, &vec![], &cfg, "pending"));
    assert_eq!(p.ids.len(), 2);
    for id in &p.ids {
        assert_eq!(id.split('-').count(), 3);
    }
    assert_eq!(p.edges, vec![edge(&p.ids[0], &p.ids[1], "contains")]);
}

#[test]
fn tree_plan_generation_reports_missing_reference() {
    let input = node(None, "Root", vec![reference("nope")]);
    let cfg = IdsConfig { task_id_words: 2, agent_id_words: 2 };
    let r = plan_task_tree(&input, None, "contains", None, &vec![], &cfg, "pending");
    assert_eq!(r.err(), Some("Referenced task 'nope' not found".to_string()));
}

fn joined(id: &str, mode: &str) -> TaskTreeInput {
    let mut n = node(Some(id), id, vec![]);
    n.join_mode = Some(mode.to_string());
    n
}

#[test]
fn tree_plan_join_modes_per_child() {
    let input = node(
        Some("auth"),
        "Implement auth",
        vec![
            joined("schema", "then"),
            joined("migrations", "then"),
            {
                let mut n = node(
                    Some("endpoints"),
                    "Implement endpoints",
                    vec![joined("login", "then"), joined("logout", "also"), joined("refresh", "also")],
                );
                n.join_mode = Some("then".to_string());
                n
            },
            joined("tests", "then"),
        ],
    );
    let p = ok(plan_task_tree_with(&input, None, "contains", None, &vec![], &vec![], "pending"));
    assert_eq!(
        p.edges,
        vec![
            edge("auth", "schema", "contains"),
            edge("auth", "migrations", "contains"),
            edge("schema", "migrations", "follows"),
            edge("auth", "endpoints", "contains"),
            edge("migrations", "endpoints", "follows"),
            edge("endpoints", "login", "contains"),
            edge("endpoints", "logout", "contains"),
            edge("endpoints", "refresh", "contains"),
            edge("auth", "tests", "contains"),
            edge("endpoints", "tests", "follows"),
        ]
    );
}

#[test]
fn tree_plan_then_uses_given_sibling_type_and_also_overrides_it() {
    let input = node(Some("r"), "R", vec![joined("a", "then"), joined("b", "then"), joined("c", "also"), node(Some("d"), "D", vec![])]);
    let p = ok(plan_task_tree_with(&input, None, "contains", Some("blocks"), &vec![], &vec![], "pending"));
    assert_eq!(
        p.edges,
        vec![
            edge("r", "a", "contains"),
            edge("r", "b", "contains"),
            edge("a", "b", "blocks"),
            edge("r", "c", "contains"),
            edge("r", "d", "contains"),
            edge("c", "d", "blocks"),
        ]
    );
}

#[test]
fn tree_plan_title_from_description_and_clamped_priority() {
    let mut input = node(Some("root"), "Root", vec![node(Some("a"), "A", vec![]), node(Some("b"), "B", vec![])]);
    input.priority = Some(42);
    input.children[0].title = None;
    input.children[0].description = Some("Short description".to_string());
    input.children[0].priority = Some(-3);
    input.children[1].title = None;
    input.children[1].description = Some("x".repeat(150));
    let p = ok(plan_task_tree_with(&input, None, "contains", None, &vec![], &vec![], "pending"));
    assert_eq!(p.new_tasks[0].priority, 10);
    assert_eq!(p.new_tasks[1].title, "Short description");
    assert_eq!(p.new_tasks[1].priority, 0);
    assert_eq!(p.new_tasks[2].title, format!("{}...", "x".repeat(97)));
    assert_eq!(p.new_tasks[2].priority, 5);
}

#[test]
fn tree_plan_title_empty_without_title_or_description() {
    let mut input = node(Some("root"), "Root", vec![]);
    input.title = None;
    let p = ok(plan_task_tree_with(&input, None, "contains", None, &vec![], &vec![], "pending"));
    assert_eq!(p.new_tasks[0].title, "");
}

#[test]
fn tree_warnings_name_each_task() {
    let mut input = node(Some("root"), "Root", vec![node(Some("a"), "A", vec![])]);
    input.phase = Some("desing".to_string());
    let p = ok(plan_task_tree_with(&input, None, "contains", None, &vec![], &vec![], "pending"));
    let (phase, tags) = tree_warnings(
        &p,
        &vec![Some("unknown phase 'desing'".to_string()), Some("ignored: no phase".to_string())],
        &vec![vec!["unknown tag 'x'".to_string()], vec![]],
        &vec![vec![], vec!["unknown tag 'y'".to_string()]],
        &vec![vec![], vec![]],
    );
    assert_eq!(phase, vec!["Task 'root': unknown phase 'desing'"]);
    assert_eq!(tags, vec!["Task 'root': unknown tag 'x'", "Task 'a' needed_tags: unknown tag 'y'"]);
}
