use task_graph::dashboard::ActivityEventType;
use task_graph::deps;
use task_graph::ids::{generate_agent_id, generate_task_id, IdsConfig};
use task_graph::tasks;

#[test]
fn activity_event_type_names() {
    assert_eq!(ActivityEventType::TaskTransition.as_str(), "transition");
    assert_eq!(ActivityEventType::FileClaim.as_str(), "claim");
    assert_eq!(ActivityEventType::FileRelease.as_str(), "release");
}

#[test]
fn task_order_clause() {
    assert_eq!(tasks::build_order_clause(Some("priority"), Some("asc")), "CAST(t.priority AS INTEGER) ASC");
    assert_eq!(tasks::build_order_clause(Some("updated_at"), None), "t.updated_at DESC");
    assert_eq!(tasks::build_order_clause(None, Some("bogus")), "t.created_at DESC");
    assert_eq!(tasks::build_order_clause(Some("title"), Some("desc")), "t.created_at DESC");
}

#[test]
fn dependency_order_clause() {
    assert_eq!(
        deps::build_order_clause(Some("priority"), None),
        "CASE t.priority WHEN 'high' THEN 0 WHEN 'medium' THEN 1 ELSE 2 END ASC"
    );
    assert_eq!(
        deps::build_order_clause(Some("priority"), Some("desc")),
        "CASE t.priority WHEN 'high' THEN 0 WHEN 'medium' THEN 1 ELSE 2 END DESC"
    );
    assert_eq!(deps::build_order_clause(Some("created_at"), None), "t.created_at DESC");
    assert_eq!(deps::build_order_clause(None, Some("asc")), "t.created_at ASC");
}

#[test]
fn generated_task_ids_have_the_configured_words() {
    let id = generate_task_id(&IdsConfig { task_id_words: 3, agent_id_words: 4 });
    assert_eq!(id.split('-').count(), 3);
    let fallback = generate_task_id(&IdsConfig { task_id_words: 0, agent_id_words: 0 });
    assert!(fallback.starts_with("task-"));
    assert!(fallback["task-".len()..].parse::<i64>().is_ok());
}

#[test]
fn generated_worker_ids_have_the_configured_words() {
    let id = generate_agent_id(&IdsConfig { task_id_words: 3, agent_id_words: 4 });
    assert_eq!(id.split('-').count(), 4);
    let fallback = generate_agent_id(&IdsConfig { task_id_words: 3, agent_id_words: 0 });
    assert!(fallback.starts_with("worker-"));
    assert!(fallback["worker-".len()..].parse::<i64>().is_ok());
}

fn edges(pairs: &[(&str, &str)]) -> Vec<(String, String)> {
    pairs.iter().map(|(a, b)| (a.to_string(), b.to_string())).collect()
}

#[test]
fn cycle_check_follows_existing_dependencies() {
    let e = edges(&[("a", "b"), ("b", "c"), ("x", "y")]);
    // adding c -> a would close a -> b -> c -> a
    assert!(deps::would_create_cycle(&e, "c", "a"));
    // adding a -> c is fine: c does not lead back to a
    assert!(!deps::would_create_cycle(&e, "a", "c"));
    assert!(!deps::would_create_cycle(&e, "y", "a"));
    // a task depending on itself is a cycle
    assert!(deps::would_create_cycle(&e, "q", "q"));
    assert!(!deps::would_create_cycle(&[].to_vec(), "a", "b"));
}

#[test]
fn cycle_check_handles_diamonds_and_loops() {
    let e = edges(&[("a", "b"), ("a", "c"), ("b", "d"), ("c", "d"), ("d", "b")]);
    assert!(deps::would_create_cycle(&e, "d", "a"));
    assert!(!deps::would_create_cycle(&e, "a", "d"));
    assert!(deps::would_create_cycle(&e, "b", "d"));
}
