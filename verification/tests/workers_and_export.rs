use task_graph::export::ExportOptions;
use task_graph::types::{StateDefinition, StatesConfig};
use task_graph::workers::{effective_max_claims, held_status_condition, plan_registration, validate_worker_id, Registration, MAX_WORKER_ID_LEN};

#[test]
fn worker_id_checks() {
    assert!(validate_worker_id("worker-1").is_ok());
    assert_eq!(validate_worker_id(""), Err("Worker ID cannot be empty".to_string()));
    assert_eq!(
        validate_worker_id(&"w".repeat(70)),
        Err("Worker ID must be at most 36 characters, got 70".to_string())
    );
    assert!(validate_worker_id(&"w".repeat(MAX_WORKER_ID_LEN)).is_ok());
    assert_eq!(
        validate_worker_id(&"a".repeat(40)),
        Err("Worker ID must be at most 36 characters, got 40".to_string())
    );
}

#[test]
fn claim_limits() {
    assert_eq!(effective_max_claims(None), 1);
    assert_eq!(effective_max_claims(Some(0)), i32::MAX);
    assert_eq!(effective_max_claims(Some(3)), 3);
}

#[test]
fn registration_decisions() {
    assert_eq!(plan_registration("w", false, false), Ok(Registration::Insert));
    assert_eq!(plan_registration("w", true, true), Ok(Registration::Reconnect));
    assert_eq!(
        plan_registration("w", true, false),
        Err("Worker ID 'w' already registered. Use force=true to reconnect.".to_string())
    );
}

#[test]
fn export_options() {
    let all = ExportOptions::default();
    assert!(all.should_export("tasks"));
    assert_eq!(all.tasks_query(), "SELECT * FROM tasks ORDER BY id");
    let some = ExportOptions { exclude_deleted: true, tables: Some(vec!["tasks".to_string()]) };
    assert!(some.should_export("tasks"));
    assert!(!some.should_export("dependencies"));
    assert_eq!(some.tasks_query(), "SELECT * FROM tasks WHERE deleted_at IS NULL ORDER BY id");
}

#[test]
fn held_status_conditions() {
    let cfg = StatesConfig {
        initial: "pending".to_string(),
        blocking_states: vec![],
        states: vec![
            StateDefinition { name: "pending".to_string(), exits: vec![], timed: false },
            StateDefinition { name: "working".to_string(), exits: vec![], timed: true },
            StateDefinition { name: "review".to_string(), exits: vec![], timed: true },
        ],
    };
    let timed = cfg.timed_state_names();
    assert_eq!(timed, vec!["working".to_string(), "review".to_string()]);
    assert_eq!(held_status_condition(&timed), "status IN ('working', 'review')");
    assert_eq!(held_status_condition(&vec![]), "status = '__none__'");
}

fn listed_worker(id: &str, tags: &[&str]) -> task_graph::types::WorkerInfo {
    task_graph::types::WorkerInfo {
        id: id.to_string(),
        tags: tags.iter().map(|t| t.to_string()).collect(),
        max_claims: 5,
        claim_count: 0,
        current_thought: None,
        registered_at: 0,
        last_heartbeat: 0,
        last_status: None,
        last_phase: None,
        last_task_id: None,
        workflow: None,
    }
}

#[test]
fn workers_filtered_by_all_required_tags() {
    let ws = vec![
        listed_worker("a", &["rust", "db"]),
        listed_worker("b", &["rust"]),
        listed_worker("c", &["db", "rust", "ops"]),
    ];
    let required = vec!["rust".to_string(), "db".to_string()];
    let kept = task_graph::workers::filter_workers_by_tags(ws, Some(&required));
    let ids: Vec<&str> = kept.iter().map(|w| w.id.as_str()).collect();
    assert_eq!(ids, vec!["a", "c"]);

    let all = task_graph::workers::filter_workers_by_tags(vec![listed_worker("x", &[])], None);
    assert_eq!(all.len(), 1);
}

fn dep_edges(pairs: &[(&str, &str)]) -> Vec<(String, String)> {
    pairs.iter().map(|(a, b)| (a.to_string(), b.to_string())).collect()
}

fn sorted(mut v: Vec<String>) -> Vec<String> {
    v.sort();
    v
}

#[test]
fn related_tasks_within_depth() {
    let e = dep_edges(&[("root", "a"), ("a", "b"), ("b", "c"), ("x", "root")]);
    assert_eq!(task_graph::workers::related_task_ids(&e, "root", 0), vec!["root"]);
    assert_eq!(sorted(task_graph::workers::related_task_ids(&e, "root", 1)), vec!["a", "root"]);
    assert_eq!(sorted(task_graph::workers::related_task_ids(&e, "root", 2)), vec!["a", "b", "root"]);
    assert_eq!(sorted(task_graph::workers::related_task_ids(&e, "root", 50)), vec!["a", "b", "c", "root"]);
    assert_eq!(sorted(task_graph::workers::related_task_ids(&e, "b", -5)), vec!["a", "b", "root", "x"]);
}
