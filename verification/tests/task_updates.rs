use task_graph::task_update::{plan_claim, plan_complete, plan_delete, plan_field_update, plan_force_claim, plan_release, plan_release_to, plan_task_update, Deletion, TaskUpdate, UpdateContext, TaskRefusal};
use task_graph::deps::{auto_advance_reason, plan_auto_advance, AutoAdvanceConfig, Dependent};
use task_graph::tasks::{check_rename, renamed_columns};
use task_graph::state_transitions::transition_elapsed;
use task_graph::types::{StateDefinition, StatesConfig, Task};

fn state(name: &str, exits: &[&str], timed: bool) -> StateDefinition {
    StateDefinition { name: name.to_string(), exits: exits.iter().map(|e| e.to_string()).collect(), timed }
}

fn config() -> StatesConfig {
    StatesConfig {
        initial: "pending".to_string(),
        blocking_states: vec!["pending".to_string(), "assigned".to_string(), "in_progress".to_string()],
        states: vec![
            state("pending", &["assigned", "in_progress", "cancelled"], false),
            state("assigned", &["in_progress", "pending"], false),
            state("in_progress", &["completed", "pending"], true),
            state("completed", &[], false),
            state("cancelled", &[], false),
        ],
    }
}

fn strings(v: &[&str]) -> Vec<String> {
    v.iter().map(|s| s.to_string()).collect()
}

fn task(status: &str, owner: Option<&str>) -> Task {
    Task {
        id: "t1".to_string(),
        title: "Title".to_string(),
        description: None,
        status: status.to_string(),
        phase: None,
        priority: 5,
        owner_agent: owner.map(|o| o.to_string()),
        claimed_at: owner.map(|_| 100),
        agent_tags_all: vec![],
        agent_tags_any: vec![],
        tags: vec![],
        points: None,
        time_estimate_ms: None,
        time_actual_ms: None,
        started_at: None,
        completed_at: None,
        current_thought: None,
        created_at: 1,
        updated_at: 1,
    }
}

fn no_change() -> TaskUpdate {
    TaskUpdate {
        title: None,
        description: None,
        status: None,
        phase: None,
        priority: None,
        points: None,
        tags: None,
        needed_tags: None,
        wanted_tags: None,
        time_estimate_ms: None,
    }
}

fn to_status(s: &str) -> TaskUpdate {
    TaskUpdate { status: Some(s.to_string()), ..no_change() }
}

fn ctx() -> UpdateContext {
    UpdateContext {
        assignee_tags: None,
        agent_tags: Some(vec![]),
        agent_claims: 0,
        agent_max_claims: 1,
        unsatisfied_blockers: vec![],
        incomplete_children: 0,
    }
}

#[test]
fn claim_on_entering_timed_state() {
    let plan = plan_task_update(&task("pending", None), &to_status("in_progress"), "w1", &None, false, &config(), &ctx(), 500)
        .unwrap();
    assert_eq!(plan.task.status, "in_progress");
    assert_eq!(plan.task.owner_agent.as_deref(), Some("w1"));
    assert_eq!(plan.task.claimed_at, Some(500));
    assert_eq!(plan.task.started_at, Some(500));
    assert_eq!(plan.task.updated_at, 500);
    assert!(plan.refresh_heartbeat);
    assert!(plan.status_changed);
    assert!(!plan.release_file_locks);
    assert!(!plan.unblocks_dependents);
}

#[test]
fn release_on_leaving_timed_state() {
    let plan = plan_task_update(&task("in_progress", Some("w1")), &to_status("pending"), "w1", &None, false, &config(), &ctx(), 500)
        .unwrap();
    assert_eq!(plan.task.owner_agent, None);
    assert_eq!(plan.task.claimed_at, None);
    assert!(!plan.refresh_heartbeat);
}

#[test]
fn complete_releases_and_unblocks() {
    let plan = plan_task_update(&task("in_progress", Some("w1")), &to_status("completed"), "w1", &None, false, &config(), &ctx(), 700)
        .unwrap();
    assert_eq!(plan.task.owner_agent, None);
    assert_eq!(plan.task.completed_at, Some(700));
    assert!(plan.release_file_locks);
    assert!(plan.unblocks_dependents);
}

#[test]
fn complete_refused_with_incomplete_children() {
    let c = UpdateContext { incomplete_children: 2, ..ctx() };
    let err = plan_task_update(&task("in_progress", Some("w1")), &to_status("completed"), "w1", &None, false, &config(), &c, 700)
        .unwrap_err();
    assert_eq!(err.message(), "Cannot complete task: 2 child task(s) are not complete");
}

#[test]
fn only_owner_updates_claimed_task() {
    let err = plan_task_update(&task("in_progress", Some("w1")), &no_change(), "w2", &None, false, &config(), &ctx(), 1)
        .unwrap_err();
    assert!(matches!(err, TaskRefusal::ClaimedByOther { .. }));
    assert_eq!(
        err.message(),
        "Task is claimed by agent 'w1'. Only the owner can update claimed tasks (use force=true to override)"
    );
    let forced = plan_task_update(&task("in_progress", Some("w1")), &no_change(), "w2", &None, true, &config(), &ctx(), 1);
    assert!(forced.is_ok());
}

#[test]
fn invalid_state_and_transition_messages() {
    let err = plan_task_update(&task("pending", None), &to_status("bogus"), "w1", &None, false, &config(), &ctx(), 1)
        .unwrap_err();
    assert_eq!(
        err.message(),
        "Invalid state 'bogus'. Valid states: [\"pending\", \"assigned\", \"in_progress\", \"completed\", \"cancelled\"]"
    );
    let err = plan_task_update(&task("pending", None), &to_status("completed"), "w1", &None, false, &config(), &ctx(), 1)
        .unwrap_err();
    assert_eq!(
        err.message(),
        "Invalid transition from 'pending' to 'completed'. Allowed transitions: [\"assigned\", \"in_progress\", \"cancelled\"]"
    );
}

#[test]
fn claim_refused_while_blocked_unless_forced() {
    let c = UpdateContext { unsatisfied_blockers: strings(&["a", "b"]), ..ctx() };
    let err = plan_task_update(&task("pending", None), &to_status("in_progress"), "w1", &None, false, &config(), &c, 1)
        .unwrap_err();
    assert_eq!(err.message(), "Task blocked by: a, b");
    assert!(plan_task_update(&task("pending", None), &to_status("in_progress"), "w1", &None, true, &config(), &c, 1).is_ok());
}

#[test]
fn claim_checks_agent_tags() {
    let mut t = task("pending", None);
    t.agent_tags_all = strings(&["rust", "db"]);
    let c = UpdateContext { agent_tags: Some(strings(&["rust"])), ..ctx() };
    let err = plan_task_update(&t, &to_status("in_progress"), "w1", &None, false, &config(), &c, 1).unwrap_err();
    assert_eq!(err.message(), "Agent missing required tag: db");
    let mut t = task("pending", None);
    t.agent_tags_any = strings(&["x", "y"]);
    let err = plan_task_update(&t, &to_status("in_progress"), "w1", &None, false, &config(), &c, 1).unwrap_err();
    assert_eq!(err.message(), "Agent has none of the wanted tags");
    let c = UpdateContext { agent_tags: None, ..ctx() };
    let err = plan_task_update(&task("pending", None), &to_status("in_progress"), "w1", &None, false, &config(), &c, 1)
        .unwrap_err();
    assert_eq!(err.message(), "Agent not found");
}

#[test]
fn assignee_assigns_task() {
    let c = UpdateContext { assignee_tags: Some(vec![]), ..ctx() };
    let plan = plan_task_update(&task("pending", None), &no_change(), "boss", &Some("w9".to_string()), false, &config(), &c, 42)
        .unwrap();
    assert_eq!(plan.task.status, "assigned");
    assert_eq!(plan.task.owner_agent.as_deref(), Some("w9"));
    assert_eq!(plan.task.claimed_at, Some(42));
    assert_eq!(plan.task.started_at, None);
}

#[test]
fn assignee_checks() {
    let err = plan_task_update(&task("pending", None), &no_change(), "boss", &Some("w9".to_string()), false, &config(), &ctx(), 1)
        .unwrap_err();
    assert_eq!(err.message(), "Assignee agent 'w9' not found");
    let mut t = task("pending", None);
    t.agent_tags_all = strings(&["gpu"]);
    let c = UpdateContext { assignee_tags: Some(strings(&["cpu"])), ..ctx() };
    let err = plan_task_update(&t, &no_change(), "boss", &Some("w9".to_string()), false, &config(), &c, 1).unwrap_err();
    assert_eq!(err.message(), "Assignee 'w9' missing required tag: gpu");
    let mut t = task("pending", None);
    t.agent_tags_any = strings(&["gpu"]);
    let err = plan_task_update(&t, &no_change(), "boss", &Some("w9".to_string()), false, &config(), &c, 1).unwrap_err();
    assert_eq!(err.message(), "Assignee 'w9' has none of the wanted tags: [\"gpu\"]");
}

#[test]
fn field_updates_and_change_flags() {
    let u = TaskUpdate {
        title: Some("New".to_string()),
        phase: Some("build".to_string()),
        tags: Some(strings(&["a"])),
        priority: Some(9),
        points: Some(Some(3)),
        ..no_change()
    };
    let plan = plan_task_update(&task("pending", None), &u, "w1", &None, false, &config(), &ctx(), 5).unwrap();
    assert_eq!(plan.task.title, "New");
    assert_eq!(plan.task.phase.as_deref(), Some("build"));
    assert_eq!(plan.task.priority, 9);
    assert_eq!(plan.task.points, Some(3));
    assert_eq!(plan.task.tags, strings(&["a"]));
    assert!(plan.phase_changed);
    assert!(plan.tags_changed);
    assert!(!plan.needed_tags_changed);
    assert!(!plan.status_changed);
    assert_eq!(plan.task.created_at, 1);
}

#[test]
fn claim_moves_to_first_timed_state() {
    let p = plan_claim(&task("pending", None), "w1", &config(), &Some(vec![]), 0, 1, 77).unwrap();
    assert_eq!(p.status, "in_progress");
    assert_eq!(p.owner_agent.as_deref(), Some("w1"));
    assert_eq!(p.claimed_at, Some(77));
    assert_eq!(p.started_at, Some(77));
    assert_eq!(p.updated_at, 77);
}

#[test]
fn claim_refusals() {
    let err = plan_claim(&task("pending", Some("w2")), "w1", &config(), &Some(vec![]), 0, 1, 1).unwrap_err();
    assert_eq!(err.message(), "Task is already claimed");
    let err = plan_claim(&task("completed", None), "w1", &config(), &Some(vec![]), 0, 1, 1).unwrap_err();
    assert_eq!(err.message(), "Cannot claim task in state 'completed'. Allowed transitions: []");
    let err = plan_claim(&task("pending", None), "w1", &config(), &None, 0, 1, 1).unwrap_err();
    assert_eq!(err.message(), "Agent not found");
}

#[test]
fn claim_falls_back_to_working() {
    let cfg = StatesConfig { states: vec![state("pending", &["working"], false)], ..config() };
    let p = plan_claim(&task("pending", None), "w1", &cfg, &Some(vec![]), 0, 1, 3).unwrap();
    assert_eq!(p.status, "working");
}

#[test]
fn complete_by_owner() {
    let p = plan_complete(&task("in_progress", Some("w1")), "w1", &config(), 0, 90).unwrap();
    assert_eq!(p.status, "completed");
    assert_eq!(p.owner_agent, None);
    assert_eq!(p.claimed_at, None);
    assert_eq!(p.completed_at, Some(90));
}

#[test]
fn complete_refusals() {
    let err = plan_complete(&task("in_progress", Some("w2")), "w1", &config(), 0, 1).unwrap_err();
    assert_eq!(err.message(), "Task is not owned by this agent");
    let err = plan_complete(&task("in_progress", Some("w1")), "w1", &config(), 1, 1).unwrap_err();
    assert_eq!(err.message(), "Cannot complete task: 1 child task(s) are not complete");
    let err = plan_complete(&task("pending", Some("w1")), "w1", &config(), 0, 1).unwrap_err();
    assert_eq!(
        err.message(),
        "Cannot complete task in state 'pending'. Allowed transitions: [\"assigned\", \"in_progress\", \"cancelled\"]"
    );
}

#[test]
fn complete_uses_first_terminal_state_without_completed() {
    let cfg = StatesConfig {
        states: vec![state("open", &["closed"], true), state("closed", &[], false)],
        ..config()
    };
    let p = plan_complete(&task("open", Some("w1")), "w1", &cfg, 0, 2).unwrap();
    assert_eq!(p.status, "closed");
}

#[test]
fn release_by_owner_only() {
    let p = plan_release(&task("in_progress", Some("w1")), "w1", &config(), 8).unwrap();
    assert_eq!(p.status, "pending");
    assert_eq!(p.owner_agent, None);
    assert_eq!(p.updated_at, 8);
    let err = plan_release(&task("in_progress", Some("w1")), "w2", &config(), 8).unwrap_err();
    assert_eq!(err.message(), "Task is not owned by this agent");
}

#[test]
fn field_update_sets_timestamps() {
    let u = TaskUpdate { title: Some("T2".to_string()), ..to_status("in_progress") };
    let p = plan_field_update(&task("pending", None), &u, &config(), 11).unwrap();
    assert_eq!(p.title, "T2");
    assert_eq!(p.status, "in_progress");
    assert_eq!(p.started_at, Some(11));
    assert_eq!(p.owner_agent, None);
    let p2 = plan_field_update(&p, &to_status("completed"), &config(), 12).unwrap();
    assert_eq!(p2.completed_at, Some(12));
    assert_eq!(p2.started_at, Some(11));
    let err = plan_field_update(&task("pending", None), &to_status("completed"), &config(), 1).unwrap_err();
    assert!(matches!(err, TaskRefusal::InvalidTransition { .. }));
}

fn dependent(id: &str, status: Option<&str>, claimed: bool, remaining: i32) -> Dependent {
    Dependent { task_id: id.to_string(), status: status.map(|s| s.to_string()), claimed, remaining_blockers: remaining }
}

#[test]
fn auto_advance_picks_ready_initial_tasks() {
    let auto = AutoAdvanceConfig { enabled: true, target_state: Some("assigned".to_string()) };
    let ds = vec![
        dependent("a", Some("pending"), false, 0),
        dependent("b", Some("pending"), true, 0),
        dependent("c", Some("pending"), false, 1),
        dependent("d", Some("in_progress"), false, 0),
        dependent("e", None, false, 0),
        dependent("f", Some("pending"), false, 0),
    ];
    let ids = plan_auto_advance(&config(), &auto, false, &ds).unwrap();
    assert_eq!(ids, vec!["a".to_string(), "f".to_string()]);
    assert_eq!(auto_advance_reason("x"), "auto-advanced: blocker 'x' completed");
}

#[test]
fn auto_advance_off_or_invalid() {
    let ds = vec![dependent("a", Some("pending"), false, 0)];
    let off = AutoAdvanceConfig { enabled: false, target_state: Some("assigned".to_string()) };
    assert!(plan_auto_advance(&config(), &off, false, &ds).unwrap().is_empty());
    let none = AutoAdvanceConfig { enabled: true, target_state: None };
    assert!(plan_auto_advance(&config(), &none, false, &ds).unwrap().is_empty());
    let bad = AutoAdvanceConfig { enabled: true, target_state: Some("nope".to_string()) };
    assert_eq!(
        plan_auto_advance(&config(), &bad, false, &ds).unwrap_err(),
        "Auto-advance target state 'nope' is not a valid state"
    );
    let good = AutoAdvanceConfig { enabled: true, target_state: Some("assigned".to_string()) };
    assert!(plan_auto_advance(&config(), &good, true, &ds).unwrap().is_empty());
    let not_allowed = AutoAdvanceConfig { enabled: true, target_state: Some("completed".to_string()) };
    assert!(plan_auto_advance(&config(), &not_allowed, false, &ds).unwrap().is_empty());
}

#[test]
fn rename_checks() {
    assert_eq!(check_rename("a", "", true, false), Err("new_id must not be empty".to_string()));
    assert_eq!(check_rename("a", &"x".repeat(65), true, false), Err("new_id must not exceed 64 characters".to_string()));
    assert!(check_rename("a", &"x".repeat(64), true, false).is_ok());
    assert_eq!(check_rename("a", "b", false, false), Err("Task 'a' not found".to_string()));
    assert_eq!(check_rename("a", "b", true, true), Err("Task 'b' already exists".to_string()));
    assert_eq!(renamed_columns().len(), 9);
    assert_eq!(renamed_columns()[0], ("tasks", "id"));
}

#[test]
fn force_claim_takes_over() {
    let mut t = task("pending", Some("w2"));
    t.started_at = Some(5);
    let p = plan_force_claim(&t, "w1", &config(), &Some(vec![]), 9).unwrap();
    assert_eq!(p.owner_agent.as_deref(), Some("w1"));
    assert_eq!(p.status, "in_progress");
    assert_eq!(p.started_at, Some(5));
    assert_eq!(p.claimed_at, Some(9));
    let p = plan_force_claim(&task("pending", None), "w1", &config(), &Some(vec![]), 9).unwrap();
    assert_eq!(p.started_at, Some(9));
    assert_eq!(plan_force_claim(&t, "w1", &config(), &None, 9).unwrap_err().message(), "Agent not found");
}

#[test]
fn release_into_state() {
    let p = plan_release_to(&task("in_progress", Some("w1")), "w1", "completed", &config(), 4).unwrap();
    assert_eq!(p.status, "completed");
    assert_eq!(p.completed_at, Some(4));
    assert_eq!(p.owner_agent, None);
    let p = plan_release_to(&task("in_progress", Some("w1")), "w1", "pending", &config(), 4).unwrap();
    assert_eq!(p.completed_at, None);
    let err = plan_release_to(&task("in_progress", Some("w1")), "w1", "cancelled", &config(), 4).unwrap_err();
    assert_eq!(
        err.message(),
        "Invalid transition from 'in_progress' to 'cancelled'. Allowed transitions: [\"completed\", \"pending\"]"
    );
    let err = plan_release_to(&task("in_progress", Some("w2")), "w1", "pending", &config(), 4).unwrap_err();
    assert_eq!(err.message(), "Task is not owned by this agent");
}

#[test]
fn delete_decisions() {
    assert_eq!(plan_delete(&task("pending", None), "w1", false, false, false, 0).unwrap(), Deletion::Soft);
    assert_eq!(plan_delete(&task("pending", None), "w1", true, true, false, 3).unwrap(), Deletion::HardWithDescendants);
    assert_eq!(plan_delete(&task("pending", None), "w1", true, false, false, 3).unwrap(), Deletion::SoftWithDescendants);
    assert_eq!(plan_delete(&task("pending", None), "w1", false, true, false, 0).unwrap(), Deletion::Hard);
    assert_eq!(
        plan_delete(&task("pending", None), "w1", false, false, false, 2).unwrap_err().message(),
        "Task has children; use cascade=true to delete"
    );
    assert_eq!(
        plan_delete(&task("pending", Some("w2")), "w1", false, false, false, 0).unwrap_err().message(),
        "Task is claimed by worker 'w2'. Use force=true to override."
    );
    assert!(plan_delete(&task("pending", Some("w2")), "w1", false, false, true, 0).is_ok());
}

#[test]
fn worked_time_of_a_state_change() {
    assert_eq!(transition_elapsed(&Some(("in_progress".to_string(), 100)), &config(), 250), 150);
    assert_eq!(transition_elapsed(&Some(("pending".to_string(), 100)), &config(), 250), 0);
    assert_eq!(transition_elapsed(&None, &config(), 250), 0);
}

#[test]
fn claim_limit_is_checked() {
    let c = UpdateContext { agent_claims: 2, agent_max_claims: 2, ..ctx() };
    let err = plan_task_update(&task("pending", None), &to_status("in_progress"), "w1", &None, false, &config(), &c, 1)
        .unwrap_err();
    assert_eq!(err.message(), "Claim limit reached: agent holds 2 of 2 allowed tasks");
    let c = UpdateContext { agent_claims: 1, agent_max_claims: 2, ..ctx() };
    assert!(plan_task_update(&task("pending", None), &to_status("in_progress"), "w1", &None, false, &config(), &c, 1).is_ok());
    let err = plan_claim(&task("pending", None), "w1", &config(), &Some(vec![]), 3, 3, 1).unwrap_err();
    assert_eq!(err.message(), "Claim limit reached: agent holds 3 of 3 allowed tasks");
    assert!(plan_claim(&task("pending", None), "w1", &config(), &Some(vec![]), 0, i32::MAX, 1).is_ok());
}
