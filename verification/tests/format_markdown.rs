use task_graph::format::{
    format_attachments_markdown, format_scan_result_markdown, format_task_markdown, format_task_tree_markdown,
    format_tasks_markdown, format_workers_markdown, OutputFormat,
};
use task_graph::types::{AttachmentMeta, Priority, ScanResult, StateDefinition, StatesConfig, Task, TaskTree, WorkerInfo, PRIORITY_DEFAULT};

fn make_test_task(id: &str, title: &str, status: &str, priority: Priority, points: Option<i32>) -> Task {
    Task {
        id: id.to_string(),
        title: title.to_string(),
        description: None,
        status: status.to_string(),
        phase: None,
        priority,
        owner_agent: None,
        claimed_at: None,
        agent_tags_all: vec![],
        agent_tags_any: vec![],
        tags: vec![],
        points,
        time_estimate_ms: None,
        time_actual_ms: None,
        started_at: None,
        completed_at: None,
        current_thought: None,
        created_at: 0,
        updated_at: 0,
    }
}

#[test]
fn test_format_task_tree_markdown_root_only() {
    let tree = TaskTree { task: make_test_task("root-1", "Root Task", "pending", 8, Some(5)), children: vec![] };
    let result = format_task_tree_markdown(&tree);
    assert!(result.contains("# Root Task"));
    assert!(result.contains("PENDING"));
    assert!(result.contains("P8"));
    assert!(result.contains("5 pts"));
}

#[test]
fn test_format_task_tree_markdown_with_children() {
    let tree = TaskTree {
        task: make_test_task("root-1", "API Refactoring Sprint", "in_progress", 8, Some(16)),
        children: vec![
            TaskTree {
                task: make_test_task("child-1", "Tier 1: Prerequisites", "pending", 8, Some(9)),
                children: vec![
                    TaskTree {
                        task: make_test_task("grandchild-1", "Refactor connect", "completed", PRIORITY_DEFAULT, Some(3)),
                        children: vec![],
                    },
                    TaskTree {
                        task: make_test_task("grandchild-2", "Merge claim/release", "pending", PRIORITY_DEFAULT, Some(5)),
                        children: vec![],
                    },
                ],
            },
            TaskTree {
                task: make_test_task("child-2", "Tier 2: Navigation", "pending", PRIORITY_DEFAULT, Some(7)),
                children: vec![],
            },
        ],
    };
    let result = format_task_tree_markdown(&tree);
    assert!(result.contains("# API Refactoring Sprint"));
    assert!(result.contains("IN_PROGRESS"));
    assert!(result.contains("├── Tier 1: Prerequisites"));
    assert!(result.contains("└── Tier 2: Navigation"));
    assert!(result.contains("│   ├── Refactor connect"));
    assert!(result.contains("│   └── Merge claim/release"));
}

#[test]
fn test_format_task_tree_markdown_deep_nesting() {
    let tree = TaskTree {
        task: make_test_task("root", "Root", "pending", PRIORITY_DEFAULT, None),
        children: vec![TaskTree {
            task: make_test_task("l1", "Level 1", "pending", PRIORITY_DEFAULT, None),
            children: vec![TaskTree {
                task: make_test_task("l2", "Level 2", "pending", PRIORITY_DEFAULT, None),
                children: vec![TaskTree {
                    task: make_test_task("l3", "Level 3", "pending", PRIORITY_DEFAULT, None),
                    children: vec![],
                }],
            }],
        }],
    };
    let result = format_task_tree_markdown(&tree);
    assert!(result.contains("└── Level 1"));
    assert!(result.contains("    └── Level 2"));
    assert!(result.contains("        └── Level 3"));
}

#[test]
fn task_tree_markdown_exact_text() {
    let mut root = make_test_task("r", "Root", "in_progress", PRIORITY_DEFAULT, None);
    root.owner_agent = Some("alice".to_string());
    root.description = Some("Do it".to_string());
    let tree = TaskTree {
        task: root,
        children: vec![
            TaskTree { task: make_test_task("a", "A", "pending", 2, Some(3)), children: vec![] },
            TaskTree { task: make_test_task("b", "B", "done", PRIORITY_DEFAULT, None), children: vec![] },
        ],
    };
    assert_eq!(
        format_task_tree_markdown(&tree),
        "# Root\n_IN_PROGRESS, @alice_\n\nDo it\n\n├── A [pending, P2, 3 pts]\n└── B [done]\n"
    );
}

#[test]
fn task_markdown_exact_text() {
    let mut task = make_test_task("abc", "Write docs", "pending", 7, Some(2));
    task.owner_agent = Some("bob".to_string());
    task.current_thought = Some("thinking".to_string());
    task.description = Some("Details".to_string());
    let md = format_task_markdown(&task, &["x".to_string(), "y".to_string()]);
    assert_eq!(
        md,
        "## Task: Write docs\n- **id**: `abc`\n- **status**: pending\n- **priority**: 7\n- **owner**: bob\n- **blocked_by**: `x`, `y`\n- **points**: 2\n- **thought**: thinking\n\n### Description\nDetails\n"
    );
    let plain = format_task_markdown(&make_test_task("t", "T", "done", -1, None), &[]);
    assert_eq!(plain, "## Task: T\n- **id**: `t`\n- **status**: done\n- **priority**: -1\n");
}

fn state(name: &str, exits: &[&str], timed: bool) -> StateDefinition {
    StateDefinition { name: name.to_string(), exits: exits.iter().map(|e| e.to_string()).collect(), timed }
}

#[test]
fn tasks_markdown_groups_by_state() {
    let states = StatesConfig {
        initial: "pending".to_string(),
        blocking_states: vec!["pending".to_string(), "in_progress".to_string()],
        states: vec![
            state("pending", &["in_progress", "cancelled"], false),
            state("in_progress", &["completed", "pending"], true),
            state("completed", &[], false),
            state("cancelled", &[], false),
        ],
    };
    let mut busy = make_test_task("task-in-progress-1", "Busy", "in_progress", 1, None);
    busy.owner_agent = Some("w1".to_string());
    let waiting = make_test_task("p1", "Waiting", "pending", 0, None);
    let done = make_test_task("c1", "Done", "completed", 0, None);
    let tasks = vec![
        (done, vec![]),
        (busy, vec!["p1".to_string()]),
        (waiting, vec![]),
    ];
    let md = format_tasks_markdown(&tasks, &states);
    assert_eq!(
        md,
        "# Tasks (3)\n\n## In Progress\n\n- !!! Busy `task-in-` @w1 [blocked by 1]\n\n## Pending\n\n- Waiting `p1`\n\n## Completed\n\n- Done `c1`\n\n"
    );
}

#[test]
fn workers_markdown_exact_text() {
    let w = WorkerInfo {
        id: "w1".to_string(),
        tags: vec!["rust".to_string(), "docs".to_string()],
        max_claims: 5,
        claim_count: 2,
        current_thought: Some("coding".to_string()),
        registered_at: 0,
        last_heartbeat: 0,
        last_status: None,
        last_phase: None,
        last_task_id: None,
        workflow: None,
    };
    assert_eq!(
        format_workers_markdown(&[w]),
        "# Workers (1)\n\n## w1\n- **id**: `w1`\n- **tags**: rust, docs\n- **claims**: 2/5\n- **doing**: coding\n\n"
    );
    assert_eq!(format_workers_markdown(&[]), "# Workers (0)\n\n");
}

#[test]
fn attachments_markdown_exact_text() {
    assert_eq!(format_attachments_markdown(&[]), "# Attachments (0)\n\n_No attachments found._\n");
    let a = AttachmentMeta {
        task_id: "t".to_string(),
        attachment_type: "note".to_string(),
        order_index: 3,
        name: "notes".to_string(),
        mime_type: "text/plain".to_string(),
        file_path: Some("a.txt".to_string()),
        created_at: -1500,
    };
    assert_eq!(
        format_attachments_markdown(&[a]),
        "# Attachments (1)\n\n## notes\n- **index**: 3\n- **mime**: text/plain\n- **file**: `a.txt`\n- **created**: -1\n\n"
    );
}

#[test]
fn scan_result_markdown_exact_text() {
    let root = make_test_task("root-task-id", "Root", "pending", 5, None);
    let mut before = make_test_task("before-1", "Prev", "completed", 0, Some(3));
    before.owner_agent = Some("w".to_string());
    let result = ScanResult { root, before: vec![before], after: vec![], above: vec![], below: vec![] };
    assert_eq!(
        format_scan_result_markdown(&result),
        [
            "# Scan: Root\n- **id**: `root-task-id`\n- **status**: pending\n- **priority**: 5\n",
            "\n## Before (1 tasks)\n",
            "_Tasks that block this ",
            "task via blocks/follows dependencies_\n\n",
            "- Prev `before-1` [completed] @w (3 pts)\n",
            "\n---\n**Total related tasks**: 1\n",
        ]
        .concat()
    );
}

#[test]
fn output_format_from_str_ignores_case() {
    assert_eq!(OutputFormat::from_str("JSON"), Some(OutputFormat::Json));
    assert_eq!(OutputFormat::from_str("Markdown"), Some(OutputFormat::Markdown));
    assert_eq!(OutputFormat::from_str("md"), Some(OutputFormat::Markdown));
    assert_eq!(OutputFormat::from_str("xml"), None);
    assert_eq!(OutputFormat::default(), OutputFormat::Json);
}

#[test]
fn titles_from_descriptions_are_cut() {
    assert_eq!(task_graph::format::truncate_title("Fix login"), "Fix login");
    let long: String = "é".repeat(120);
    let t = task_graph::format::truncate_title(&long);
    assert_eq!(t.chars().count(), 100);
    assert!(t.ends_with("..."));
    assert_eq!(task_graph::types::clamp_priority(11), 10);
    assert_eq!(task_graph::types::clamp_priority(-1), 0);
    assert_eq!(task_graph::types::clamp_priority(7), 7);
}
