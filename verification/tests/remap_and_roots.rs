use task_graph::export::Snapshot;
use task_graph::ids::IdsConfig;
use task_graph::import::{remap_snapshot, remap_snapshot_with, snapshot_root_task_ids};
use task_graph::json::Json;

fn s(v: &str) -> Json {
    Json::Str(v.to_string())
}

fn obj(fields: Vec<(&str, Json)>) -> Json {
    Json::Object(fields.into_iter().map(|(k, v)| (k.to_string(), v)).collect())
}

fn task_row(id: &str, title: &str) -> Json {
    obj(vec![
        ("id", s(id)),
        ("title", s(title)),
        ("description", Json::Null),
        ("status", s("pending")),
        ("priority", s("5")),
        ("worker_id", Json::Null),
        ("tags", s("[]")),
        ("cost_usd", Json::Float("0.0".to_string())),
        ("created_at", Json::Int(1700000000000)),
        ("updated_at", Json::Int(1700000000000)),
    ])
}

fn ids_config() -> IdsConfig {
    IdsConfig { task_id_words: 3, agent_id_words: 4 }
}

fn find<'a>(pairs: &'a [(String, String)], old: &str) -> &'a str {
    pairs.iter().find(|(o, _)| o == old).map(|(_, n)| n.as_str()).unwrap()
}

fn field<'a>(row: &'a Json, key: &str) -> &'a str {
    row.get_str(key).unwrap()
}

#[test]
fn test_remap_snapshot_generates_new_ids() {
    let mut snapshot = Snapshot::new();
    snapshot.tables.insert(
        "tasks".to_string(),
        vec![task_row("old-task-1", "Task 1"), task_row("old-task-2", "Task 2")],
    );
    let (remapped, id_map) = remap_snapshot(&snapshot, &ids_config()).unwrap();
    assert_eq!(id_map.len(), 2);
    assert_ne!(find(&id_map, "old-task-1"), "old-task-1");
    assert_ne!(find(&id_map, "old-task-2"), "old-task-2");
    assert_ne!(find(&id_map, "old-task-1"), find(&id_map, "old-task-2"));
    let tasks = remapped.tables.get("tasks").unwrap();
    assert_eq!(field(&tasks[0], "id"), find(&id_map, "old-task-1"));
    assert_eq!(field(&tasks[1], "id"), find(&id_map, "old-task-2"));
}

#[test]
fn test_remap_snapshot_remaps_dependencies() {
    let mut snapshot = Snapshot::new();
    snapshot.tables.insert("tasks".to_string(), vec![task_row("parent", "Parent"), task_row("child", "Child")]);
    snapshot.tables.insert(
        "dependencies".to_string(),
        vec![
            obj(vec![("from_task_id", s("parent")), ("to_task_id", s("child")), ("dep_type", s("contains"))]),
            obj(vec![("from_task_id", s("child")), ("to_task_id", s("parent")), ("dep_type", s("blocks"))]),
        ],
    );
    let (remapped, id_map) = remap_snapshot(&snapshot, &ids_config()).unwrap();
    let new_parent = find(&id_map, "parent");
    let new_child = find(&id_map, "child");
    let deps = remapped.tables.get("dependencies").unwrap();
    assert_eq!(deps.len(), 2);
    assert_eq!(field(&deps[0], "from_task_id"), new_parent);
    assert_eq!(field(&deps[0], "to_task_id"), new_child);
    assert_eq!(field(&deps[0], "dep_type"), "contains");
    assert_eq!(field(&deps[1], "from_task_id"), new_child);
    assert_eq!(field(&deps[1], "to_task_id"), new_parent);
    assert_eq!(field(&deps[1], "dep_type"), "blocks");
}

#[test]
fn test_remap_snapshot_remaps_attachments_and_tags() {
    let mut snapshot = Snapshot::new();
    snapshot.tables.insert("tasks".to_string(), vec![task_row("my-task", "My Task")]);
    snapshot.tables.insert(
        "attachments".to_string(),
        vec![obj(vec![
            ("task_id", s("my-task")),
            ("attachment_type", s("note")),
            ("sequence", Json::Int(1)),
            ("name", s("test-note")),
            ("mime_type", s("text/plain")),
            ("content", s("Hello world")),
            ("file_path", Json::Null),
            ("created_at", Json::Int(1700000000000)),
        ])],
    );
    snapshot.tables.insert("task_tags".to_string(), vec![obj(vec![("task_id", s("my-task")), ("tag", s("rust"))])]);
    snapshot.tables.insert(
        "task_needed_tags".to_string(),
        vec![obj(vec![("task_id", s("my-task")), ("tag", s("implementer"))])],
    );
    snapshot.tables.insert(
        "task_wanted_tags".to_string(),
        vec![obj(vec![("task_id", s("my-task")), ("tag", s("code"))])],
    );
    snapshot.tables.insert(
        "task_sequence".to_string(),
        vec![obj(vec![
            ("id", Json::Int(1)),
            ("task_id", s("my-task")),
            ("worker_id", Json::Null),
            ("status", s("pending")),
            ("phase", Json::Null),
            ("reason", Json::Null),
            ("timestamp", Json::Int(1700000000000)),
            ("end_timestamp", Json::Null),
        ])],
    );
    let (remapped, id_map) = remap_snapshot(&snapshot, &ids_config()).unwrap();
    let new_id = find(&id_map, "my-task");
    for table in ["attachments", "task_tags", "task_needed_tags", "task_wanted_tags", "task_sequence"] {
        let rows = remapped.tables.get(table).unwrap();
        assert_eq!(field(&rows[0], "task_id"), new_id);
    }
}

#[test]
fn test_remap_snapshot_empty() {
    let snapshot = Snapshot::new();
    let (remapped, id_map) = remap_snapshot(&snapshot, &ids_config()).unwrap();
    assert!(id_map.is_empty());
    assert!(remapped.tables.is_empty());
}

#[test]
fn remap_with_given_ids_keeps_external_references() {
    let mut snapshot = Snapshot::new();
    snapshot.tables.insert("tasks".to_string(), vec![task_row("a", "A")]);
    snapshot.tables.insert(
        "dependencies".to_string(),
        vec![obj(vec![("from_task_id", s("a")), ("to_task_id", s("outside")), ("dep_type", s("blocks"))])],
    );
    let (remapped, id_map) = remap_snapshot_with(&snapshot, &vec!["new-a".to_string()]);
    assert_eq!(id_map, vec![("a".to_string(), "new-a".to_string())]);
    let deps = remapped.tables.get("dependencies").unwrap();
    assert_eq!(field(&deps[0], "from_task_id"), "new-a");
    assert_eq!(field(&deps[0], "to_task_id"), "outside");
    let tasks = remapped.tables.get("tasks").unwrap();
    assert_eq!(field(&tasks[0], "title"), "A");
}

#[test]
fn remap_with_duplicate_old_ids_maps_to_last_new_id() {
    let mut snapshot = Snapshot::new();
    snapshot.tables.insert("tasks".to_string(), vec![task_row("a", "A1"), task_row("a", "A2")]);
    snapshot.tables.insert("task_tags".to_string(), vec![obj(vec![("task_id", s("a")), ("tag", s("t"))])]);
    let (remapped, id_map) = remap_snapshot_with(&snapshot, &vec!["x".to_string(), "y".to_string()]);
    assert_eq!(id_map, vec![("a".to_string(), "y".to_string())]);
    let tasks = remapped.tables.get("tasks").unwrap();
    assert_eq!(field(&tasks[0], "id"), "y");
    assert_eq!(field(&tasks[1], "id"), "y");
    let tags = remapped.tables.get("task_tags").unwrap();
    assert_eq!(field(&tags[0], "task_id"), "y");
}

#[test]
fn test_snapshot_root_task_ids_all_roots() {
    let mut snapshot = Snapshot::new();
    snapshot.tables.insert(
        "tasks".to_string(),
        vec![obj(vec![("id", s("a")), ("title", s("A"))]), obj(vec![("id", s("b")), ("title", s("B"))])],
    );
    let roots = snapshot_root_task_ids(&snapshot);
    assert_eq!(roots.len(), 2);
    assert!(roots.contains(&"a".to_string()));
    assert!(roots.contains(&"b".to_string()));
}

#[test]
fn test_snapshot_root_task_ids_with_contains() {
    let mut snapshot = Snapshot::new();
    snapshot.tables.insert(
        "tasks".to_string(),
        vec![obj(vec![("id", s("a")), ("title", s("A"))]), obj(vec![("id", s("b")), ("title", s("B"))])],
    );
    snapshot.tables.insert(
        "dependencies".to_string(),
        vec![obj(vec![("from_task_id", s("a")), ("to_task_id", s("b")), ("dep_type", s("contains"))])],
    );
    let roots = snapshot_root_task_ids(&snapshot);
    assert_eq!(roots.len(), 1);
    assert!(roots.contains(&"a".to_string()));
}

#[test]
fn test_snapshot_root_task_ids_non_contains_dep_ignored() {
    let mut snapshot = Snapshot::new();
    snapshot.tables.insert(
        "tasks".to_string(),
        vec![obj(vec![("id", s("a")), ("title", s("A"))]), obj(vec![("id", s("b")), ("title", s("B"))])],
    );
    snapshot.tables.insert(
        "dependencies".to_string(),
        vec![obj(vec![("from_task_id", s("a")), ("to_task_id", s("b")), ("dep_type", s("blocks"))])],
    );
    let roots = snapshot_root_task_ids(&snapshot);
    assert_eq!(roots.len(), 2);
}

#[test]
fn test_snapshot_root_task_ids_empty_snapshot() {
    let snapshot = Snapshot::new();
    let roots = snapshot_root_task_ids(&snapshot);
    assert!(roots.is_empty());
}

fn draw_list(v: &[&str]) -> Vec<String> {
    v.iter().map(|s| s.to_string()).collect()
}

#[test]
fn fresh_ids_take_first_unused_draw() {
    let draws = vec![draw_list(&["a"]), draw_list(&["a", "b"]), draw_list(&["a", "b", "c"])];
    assert_eq!(task_graph::import::pick_fresh_ids(&draws), Ok(draw_list(&["a", "b", "c"])));
}

#[test]
fn fresh_ids_fail_after_all_retries_clash() {
    let message = "Failed to generate unique ID after 100 attempts. Consider increasing ids.task_id_words in config.".to_string();
    let mut clashing = vec!["a".to_string(); 101];
    clashing.push("z".to_string());
    let draws = vec![draw_list(&["a"]), clashing];
    assert_eq!(task_graph::import::pick_fresh_ids(&draws), Err(message));

    let mut last_retry = vec!["a".to_string(); 100];
    last_retry.push("y".to_string());
    let ok = vec![draw_list(&["a"]), last_retry];
    assert_eq!(task_graph::import::pick_fresh_ids(&ok), Ok(draw_list(&["a", "y"])));
}
