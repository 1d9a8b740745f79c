use task_graph::activity::{activity_sources, file_event, page_slice, sort_newest_first, transition_filters};
use task_graph::dashboard::{ActivityEvent, ActivityEventType, TaskListQuery};

fn ev(id: i64, ts: i64) -> ActivityEvent {
    ActivityEvent {
        id,
        event_type: ActivityEventType::TaskTransition,
        timestamp: ts,
        worker_id: None,
        task_id: Some(format!("t{}", id)),
        file_path: None,
        from_status: None,
        to_status: Some("pending".to_string()),
        reason: None,
    }
}

fn ids(v: &[ActivityEvent]) -> Vec<i64> {
    v.iter().map(|e| e.id).collect()
}

#[test]
fn merged_feed_is_newest_first_and_stable() {
    let events = vec![ev(1, 100), ev(2, 300), ev(1_000_000_001, 200), ev(3, 300), ev(1_000_000_002, 100)];
    let sorted = sort_newest_first(&events);
    assert_eq!(ids(&sorted), vec![2, 3, 1_000_000_001, 1, 1_000_000_002]);
}

#[test]
fn pages() {
    let events: Vec<ActivityEvent> = (0..7).map(|i| ev(i, 100 - i)).collect();
    assert_eq!(ids(&page_slice(&events, 1, 3)), vec![0, 1, 2]);
    assert_eq!(ids(&page_slice(&events, 3, 3)), vec![6]);
    assert!(page_slice(&events, 4, 3).is_empty());
    assert!(page_slice(&events, 0, 3).is_empty());
    assert_eq!(ids(&page_slice(&events, 1, -1)), vec![0, 1, 2, 3, 4, 5, 6]);
}

#[test]
fn sources_of_a_query() {
    let all = activity_sources(None, None, None);
    assert!(all.transitions && all.count_files && all.list_files);
    let only_files = activity_sources(Some("file"), None, Some(""));
    assert!(!only_files.transitions && only_files.count_files && only_files.list_files);
    let by_task = activity_sources(None, None, Some("t1"));
    assert!(by_task.transitions && by_task.count_files && !by_task.list_files);
    let by_status = activity_sources(None, Some("done"), None);
    assert!(by_status.transitions && !by_status.count_files && !by_status.list_files);
}

#[test]
fn file_events_and_filters() {
    let e = file_event(5, "a.rs".to_string(), "w1".to_string(), "claimed", None, 9);
    assert_eq!(e.id, 1_000_000_005);
    assert_eq!(e.event_type, ActivityEventType::FileClaim);
    let e = file_event(6, "a.rs".to_string(), "w1".to_string(), "released", None, 9);
    assert_eq!(e.event_type, ActivityEventType::FileRelease);
    let (sql, params) = transition_filters(Some("done"), None, Some("abc"));
    assert_eq!(sql, " AND status = ?1 AND task_id LIKE '%' || ?2 || '%'");
    assert_eq!(params, vec!["done".to_string(), "abc".to_string()]);
    let (sql, params) = transition_filters(Some(""), Some("w"), None);
    assert_eq!(sql, " AND worker_id = ?1");
    assert_eq!(params, vec!["w".to_string()]);
}

#[test]
fn task_list_order_clauses() {
    let q = |by: &str, order: &str| TaskListQuery { sort_by: by.to_string(), sort_order: order.to_string(), ..Default::default() };
    assert_eq!(q("priority", "asc").order_clause(), " ORDER BY t.priority ASC, t.created_at DESC");
    assert_eq!(q("priority", "x").order_clause(), " ORDER BY t.priority DESC, t.created_at DESC");
    assert_eq!(q("created_at", "asc").order_clause(), " ORDER BY t.created_at ASC");
    assert_eq!(q("updated", "desc").order_clause(), " ORDER BY t.updated_at DESC");
    assert_eq!(q("updated", "sideways").order_clause(), " ORDER BY t.priority DESC, t.created_at DESC");
}

#[test]
fn activity_total_pages_round_up_and_at_least_one() {
    assert_eq!(task_graph::activity::activity_total_pages(0, 20), 1);
    assert_eq!(task_graph::activity::activity_total_pages(20, 20), 1);
    assert_eq!(task_graph::activity::activity_total_pages(21, 20), 2);
    assert_eq!(task_graph::activity::activity_total_pages(95, 10), 10);
    assert_eq!(task_graph::activity::activity_total_pages(5, 0), i32::MAX);
    assert_eq!(task_graph::activity::activity_total_pages(0, 0), 1);
    assert_eq!(task_graph::activity::activity_total_pages(7, -2), 1);
}

#[test]
fn activity_page_merges_sources_then_pages_once() {
    let transitions = vec![ev(1, 50), ev(2, 30), ev(3, 10)];
    let files = vec![ev(4, 40), ev(5, 30), ev(6, 5)];
    let (page, pages) = task_graph::activity::activity_page(transitions, files, 6, 2, 2);
    assert_eq!(ids(&page), vec![2, 5]);
    assert_eq!(pages, 3);
}
