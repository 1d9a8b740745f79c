use task_graph::search::search_limits;
use task_graph::stats::tasks_by_status;

fn count(entries: &[(String, i64)], name: &str) -> Option<i64> {
    entries.iter().find(|(n, _)| n == name).map(|(_, c)| *c)
}

#[test]
fn stats_list_every_state_with_zero_default() {
    let states = vec!["pending".to_string(), "in_progress".to_string(), "completed".to_string()];
    let counted = vec![("pending".to_string(), 4), ("legacy".to_string(), 1)];
    let r = tasks_by_status(&states, &counted);
    assert_eq!(r.len(), 4);
    assert_eq!(count(&r, "pending"), Some(4));
    assert_eq!(count(&r, "in_progress"), Some(0));
    assert_eq!(count(&r, "completed"), Some(0));
    assert_eq!(count(&r, "legacy"), Some(1));
}

#[test]
fn stats_list_each_state_once() {
    let states = vec!["a".to_string(), "a".to_string()];
    let counted = vec![("a".to_string(), 2), ("a".to_string(), 3)];
    let r = tasks_by_status(&states, &counted);
    assert_eq!(r, vec![("a".to_string(), 3)]);
}

#[test]
fn search_limit_defaults_and_caps() {
    assert_eq!(search_limits(None), (20, 60));
    assert_eq!(search_limits(Some(7)), (7, 21));
    assert_eq!(search_limits(Some(500)), (100, 300));
}

#[test]
fn attachment_matches_join_results_or_start_new_ones() {
    let results = vec!["t1".to_string(), "t2".to_string()];
    let tasks = vec!["t2".to_string(), "t9".to_string(), "t3".to_string(), "t3".to_string(), "t1".to_string()];
    let found = vec![true, false, true, false, true];
    let (ids, assign) = task_graph::search::group_attachment_matches(&results, &tasks, &found);
    assert_eq!(ids, vec!["t1", "t2", "t3"]);
    assert_eq!(assign, vec![Some(1), None, Some(2), Some(2), Some(0)]);
}
