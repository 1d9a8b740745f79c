use task_graph::dashboard::TaskListQuery;
use task_graph::task_list::{is_white_space, tag_list};

fn strings(v: &[&str]) -> Vec<String> {
    v.iter().map(|s| s.to_string()).collect()
}

#[test]
fn tag_lists() {
    assert_eq!(tag_list("a, b ,,c"), strings(&["a", "b", "c"]));
    assert_eq!(tag_list("  "), Vec::<String>::new());
    assert_eq!(tag_list(""), Vec::<String>::new());
    assert_eq!(tag_list(" x y \t"), strings(&["x y"]));
    assert_eq!(tag_list("\u{3000}ä,ö\u{a0}"), strings(&["ä", "ö"]));
}

#[test]
fn white_space_matches_std() {
    for u in 0u32..0x3100 {
        if let Some(c) = char::from_u32(u) {
            assert_eq!(is_white_space(c), c.is_whitespace(), "{:x}", u);
        }
    }
}

#[test]
fn task_list_filters() {
    let q = TaskListQuery {
        status: Some("pending".to_string()),
        owner: Some("".to_string()),
        parent: Some("p1".to_string()),
        tags: Some("rust, db".to_string()),
        sort_by: "priority".to_string(),
        sort_order: "desc".to_string(),
        page: 2,
        limit: 10,
        ..Default::default()
    };
    let (sql, params) = q.filters();
    assert_eq!(
        sql,
        " AND t.status = ?1 AND t.id IN (SELECT to_task_id FROM dependencies WHERE from_task_id = ?2 AND dep_type = 'contains') AND (t.tags LIKE '%' || ?3 || '%' OR t.tags LIKE '%' || ?4 || '%')"
    );
    assert_eq!(params, strings(&["pending", "p1", "rust", "db"]));
    assert_eq!(q.limit_clause(), " LIMIT 10 OFFSET 10");
    let empty = TaskListQuery::default();
    let (sql, params) = empty.filters();
    assert_eq!(sql, "");
    assert!(params.is_empty());
}
