use task_graph::deps::check_add_dependency;

fn types() -> Vec<String> {
    vec!["blocks".to_string(), "contains".to_string()]
}

fn edges(pairs: &[(&str, &str)]) -> Vec<(String, String)> {
    pairs.iter().map(|(a, b)| (a.to_string(), b.to_string())).collect()
}

#[test]
fn dependency_check_refuses_unknown_type() {
    let r = check_add_dependency("a", "b", "relates", &types(), false, None, &edges(&[]));
    assert_eq!(r, Err("Invalid dependency type 'relates'. Valid types: [\"blocks\", \"contains\"]".to_string()));
}

#[test]
fn dependency_check_refuses_second_parent() {
    let r = check_add_dependency("p2", "c", "contains", &types(), true, Some("p1"), &edges(&[("p1", "c")]));
    assert_eq!(r, Err("Task c already has parent p1".to_string()));
}

#[test]
fn dependency_check_accepts_same_parent_again() {
    let r = check_add_dependency("p1", "c", "contains", &types(), true, Some("p1"), &edges(&[("p1", "c")]));
    assert_eq!(r, Ok(()));
}

#[test]
fn dependency_check_horizontal_ignores_parent() {
    let r = check_add_dependency("x", "c", "blocks", &types(), false, Some("p1"), &edges(&[]));
    assert_eq!(r, Ok(()));
}

#[test]
fn dependency_check_refuses_cycle() {
    let r = check_add_dependency("c", "a", "blocks", &types(), false, None, &edges(&[("a", "b"), ("b", "c")]));
    assert_eq!(r, Err("Adding this dependency would create a cycle".to_string()));
    let own = check_add_dependency("a", "a", "blocks", &types(), false, None, &edges(&[]));
    assert_eq!(own, Err("Adding this dependency would create a cycle".to_string()));
}
