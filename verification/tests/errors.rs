use task_graph::error::{ErrorCode, ToolError, ToolWarning, WarningCode};

#[test]
fn tool_error_constructors() {
    let e = ToolError::deps_not_satisfied(&["a".to_string(), "b".to_string()]);
    assert_eq!(e.code, ErrorCode::DependencyNotSatisfied);
    assert_eq!(e.message, "Task blocked by: a, b");
    let e = ToolError::gates_not_satisfied("working", &["gate/tests".to_string()]);
    assert_eq!(e.code, ErrorCode::GatesNotSatisfied);
    assert_eq!(e.message, "Cannot exit 'working': unsatisfied gates: gate/tests");
    let e = ToolError::invalid_path("../x", "escapes root");
    assert_eq!(e.code, ErrorCode::InvalidPath);
    assert_eq!(e.message, "Invalid path '../x': escapes root");
    let e = ToolError::unknown_tool("frob");
    assert_eq!(e.to_display_string(), "Unknown tool: frob");
}

#[test]
fn tool_error_builders() {
    let e = ToolError::new(ErrorCode::InvalidFieldValue, "bad").with_field("priority").with_details("must be 0-10");
    assert_eq!(e.code, ErrorCode::InvalidFieldValue);
    assert_eq!(e.message, "bad");
    assert_eq!(e.field, Some("priority".to_string()));
    assert_eq!(e.details, Some("must be 0-10".to_string()));
}

#[test]
fn tool_warning_builders() {
    let w = ToolWarning::new(WarningCode::UnknownTag, "hmm").with_field("tags").with_value("zzz");
    assert_eq!(w.code, WarningCode::UnknownTag);
    assert_eq!(w.field, Some("tags".to_string()));
    assert_eq!(w.value, Some("zzz".to_string()));
    assert_eq!(w.to_display_string(), "hmm");
}
