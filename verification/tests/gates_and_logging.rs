use task_graph::gates::{evaluate_gates, GateCheckResult, GateDefinition, GateEnforcement};
use task_graph::logging::{logging_level_to_tracing, LogLevelFilter, LoggingLevel, TraceLevel};

fn gate(t: &str, e: GateEnforcement) -> GateDefinition {
    GateDefinition { gate_type: t.to_string(), enforcement: e, description: format!("need {}", t) }
}

#[test]
fn test_gate_check_result_status_pass() {
    let result = GateCheckResult { status: "pass".to_string(), unsatisfied_gates: vec![] };
    assert_eq!(result.status, "pass");
}

#[test]
fn gates_all_satisfied_pass() {
    let types = vec!["gate/tests".to_string(), "gate/commit".to_string()];
    let gates = vec![gate("gate/tests", GateEnforcement::Reject), gate("gate/commit", GateEnforcement::Warn)];
    let r = evaluate_gates(&types, &gates);
    assert_eq!(r.status, "pass");
    assert!(r.unsatisfied_gates.is_empty());
}

#[test]
fn gates_unsatisfied_reject_fails() {
    let types = vec!["gate/commit".to_string()];
    let gates = vec![
        gate("gate/tests", GateEnforcement::Reject),
        gate("gate/commit", GateEnforcement::Warn),
        gate("gate/review", GateEnforcement::Warn),
    ];
    let r = evaluate_gates(&types, &gates);
    assert_eq!(r.status, "fail");
    assert_eq!(r.unsatisfied_gates.len(), 2);
    assert_eq!(r.unsatisfied_gates[0].gate_type, "gate/tests");
    assert_eq!(r.unsatisfied_gates[1].gate_type, "gate/review");
    assert!(!r.unsatisfied_gates[0].satisfied);
    assert_eq!(r.unsatisfied_gates[1].description, "need gate/review");
}

#[test]
fn gates_unsatisfied_warn_and_allow() {
    let r = evaluate_gates(&[], &[gate("a", GateEnforcement::Allow), gate("b", GateEnforcement::Warn)]);
    assert_eq!(r.status, "warn");
    let r = evaluate_gates(&[], &[gate("a", GateEnforcement::Allow)]);
    assert_eq!(r.status, "pass");
    assert_eq!(r.unsatisfied_gates.len(), 1);
    assert_eq!(r.unsatisfied_gates[0].enforcement, GateEnforcement::Allow);
}

#[test]
fn test_level_filter() {
    let filter = LogLevelFilter::new(LoggingLevel::Warning);
    assert!(!filter.should_log(LoggingLevel::Debug));
    assert!(!filter.should_log(LoggingLevel::Info));
    assert!(!filter.should_log(LoggingLevel::Notice));
    assert!(filter.should_log(LoggingLevel::Warning));
    assert!(filter.should_log(LoggingLevel::Error));
    assert!(filter.should_log(LoggingLevel::Critical));
    assert!(filter.should_log(LoggingLevel::Alert));
    assert!(filter.should_log(LoggingLevel::Emergency));
}

#[test]
fn test_level_filter_update() {
    let mut filter = LogLevelFilter::new(LoggingLevel::Debug);
    assert!(filter.should_log(LoggingLevel::Debug));
    filter.set(LoggingLevel::Error);
    assert!(!filter.should_log(LoggingLevel::Debug));
    assert!(!filter.should_log(LoggingLevel::Warning));
    assert!(filter.should_log(LoggingLevel::Error));
}

#[test]
fn test_level_roundtrip() {
    for level in [
        LoggingLevel::Debug,
        LoggingLevel::Info,
        LoggingLevel::Notice,
        LoggingLevel::Warning,
        LoggingLevel::Error,
        LoggingLevel::Critical,
        LoggingLevel::Alert,
        LoggingLevel::Emergency,
    ] {
        let filter = LogLevelFilter::new(level);
        assert_eq!(filter.get(), level);
    }
}

#[test]
fn default_filter_logs_everything() {
    let filter = LogLevelFilter::default();
    assert_eq!(filter.get(), LoggingLevel::Debug);
    assert!(filter.should_log(LoggingLevel::Debug));
}

#[test]
fn test_logging_level_to_tracing() {
    assert_eq!(logging_level_to_tracing(LoggingLevel::Debug), TraceLevel::Debug);
    assert_eq!(logging_level_to_tracing(LoggingLevel::Info), TraceLevel::Info);
    assert_eq!(logging_level_to_tracing(LoggingLevel::Notice), TraceLevel::Info);
    assert_eq!(logging_level_to_tracing(LoggingLevel::Warning), TraceLevel::Warn);
    assert_eq!(logging_level_to_tracing(LoggingLevel::Error), TraceLevel::Error);
    assert_eq!(logging_level_to_tracing(LoggingLevel::Critical), TraceLevel::Error);
    assert_eq!(logging_level_to_tracing(LoggingLevel::Alert), TraceLevel::Error);
    assert_eq!(logging_level_to_tracing(LoggingLevel::Emergency), TraceLevel::Error);
}
