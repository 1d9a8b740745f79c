//! The worked time a state change adds, and statistics over the recorded
//! state transitions of a project.

use vstd::prelude::*;

verus! {

/// Statistics for project-wide state transitions. Each keyed list holds a
/// key at most once.
#[derive(Debug, Clone)]
pub struct ProjectStateStats {
    pub total_transitions: i64,
    pub total_time_ms: i64,
    pub tasks_affected: i64,
    pub transitions_by_status: Vec<(String, i64)>,
    pub time_by_status_ms: Vec<(String, i64)>,
    pub transitions_by_agent: Vec<(String, i64)>,
    pub time_by_agent_ms: Vec<(String, i64)>,
}

/// The time a state change adds to the task's worked time: the time since
/// the open transition began when its state is timed; nothing when there is
/// no open transition or its state is not timed.
pub fn transition_elapsed(open: &Option<(String, i64)>, states_config: &crate::types::StatesConfig, now: i64) -> (r: i64)
    requires
        open matches Some(o) ==> i64::MIN <= now - o.1 <= i64::MAX,
    ensures
        r == (match open {
            Some(o) => if crate::types::timed_state(*states_config, o.0@) { now - o.1 } else { 0 },
            None => 0,
        }),
{
    match open {
        Some(o) => {
            if states_config.is_timed_state(o.0.as_str()) {
                now - o.1
            } else {
                0
            }
        },
        None => 0,
    }
}

} // verus!
