//! Records shown by the web dashboard: task and worker summaries, activity
//! events, file marks, metrics and the dependency graph.

use vstd::prelude::*;

verus! {

/// Simple task info for dashboard display.
#[derive(Debug, Clone)]
pub struct DashboardTask {
    pub id: String,
    pub title: Option<String>,
    pub status: String,
    pub priority: i32,
}

/// Extended task info for task list view.
#[derive(Debug, Clone)]
pub struct TaskListItem {
    pub id: String,
    pub title: Option<String>,
    pub status: String,
    pub priority: i32,
    pub worker_id: Option<String>,
    pub tags: String,
    pub created_at: i64,
    pub updated_at: i64,
}

/// Query parameters for task list.
#[derive(Debug, Clone, Default)]
pub struct TaskListQuery {
    pub status: Option<String>,
    pub phase: Option<String>,
    pub tags: Option<String>,
    pub parent: Option<String>,
    pub owner: Option<String>,
    pub sort_by: String,
    pub sort_order: String,
    pub page: i32,
    pub limit: i32,
    /// Whether to filter to timed states only.
    pub timed_filter: Option<bool>,
    /// List of timed state names to filter on when timed_filter is Some(true).
    pub timed_states: Vec<String>,
}

/// Result of task list query with pagination info.
#[derive(Debug, Clone)]
pub struct TaskListResult {
    pub tasks: Vec<TaskListItem>,
    pub total: i64,
    pub page: i32,
    pub limit: i32,
    pub total_pages: i32,
}

/// Type of activity event.
#[derive(Debug, Clone, Copy, PartialEq, Eq, Structural)]
pub enum ActivityEventType {
    TaskTransition,
    FileClaim,
    FileRelease,
}

impl ActivityEventType {
    /// The event type's name in the activity feed.
    pub fn as_str(&self) -> (r: &'static str)
        ensures
            r@ == match *self {
                ActivityEventType::TaskTransition => "transition"@,
                ActivityEventType::FileClaim => "claim"@,
                ActivityEventType::FileRelease => "release"@,
            },
    {
        match self {
            ActivityEventType::TaskTransition => "transition",
            ActivityEventType::FileClaim => "claim",
            ActivityEventType::FileRelease => "release",
        }
    }
}

/// Represents a single activity event for the activity feed.
#[derive(Debug, Clone)]
pub struct ActivityEvent {
    pub id: i64,
    pub event_type: ActivityEventType,
    pub timestamp: i64,
    pub worker_id: Option<String>,
    pub task_id: Option<String>,
    pub file_path: Option<String>,
    pub from_status: Option<String>,
    pub to_status: Option<String>,
    pub reason: Option<String>,
}

/// Query parameters for activity list.
#[derive(Debug, Clone, Default)]
pub struct ActivityListQuery {
    pub event_type: Option<String>,
    pub status: Option<String>,
    pub worker: Option<String>,
    pub task: Option<String>,
    pub page: i32,
    pub limit: i32,
}

/// Result of activity list query with pagination.
#[derive(Debug, Clone)]
pub struct ActivityListResult {
    pub events: Vec<ActivityEvent>,
    pub total: i64,
    pub page: i32,
    pub limit: i32,
    pub total_pages: i32,
}

/// Activity statistics for the dashboard.
#[derive(Debug, Clone)]
pub struct ActivityStats {
    pub total_events_24h: i64,
    pub transitions_24h: i64,
    pub file_events_24h: i64,
    pub active_workers: i64,
    /// Event counts per status, each status once.
    pub events_by_status: Vec<(String, i64)>,
}

/// Simple worker info for dashboard display.
#[derive(Debug, Clone)]
pub struct DashboardWorker {
    pub id: String,
    pub current_thought: Option<String>,
    pub claim_count: i32,
}

/// Extended task info for worker detail view.
#[derive(Debug, Clone)]
pub struct WorkerClaimedTask {
    pub id: String,
    pub title: Option<String>,
    pub status: String,
    pub current_thought: Option<String>,
}

/// File mark info for dashboard display.
#[derive(Debug, Clone)]
pub struct DashboardFileMark {
    pub file_path: String,
    pub worker_id: String,
    pub reason: Option<String>,
    pub locked_at: i64,
    pub task_id: Option<String>,
}

/// File marks statistics for the dashboard.
#[derive(Debug, Clone)]
pub struct FileMarksStats {
    pub total_marks: i64,
    pub unique_agents: i64,
    pub with_tasks: i64,
    pub stale_marks: i64,
}

/// Velocity data point for the chart.
#[derive(Debug, Clone)]
pub struct VelocityDataPoint {
    pub period_label: String,
    pub completed_count: i64,
    pub total_points: i64,
}

/// Time in status statistics.
#[derive(Debug, Clone)]
pub struct TimeInStatusStats {
    pub status: String,
    pub avg_duration_ms: i64,
    pub total_duration_ms: i64,
    pub transition_count: i64,
}

/// Custom metrics aggregate.
#[derive(Debug, Clone)]
pub struct CustomMetricsAggregate {
    pub metrics: [i64; 8],
}

/// A node in the dependency graph representing a task.
#[derive(Debug, Clone)]
pub struct GraphNode {
    pub id: String,
    pub title: String,
    pub status: String,
    pub priority: i32,
}

/// An edge in the dependency graph representing a dependency.
#[derive(Debug, Clone)]
pub struct GraphEdge {
    pub from_id: String,
    pub to_id: String,
    pub dep_type: String,
}

/// The full dependency graph data.
#[derive(Debug, Clone)]
pub struct DependencyGraph {
    pub nodes: Vec<GraphNode>,
    pub edges: Vec<GraphEdge>,
}

/// Statistics about the dependency graph.
#[derive(Debug, Clone)]
pub struct DependencyGraphStats {
    pub total_tasks: i64,
    pub total_deps: i64,
    pub blocks_count: i64,
    pub follows_count: i64,
    pub contains_count: i64,
}

/// The ordering of the dashboard's task list: by priority (highest first
/// unless ascending is asked for, then newest), by creation or by update
/// time; priority order otherwise.
pub open spec fn task_list_order(sort_by: Seq<char>, sort_order: Seq<char>) -> Seq<char> {
    if sort_by == "priority"@ {
        if sort_order == "asc"@ {
            " ORDER BY t.priority ASC, t.created_at DESC"@
        } else {
            " ORDER BY t.priority DESC, t.created_at DESC"@
        }
    } else if (sort_by == "created"@ || sort_by == "created_at"@) && sort_order == "asc"@ {
        " ORDER BY t.created_at ASC"@
    } else if (sort_by == "created"@ || sort_by == "created_at"@) && sort_order == "desc"@ {
        " ORDER BY t.created_at DESC"@
    } else if (sort_by == "updated"@ || sort_by == "updated_at"@) && sort_order == "asc"@ {
        " ORDER BY t.updated_at ASC"@
    } else if (sort_by == "updated"@ || sort_by == "updated_at"@) && sort_order == "desc"@ {
        " ORDER BY t.updated_at DESC"@
    } else {
        " ORDER BY t.priority DESC, t.created_at DESC"@
    }
}

impl TaskListQuery {
    /// The ORDER BY clause of the query (see `task_list_order`).
    pub fn order_clause(&self) -> (r: &'static str)
        ensures
            r@ == task_list_order(self.sort_by@, self.sort_order@),
    {
        let by = self.sort_by.as_str();
        let order = self.sort_order.as_str();
        let created = crate::text::str_eq(by, "created") || crate::text::str_eq(by, "created_at");
        let updated = crate::text::str_eq(by, "updated") || crate::text::str_eq(by, "updated_at");
        let asc = crate::text::str_eq(order, "asc");
        let desc = crate::text::str_eq(order, "desc");
        if crate::text::str_eq(by, "priority") {
            if asc {
                " ORDER BY t.priority ASC, t.created_at DESC"
            } else {
                " ORDER BY t.priority DESC, t.created_at DESC"
            }
        } else if created && asc {
            " ORDER BY t.created_at ASC"
        } else if created && desc {
            " ORDER BY t.created_at DESC"
        } else if updated && asc {
            " ORDER BY t.updated_at ASC"
        } else if updated && desc {
            " ORDER BY t.updated_at DESC"
        } else {
            " ORDER BY t.priority DESC, t.created_at DESC"
        }
    }
}

} // verus!
