//! The coordination rules of a multi-agent task graph: task updates and
//! claims, dependencies and their graph, snapshots (export, import, remap,
//! migration, diff), templates, file-claim polling, the activity feed and
//! markdown renderings.

pub mod text;
pub mod error;
pub mod migrations;
pub mod json;
pub mod export;
pub mod import;
pub mod ids;
pub mod types;
pub mod format;
pub mod gates;
pub mod logging;
pub mod dashboard;
pub mod schema;
pub mod search;
pub mod state_transitions;
pub mod tasks;
pub mod deps;
pub mod template;
pub mod diff;
pub mod diff_report;
pub mod task_update;
pub mod workers;
pub mod graph;
pub mod claims;
pub mod activity;
pub mod task_list;
pub mod task_tree;
pub mod import_plan;
pub mod stats;
