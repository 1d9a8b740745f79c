//! Structured error and warning values returned by tool operations.

use vstd::prelude::*;
use crate::text::{join, views, join_strings};

verus! {

/// Error codes for programmatic error handling.
#[derive(Debug, Clone, Copy, PartialEq, Eq, Structural)]
pub enum ErrorCode {
    MissingRequiredField,
    InvalidFieldValue,
    InvalidState,
    InvalidPath,
    InvalidPrefix,
    AgentNotFound,
    TaskNotFound,
    FileNotFound,
    AttachmentNotFound,
    AlreadyClaimed,
    AlreadyExists,
    DependencyCycle,
    TagMismatch,
    NotOwner,
    DependencyNotSatisfied,
    GatesNotSatisfied,
    DatabaseError,
    InternalError,
    UnknownTool,
}

/// Warning codes for non-fatal issues.
#[derive(Debug, Clone, Copy, PartialEq, Eq, Structural)]
pub enum WarningCode {
    /// Referenced task does not exist (link skipped)
    TaskNotFound,
    /// Referenced dependency does not exist (link skipped)
    DependencyNotFound,
    /// Tag is not in the known tags list
    UnknownTag,
    /// Phase is not in the known phases list
    UnknownPhase,
    /// Duplicate operation (no-op)
    Duplicate,
    /// Deprecated feature or parameter
    Deprecated,
}

/// A warning about a non-fatal issue in a tool operation.
#[derive(Debug, Clone)]
pub struct ToolWarning {
    pub code: WarningCode,
    pub message: String,
    pub field: Option<String>,
    pub value: Option<String>,
}

/// The view of an optional string.
pub open spec fn opt_view(o: Option<String>) -> Option<Seq<char>> {
    match o {
        Some(s) => Some(s@),
        None => None,
    }
}

/// `a` followed by `b` followed by `c`, as a new string.
fn concat3(a: &str, b: &str, c: &str) -> (r: String)
    ensures
        r@ == a@ + b@ + c@,
{
    let mut r = String::from_str(a);
    r.append(b);
    r.append(c);
    r
}

/// `a`, `b`, `c`, `d`, `e` in sequence, as a new string.
fn concat5(a: &str, b: &str, c: &str, d: &str, e: &str) -> (r: String)
    ensures
        r@ == a@ + b@ + c@ + d@ + e@,
{
    let mut r = String::from_str(a);
    r.append(b);
    r.append(c);
    r.append(d);
    r.append(e);
    r
}

impl ToolWarning {
    /// A warning with the given code and message and no field or value.
    pub fn new(code: WarningCode, message: &str) -> (w: Self)
        ensures
            w.code == code,
            w.message@ == message@,
            w.field is None,
            w.value is None,
    {
        ToolWarning { code, message: String::from_str(message), field: None, value: None }
    }

    /// The same warning with its field set.
    pub fn with_field(self, field: &str) -> (w: Self)
        ensures
            w.code == self.code,
            w.message == self.message,
            opt_view(w.field) == Some(field@),
            w.value == self.value,
    {
        let mut w = self;
        w.field = Some(String::from_str(field));
        w
    }

    /// The same warning with its value set.
    pub fn with_value(self, value: &str) -> (w: Self)
        ensures
            w.code == self.code,
            w.message == self.message,
            w.field == self.field,
            opt_view(w.value) == Some(value@),
    {
        let mut w = self;
        w.value = Some(String::from_str(value));
        w
    }

    /// A referenced task does not exist; the link was skipped.
    pub fn task_not_found(task_id: &str) -> (w: Self)
        ensures
            w.code == WarningCode::TaskNotFound,
            w.message@ == "Task '"@ + task_id@ + "' not found, skipped"@,
            w.field is None,
            opt_view(w.value) == Some(task_id@),
    {
        let m = concat3("Task '", task_id, "' not found, skipped");
        Self::new(WarningCode::TaskNotFound, m.as_str()).with_value(task_id)
    }

    /// A dependency target does not exist; the link was skipped.
    pub fn dependency_not_found(task_id: &str, field: &str) -> (w: Self)
        ensures
            w.code == WarningCode::DependencyNotFound,
            w.message@ == "Dependency target '"@ + task_id@ + "' not found, link skipped"@,
            opt_view(w.field) == Some(field@),
            opt_view(w.value) == Some(task_id@),
    {
        let m = concat3("Dependency target '", task_id, "' not found, link skipped");
        Self::new(WarningCode::DependencyNotFound, m.as_str()).with_field(field).with_value(task_id)
    }

    /// A tag is not in the known tags list.
    pub fn unknown_tag(tag: &str) -> (w: Self)
        ensures
            w.code == WarningCode::UnknownTag,
            w.message@ == "Tag '"@ + tag@ + "' is not in known tags list"@,
            w.field is None,
            opt_view(w.value) == Some(tag@),
    {
        let m = concat3("Tag '", tag, "' is not in known tags list");
        Self::new(WarningCode::UnknownTag, m.as_str()).with_value(tag)
    }

    /// A phase is not in the known phases list.
    pub fn unknown_phase(phase: &str) -> (w: Self)
        ensures
            w.code == WarningCode::UnknownPhase,
            w.message@ == "Phase '"@ + phase@ + "' is not in known phases list"@,
            w.field is None,
            opt_view(w.value) == Some(phase@),
    {
        let m = concat3("Phase '", phase, "' is not in known phases list");
        Self::new(WarningCode::UnknownPhase, m.as_str()).with_value(phase)
    }

    /// Something already exists; the operation was a no-op.
    pub fn duplicate(what: &str) -> (w: Self)
        ensures
            w.code == WarningCode::Duplicate,
            w.message@ == what@ + " already exists"@,
            w.field is None,
            w.value is None,
    {
        let m = concat3(what, " already exists", "");
        proof { reveal_strlit(""); }
        assert(m@ =~= what@ + " already exists"@);
        Self::new(WarningCode::Duplicate, m.as_str())
    }

    /// A feature is deprecated in favour of an alternative.
    pub fn deprecated(feature: &str, alternative: &str) -> (w: Self)
        ensures
            w.code == WarningCode::Deprecated,
            w.message@ == "'"@ + feature@ + "' is deprecated, use '"@ + alternative@ + "' instead"@,
            w.field is None,
            w.value is None,
    {
        let m = concat5("'", feature, "' is deprecated, use '", alternative, "' instead");
        Self::new(WarningCode::Deprecated, m.as_str())
    }

    /// The text shown for this warning: its message.
    pub fn to_display_string(&self) -> (r: String)
        ensures
            r@ == self.message@,
    {
        self.message.clone()
    }
}

/// Structured error for tool responses.
#[derive(Debug)]
pub struct ToolError {
    pub code: ErrorCode,
    pub message: String,
    pub field: Option<String>,
    pub details: Option<String>,
}

impl ToolError {
    /// An error with the given code and message and no field or details.
    pub fn new(code: ErrorCode, message: &str) -> (e: Self)
        ensures
            e.code == code,
            e.message@ == message@,
            e.field is None,
            e.details is None,
    {
        ToolError { code, message: String::from_str(message), field: None, details: None }
    }

    /// The same error with its field set.
    pub fn with_field(self, field: &str) -> (e: Self)
        ensures
            e.code == self.code,
            e.message == self.message,
            opt_view(e.field) == Some(field@),
            e.details == self.details,
    {
        let mut e = self;
        e.field = Some(String::from_str(field));
        e
    }

    /// The same error with its details set.
    pub fn with_details(self, details: &str) -> (e: Self)
        ensures
            e.code == self.code,
            e.message == self.message,
            e.field == self.field,
            opt_view(e.details) == Some(details@),
    {
        let mut e = self;
        e.details = Some(String::from_str(details));
        e
    }

    /// A required field was not given.
    pub fn missing_field(field: &str) -> (e: Self)
        ensures
            e.code == ErrorCode::MissingRequiredField,
            e.message@ == field@ + " is required"@,
            opt_view(e.field) == Some(field@),
            e.details is None,
    {
        let m = concat3(field, " is required", "");
        proof { reveal_strlit(""); }
        assert(m@ =~= field@ + " is required"@);
        Self::new(ErrorCode::MissingRequiredField, m.as_str()).with_field(field)
    }

    /// A field has an invalid value; the reason is the message.
    pub fn invalid_value(field: &str, reason: &str) -> (e: Self)
        ensures
            e.code == ErrorCode::InvalidFieldValue,
            e.message@ == reason@,
            opt_view(e.field) == Some(field@),
            e.details is None,
    {
        Self::new(ErrorCode::InvalidFieldValue, reason).with_field(field)
    }

    /// The agent is not registered.
    pub fn agent_not_found(agent_id: &str) -> (e: Self)
        ensures
            e.code == ErrorCode::AgentNotFound,
            e.message@ == "Agent not found: "@ + agent_id@,
            e.field is None,
            e.details is None,
    {
        let mut m = String::from_str("Agent not found: ");
        m.append(agent_id);
        Self::new(ErrorCode::AgentNotFound, m.as_str())
    }

    /// The task does not exist.
    pub fn task_not_found(task_id: &str) -> (e: Self)
        ensures
            e.code == ErrorCode::TaskNotFound,
            e.message@ == "Task not found: "@ + task_id@,
            e.field is None,
            e.details is None,
    {
        let mut m = String::from_str("Task not found: ");
        m.append(task_id);
        Self::new(ErrorCode::TaskNotFound, m.as_str())
    }

    /// The task is claimed by another owner.
    pub fn already_claimed(task_id: &str, owner: &str) -> (e: Self)
        ensures
            e.code == ErrorCode::AlreadyClaimed,
            e.message@ == "Task "@ + task_id@ + " already claimed by "@ + owner@,
            e.field is None,
            e.details is None,
    {
        let m = concat3("Task ", task_id, " already claimed by ");
        let mut m = m;
        m.append(owner);
        Self::new(ErrorCode::AlreadyClaimed, m.as_str())
    }

    /// The agent does not own the task.
    pub fn not_owner(task_id: &str, agent_id: &str) -> (e: Self)
        ensures
            e.code == ErrorCode::NotOwner,
            e.message@ == "Agent "@ + agent_id@ + " does not own task "@ + task_id@,
            e.field is None,
            e.details is None,
    {
        let mut m = concat3("Agent ", agent_id, " does not own task ");
        m.append(task_id);
        Self::new(ErrorCode::NotOwner, m.as_str())
    }

    /// The dependency would close a cycle.
    pub fn dependency_cycle(blocker: &str, blocked: &str) -> (e: Self)
        ensures
            e.code == ErrorCode::DependencyCycle,
            e.message@ == "Adding dependency "@ + blocker@ + " -> "@ + blocked@
                + " would create a cycle"@,
            e.field is None,
            e.details is None,
    {
        let m = concat5("Adding dependency ", blocker, " -> ", blocked, " would create a cycle");
        Self::new(ErrorCode::DependencyCycle, m.as_str())
    }

    /// The agent lacks required tags.
    pub fn tag_mismatch(missing: &str) -> (e: Self)
        ensures
            e.code == ErrorCode::TagMismatch,
            e.message@ == "Agent missing required tag(s): "@ + missing@,
            e.field is None,
            e.details is None,
    {
        let mut m = String::from_str("Agent missing required tag(s): ");
        m.append(missing);
        Self::new(ErrorCode::TagMismatch, m.as_str())
    }

    /// The task is blocked by the listed tasks.
    pub fn deps_not_satisfied(blockers: &[String]) -> (e: Self)
        ensures
            e.code == ErrorCode::DependencyNotSatisfied,
            e.message@ == "Task blocked by: "@ + join(views(blockers@), ", "@),
            e.field is None,
            e.details is None,
    {
        let mut m = String::from_str("Task blocked by: ");
        let j = join_strings(blockers, ", ");
        m.append(j.as_str());
        Self::new(ErrorCode::DependencyNotSatisfied, m.as_str())
    }

    /// The listed gates of the status are not satisfied.
    pub fn gates_not_satisfied(status: &str, gates: &[String]) -> (e: Self)
        ensures
            e.code == ErrorCode::GatesNotSatisfied,
            e.message@ == "Cannot exit '"@ + status@ + "': unsatisfied gates: "@
                + join(views(gates@), ", "@),
            e.field is None,
            e.details is None,
    {
        let mut m = concat3("Cannot exit '", status, "': unsatisfied gates: ");
        let j = join_strings(gates, ", ");
        m.append(j.as_str());
        Self::new(ErrorCode::GatesNotSatisfied, m.as_str())
    }

    /// The path is invalid for the given reason.
    pub fn invalid_path(path: &str, reason: &str) -> (e: Self)
        ensures
            e.code == ErrorCode::InvalidPath,
            e.message@ == "Invalid path '"@ + path@ + "': "@ + reason@,
            e.field is None,
            e.details is None,
    {
        let mut m = concat3("Invalid path '", path, "': ");
        m.append(reason);
        Self::new(ErrorCode::InvalidPath, m.as_str())
    }

    /// The path prefix is not lowercase.
    pub fn prefix_not_lowercase(prefix: &str) -> (e: Self)
        ensures
            e.code == ErrorCode::InvalidPrefix,
            e.message@ == "Path prefix '"@ + prefix@ + "' must be lowercase"@,
            e.field is None,
            e.details is None,
    {
        let m = concat3("Path prefix '", prefix, "' must be lowercase");
        Self::new(ErrorCode::InvalidPrefix, m.as_str())
    }

    /// The path prefix is not known.
    pub fn unknown_prefix(prefix: &str) -> (e: Self)
        ensures
            e.code == ErrorCode::InvalidPrefix,
            e.message@ == "Unknown path prefix: "@ + prefix@,
            e.field is None,
            e.details is None,
    {
        let mut m = String::from_str("Unknown path prefix: ");
        m.append(prefix);
        Self::new(ErrorCode::InvalidPrefix, m.as_str())
    }

    /// The path leaves the sandbox root.
    pub fn sandbox_escape(path: &str, root: &str) -> (e: Self)
        ensures
            e.code == ErrorCode::InvalidPath,
            e.message@ == "Path '"@ + path@ + "' escapes sandbox root '"@ + root@ + "'"@,
            e.field is None,
            e.details is None,
    {
        let m = concat5("Path '", path, "' escapes sandbox root '", root, "'");
        Self::new(ErrorCode::InvalidPath, m.as_str())
    }

    /// A database failure, with the failure's text as the message.
    pub fn database(err: &str) -> (e: Self)
        ensures
            e.code == ErrorCode::DatabaseError,
            e.message@ == err@,
            e.field is None,
            e.details is None,
    {
        Self::new(ErrorCode::DatabaseError, err)
    }

    /// An internal failure, with the failure's text as the message.
    pub fn internal(err: &str) -> (e: Self)
        ensures
            e.code == ErrorCode::InternalError,
            e.message@ == err@,
            e.field is None,
            e.details is None,
    {
        Self::new(ErrorCode::InternalError, err)
    }

    /// The tool name is not known.
    pub fn unknown_tool(name: &str) -> (e: Self)
        ensures
            e.code == ErrorCode::UnknownTool,
            e.message@ == "Unknown tool: "@ + name@,
            e.field is None,
            e.details is None,
    {
        let mut m = String::from_str("Unknown tool: ");
        m.append(name);
        Self::new(ErrorCode::UnknownTool, m.as_str())
    }

    /// The text shown for this error: its message.
    pub fn to_display_string(&self) -> (r: String)
        ensures
            r@ == self.message@,
    {
        self.message.clone()
    }
}

} // verus!
