//! The rules of a task update: who may update a task, which state changes
//! are allowed, and how a state change claims, assigns, releases or
//! completes the task.
//!
//! - Moving into a timed state claims the task for the acting worker (its
//!   tags and its claim limit are checked, and the task must not be blocked
//!   unless forced).
//! - Moving out of a timed state into a state that is not terminal releases
//!   the task.
//! - Moving into a terminal state completes the task: its contained tasks
//!   must all be done, and the task is released.
//! - Naming an assignee assigns the task to that worker (default state
//!   `assigned`).
//! - Only the owner can update a claimed task, unless forced.
//!
//! `plan_task_update` decides all of this from the stored task, the request
//! and what the store knows of the workers and the task's neighbours; the
//! caller reads those and carries out the returned plan.

use vstd::prelude::*;
use crate::error::opt_view;
use crate::import::contains_string;
use crate::text::{join, views, lemma_views_push, string_of, join_strings, dec_int, i64_to_dec};
use crate::types::{
    Task, StatesConfig, StateDefinition, Priority, mentions, state_def, valid_state, valid_transition, timed_state, terminal_state, exits_of,
};

verus! {

/// The changes asked of a task; a field left `None` keeps its value.
#[derive(Debug, Clone)]
pub struct TaskUpdate {
    pub title: Option<String>,
    pub description: Option<Option<String>>,
    pub status: Option<String>,
    pub phase: Option<String>,
    pub priority: Option<Priority>,
    pub points: Option<Option<i32>>,
    pub tags: Option<Vec<String>>,
    pub needed_tags: Option<Vec<String>>,
    pub wanted_tags: Option<Vec<String>>,
    pub time_estimate_ms: Option<i64>,
}

/// What the store knows that an update consults besides the task itself.
#[derive(Debug, Clone)]
pub struct UpdateContext {
    /// The tags of the named assignee, or `None` when no such worker exists.
    pub assignee_tags: Option<Vec<String>>,
    /// The tags of the acting worker, or `None` when it is not registered.
    pub agent_tags: Option<Vec<String>>,
    /// The number of tasks the acting worker holds now.
    pub agent_claims: i32,
    /// The number of tasks the acting worker may hold at once.
    pub agent_max_claims: i32,
    /// The unfinished tasks that block the start of the task.
    pub unsatisfied_blockers: Vec<String>,
    /// The number of tasks contained in this one that are still in a
    /// blocking state.
    pub incomplete_children: i32,
}

/// Why a change of a task is refused.
#[derive(Debug, Clone)]
pub enum TaskRefusal {
    /// The task is claimed by another worker and the update is not forced.
    ClaimedByOther { owner: String },
    /// The target state is not configured.
    InvalidState { state: String, valid: Vec<String> },
    /// The task may not move from its state to the target state.
    InvalidTransition { from: String, to: String, allowed: Vec<String> },
    /// The assignee is not a registered worker.
    AssigneeNotFound { assignee: String },
    /// The assignee lacks one of the task's needed tags.
    AssigneeMissingTag { assignee: String, tag: String },
    /// The assignee has none of the task's wanted tags.
    AssigneeLacksWantedTags { assignee: String, wanted: Vec<String> },
    /// Claiming the task, it is blocked by these unfinished tasks.
    DependenciesNotSatisfied { blockers: Vec<String> },
    /// Claiming the task, the acting worker is not registered.
    AgentNotFound,
    /// Claiming the task, the acting worker lacks a needed tag.
    AgentMissingTag { tag: String },
    /// Claiming the task, the acting worker has none of the wanted tags.
    AgentLacksWantedTags,
    /// Claiming the task, the acting worker already holds as many tasks as
    /// it may.
    ClaimLimitReached { held: i32, limit: i32 },
    /// Completing the task, some contained tasks are not done.
    IncompleteChildren { count: i32 },
    /// Claiming the task, some worker already holds it.
    AlreadyClaimed,
    /// The task cannot move from its state into the claimed state.
    CannotClaimFrom { state: String, allowed: Vec<String> },
    /// The acting worker does not hold the task.
    NotOwner,
    /// The task cannot move from its state into the completed state.
    CannotCompleteFrom { state: String, allowed: Vec<String> },
    /// Deleting the task, another worker holds it and the deletion is not
    /// forced.
    ClaimedByWorker { owner: String },
    /// Deleting the task without its children, it has some.
    HasChildren,
}

/// The model of a refusal.
pub enum RefusalV {
    ClaimedByOther(Seq<char>),
    InvalidState(Seq<char>, Seq<Seq<char>>),
    InvalidTransition(Seq<char>, Seq<char>, Seq<Seq<char>>),
    AssigneeNotFound(Seq<char>),
    AssigneeMissingTag(Seq<char>, Seq<char>),
    AssigneeLacksWantedTags(Seq<char>, Seq<Seq<char>>),
    DependenciesNotSatisfied(Seq<Seq<char>>),
    AgentNotFound,
    AgentMissingTag(Seq<char>),
    AgentLacksWantedTags,
    ClaimLimitReached(int, int),
    IncompleteChildren(int),
    AlreadyClaimed,
    CannotClaimFrom(Seq<char>, Seq<Seq<char>>),
    NotOwner,
    CannotCompleteFrom(Seq<char>, Seq<Seq<char>>),
    ClaimedByWorker(Seq<char>),
    HasChildren,
}

impl View for TaskRefusal {
    type V = RefusalV;

    open spec fn view(&self) -> RefusalV {
        match *self {
            TaskRefusal::ClaimedByOther { owner } => RefusalV::ClaimedByOther(owner@),
            TaskRefusal::InvalidState { state, valid } => RefusalV::InvalidState(state@, views(valid@)),
            TaskRefusal::InvalidTransition { from, to, allowed } => RefusalV::InvalidTransition(
                from@,
                to@,
                views(allowed@),
            ),
            TaskRefusal::AssigneeNotFound { assignee } => RefusalV::AssigneeNotFound(assignee@),
            TaskRefusal::AssigneeMissingTag { assignee, tag } => RefusalV::AssigneeMissingTag(assignee@, tag@),
            TaskRefusal::AssigneeLacksWantedTags { assignee, wanted } => RefusalV::AssigneeLacksWantedTags(
                assignee@,
                views(wanted@),
            ),
            TaskRefusal::DependenciesNotSatisfied { blockers } => RefusalV::DependenciesNotSatisfied(
                views(blockers@),
            ),
            TaskRefusal::AgentNotFound => RefusalV::AgentNotFound,
            TaskRefusal::AgentMissingTag { tag } => RefusalV::AgentMissingTag(tag@),
            TaskRefusal::AgentLacksWantedTags => RefusalV::AgentLacksWantedTags,
            TaskRefusal::ClaimLimitReached { held, limit } => RefusalV::ClaimLimitReached(held as int, limit as int),
            TaskRefusal::IncompleteChildren { count } => RefusalV::IncompleteChildren(count as int),
            TaskRefusal::AlreadyClaimed => RefusalV::AlreadyClaimed,
            TaskRefusal::CannotClaimFrom { state, allowed } => RefusalV::CannotClaimFrom(state@, views(allowed@)),
            TaskRefusal::NotOwner => RefusalV::NotOwner,
            TaskRefusal::CannotCompleteFrom { state, allowed } => RefusalV::CannotCompleteFrom(
                state@,
                views(allowed@),
            ),
            TaskRefusal::ClaimedByWorker { owner } => RefusalV::ClaimedByWorker(owner@),
            TaskRefusal::HasChildren => RefusalV::HasChildren,
        }
    }
}

/// `format!("{:?}", ..)` of a list of strings: std's `Debug` rendering
/// (brackets, each string quoted with its special characters escaped,
/// `", "` between).
pub uninterp spec fn debug_list_of(items: Seq<Seq<char>>) -> Seq<char>;

/// std's `Debug` rendering of a list of strings, `format!("{:?}", v)`. The
/// text is named by `debug_list_of`; std's escaping rules are not restated.
#[verifier::external_body]
pub(crate) fn debug_strings(v: &Vec<String>) -> (r: String)
    ensures
        r@ == debug_list_of(views(v@)),
{
    format!("{:?}", v)
}

/// The message of a refusal.
pub open spec fn refusal_message(e: RefusalV) -> Seq<char> {
    match e {
        RefusalV::ClaimedByOther(o) => "Task is claimed by agent '"@ + o
            + "'. Only the owner can update claimed tasks (use force=true to override)"@,
        RefusalV::InvalidState(s, valid) => "Invalid state '"@ + s + "'. Valid states: "@ + debug_list_of(valid),
        RefusalV::InvalidTransition(from, to, allowed) => "Invalid transition from '"@ + from + "' to '"@ + to
            + "'. Allowed transitions: "@ + debug_list_of(allowed),
        RefusalV::AssigneeNotFound(a) => "Assignee agent '"@ + a + "' not found"@,
        RefusalV::AssigneeMissingTag(a, tag) => "Assignee '"@ + a + "' missing required tag: "@ + tag,
        RefusalV::AssigneeLacksWantedTags(a, wanted) => "Assignee '"@ + a + "' has none of the wanted tags: "@
            + debug_list_of(wanted),
        RefusalV::DependenciesNotSatisfied(blockers) => "Task blocked by: "@ + join(blockers, ", "@),
        RefusalV::AgentNotFound => "Agent not found"@,
        RefusalV::AgentMissingTag(tag) => "Agent missing required tag: "@ + tag,
        RefusalV::AgentLacksWantedTags => "Agent has none of the wanted tags"@,
        RefusalV::ClaimLimitReached(held, limit) => "Claim limit reached: agent holds "@ + dec_int(held) + " of "@
            + dec_int(limit) + " allowed tasks"@,
        RefusalV::IncompleteChildren(n) => "Cannot complete task: "@ + dec_int(n) + " child task(s) are not complete"@,
        RefusalV::AlreadyClaimed => "Task is already claimed"@,
        RefusalV::CannotClaimFrom(st, allowed) => "Cannot claim task in state '"@ + st + "'. Allowed transitions: "@
            + debug_list_of(allowed),
        RefusalV::NotOwner => "Task is not owned by this agent"@,
        RefusalV::CannotCompleteFrom(st, allowed) => "Cannot complete task in state '"@ + st
            + "'. Allowed transitions: "@ + debug_list_of(allowed),
        RefusalV::ClaimedByWorker(o) => "Task is claimed by worker '"@ + o + "'. Use force=true to override."@,
        RefusalV::HasChildren => "Task has children; use cascade=true to delete"@,
    }
}

impl TaskRefusal {
    /// The message of the refusal (see `refusal_message`).
    pub fn message(&self) -> (r: String)
        ensures
            r@ == refusal_message(self@),
    {
        match self {
            TaskRefusal::ClaimedByOther { owner } => {
                let mut m = string_of("Task is claimed by agent '");
                m.append(owner.as_str());
                m.append("'. Only the owner can update claimed tasks (use force=true to override)");
                m
            },
            TaskRefusal::InvalidState { state, valid } => {
                let mut m = string_of("Invalid state '");
                m.append(state.as_str());
                m.append("'. Valid states: ");
                m.append(debug_strings(valid).as_str());
                m
            },
            TaskRefusal::InvalidTransition { from, to, allowed } => {
                let mut m = string_of("Invalid transition from '");
                m.append(from.as_str());
                m.append("' to '");
                m.append(to.as_str());
                m.append("'. Allowed transitions: ");
                m.append(debug_strings(allowed).as_str());
                m
            },
            TaskRefusal::AssigneeNotFound { assignee } => {
                let mut m = string_of("Assignee agent '");
                m.append(assignee.as_str());
                m.append("' not found");
                m
            },
            TaskRefusal::AssigneeMissingTag { assignee, tag } => {
                let mut m = string_of("Assignee '");
                m.append(assignee.as_str());
                m.append("' missing required tag: ");
                m.append(tag.as_str());
                m
            },
            TaskRefusal::AssigneeLacksWantedTags { assignee, wanted } => {
                let mut m = string_of("Assignee '");
                m.append(assignee.as_str());
                m.append("' has none of the wanted tags: ");
                m.append(debug_strings(wanted).as_str());
                m
            },
            TaskRefusal::DependenciesNotSatisfied { blockers } => {
                let mut m = string_of("Task blocked by: ");
                m.append(join_strings(blockers.as_slice(), ", ").as_str());
                m
            },
            TaskRefusal::AgentNotFound => string_of("Agent not found"),
            TaskRefusal::AgentMissingTag { tag } => {
                let mut m = string_of("Agent missing required tag: ");
                m.append(tag.as_str());
                m
            },
            TaskRefusal::AgentLacksWantedTags => string_of("Agent has none of the wanted tags"),
            TaskRefusal::ClaimLimitReached { held, limit } => {
                let mut m = string_of("Claim limit reached: agent holds ");
                m.append(i64_to_dec(*held as i64).as_str());
                m.append(" of ");
                m.append(i64_to_dec(*limit as i64).as_str());
                m.append(" allowed tasks");
                m
            },
            TaskRefusal::IncompleteChildren { count } => {
                let mut m = string_of("Cannot complete task: ");
                m.append(i64_to_dec(*count as i64).as_str());
                m.append(" child task(s) are not complete");
                m
            },
            TaskRefusal::AlreadyClaimed => string_of("Task is already claimed"),
            TaskRefusal::CannotClaimFrom { state, allowed } => {
                let mut m = string_of("Cannot claim task in state '");
                m.append(state.as_str());
                m.append("'. Allowed transitions: ");
                m.append(debug_strings(allowed).as_str());
                m
            },
            TaskRefusal::NotOwner => string_of("Task is not owned by this agent"),
            TaskRefusal::CannotCompleteFrom { state, allowed } => {
                let mut m = string_of("Cannot complete task in state '");
                m.append(state.as_str());
                m.append("'. Allowed transitions: ");
                m.append(debug_strings(allowed).as_str());
                m
            },
            TaskRefusal::ClaimedByWorker { owner } => {
                let mut m = string_of("Task is claimed by worker '");
                m.append(owner.as_str());
                m.append("'. Use force=true to override.");
                m
            },
            TaskRefusal::HasChildren => string_of("Task has children; use cascade=true to delete"),
        }
    }
}

/// The updated task and what the store has to do besides writing it.
#[derive(Debug, Clone)]
pub struct UpdatePlan {
    /// The task as it is to be stored.
    pub task: Task,
    /// The acting worker claims the task: its heartbeat is refreshed.
    pub refresh_heartbeat: bool,
    /// The task is completed: its file locks are released.
    pub release_file_locks: bool,
    /// The state changes: the transition is recorded.
    pub status_changed: bool,
    /// The phase changes: the transition is recorded.
    pub phase_changed: bool,
    /// The tags change.
    pub tags_changed: bool,
    /// The needed tags change.
    pub needed_tags_changed: bool,
    /// The wanted tags change.
    pub wanted_tags_changed: bool,
    /// The task leaves a blocking state for one that is not: the tasks that
    /// wait on it may now be ready.
    pub unblocks_dependents: bool,
}

/// The task is claimed by the worker `agent`.
pub open spec fn owned_by(t: Task, agent: Seq<char>) -> bool {
    t.owner_agent matches Some(o) && o@ == agent
}

/// The task is claimed by some worker other than `agent`.
pub open spec fn owned_by_other(t: Task, agent: Seq<char>) -> bool {
    t.owner_agent is Some && !owned_by(t, agent)
}

/// The state the task is to move to: the requested one; `assigned` when an
/// assignee is named and no state is requested; else the current one.
pub open spec fn target_status(t: Task, u: TaskUpdate, assignee: Option<String>) -> Seq<char> {
    if assignee is Some && u.status is None {
        "assigned"@
    } else {
        match u.status {
            Some(s) => s@,
            None => t.status@,
        }
    }
}

/// The first needed tag that `have` lacks.
pub open spec fn first_missing(needed: Seq<String>, have: Seq<String>) -> Option<Seq<char>>
    decreases needed.len(),
{
    if needed.len() == 0 {
        None
    } else if !mentions(have, needed[0]@) {
        Some(needed[0]@)
    } else {
        first_missing(needed.drop_first(), have)
    }
}

/// `have` holds at least one of the wanted tags.
pub open spec fn shares_any(wanted: Seq<String>, have: Seq<String>) -> bool {
    exists|i: int| 0 <= i < wanted.len() && #[trigger] mentions(have, wanted[i]@)
}

/// Why the assignee cannot take the task, if it cannot.
pub open spec fn assignee_refusal(t: Task, assignee: Seq<char>, tags: Option<Vec<String>>) -> Option<RefusalV> {
    match tags {
        None => Some(RefusalV::AssigneeNotFound(assignee)),
        Some(have) => match first_missing(t.agent_tags_all@, have@) {
            Some(tag) => Some(RefusalV::AssigneeMissingTag(assignee, tag)),
            None => if t.agent_tags_any@.len() > 0 && !shares_any(t.agent_tags_any@, have@) {
                Some(RefusalV::AssigneeLacksWantedTags(assignee, views(t.agent_tags_any@)))
            } else {
                None
            },
        },
    }
}

/// The worker holds as many tasks as it may: it can claim no more.
pub open spec fn limit_refusal(held: i32, limit: i32) -> Option<RefusalV> {
    if held >= limit {
        Some(RefusalV::ClaimLimitReached(held as int, limit as int))
    } else {
        None
    }
}

/// Why the acting worker cannot claim the task, if it cannot.
pub open spec fn claim_refusal(t: Task, force: bool, ctx: UpdateContext) -> Option<RefusalV> {
    if !force && ctx.unsatisfied_blockers@.len() > 0 {
        Some(RefusalV::DependenciesNotSatisfied(views(ctx.unsatisfied_blockers@)))
    } else {
        match ctx.agent_tags {
            None => Some(RefusalV::AgentNotFound),
            Some(have) => match first_missing(t.agent_tags_all@, have@) {
                Some(tag) => Some(RefusalV::AgentMissingTag(tag)),
                None => if t.agent_tags_any@.len() > 0 && !shares_any(t.agent_tags_any@, have@) {
                    Some(RefusalV::AgentLacksWantedTags)
                } else {
                    limit_refusal(ctx.agent_claims, ctx.agent_max_claims)
                },
            },
        }
    }
}

/// The update moves the task into a timed state that the acting worker does
/// not already hold: the worker claims it.
pub open spec fn claims(t: Task, agent: Seq<char>, cfg: StatesConfig, new_status: Seq<char>) -> bool {
    timed_state(cfg, new_status) && !owned_by(t, agent)
}

/// Why the update is refused, in the order the rules are checked; `None`
/// when it is allowed.
pub open spec fn update_refusal(
    t: Task,
    u: TaskUpdate,
    agent: Seq<char>,
    assignee: Option<String>,
    force: bool,
    cfg: StatesConfig,
    ctx: UpdateContext,
) -> Option<RefusalV> {
    let s = target_status(t, u, assignee);
    if owned_by_other(t, agent) && !force {
        Some(RefusalV::ClaimedByOther(t.owner_agent->0@))
    } else if !valid_state(cfg, s) {
        Some(RefusalV::InvalidState(s, cfg.states@.map_values(|d: crate::types::StateDefinition| d.name@)))
    } else if t.status@ != s && !valid_transition(cfg, t.status@, s) {
        Some(RefusalV::InvalidTransition(t.status@, s, views(exits_of(cfg, t.status@))))
    } else if assignee is Some && assignee_refusal(t, assignee->0@, ctx.assignee_tags) is Some {
        assignee_refusal(t, assignee->0@, ctx.assignee_tags)
    } else if claims(t, agent, cfg, s) && claim_refusal(t, force, ctx) is Some {
        claim_refusal(t, force, ctx)
    } else if terminal_state(cfg, s) && ctx.incomplete_children > 0 {
        Some(RefusalV::IncompleteChildren(ctx.incomplete_children as int))
    } else {
        None
    }
}

/// The owner of the updated task and when it was claimed: nobody once the
/// task is completed, or released into a state that is not timed; the acting
/// worker when it claims the task; the assignee when one is named; otherwise
/// as before.
pub open spec fn planned_owner(
    t: Task,
    agent: Seq<char>,
    assignee: Option<String>,
    cfg: StatesConfig,
    s: Seq<char>,
    now: i64,
) -> (Option<Seq<char>>, Option<i64>) {
    if terminal_state(cfg, s) {
        (None, None)
    } else if !timed_state(cfg, s) && t.owner_agent is Some {
        (None, None)
    } else if claims(t, agent, cfg, s) {
        (Some(agent), Some(now))
    } else if assignee is Some {
        (Some(assignee->0@), Some(now))
    } else {
        (opt_view(t.owner_agent), t.claimed_at)
    }
}

/// A value or, when it is not given, the current one.
pub open spec fn or_current<A>(given: Option<A>, current: A) -> A {
    match given {
        Some(v) => v,
        None => current,
    }
}

/// The updated task as the rules make it.
pub open spec fn planned_task(
    p: Task,
    t: Task,
    u: TaskUpdate,
    agent: Seq<char>,
    assignee: Option<String>,
    cfg: StatesConfig,
    now: i64,
) -> bool {
    let s = target_status(t, u, assignee);
    let owner = planned_owner(t, agent, assignee, cfg, s, now);
    &&& p.id@ == t.id@
    &&& p.title@ == or_current(u.title, t.title)@
    &&& opt_view(p.description) == opt_view(or_current(u.description, t.description))
    &&& p.status@ == s
    &&& opt_view(p.phase) == opt_view(match u.phase { Some(x) => Some(x), None => t.phase })
    &&& p.priority == or_current(u.priority, t.priority)
    &&& p.points == or_current(u.points, t.points)
    &&& views(p.tags@) == views(or_current(u.tags, t.tags)@)
    &&& views(p.agent_tags_all@) == views(or_current(u.needed_tags, t.agent_tags_all)@)
    &&& views(p.agent_tags_any@) == views(or_current(u.wanted_tags, t.agent_tags_any)@)
    &&& p.time_estimate_ms == (match u.time_estimate_ms { Some(x) => Some(x), None => t.time_estimate_ms })
    &&& opt_view(p.owner_agent) == owner.0
    &&& p.claimed_at == owner.1
    &&& p.started_at == (if t.started_at is None && timed_state(cfg, s) { Some(now) } else { t.started_at })
    &&& p.completed_at == (if s == "completed"@ { Some(now) } else { t.completed_at })
    &&& p.updated_at == now
    &&& p.time_actual_ms == t.time_actual_ms
    &&& opt_view(p.current_thought) == opt_view(t.current_thought)
    &&& p.created_at == t.created_at
}

/// An update writes what it gives and keeps the rest: each field the update
/// gives (title, description, phase, priority, points, tags, needed and
/// wanted tags, time estimate) takes the given value in the updated task,
/// and each field it leaves out keeps the task's current value.
pub proof fn lemma_update_writes_given_fields(
    p: Task,
    t: Task,
    u: TaskUpdate,
    agent: Seq<char>,
    assignee: Option<String>,
    cfg: StatesConfig,
    now: i64,
)
    requires
        planned_task(p, t, u, agent, assignee, cfg, now),
    ensures
        u.title matches Some(x) ==> p.title@ == x@,
        u.title is None ==> p.title@ == t.title@,
        u.description matches Some(d) ==> opt_view(p.description) == opt_view(d),
        u.description is None ==> opt_view(p.description) == opt_view(t.description),
        u.phase matches Some(x) ==> opt_view(p.phase) == Some(x@),
        u.phase is None ==> opt_view(p.phase) == opt_view(t.phase),
        u.priority matches Some(x) ==> p.priority == x,
        u.priority is None ==> p.priority == t.priority,
        u.points matches Some(x) ==> p.points == x,
        u.points is None ==> p.points == t.points,
        u.tags matches Some(x) ==> views(p.tags@) == views(x@),
        u.tags is None ==> views(p.tags@) == views(t.tags@),
        u.needed_tags matches Some(x) ==> views(p.agent_tags_all@) == views(x@),
        u.needed_tags is None ==> views(p.agent_tags_all@) == views(t.agent_tags_all@),
        u.wanted_tags matches Some(x) ==> views(p.agent_tags_any@) == views(x@),
        u.wanted_tags is None ==> views(p.agent_tags_any@) == views(t.agent_tags_any@),
        u.time_estimate_ms matches Some(x) ==> p.time_estimate_ms == Some(x),
        u.time_estimate_ms is None ==> p.time_estimate_ms == t.time_estimate_ms,
{
}

/// The plan's flags as the rules make them.
pub open spec fn planned_flags(
    r: UpdatePlan,
    t: Task,
    u: TaskUpdate,
    agent: Seq<char>,
    assignee: Option<String>,
    cfg: StatesConfig,
) -> bool {
    let s = target_status(t, u, assignee);
    &&& r.refresh_heartbeat == claims(t, agent, cfg, s)
    &&& r.release_file_locks == terminal_state(cfg, s)
    &&& r.status_changed == (t.status@ != s)
    &&& r.phase_changed == (opt_view(t.phase) != opt_view(r.task.phase))
    &&& r.tags_changed == (views(r.task.tags@) != views(t.tags@))
    &&& r.needed_tags_changed == (views(r.task.agent_tags_all@) != views(t.agent_tags_all@))
    &&& r.wanted_tags_changed == (views(r.task.agent_tags_any@) != views(t.agent_tags_any@))
    &&& r.unblocks_dependents == (t.status@ != s && mentions(cfg.blocking_states@, t.status@) && !mentions(
        cfg.blocking_states@,
        s,
    ))
}

/// Only the owner can update a claimed task: an update by another worker
/// that is not forced is refused.
pub proof fn lemma_only_owner_updates(
    t: Task,
    u: TaskUpdate,
    agent: Seq<char>,
    assignee: Option<String>,
    cfg: StatesConfig,
    ctx: UpdateContext,
)
    requires
        owned_by_other(t, agent),
    ensures
        update_refusal(t, u, agent, assignee, false, cfg, ctx) == Some(RefusalV::ClaimedByOther(t.owner_agent->0@)),
{
}

/// Moving into a timed (and not terminal) state with no assignee leaves the
/// task claimed by the acting worker.
pub proof fn lemma_timed_state_claims(
    t: Task,
    agent: Seq<char>,
    assignee: Option<String>,
    cfg: StatesConfig,
    s: Seq<char>,
    now: i64,
)
    requires
        timed_state(cfg, s),
        !terminal_state(cfg, s),
        assignee is None,
    ensures
        planned_owner(t, agent, assignee, cfg, s, now).0 == Some(agent),
{
}

/// Moving a claimed task into a state that is neither timed nor terminal
/// releases it.
pub proof fn lemma_untimed_state_releases(
    t: Task,
    agent: Seq<char>,
    assignee: Option<String>,
    cfg: StatesConfig,
    s: Seq<char>,
    now: i64,
)
    requires
        !timed_state(cfg, s),
        !terminal_state(cfg, s),
        t.owner_agent is Some,
    ensures
        planned_owner(t, agent, assignee, cfg, s, now) == (None::<Seq<char>>, None::<i64>),
{
}

/// A task moves into a terminal state only when all the tasks it contains
/// are done, and nobody holds it afterwards.
pub proof fn lemma_terminal_state_completes(
    t: Task,
    u: TaskUpdate,
    agent: Seq<char>,
    assignee: Option<String>,
    force: bool,
    cfg: StatesConfig,
    ctx: UpdateContext,
    now: i64,
)
    requires
        terminal_state(cfg, target_status(t, u, assignee)),
        update_refusal(t, u, agent, assignee, force, cfg, ctx) is None,
    ensures
        ctx.incomplete_children <= 0,
        planned_owner(t, agent, assignee, cfg, target_status(t, u, assignee), now) == (
            None::<Seq<char>>,
            None::<i64>,
        ),
{
}

/// Naming an assignee without a state moves the task to `assigned`; an
/// unclaimed task moved into a state that is neither timed nor terminal is
/// then held by the assignee.
pub proof fn lemma_assignee_assigns(
    t: Task,
    u: TaskUpdate,
    agent: Seq<char>,
    assignee: Option<String>,
    cfg: StatesConfig,
    now: i64,
)
    requires
        assignee is Some,
    ensures
        u.status is None ==> target_status(t, u, assignee) == "assigned"@,
        t.owner_agent is None && !timed_state(cfg, target_status(t, u, assignee)) && !terminal_state(
            cfg,
            target_status(t, u, assignee),
        ) ==> planned_owner(t, agent, assignee, cfg, target_status(t, u, assignee), now) == (
            Some(assignee->0@),
            Some(now),
        ),
{
}

/// No needed tag is missing when `first_missing` finds none.
proof fn lemma_first_missing_none(needed: Seq<String>, have: Seq<String>)
    requires
        first_missing(needed, have) is None,
    ensures
        forall|i: int| 0 <= i < needed.len() ==> mentions(have, #[trigger] needed[i]@),
    decreases needed.len(),
{
    if needed.len() > 0 {
        lemma_first_missing_none(needed.drop_first(), have);
        assert forall|i: int| 0 <= i < needed.len() implies mentions(have, #[trigger] needed[i]@) by {
            if i > 0 {
                assert(needed[i] == needed.drop_first()[i - 1]);
            }
        }
    }
}

/// An update that claims the task is allowed only for a registered worker
/// that has every needed tag and, when the task wants some tags, at least
/// one of them, and that holds fewer tasks than it may; and, unless forced, only when nothing unfinished blocks the
/// task.
pub proof fn lemma_claim_requires_fit(
    t: Task,
    u: TaskUpdate,
    agent: Seq<char>,
    assignee: Option<String>,
    force: bool,
    cfg: StatesConfig,
    ctx: UpdateContext,
)
    requires
        update_refusal(t, u, agent, assignee, force, cfg, ctx) is None,
        claims(t, agent, cfg, target_status(t, u, assignee)),
    ensures
        force || ctx.unsatisfied_blockers@.len() == 0,
        ctx.agent_tags is Some,
        forall|i: int| 0 <= i < t.agent_tags_all@.len() ==> mentions(
            ctx.agent_tags->0@,
            #[trigger] t.agent_tags_all@[i]@,
        ),
        t.agent_tags_any@.len() > 0 ==> shares_any(t.agent_tags_any@, ctx.agent_tags->0@),
        ctx.agent_claims < ctx.agent_max_claims,
{
    assert(claim_refusal(t, force, ctx) is None);
    lemma_first_missing_none(t.agent_tags_all@, ctx.agent_tags->0@);
}

/// A copy of the strings.
fn copy_strings(v: &Vec<String>) -> (r: Vec<String>)
    ensures
        views(r@) == views(v@),
{
    let mut out: Vec<String> = Vec::new();
    let mut i: usize = 0;
    while i < v.len()
        invariant
            i <= v@.len(),
            views(out@) == views(v@.take(i as int)),
        decreases v@.len() - i,
    {
        proof {
            lemma_views_push(out@, v@[i as int]);
            assert(v@.take(i + 1) =~= v@.take(i as int).push(v@[i as int]));
            lemma_views_push(v@.take(i as int), v@[i as int]);
        }
        out.push(v[i].clone());
        i = i + 1;
    }
    proof {
        assert(v@.take(v@.len() as int) =~= v@);
    }
    out
}

/// A copy of an optional string.
fn copy_opt(o: &Option<String>) -> (r: Option<String>)
    ensures
        opt_view(r) == opt_view(*o),
{
    match o {
        Some(s) => Some(s.clone()),
        None => None,
    }
}

/// Whether two lists hold the same strings in the same order.
fn same_strings(a: &Vec<String>, b: &Vec<String>) -> (r: bool)
    ensures
        r == (views(a@) == views(b@)),
{
    if a.len() != b.len() {
        proof {
            assert(views(a@).len() != views(b@).len());
        }
        return false;
    }
    let mut i: usize = 0;
    while i < a.len()
        invariant
            i <= a@.len(),
            a@.len() == b@.len(),
            forall|k: int| 0 <= k < i ==> a@[k]@ == b@[k]@,
        decreases a@.len() - i,
    {
        if !crate::text::str_eq(a[i].as_str(), b[i].as_str()) {
            proof {
                assert(views(a@)[i as int] != views(b@)[i as int]);
            }
            return false;
        }
        i = i + 1;
    }
    proof {
        assert(views(a@) =~= views(b@));
    }
    true
}

/// Whether two optional strings are equal.
fn same_opt(a: &Option<String>, b: &Option<String>) -> (r: bool)
    ensures
        r == (opt_view(*a) == opt_view(*b)),
{
    match (a, b) {
        (Some(x), Some(y)) => crate::text::str_eq(x.as_str(), y.as_str()),
        (None, None) => true,
        _ => false,
    }
}

/// The first needed tag that `have` lacks.
fn missing_tag(needed: &Vec<String>, have: &Vec<String>) -> (r: Option<String>)
    ensures
        opt_view(r) == first_missing(needed@, have@),
{
    proof {
        assert(needed@.skip(0) =~= needed@);
    }
    let mut i: usize = 0;
    while i < needed.len()
        invariant
            i <= needed@.len(),
            first_missing(needed@, have@) == first_missing(needed@.skip(i as int), have@),
        decreases needed@.len() - i,
    {
        proof {
            assert(needed@.skip(i as int)[0] == needed@[i as int]);
            assert(needed@.skip(i as int).drop_first() =~= needed@.skip(i + 1));
        }
        if !contains_string(have, needed[i].as_str()) {
            return Some(needed[i].clone());
        }
        i = i + 1;
    }
    proof {
        assert(needed@.skip(i as int).len() == 0);
    }
    None
}

/// Whether `have` holds at least one of the wanted tags.
fn has_any(wanted: &Vec<String>, have: &Vec<String>) -> (r: bool)
    ensures
        r == shares_any(wanted@, have@),
{
    let mut i: usize = 0;
    while i < wanted.len()
        invariant
            i <= wanted@.len(),
            forall|k: int| 0 <= k < i ==> !(#[trigger] mentions(have@, wanted@[k]@)),
        decreases wanted@.len() - i,
    {
        if contains_string(have, wanted[i].as_str()) {
            proof {
                assert(mentions(have@, wanted@[i as int]@));
            }
            return true;
        }
        i = i + 1;
    }
    false
}

/// Why the assignee cannot take the task, if it cannot.
fn check_assignee(t: &Task, assignee: &String, tags: &Option<Vec<String>>) -> (r: Option<TaskRefusal>)
    ensures
        match r {
            Some(e) => assignee_refusal(*t, assignee@, *tags) == Some(e@),
            None => assignee_refusal(*t, assignee@, *tags) is None,
        },
{
    match tags {
        None => Some(TaskRefusal::AssigneeNotFound { assignee: assignee.clone() }),
        Some(have) => match missing_tag(&t.agent_tags_all, have) {
            Some(tag) => Some(TaskRefusal::AssigneeMissingTag { assignee: assignee.clone(), tag }),
            None => {
                if t.agent_tags_any.len() > 0 && !has_any(&t.agent_tags_any, have) {
                    Some(
                        TaskRefusal::AssigneeLacksWantedTags {
                            assignee: assignee.clone(),
                            wanted: copy_strings(&t.agent_tags_any),
                        },
                    )
                } else {
                    None
                }
            },
        },
    }
}

/// Why the acting worker cannot claim the task, if it cannot.
fn check_claim(t: &Task, force: bool, ctx: &UpdateContext) -> (r: Option<TaskRefusal>)
    ensures
        match r {
            Some(e) => claim_refusal(*t, force, *ctx) == Some(e@),
            None => claim_refusal(*t, force, *ctx) is None,
        },
{
    if !force && ctx.unsatisfied_blockers.len() > 0 {
        return Some(TaskRefusal::DependenciesNotSatisfied { blockers: copy_strings(&ctx.unsatisfied_blockers) });
    }
    match &ctx.agent_tags {
        None => Some(TaskRefusal::AgentNotFound),
        Some(have) => match missing_tag(&t.agent_tags_all, have) {
            Some(tag) => Some(TaskRefusal::AgentMissingTag { tag }),
            None => {
                if t.agent_tags_any.len() > 0 && !has_any(&t.agent_tags_any, have) {
                    Some(TaskRefusal::AgentLacksWantedTags)
                } else if ctx.agent_claims >= ctx.agent_max_claims {
                    Some(TaskRefusal::ClaimLimitReached { held: ctx.agent_claims, limit: ctx.agent_max_claims })
                } else {
                    None
                }
            },
        },
    }
}

/// Decide an update of `task` by the worker `agent_id` at time `now`: either
/// why it is refused (see `update_refusal`), or the task as it is to be
/// stored (see `planned_task`) with what else the store has to do (see
/// `planned_flags`).
pub fn plan_task_update(
    task: &Task,
    update: &TaskUpdate,
    agent_id: &str,
    assignee: &Option<String>,
    force: bool,
    states_config: &StatesConfig,
    ctx: &UpdateContext,
    now: i64,
) -> (r: Result<UpdatePlan, TaskRefusal>)
    ensures
        match r {
            Err(e) => update_refusal(*task, *update, agent_id@, *assignee, force, *states_config, *ctx) == Some(e@),
            Ok(p) => {
                &&& update_refusal(*task, *update, agent_id@, *assignee, force, *states_config, *ctx) is None
                &&& planned_task(p.task, *task, *update, agent_id@, *assignee, *states_config, now)
                &&& planned_flags(p, *task, *update, agent_id@, *assignee, *states_config)
            },
        },
{
    let ghost s_spec = target_status(*task, *update, *assignee);
    // Only the owner may update a claimed task, unless forced.
    if let Some(owner) = &task.owner_agent {
        if !crate::text::str_eq(owner.as_str(), agent_id) && !force {
            return Err(TaskRefusal::ClaimedByOther { owner: owner.clone() });
        }
    }
    let new_status: String = if assignee.is_some() && update.status.is_none() {
        string_of("assigned")
    } else {
        match &update.status {
            Some(s) => s.clone(),
            None => task.status.clone(),
        }
    };
    assert(new_status@ == s_spec);
    if !states_config.is_valid_state(new_status.as_str()) {
        let names = states_config.state_names();
        proof {
            assert(views(names@) =~= states_config.states@.map_values(
                |d: crate::types::StateDefinition| d.name@,
            ));
        }
        return Err(TaskRefusal::InvalidState { state: new_status, valid: names });
    }
    let status_changed = !crate::text::str_eq(task.status.as_str(), new_status.as_str());
    if status_changed && !states_config.is_valid_transition(task.status.as_str(), new_status.as_str()) {
        let exits = states_config.get_exits(task.status.as_str());
        proof {
            assert(views(exits@) =~= views(exits_of(*states_config, task.status@)));
        }
        return Err(TaskRefusal::InvalidTransition { from: task.status.clone(), to: new_status, allowed: exits });
    }
    let new_is_timed = states_config.is_timed_state(new_status.as_str());
    let new_is_terminal = states_config.is_terminal_state(new_status.as_str());
    let owned_by_agent = match &task.owner_agent {
        Some(o) => crate::text::str_eq(o.as_str(), agent_id),
        None => false,
    };
    // Assign: the named worker must exist and fit the task's tags.
    if let Some(a) = assignee {
        if let Some(e) = check_assignee(task, a, &ctx.assignee_tags) {
            return Err(e);
        }
    }
    // Claim: entering a timed state the worker does not already hold.
    let claiming = new_is_timed && !owned_by_agent;
    if claiming {
        if let Some(e) = check_claim(task, force, ctx) {
            return Err(e);
        }
    }
    // Complete: every contained task must be done.
    if new_is_terminal && ctx.incomplete_children > 0 {
        return Err(TaskRefusal::IncompleteChildren { count: ctx.incomplete_children });
    }
    let (new_owner, new_claimed_at): (Option<String>, Option<i64>) = if new_is_terminal {
        (None, None)
    } else if !new_is_timed && task.owner_agent.is_some() {
        (None, None)
    } else if claiming {
        (Some(string_of(agent_id)), Some(now))
    } else if let Some(a) = assignee {
        (Some(a.clone()), Some(now))
    } else {
        (copy_opt(&task.owner_agent), task.claimed_at)
    };
    let started_at = if task.started_at.is_none() && new_is_timed {
        Some(now)
    } else {
        task.started_at
    };
    let completed_at = if crate::text::str_eq(new_status.as_str(), "completed") {
        Some(now)
    } else {
        task.completed_at
    };
    let new_phase = match &update.phase {
        Some(p) => Some(p.clone()),
        None => copy_opt(&task.phase),
    };
    let new_tags = match &update.tags {
        Some(v) => copy_strings(v),
        None => copy_strings(&task.tags),
    };
    let new_needed = match &update.needed_tags {
        Some(v) => copy_strings(v),
        None => copy_strings(&task.agent_tags_all),
    };
    let new_wanted = match &update.wanted_tags {
        Some(v) => copy_strings(v),
        None => copy_strings(&task.agent_tags_any),
    };
    let phase_changed = !same_opt(&task.phase, &new_phase);
    let tags_changed = !same_strings(&new_tags, &task.tags);
    let needed_changed = !same_strings(&new_needed, &task.agent_tags_all);
    let wanted_changed = !same_strings(&new_wanted, &task.agent_tags_any);
    let unblocks = status_changed && states_config.is_blocking_state(task.status.as_str())
        && !states_config.is_blocking_state(new_status.as_str());
    let updated = Task {
        id: task.id.clone(),
        title: match &update.title {
            Some(x) => x.clone(),
            None => task.title.clone(),
        },
        description: match &update.description {
            Some(d) => copy_opt(d),
            None => copy_opt(&task.description),
        },
        status: new_status,
        phase: new_phase,
        priority: match update.priority {
            Some(p) => p,
            None => task.priority,
        },
        owner_agent: new_owner,
        claimed_at: new_claimed_at,
        agent_tags_all: new_needed,
        agent_tags_any: new_wanted,
        tags: new_tags,
        points: match update.points {
            Some(p) => p,
            None => task.points,
        },
        time_estimate_ms: match update.time_estimate_ms {
            Some(x) => Some(x),
            None => task.time_estimate_ms,
        },
        time_actual_ms: task.time_actual_ms,
        started_at,
        completed_at,
        current_thought: copy_opt(&task.current_thought),
        created_at: task.created_at,
        updated_at: now,
    };
    Ok(
        UpdatePlan {
            task: updated,
            refresh_heartbeat: claiming,
            release_file_locks: new_is_terminal,
            status_changed,
            phase_changed,
            tags_changed,
            needed_tags_changed: needed_changed,
            wanted_tags_changed: wanted_changed,
            unblocks_dependents: unblocks,
        },
    )
}

/// The fields that claiming, completing or releasing a task leaves as they
/// are.
pub open spec fn same_details(p: Task, t: Task) -> bool {
    &&& p.id@ == t.id@
    &&& p.title@ == t.title@
    &&& opt_view(p.description) == opt_view(t.description)
    &&& opt_view(p.phase) == opt_view(t.phase)
    &&& p.priority == t.priority
    &&& views(p.tags@) == views(t.tags@)
    &&& views(p.agent_tags_all@) == views(t.agent_tags_all@)
    &&& views(p.agent_tags_any@) == views(t.agent_tags_any@)
    &&& p.points == t.points
    &&& p.time_estimate_ms == t.time_estimate_ms
    &&& p.time_actual_ms == t.time_actual_ms
    &&& opt_view(p.current_thought) == opt_view(t.current_thought)
    &&& p.created_at == t.created_at
}

/// A copy of a task.
fn copy_task(t: &Task) -> (r: Task)
    ensures
        same_details(r, *t),
        r.status@ == t.status@,
        opt_view(r.owner_agent) == opt_view(t.owner_agent),
        r.claimed_at == t.claimed_at,
        r.started_at == t.started_at,
        r.completed_at == t.completed_at,
        r.updated_at == t.updated_at,
{
    Task {
        id: t.id.clone(),
        title: t.title.clone(),
        description: copy_opt(&t.description),
        status: t.status.clone(),
        phase: copy_opt(&t.phase),
        priority: t.priority,
        owner_agent: copy_opt(&t.owner_agent),
        claimed_at: t.claimed_at,
        agent_tags_all: copy_strings(&t.agent_tags_all),
        agent_tags_any: copy_strings(&t.agent_tags_any),
        tags: copy_strings(&t.tags),
        points: t.points,
        time_estimate_ms: t.time_estimate_ms,
        time_actual_ms: t.time_actual_ms,
        started_at: t.started_at,
        completed_at: t.completed_at,
        current_thought: copy_opt(&t.current_thought),
        created_at: t.created_at,
        updated_at: t.updated_at,
    }
}

/// `i` is the first position of a timed state.
pub open spec fn first_timed_at(states: Seq<StateDefinition>, i: int) -> bool {
    &&& 0 <= i < states.len()
    &&& states[i].timed
    &&& forall|j: int| 0 <= j < i ==> !states[j].timed
}

/// The state a claimed task moves to: the first timed state, or `working`
/// when none is timed.
pub open spec fn claim_state(cfg: StatesConfig) -> Seq<char> {
    if exists|i: int| first_timed_at(cfg.states@, i) {
        cfg.states@[choose|i: int| first_timed_at(cfg.states@, i)].name@
    } else {
        "working"@
    }
}

/// `i` is the first position of a state without exits.
pub open spec fn first_terminal_at(states: Seq<StateDefinition>, i: int) -> bool {
    &&& 0 <= i < states.len()
    &&& states[i].exits@.len() == 0
    &&& forall|j: int| 0 <= j < i ==> states[j].exits@.len() != 0
}

/// The state a completed task moves to: `completed` when it is configured,
/// else the first state without exits, else `completed`.
pub open spec fn complete_state(cfg: StatesConfig) -> Seq<char> {
    if valid_state(cfg, "completed"@) {
        "completed"@
    } else if exists|i: int| first_terminal_at(cfg.states@, i) {
        cfg.states@[choose|i: int| first_terminal_at(cfg.states@, i)].name@
    } else {
        "completed"@
    }
}

/// The name of the state a claimed task moves to.
fn claim_state_name(cfg: &StatesConfig) -> (r: String)
    ensures
        r@ == claim_state(*cfg),
{
    let mut i: usize = 0;
    while i < cfg.states.len()
        invariant
            i <= cfg.states@.len(),
            forall|j: int| 0 <= j < i ==> !cfg.states@[j].timed,
        decreases cfg.states@.len() - i,
    {
        if cfg.states[i].timed {
            proof {
                assert(first_timed_at(cfg.states@, i as int));
                let c = choose|k: int| first_timed_at(cfg.states@, k);
                if c < i {
                    assert(!cfg.states@[c].timed);
                } else if i < c {
                    assert(!cfg.states@[i as int].timed);
                }
            }
            return cfg.states[i].name.clone();
        }
        i = i + 1;
    }
    proof {
        reveal_strlit("working");
    }
    string_of("working")
}

/// The name of the state a completed task moves to.
fn complete_state_name(cfg: &StatesConfig) -> (r: String)
    ensures
        r@ == complete_state(*cfg),
{
    if cfg.is_valid_state("completed") {
        return string_of("completed");
    }
    let mut i: usize = 0;
    while i < cfg.states.len()
        invariant
            i <= cfg.states@.len(),
            !valid_state(*cfg, "completed"@),
            forall|j: int| 0 <= j < i ==> cfg.states@[j].exits@.len() != 0,
        decreases cfg.states@.len() - i,
    {
        if cfg.states[i].exits.len() == 0 {
            proof {
                assert(first_terminal_at(cfg.states@, i as int));
                let c = choose|k: int| first_terminal_at(cfg.states@, k);
                if c < i {
                    assert(cfg.states@[c].exits@.len() != 0);
                } else if i < c {
                    assert(cfg.states@[i as int].exits@.len() == 0);
                }
            }
            return cfg.states[i].name.clone();
        }
        i = i + 1;
    }
    string_of("completed")
}

/// Why the worker cannot claim the task, if it cannot: someone holds it,
/// the task cannot move into the claimed state, or the worker is unknown or
/// does not fit the task's tags.
pub open spec fn claim_task_refusal(t: Task, cfg: StatesConfig, agent_tags: Option<Vec<String>>, held: i32, limit: i32) -> Option<
    RefusalV,
> {
    if t.owner_agent is Some {
        Some(RefusalV::AlreadyClaimed)
    } else if !valid_transition(cfg, t.status@, claim_state(cfg)) {
        Some(RefusalV::CannotClaimFrom(t.status@, views(exits_of(cfg, t.status@))))
    } else {
        match agent_tags {
            None => Some(RefusalV::AgentNotFound),
            Some(have) => match first_missing(t.agent_tags_all@, have@) {
                Some(tag) => Some(RefusalV::AgentMissingTag(tag)),
                None => if t.agent_tags_any@.len() > 0 && !shares_any(t.agent_tags_any@, have@) {
                    Some(RefusalV::AgentLacksWantedTags)
                } else {
                    limit_refusal(held, limit)
                },
            },
        }
    }
}

/// Decide a claim of `task` by the worker `agent_id` (whose tags are
/// `agent_tags`, `None` for an unknown worker, and which holds `held` tasks
/// of at most `limit`) at time `now`: why it is
/// refused, or the task claimed by the worker and moved into the claimed
/// state (see `claim_state`), started and updated now.
pub fn plan_claim(
    task: &Task,
    agent_id: &str,
    states_config: &StatesConfig,
    agent_tags: &Option<Vec<String>>,
    held: i32,
    limit: i32,
    now: i64,
) -> (r: Result<
    Task,
    TaskRefusal,
>)
    ensures
        match r {
            Err(e) => claim_task_refusal(*task, *states_config, *agent_tags, held, limit) == Some(e@),
            Ok(p) => {
                &&& claim_task_refusal(*task, *states_config, *agent_tags, held, limit) is None
                &&& same_details(p, *task)
                &&& p.status@ == claim_state(*states_config)
                &&& opt_view(p.owner_agent) == Some(agent_id@)
                &&& p.claimed_at == Some(now)
                &&& p.started_at == Some(now)
                &&& p.updated_at == now
                &&& p.completed_at == task.completed_at
            },
        },
{
    if task.owner_agent.is_some() {
        return Err(TaskRefusal::AlreadyClaimed);
    }
    let claim_status = claim_state_name(states_config);
    if !states_config.is_valid_transition(task.status.as_str(), claim_status.as_str()) {
        let exits = states_config.get_exits(task.status.as_str());
        proof {
            assert(views(exits@) =~= views(exits_of(*states_config, task.status@)));
        }
        return Err(TaskRefusal::CannotClaimFrom { state: task.status.clone(), allowed: exits });
    }
    match agent_tags {
        None => {
            return Err(TaskRefusal::AgentNotFound);
        },
        Some(have) => {
            if let Some(tag) = missing_tag(&task.agent_tags_all, have) {
                return Err(TaskRefusal::AgentMissingTag { tag });
            }
            if task.agent_tags_any.len() > 0 && !has_any(&task.agent_tags_any, have) {
                return Err(TaskRefusal::AgentLacksWantedTags);
            }
            if held >= limit {
                return Err(TaskRefusal::ClaimLimitReached { held, limit });
            }
        },
    }
    let mut p = copy_task(task);
    p.owner_agent = Some(string_of(agent_id));
    p.claimed_at = Some(now);
    p.status = claim_status;
    p.started_at = Some(now);
    p.updated_at = now;
    Ok(p)
}

/// Why the worker cannot complete the task, if it cannot: it does not hold
/// it, some contained tasks are not done, or the task cannot move into the
/// completed state.
pub open spec fn complete_task_refusal(t: Task, agent: Seq<char>, cfg: StatesConfig, incomplete_children: i32) -> Option<
    RefusalV,
> {
    if !owned_by(t, agent) {
        Some(RefusalV::NotOwner)
    } else if incomplete_children > 0 {
        Some(RefusalV::IncompleteChildren(incomplete_children as int))
    } else if !valid_transition(cfg, t.status@, complete_state(cfg)) {
        Some(RefusalV::CannotCompleteFrom(t.status@, views(exits_of(cfg, t.status@))))
    } else {
        None
    }
}

/// Decide the completion of `task` by the worker `agent_id` at time `now`,
/// `incomplete_children` of its contained tasks not being done: why it is
/// refused, or the task released and moved into the completed state (see
/// `complete_state`), completed and updated now.
pub fn plan_complete(task: &Task, agent_id: &str, states_config: &StatesConfig, incomplete_children: i32, now: i64) -> (r:
    Result<Task, TaskRefusal>)
    ensures
        match r {
            Err(e) => complete_task_refusal(*task, agent_id@, *states_config, incomplete_children) == Some(e@),
            Ok(p) => {
                &&& complete_task_refusal(*task, agent_id@, *states_config, incomplete_children) is None
                &&& same_details(p, *task)
                &&& p.status@ == complete_state(*states_config)
                &&& p.owner_agent is None
                &&& p.claimed_at is None
                &&& p.completed_at == Some(now)
                &&& p.updated_at == now
                &&& p.started_at == task.started_at
            },
        },
{
    let owned = match &task.owner_agent {
        Some(o) => crate::text::str_eq(o.as_str(), agent_id),
        None => false,
    };
    if !owned {
        return Err(TaskRefusal::NotOwner);
    }
    if incomplete_children > 0 {
        return Err(TaskRefusal::IncompleteChildren { count: incomplete_children });
    }
    let complete_status = complete_state_name(states_config);
    if !states_config.is_valid_transition(task.status.as_str(), complete_status.as_str()) {
        let exits = states_config.get_exits(task.status.as_str());
        proof {
            assert(views(exits@) =~= views(exits_of(*states_config, task.status@)));
        }
        return Err(TaskRefusal::CannotCompleteFrom { state: task.status.clone(), allowed: exits });
    }
    let mut p = copy_task(task);
    p.status = complete_status;
    p.completed_at = Some(now);
    p.updated_at = now;
    p.owner_agent = None;
    p.claimed_at = None;
    Ok(p)
}

/// Why a plain field update is refused, if it is: the target state is not
/// configured, or the task may not move into it.
pub open spec fn field_update_refusal(t: Task, u: TaskUpdate, cfg: StatesConfig) -> Option<RefusalV> {
    let s = or_current(u.status, t.status)@;
    if !valid_state(cfg, s) {
        Some(RefusalV::InvalidState(s, cfg.states@.map_values(|d: StateDefinition| d.name@)))
    } else if t.status@ != s && !valid_transition(cfg, t.status@, s) {
        Some(RefusalV::InvalidTransition(t.status@, s, views(exits_of(cfg, t.status@))))
    } else {
        None
    }
}

/// Decide a plain update of a task's title, description, state, priority,
/// points and tags at time `now`, with no ownership rules (the other fields
/// of `update` are not consulted): why it is refused, or the updated task,
/// started now when it first enters a timed state and completed now when it
/// enters `completed`.
pub fn plan_field_update(task: &Task, update: &TaskUpdate, states_config: &StatesConfig, now: i64) -> (r: Result<
    Task,
    TaskRefusal,
>)
    ensures
        match r {
            Err(e) => field_update_refusal(*task, *update, *states_config) == Some(e@),
            Ok(p) => {
                let s = or_current(update.status, task.status)@;
                &&& field_update_refusal(*task, *update, *states_config) is None
                &&& p.id@ == task.id@
                &&& p.title@ == or_current(update.title, task.title)@
                &&& opt_view(p.description) == opt_view(or_current(update.description, task.description))
                &&& p.status@ == s
                &&& p.priority == or_current(update.priority, task.priority)
                &&& p.points == or_current(update.points, task.points)
                &&& views(p.tags@) == views(or_current(update.tags, task.tags)@)
                &&& p.started_at == (if task.started_at is None && timed_state(*states_config, s) {
                    Some(now)
                } else {
                    task.started_at
                })
                &&& p.completed_at == (if s == "completed"@ { Some(now) } else { task.completed_at })
                &&& p.updated_at == now
                &&& opt_view(p.phase) == opt_view(task.phase)
                &&& views(p.agent_tags_all@) == views(task.agent_tags_all@)
                &&& views(p.agent_tags_any@) == views(task.agent_tags_any@)
                &&& p.time_estimate_ms == task.time_estimate_ms
                &&& p.time_actual_ms == task.time_actual_ms
                &&& opt_view(p.owner_agent) == opt_view(task.owner_agent)
                &&& p.claimed_at == task.claimed_at
                &&& opt_view(p.current_thought) == opt_view(task.current_thought)
                &&& p.created_at == task.created_at
            },
        },
{
    let new_status = match &update.status {
        Some(s) => s.clone(),
        None => task.status.clone(),
    };
    if !states_config.is_valid_state(new_status.as_str()) {
        let names = states_config.state_names();
        proof {
            assert(views(names@) =~= states_config.states@.map_values(|d: StateDefinition| d.name@));
        }
        return Err(TaskRefusal::InvalidState { state: new_status, valid: names });
    }
    if !crate::text::str_eq(task.status.as_str(), new_status.as_str()) && !states_config.is_valid_transition(
        task.status.as_str(),
        new_status.as_str(),
    ) {
        let exits = states_config.get_exits(task.status.as_str());
        proof {
            assert(views(exits@) =~= views(exits_of(*states_config, task.status@)));
        }
        return Err(TaskRefusal::InvalidTransition { from: task.status.clone(), to: new_status, allowed: exits });
    }
    let started_at = if task.started_at.is_none() && states_config.is_timed_state(new_status.as_str()) {
        Some(now)
    } else {
        task.started_at
    };
    let completed_at = if crate::text::str_eq(new_status.as_str(), "completed") {
        Some(now)
    } else {
        task.completed_at
    };
    let mut p = copy_task(task);
    match &update.title {
        Some(x) => {
            p.title = x.clone();
        },
        None => {},
    }
    match &update.description {
        Some(d) => {
            p.description = copy_opt(d);
        },
        None => {},
    }
    p.status = new_status;
    match update.priority {
        Some(x) => {
            p.priority = x;
        },
        None => {},
    }
    match update.points {
        Some(x) => {
            p.points = x;
        },
        None => {},
    }
    match &update.tags {
        Some(v) => {
            p.tags = copy_strings(v);
        },
        None => {},
    }
    p.started_at = started_at;
    p.completed_at = completed_at;
    p.updated_at = now;
    Ok(p)
}

/// Decide the release of `task` by the worker `agent_id` at time `now`:
/// refused unless the worker holds the task; otherwise the task moves back to
/// the initial state with nobody holding it.
pub fn plan_release(task: &Task, agent_id: &str, states_config: &StatesConfig, now: i64) -> (r: Result<
    Task,
    TaskRefusal,
>)
    ensures
        match r {
            Err(e) => !owned_by(*task, agent_id@) && e@ == RefusalV::NotOwner,
            Ok(p) => {
                &&& owned_by(*task, agent_id@)
                &&& same_details(p, *task)
                &&& p.status@ == states_config.initial@
                &&& p.owner_agent is None
                &&& p.claimed_at is None
                &&& p.updated_at == now
                &&& p.started_at == task.started_at
                &&& p.completed_at == task.completed_at
            },
        },
{
    let owned = match &task.owner_agent {
        Some(o) => crate::text::str_eq(o.as_str(), agent_id),
        None => false,
    };
    if !owned {
        return Err(TaskRefusal::NotOwner);
    }
    let mut p = copy_task(task);
    p.status = states_config.initial.clone();
    p.owner_agent = None;
    p.claimed_at = None;
    p.updated_at = now;
    Ok(p)
}

/// Why the worker cannot take the task over, if it cannot: it is unknown
/// or does not fit the task's tags.
pub open spec fn force_claim_refusal(t: Task, agent_tags: Option<Vec<String>>) -> Option<RefusalV> {
    match agent_tags {
        None => Some(RefusalV::AgentNotFound),
        Some(have) => match first_missing(t.agent_tags_all@, have@) {
            Some(tag) => Some(RefusalV::AgentMissingTag(tag)),
            None => if t.agent_tags_any@.len() > 0 && !shares_any(t.agent_tags_any@, have@) {
                Some(RefusalV::AgentLacksWantedTags)
            } else {
                None
            },
        },
    }
}

/// Decide a forced claim of `task` by the worker `agent_id` at time `now`,
/// whoever holds it: refused only when the worker is unknown or does not fit
/// the task's tags; otherwise the worker holds the task, in the claimed
/// state (see `claim_state`), started now unless it started before.
pub fn plan_force_claim(task: &Task, agent_id: &str, states_config: &StatesConfig, agent_tags: &Option<Vec<String>>, now: i64) -> (r:
    Result<Task, TaskRefusal>)
    ensures
        match r {
            Err(e) => force_claim_refusal(*task, *agent_tags) == Some(e@),
            Ok(p) => {
                &&& force_claim_refusal(*task, *agent_tags) is None
                &&& same_details(p, *task)
                &&& p.status@ == claim_state(*states_config)
                &&& opt_view(p.owner_agent) == Some(agent_id@)
                &&& p.claimed_at == Some(now)
                &&& p.started_at == (if task.started_at is Some { task.started_at } else { Some(now) })
                &&& p.updated_at == now
                &&& p.completed_at == task.completed_at
            },
        },
{
    let claim_status = claim_state_name(states_config);
    match agent_tags {
        None => {
            return Err(TaskRefusal::AgentNotFound);
        },
        Some(have) => {
            if let Some(tag) = missing_tag(&task.agent_tags_all, have) {
                return Err(TaskRefusal::AgentMissingTag { tag });
            }
            if task.agent_tags_any.len() > 0 && !has_any(&task.agent_tags_any, have) {
                return Err(TaskRefusal::AgentLacksWantedTags);
            }
        },
    }
    let mut p = copy_task(task);
    p.owner_agent = Some(string_of(agent_id));
    p.claimed_at = Some(now);
    p.status = claim_status;
    if p.started_at.is_none() {
        p.started_at = Some(now);
    }
    p.updated_at = now;
    Ok(p)
}

/// Why the worker cannot release the task into `state`, if it cannot: it
/// does not hold it, the state is not configured, or the task may not move
/// into it.
pub open spec fn release_to_refusal(t: Task, agent: Seq<char>, state: Seq<char>, cfg: StatesConfig) -> Option<RefusalV> {
    if !owned_by(t, agent) {
        Some(RefusalV::NotOwner)
    } else if !valid_state(cfg, state) {
        Some(RefusalV::InvalidState(state, cfg.states@.map_values(|d: StateDefinition| d.name@)))
    } else if !valid_transition(cfg, t.status@, state) {
        Some(RefusalV::InvalidTransition(t.status@, state, views(exits_of(cfg, t.status@))))
    } else {
        None
    }
}

/// Decide the release of `task` by the worker `agent_id` into `state` at
/// time `now`: why it is refused, or the task in that state with nobody
/// holding it, completed now when the state is `completed`.
pub fn plan_release_to(task: &Task, agent_id: &str, state: &str, states_config: &StatesConfig, now: i64) -> (r: Result<
    Task,
    TaskRefusal,
>)
    ensures
        match r {
            Err(e) => release_to_refusal(*task, agent_id@, state@, *states_config) == Some(e@),
            Ok(p) => {
                &&& release_to_refusal(*task, agent_id@, state@, *states_config) is None
                &&& same_details(p, *task)
                &&& p.status@ == state@
                &&& p.owner_agent is None
                &&& p.claimed_at is None
                &&& p.completed_at == (if state@ == "completed"@ { Some(now) } else { task.completed_at })
                &&& p.updated_at == now
                &&& p.started_at == task.started_at
            },
        },
{
    let owned = match &task.owner_agent {
        Some(o) => crate::text::str_eq(o.as_str(), agent_id),
        None => false,
    };
    if !owned {
        return Err(TaskRefusal::NotOwner);
    }
    if !states_config.is_valid_state(state) {
        let names = states_config.state_names();
        proof {
            assert(views(names@) =~= states_config.states@.map_values(|d: StateDefinition| d.name@));
        }
        return Err(TaskRefusal::InvalidState { state: string_of(state), valid: names });
    }
    if !states_config.is_valid_transition(task.status.as_str(), state) {
        let exits = states_config.get_exits(task.status.as_str());
        proof {
            assert(views(exits@) =~= views(exits_of(*states_config, task.status@)));
        }
        return Err(TaskRefusal::InvalidTransition { from: task.status.clone(), to: string_of(state), allowed: exits });
    }
    let mut p = copy_task(task);
    p.status = string_of(state);
    p.owner_agent = None;
    p.claimed_at = None;
    if crate::text::str_eq(state, "completed") {
        p.completed_at = Some(now);
    }
    p.updated_at = now;
    Ok(p)
}

/// How a task is deleted.
#[derive(Debug, Clone, Copy, PartialEq, Eq, Structural)]
pub enum Deletion {
    /// Mark the task deleted.
    Soft,
    /// Mark the task and everything it contains, at any depth, deleted.
    SoftWithDescendants,
    /// Remove the task.
    Hard,
    /// Remove the task and everything it contains, at any depth.
    HardWithDescendants,
}

/// Why the worker cannot delete the task, if it cannot: another worker holds
/// it and the deletion is not forced, or it has children and they are not to
/// be deleted with it.
pub open spec fn delete_refusal(t: Task, worker: Seq<char>, cascade: bool, force: bool, child_count: i32) -> Option<
    RefusalV,
> {
    if owned_by_other(t, worker) && !force {
        Some(RefusalV::ClaimedByWorker(t.owner_agent->0@))
    } else if !cascade && child_count > 0 {
        Some(RefusalV::HasChildren)
    } else {
        None
    }
}

/// Decide a deletion of `task` by `worker_id`, `child_count` tasks being
/// directly contained in it: why it is refused, or how it is deleted (hard
/// when `obliterate`, with its descendants when `cascade`).
pub fn plan_delete(task: &Task, worker_id: &str, cascade: bool, obliterate: bool, force: bool, child_count: i32) -> (r:
    Result<Deletion, TaskRefusal>)
    ensures
        match r {
            Err(e) => delete_refusal(*task, worker_id@, cascade, force, child_count) == Some(e@),
            Ok(d) => {
                &&& delete_refusal(*task, worker_id@, cascade, force, child_count) is None
                &&& d == (if obliterate {
                    if cascade { Deletion::HardWithDescendants } else { Deletion::Hard }
                } else {
                    if cascade { Deletion::SoftWithDescendants } else { Deletion::Soft }
                })
            },
        },
{
    if let Some(owner) = &task.owner_agent {
        if !crate::text::str_eq(owner.as_str(), worker_id) && !force {
            return Err(TaskRefusal::ClaimedByWorker { owner: owner.clone() });
        }
    }
    if !cascade && child_count > 0 {
        return Err(TaskRefusal::HasChildren);
    }
    Ok(
        if obliterate {
            if cascade {
                Deletion::HardWithDescendants
            } else {
                Deletion::Hard
            }
        } else {
            if cascade {
                Deletion::SoftWithDescendants
            } else {
                Deletion::Soft
            }
        },
    )
}

} // verus!
