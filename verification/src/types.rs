//! The task, worker and attachment records that the formatting functions
//! read, and the configured workflow states.

use vstd::prelude::*;

verus! {

/// Task priority, 0 to 10; higher is more important.
pub type Priority = i32;

/// The priority a task gets when none is given.
pub const PRIORITY_DEFAULT: i32 = 5;

/// The lowest priority.
pub const PRIORITY_MIN: i32 = 0;

/// The highest priority.
pub const PRIORITY_MAX: i32 = 10;

/// The priority brought into the range `PRIORITY_MIN..=PRIORITY_MAX`.
pub open spec fn clamped_priority(p: int) -> int {
    if p < PRIORITY_MIN {
        PRIORITY_MIN as int
    } else if p > PRIORITY_MAX {
        PRIORITY_MAX as int
    } else {
        p
    }
}

/// Brings a priority into the range 0 to 10.
pub fn clamp_priority(p: Priority) -> (r: Priority)
    ensures
        r == clamped_priority(p as int),
{
    if p < PRIORITY_MIN {
        PRIORITY_MIN
    } else if p > PRIORITY_MAX {
        PRIORITY_MAX
    } else {
        p
    }
}

/// A task record.
#[derive(Debug, Clone)]
pub struct Task {
    pub id: String,
    pub title: String,
    pub description: Option<String>,
    pub status: String,
    pub phase: Option<String>,
    pub priority: Priority,
    pub owner_agent: Option<String>,
    pub claimed_at: Option<i64>,
    pub agent_tags_all: Vec<String>,
    pub agent_tags_any: Vec<String>,
    pub tags: Vec<String>,
    pub points: Option<i32>,
    pub time_estimate_ms: Option<i64>,
    pub time_actual_ms: Option<i64>,
    pub started_at: Option<i64>,
    pub completed_at: Option<i64>,
    pub current_thought: Option<String>,
    pub created_at: i64,
    pub updated_at: i64,
}

/// A task with its contained subtasks.
#[derive(Debug)]
pub struct TaskTree {
    pub task: Task,
    pub children: Vec<TaskTree>,
}

/// Nested input for creating a task tree: a new task (or a reference to an
/// existing one) and its children.
#[derive(Debug)]
pub struct TaskTreeInput {
    pub ref_id: Option<String>,
    pub id: Option<String>,
    pub title: Option<String>,
    pub description: Option<String>,
    pub phase: Option<String>,
    pub priority: Option<Priority>,
    pub points: Option<i32>,
    pub time_estimate_ms: Option<i64>,
    pub tags: Option<Vec<String>>,
    pub needed_tags: Option<Vec<String>>,
    pub wanted_tags: Option<Vec<String>>,
    /// How the node joins its previous sibling: `then` (after it) or
    /// `also` (beside it).
    pub join_mode: Option<String>,
    pub children: Vec<TaskTreeInput>,
}

/// A registered worker and its current load.
#[derive(Debug, Clone)]
pub struct WorkerInfo {
    pub id: String,
    pub tags: Vec<String>,
    pub max_claims: i32,
    pub claim_count: i32,
    pub current_thought: Option<String>,
    pub registered_at: i64,
    pub last_heartbeat: i64,
    pub last_status: Option<String>,
    pub last_phase: Option<String>,
    pub last_task_id: Option<String>,
    pub workflow: Option<String>,
}

/// An attachment without its content.
#[derive(Debug, Clone)]
pub struct AttachmentMeta {
    pub task_id: String,
    pub attachment_type: String,
    pub order_index: i32,
    pub name: String,
    pub mime_type: String,
    pub file_path: Option<String>,
    pub created_at: i64,
}

/// The tasks related to a root task in each direction of the graph.
#[derive(Debug, Clone)]
pub struct ScanResult {
    pub root: Task,
    pub before: Vec<Task>,
    pub after: Vec<Task>,
    pub above: Vec<Task>,
    pub below: Vec<Task>,
}

/// A configured workflow state: its name, the states a task may move to from
/// it, and whether time in it is tracked (a state in which a worker holds the
/// task).
#[derive(Debug, Clone)]
pub struct StateDefinition {
    pub name: String,
    pub exits: Vec<String>,
    pub timed: bool,
}

/// The workflow states: the initial state, the states that block dependents
/// until they are left, and every state's definition, in order.
#[derive(Debug, Clone)]
pub struct StatesConfig {
    pub initial: String,
    pub blocking_states: Vec<String>,
    pub states: Vec<StateDefinition>,
}

/// Some string of the sequence has the characters `s`.
pub open spec fn mentions(v: Seq<String>, s: Seq<char>) -> bool {
    exists|i: int| 0 <= i < v.len() && v[i]@ == s
}

/// `i` is the first position of a definition named `s`.
pub open spec fn first_state_at(states: Seq<StateDefinition>, s: Seq<char>, i: int) -> bool {
    &&& 0 <= i < states.len()
    &&& states[i].name@ == s
    &&& forall|j: int| 0 <= j < i ==> states[j].name@ != s
}

/// The definition of the state named `s` (the first, should two share it).
pub open spec fn state_def(states: Seq<StateDefinition>, s: Seq<char>) -> Option<StateDefinition> {
    if exists|i: int| first_state_at(states, s, i) {
        Some(states[choose|i: int| first_state_at(states, s, i)])
    } else {
        None
    }
}

/// The names of the timed states, in order.
pub open spec fn timed_names(states: Seq<StateDefinition>) -> Seq<Seq<char>>
    decreases states.len(),
{
    if states.len() == 0 {
        Seq::empty()
    } else {
        let pre = timed_names(states.drop_last());
        if states.last().timed { pre.push(states.last().name@) } else { pre }
    }
}

/// The state is configured.
pub open spec fn valid_state(cfg: StatesConfig, s: Seq<char>) -> bool {
    state_def(cfg.states@, s) is Some
}

/// The states a task may move to from `s`; none for an unknown state.
pub open spec fn exits_of(cfg: StatesConfig, s: Seq<char>) -> Seq<String> {
    match state_def(cfg.states@, s) {
        Some(d) => d.exits@,
        None => Seq::empty(),
    }
}

/// A task may move from `from` to `to`.
pub open spec fn valid_transition(cfg: StatesConfig, from: Seq<char>, to: Seq<char>) -> bool {
    mentions(exits_of(cfg, from), to)
}

/// Time in the state is tracked.
pub open spec fn timed_state(cfg: StatesConfig, s: Seq<char>) -> bool {
    match state_def(cfg.states@, s) {
        Some(d) => d.timed,
        None => false,
    }
}

/// The state is configured and has no exit.
pub open spec fn terminal_state(cfg: StatesConfig, s: Seq<char>) -> bool {
    match state_def(cfg.states@, s) {
        Some(d) => d.exits@.len() == 0,
        None => false,
    }
}

/// The first position of a name is unique.
proof fn lemma_first_state_unique(states: Seq<StateDefinition>, s: Seq<char>, i: int, j: int)
    requires
        first_state_at(states, s, i),
        first_state_at(states, s, j),
    ensures
        i == j,
{
    if i < j {
        assert(states[i].name@ != s);
    } else if j < i {
        assert(states[j].name@ != s);
    }
}

impl StatesConfig {
    /// The configured state names, in order.
    pub fn state_names(&self) -> (r: Vec<String>)
        ensures
            r@.len() == self.states@.len(),
            forall|i: int| 0 <= i < r@.len() ==> (#[trigger] r@[i])@ == self.states@[i].name@,
    {
        let mut out: Vec<String> = Vec::new();
        let mut i: usize = 0;
        while i < self.states.len()
            invariant
                i <= self.states@.len(),
                out@.len() == i,
                forall|k: int| 0 <= k < i ==> (#[trigger] out@[k])@ == self.states@[k].name@,
            decreases self.states@.len() - i,
        {
            out.push(self.states[i].name.clone());
            i = i + 1;
        }
        out
    }

    /// The definition of a state, if it is configured.
    pub fn find_state(&self, state: &str) -> (r: Option<&StateDefinition>)
        ensures
            match r {
                Some(d) => state_def(self.states@, state@) == Some(*d),
                None => state_def(self.states@, state@) is None,
            },
    {
        let mut i: usize = 0;
        while i < self.states.len()
            invariant
                i <= self.states@.len(),
                forall|k: int| 0 <= k < i ==> self.states@[k].name@ != state@,
            decreases self.states@.len() - i,
        {
            if crate::text::str_eq(self.states[i].name.as_str(), state) {
                proof {
                    assert(first_state_at(self.states@, state@, i as int));
                    let c = choose|j: int| first_state_at(self.states@, state@, j);
                    lemma_first_state_unique(self.states@, state@, i as int, c);
                }
                return Some(&self.states[i]);
            }
            i = i + 1;
        }
        proof {
            assert(!exists|j: int| first_state_at(self.states@, state@, j));
        }
        None
    }

    /// Whether the state is configured.
    pub fn is_valid_state(&self, state: &str) -> (r: bool)
        ensures
            r == valid_state(*self, state@),
    {
        self.find_state(state).is_some()
    }

    /// Whether time in the state is tracked.
    pub fn is_timed_state(&self, state: &str) -> (r: bool)
        ensures
            r == timed_state(*self, state@),
    {
        match self.find_state(state) {
            Some(d) => d.timed,
            None => false,
        }
    }

    /// Whether the state is configured and has no exit.
    pub fn is_terminal_state(&self, state: &str) -> (r: bool)
        ensures
            r == terminal_state(*self, state@),
    {
        match self.find_state(state) {
            Some(d) => d.exits.len() == 0,
            None => false,
        }
    }

    /// The states a task may move to from `state`.
    pub fn get_exits(&self, state: &str) -> (r: Vec<String>)
        ensures
            r@.len() == exits_of(*self, state@).len(),
            forall|i: int| 0 <= i < r@.len() ==> (#[trigger] r@[i])@ == exits_of(*self, state@)[i]@,
    {
        match self.find_state(state) {
            Some(d) => {
                let mut out: Vec<String> = Vec::new();
                let mut i: usize = 0;
                while i < d.exits.len()
                    invariant
                        i <= d.exits@.len(),
                        out@.len() == i,
                        forall|k: int| 0 <= k < i ==> (#[trigger] out@[k])@ == d.exits@[k]@,
                    decreases d.exits@.len() - i,
                {
                    out.push(d.exits[i].clone());
                    i = i + 1;
                }
                out
            },
            None => Vec::new(),
        }
    }

    /// Whether a task may move from `from` to `to`.
    pub fn is_valid_transition(&self, from: &str, to: &str) -> (r: bool)
        ensures
            r == valid_transition(*self, from@, to@),
    {
        match self.find_state(from) {
            Some(d) => {
                let mut i: usize = 0;
                while i < d.exits.len()
                    invariant
                        i <= d.exits@.len(),
                        state_def(self.states@, from@) == Some(*d),
                        forall|k: int| 0 <= k < i ==> d.exits@[k]@ != to@,
                    decreases d.exits@.len() - i,
                {
                    if crate::text::str_eq(d.exits[i].as_str(), to) {
                        proof {
                            assert(exits_of(*self, from@) == d.exits@);
                            assert(d.exits@[i as int]@ == to@);
                        }
                        return true;
                    }
                    i = i + 1;
                }
                false
            },
            None => false,
        }
    }

    /// The names of the timed states, in order.
    pub fn timed_state_names(&self) -> (r: Vec<String>)
        ensures
            crate::text::views(r@) == timed_names(self.states@),
    {
        let mut out: Vec<String> = Vec::new();
        let mut i: usize = 0;
        proof {
            assert(crate::text::views(out@) =~= timed_names(self.states@.take(0)));
        }
        while i < self.states.len()
            invariant
                i <= self.states@.len(),
                crate::text::views(out@) == timed_names(self.states@.take(i as int)),
            decreases self.states@.len() - i,
        {
            proof {
                assert(self.states@.take(i + 1).drop_last() =~= self.states@.take(i as int));
                assert(self.states@.take(i + 1).last() == self.states@[i as int]);
            }
            if self.states[i].timed {
                proof {
                    crate::text::lemma_views_push(out@, self.states@[i as int].name);
                }
                out.push(self.states[i].name.clone());
            }
            i = i + 1;
        }
        proof {
            assert(self.states@.take(self.states@.len() as int) =~= self.states@);
        }
        out
    }

    /// Whether the state is one of the blocking states.
    pub fn is_blocking_state(&self, state: &str) -> (r: bool)
        ensures
            r == mentions(self.blocking_states@, state@),
    {
        let mut i: usize = 0;
        while i < self.blocking_states.len()
            invariant
                i <= self.blocking_states@.len(),
                forall|k: int| 0 <= k < i ==> self.blocking_states@[k]@ != state@,
            decreases self.blocking_states@.len() - i,
        {
            if crate::text::str_eq(self.blocking_states[i].as_str(), state) {
                return true;
            }
            i = i + 1;
        }
        false
    }
}

} // verus!
