//! Gate evaluation for workflow transitions.
//!
//! Gates are checklist items that must be satisfied before leaving a status
//! or phase. A gate is satisfied when the task has an attachment of the
//! gate's type (e.g. "gate/tests", "gate/commit").

use vstd::prelude::*;
use crate::text::{str_eq, string_of};

verus! {

/// How strictly an unsatisfied gate is enforced.
#[derive(Debug, Clone, Copy, PartialEq, Eq, Structural)]
pub enum GateEnforcement {
    /// Reported, but does not affect the outcome.
    Allow,
    /// Reported as a warning.
    Warn,
    /// Blocks the transition.
    Reject,
}

/// A gate: the attachment type that satisfies it, its enforcement, and what
/// it asks for.
#[derive(Debug, Clone)]
pub struct GateDefinition {
    pub gate_type: String,
    pub enforcement: GateEnforcement,
    pub description: String,
}

/// Result of evaluating a single gate.
#[derive(Debug, Clone)]
pub struct GateResult {
    /// The attachment type that would satisfy this gate.
    pub gate_type: String,
    /// Enforcement level for this gate.
    pub enforcement: GateEnforcement,
    /// Human-readable description of what this gate requires.
    pub description: String,
    /// Satisfied or not (always false in the unsatisfied list).
    pub satisfied: bool,
}

/// Aggregated result of evaluating all gates for a transition.
#[derive(Debug)]
pub struct GateCheckResult {
    /// Overall status: "pass", "warn", or "fail".
    pub status: String,
    /// Only unsatisfied gates are included.
    pub unsatisfied_gates: Vec<GateResult>,
}

/// Some attachment type equals `g.gate_type`.
pub open spec fn gate_satisfied(types: Seq<String>, g: GateDefinition) -> bool {
    exists|i: int| 0 <= i < types.len() && types[i]@ == g.gate_type@
}

/// The gates that no attachment type satisfies, in order.
pub open spec fn unsatisfied(types: Seq<String>, gates: Seq<GateDefinition>) -> Seq<GateDefinition>
    decreases gates.len(),
{
    if gates.len() == 0 {
        Seq::empty()
    } else {
        let rest = unsatisfied(types, gates.drop_last());
        if gate_satisfied(types, gates.last()) { rest } else { rest.push(gates.last()) }
    }
}

/// Some gate of the list has the enforcement.
pub open spec fn any_enforced(gates: Seq<GateDefinition>, e: GateEnforcement) -> bool {
    exists|i: int| 0 <= i < gates.len() && gates[i].enforcement == e
}

/// The overall status: "fail" when an unsatisfied gate rejects, else "warn"
/// when one warns, else "pass".
pub open spec fn gate_status(unsat: Seq<GateDefinition>) -> Seq<char> {
    if any_enforced(unsat, GateEnforcement::Reject) {
        "fail"@
    } else if any_enforced(unsat, GateEnforcement::Warn) {
        "warn"@
    } else {
        "pass"@
    }
}

/// The reported result of an unsatisfied gate.
pub open spec fn reported(r: GateResult, g: GateDefinition) -> bool {
    &&& r.gate_type@ == g.gate_type@
    &&& r.enforcement == g.enforcement
    &&& r.description@ == g.description@
    &&& !r.satisfied
}

/// Whether some attachment type equals `gate_type`.
fn has_type(types: &[String], gate_type: &str) -> (r: bool)
    ensures
        r == exists|i: int| 0 <= i < types@.len() && types@[i]@ == gate_type@,
{
    let mut i: usize = 0;
    while i < types.len()
        invariant
            i <= types@.len(),
            forall|k: int| 0 <= k < i ==> types@[k]@ != gate_type@,
        decreases types@.len() - i,
    {
        if str_eq(types[i].as_str(), gate_type) {
            return true;
        }
        i = i + 1;
    }
    false
}

/// Evaluates the gates against the attachment types of a task: the gates
/// that no attachment satisfies are reported, in order, and the status is
/// "fail" if one of them rejects, else "warn" if one warns, else "pass".
pub fn evaluate_gates(attachment_types: &[String], gates: &[GateDefinition]) -> (r: GateCheckResult)
    ensures
        r.unsatisfied_gates@.len() == unsatisfied(attachment_types@, gates@).len(),
        forall|k: int| 0 <= k < r.unsatisfied_gates@.len()
            ==> reported(#[trigger] r.unsatisfied_gates@[k], unsatisfied(attachment_types@, gates@)[k]),
        r.status@ == gate_status(unsatisfied(attachment_types@, gates@)),
{
    let ghost types = attachment_types@;
    let mut out: Vec<GateResult> = Vec::new();
    let mut has_reject = false;
    let mut has_warn = false;
    let mut i: usize = 0;
    while i < gates.len()
        invariant
            i <= gates@.len(),
            types == attachment_types@,
            out@.len() == unsatisfied(types, gates@.take(i as int)).len(),
            forall|k: int| 0 <= k < out@.len() ==> reported(#[trigger] out@[k], unsatisfied(types, gates@.take(i as int))[k]),
            has_reject == any_enforced(unsatisfied(types, gates@.take(i as int)), GateEnforcement::Reject),
            has_warn == any_enforced(unsatisfied(types, gates@.take(i as int)), GateEnforcement::Warn),
        decreases gates@.len() - i,
    {
        let ghost prev = unsatisfied(types, gates@.take(i as int));
        proof {
            assert(gates@.take(i + 1).drop_last() =~= gates@.take(i as int));
            assert(gates@.take(i + 1).last() == gates@[i as int]);
        }
        let g = &gates[i];
        let satisfied = has_type(attachment_types, g.gate_type.as_str());
        if !satisfied {
            match g.enforcement {
                GateEnforcement::Reject => { has_reject = true; },
                GateEnforcement::Warn => { has_warn = true; },
                GateEnforcement::Allow => {},
            }
            out.push(GateResult {
                gate_type: g.gate_type.clone(),
                enforcement: g.enforcement,
                description: g.description.clone(),
                satisfied: false,
            });
            proof {
                let now = unsatisfied(types, gates@.take(i + 1));
                assert(now == prev.push(gates@[i as int]));
                assert forall|e: GateEnforcement| any_enforced(now, e) == (any_enforced(prev, e) || gates@[i as int].enforcement == e) by {
                    if any_enforced(prev, e) {
                        let w = choose|w: int| 0 <= w < prev.len() && prev[w].enforcement == e;
                        assert(now[w] == prev[w]);
                    }
                    if any_enforced(now, e) {
                        let w = choose|w: int| 0 <= w < now.len() && now[w].enforcement == e;
                        if w < prev.len() {
                            assert(now[w] == prev[w]);
                        }
                    }
                    if gates@[i as int].enforcement == e {
                        assert(now[prev.len() as int] == gates@[i as int]);
                    }
                }
                assert(any_enforced(now, GateEnforcement::Reject) == (any_enforced(prev, GateEnforcement::Reject) || gates@[i as int].enforcement == GateEnforcement::Reject));
                assert(any_enforced(now, GateEnforcement::Warn) == (any_enforced(prev, GateEnforcement::Warn) || gates@[i as int].enforcement == GateEnforcement::Warn));
            }
        }
        i = i + 1;
    }
    proof {
        assert(gates@.take(gates@.len() as int) =~= gates@);
    }
    let status = if has_reject {
        string_of("fail")
    } else if has_warn {
        string_of("warn")
    } else {
        string_of("pass")
    };
    GateCheckResult { status, unsatisfied_gates: out }
}

/// A check passes exactly when every unsatisfied gate is only reported
/// (enforcement `Allow`); in particular it passes when every gate is
/// satisfied.
pub proof fn lemma_gate_status_pass(unsat: Seq<GateDefinition>)
    ensures
        gate_status(unsat) == "pass"@ <==> forall|i: int| 0 <= i < unsat.len() ==> (#[trigger] unsat[i]).enforcement == GateEnforcement::Allow,
{
    reveal_strlit("pass");
    reveal_strlit("warn");
    reveal_strlit("fail");
    if forall|i: int| 0 <= i < unsat.len() ==> (#[trigger] unsat[i]).enforcement == GateEnforcement::Allow {
        assert(!any_enforced(unsat, GateEnforcement::Reject));
        assert(!any_enforced(unsat, GateEnforcement::Warn));
    } else {
        let i = choose|i: int| 0 <= i < unsat.len() && (#[trigger] unsat[i]).enforcement != GateEnforcement::Allow;
        assert(unsat[i].enforcement == GateEnforcement::Reject || unsat[i].enforcement == GateEnforcement::Warn);
        assert("pass"@[0] != "fail"@[0]);
        assert("pass"@[0] != "warn"@[0]);
    }
}

} // verus!
