//! The ordered axiom rules that classify one statement.
use vstd::prelude::*;
use vstd::string::StringExecFns;
use crate::knowledge::AxiomCheckResult;
use crate::knowledge::EvaluationStatus;
use crate::knowledge::GroundSet;
use crate::knowledge::License;
use crate::knowledge::Modality;
use crate::knowledge::Statement;
use crate::knowledge::has_scope_in;
use crate::knowledge::modality_name;
use crate::knowledge::KnowledgeNode;
use crate::text::debug_list_of;
use crate::text::debug_strings;
use crate::text::views;

verus! {

/// The outcome of the axiom rules, first match wins: status, violated axiom
/// and explanation.
pub open spec fn axiom_outcome(
    m: Option<Modality>,
    conditions: Seq<Seq<char>>,
    lic: Set<Modality>,
    ns: Seq<KnowledgeNode>,
) -> (EvaluationStatus, Option<Seq<char>>, Seq<char>) {
    match m {
        Some(Modality::Refusal) => (
            EvaluationStatus::Acceptable,
            None,
            "Explicit refusal is always admissible (A6)"@,
        ),
        Some(Modality::Assertive) => if !lic.contains(Modality::Assertive) {
            (
                EvaluationStatus::ViolatesNorm,
                Some("A5"@),
                "Assertive statement without sufficient grounding (categoricity ban)"@,
            )
        } else if ns.len() == 0 {
            (EvaluationStatus::Unsupported, Some("A4"@), "Normative claim without grounding"@)
        } else {
            (
                EvaluationStatus::Acceptable,
                None,
                "Statement modality ("@ + modality_name(Modality::Assertive)
                    + ") permitted by license"@,
            )
        },
        Some(Modality::Conditional) => if lic.contains(Modality::Assertive) {
            (
                EvaluationStatus::ConditionallyAcceptable,
                None,
                "Conditional form chosen by agent (ASSERTIVE also permitted by grounding)"@,
            )
        } else if conditions.len() > 0 {
            (
                EvaluationStatus::ConditionallyAcceptable,
                None,
                "Conditional statement with declared conditions: "@ + debug_list_of(conditions),
            )
        } else {
            (
                EvaluationStatus::Unsupported,
                Some("A7"@),
                "Conditional statement without declared conditions"@,
            )
        },
        Some(Modality::Descriptive) => if has_scope_in(ns, crate::knowledge::Scope::Factual) {
            (
                EvaluationStatus::Acceptable,
                None,
                "Descriptive statement grounded in factual knowledge"@,
            )
        } else {
            (
                EvaluationStatus::Unsupported,
                Some("A4"@),
                "Descriptive statement without factual grounding"@,
            )
        },
        None => (
            EvaluationStatus::Underdetermined,
            None,
            "Cannot determine status (modality=None)"@,
        ),
    }
}

/// An optional string's view.
pub open spec fn axiom_view(o: Option<String>) -> Option<Seq<char>> {
    crate::knowledge::opt_view(o)
}

/// Applies the axiom rules to one statement.
pub struct AxiomChecker;

impl AxiomChecker {
    /// Classifies `statement` under `license` and `ground_set`; the task goal
    /// takes no part in the rules.
    pub fn check(
        &self,
        statement: &Statement,
        license: &License,
        ground_set: &GroundSet,
        task_goal: &str,
    ) -> (r: AxiomCheckResult)
        ensures
            ({
                let o = axiom_outcome(
                    statement.modality,
                    views(statement.conditions@),
                    license@,
                    ground_set.nodes@,
                );
                r.status == o.0 && axiom_view(r.violated_axiom) == o.1 && r.explanation@ == o.2
            }),
    {
        if statement.modality == Some(Modality::Refusal) {
            return AxiomCheckResult {
                status: EvaluationStatus::Acceptable,
                violated_axiom: None,
                explanation: String::from_str("Explicit refusal is always admissible (A6)"),
            };
        }
        if statement.modality == Some(Modality::Assertive) && !license.permits(Modality::Assertive) {
            return AxiomCheckResult {
                status: EvaluationStatus::ViolatesNorm,
                violated_axiom: Some(String::from_str("A5")),
                explanation: String::from_str(
                    "Assertive statement without sufficient grounding (categoricity ban)",
                ),
            };
        }
        if statement.modality == Some(Modality::Conditional) {
            if license.permits(Modality::Assertive) {
                return AxiomCheckResult {
                    status: EvaluationStatus::ConditionallyAcceptable,
                    violated_axiom: None,
                    explanation: String::from_str(
                        "Conditional form chosen by agent (ASSERTIVE also permitted by grounding)",
                    ),
                };
            }
            if statement.conditions.len() > 0 {
                let mut explanation = String::from_str(
                    "Conditional statement with declared conditions: ",
                );
                let listed = debug_strings(&statement.conditions);
                explanation.append(listed.as_str());
                return AxiomCheckResult {
                    status: EvaluationStatus::ConditionallyAcceptable,
                    violated_axiom: None,
                    explanation,
                };
            }
            return AxiomCheckResult {
                status: EvaluationStatus::Unsupported,
                violated_axiom: Some(String::from_str("A7")),
                explanation: String::from_str("Conditional statement without declared conditions"),
            };
        }
        if self.is_normative(statement) && ground_set.is_empty() {
            return AxiomCheckResult {
                status: EvaluationStatus::Unsupported,
                violated_axiom: Some(String::from_str("A4")),
                explanation: String::from_str("Normative claim without grounding"),
            };
        }
        if statement.modality == Some(Modality::Descriptive) {
            if ground_set.has_factual() {
                return AxiomCheckResult {
                    status: EvaluationStatus::Acceptable,
                    violated_axiom: None,
                    explanation: String::from_str(
                        "Descriptive statement grounded in factual knowledge",
                    ),
                };
            }
            return AxiomCheckResult {
                status: EvaluationStatus::Unsupported,
                violated_axiom: Some(String::from_str("A4")),
                explanation: String::from_str("Descriptive statement without factual grounding"),
            };
        }
        match statement.modality {
            Some(m) => {
                let mut explanation = String::from_str("Statement modality (");
                explanation.append(m.as_str());
                explanation.append(") permitted by license");
                if license.permits(m) {
                    AxiomCheckResult {
                        status: EvaluationStatus::Acceptable,
                        violated_axiom: None,
                        explanation,
                    }
                } else {
                    // Only an assertive statement reaches this point, and rule
                    // two has already required its license to permit it.
                    AxiomCheckResult {
                        status: EvaluationStatus::Underdetermined,
                        violated_axiom: None,
                        explanation: String::from_str("Cannot determine status"),
                    }
                }
            },
            None => AxiomCheckResult {
                status: EvaluationStatus::Underdetermined,
                violated_axiom: None,
                explanation: String::from_str("Cannot determine status (modality=None)"),
            },
        }
    }

    pub fn is_normative(&self, statement: &Statement) -> (r: bool)
        ensures
            r == (statement.modality == Some(Modality::Assertive) || statement.modality == Some(
                Modality::Conditional,
            )),
    {
        match statement.modality {
            Some(Modality::Assertive) => true,
            Some(Modality::Conditional) => true,
            _ => false,
        }
    }
}

} // verus!
