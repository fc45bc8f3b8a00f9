//! The evaluation pipeline: from a conversation and grounds to a judgment.
use vstd::prelude::*;
use vstd::string::StringExecFns;
use crate::axiom_checker::AxiomChecker;
use crate::axiom_checker::axiom_outcome;
use crate::citations::build_links_from_grounds;
use crate::citations::citation_keys;
use crate::citations::dedup;
use crate::citations::grounds_from_tool_call_refs;
use crate::citations::links_for_keys;
use crate::conversation::ContentText;
use crate::conversation::EvaluateError;
use crate::conversation::all_readable;
use crate::conversation::fails_at;
use crate::conversation::content_result;
use crate::conversation::content_text;
use crate::conversation::extract_text_content;
use crate::conversation::extract_tool_results;
use crate::conversation::result_messages;
use crate::extractor::StatementExtractor;
use crate::extractor::cleaned_text;
use crate::extractor::has_statement;
use crate::ground_matcher::GroundSetMatcher;
use crate::ground_matcher::relevant_nodes;
use crate::knowledge::AxiomCheckResult;
use crate::knowledge::EvaluationStatus;
use crate::knowledge::GroundSet;
use crate::knowledge::KnowledgeNode;
use crate::knowledge::License;
use crate::knowledge::Modality;
use crate::knowledge::Scope;
use crate::knowledge::Source;
use crate::knowledge::Statement;
use crate::knowledge::StatementValidationResult;
use crate::knowledge::Status;
use crate::knowledge::ValidationResult;
use crate::knowledge::copy_opt;
use crate::knowledge::modality_name;
use crate::knowledge::opt_view;
use crate::knowledge_builder::KnowledgeStateBuilder;
use crate::knowledge_builder::missing_ground_nodes;
use crate::license_deriver::LicenseDeriver;
use crate::license_deriver::derived_license;
use crate::modality_detector::ModalityDetector;
use crate::modality_detector::conditions_of;
use crate::modality_detector::detected_modality;
use crate::models::AdmissibilityJudgment;
use crate::models::AdmissibilityStatus;
use crate::models::ConversationMessage;
use crate::json::JsonValue;
use crate::json::entry_index;
use crate::json::parse_json;
use crate::json::ws_end;
use crate::json::starts_kind;
use crate::conversation::parse_conversation;
use crate::conversation::string_field;
use crate::conversation::string_field_of;
use crate::conversation::value_field_of;
use crate::conversation::entry_value;
use crate::conversation::message_from;
use crate::conversation::message_ok;
use crate::citations::coerce_grounds_input;
use crate::citations::payload_grounds;
use crate::citations::typed_grounds;
use vstd::string::StringSliceAdditionalSpecFns;
use crate::models::Ground;
use crate::models::GroundRef;
use crate::models::LinkSet;
use crate::models::LinkView;
use crate::models::StatementEvaluation;
use crate::models::TextSpeechAct;
use crate::models::grounds_view;
use crate::models::GroundView;
use crate::models::ToolResultSpeechAct;
use crate::citations::ref_grounds;
use crate::conversation::tool_result_of;
use crate::knowledge_builder::built_from;
use crate::knowledge_builder::flatten;
use crate::text::debug_list_of;
use crate::text::debug_strings;
use crate::text::join_strings;
use crate::text::join_with;
use crate::text::lower_of;
use crate::text::views;

verus! {

/// What to evaluate: the agent's output, the conversation ending in it, or
/// both, and the grounds offered as evidence.
pub struct EvaluateInput {
    pub agent_output: Option<String>,
    pub conversation: Option<Vec<ConversationMessage>>,
    pub grounds: Option<Vec<Ground>>,
}

/// The modality of the statement of a text.
pub open spec fn statement_modality(text: Seq<char>) -> Modality {
    detected_modality(cleaned_text(text))
}

/// The declared conditions of the statement of a text.
pub open spec fn statement_conditions(text: Seq<char>) -> Seq<Seq<char>> {
    if statement_modality(text) == Modality::Conditional {
        conditions_of(lower_of(cleaned_text(text)))
    } else {
        seq![]
    }
}

/// The ground set of the statement of a text.
pub open spec fn statement_grounds(text: Seq<char>, ns: Seq<KnowledgeNode>) -> Seq<KnowledgeNode> {
    relevant_nodes(ns, Some(statement_modality(text)))
}

/// The license of the statement of a text: none for a descriptive one.
pub open spec fn statement_license(text: Seq<char>, ns: Seq<KnowledgeNode>, links: Option<Seq<LinkView>>) -> Set<Modality> {
    if statement_modality(text) == Modality::Descriptive {
        Set::empty()
    } else {
        derived_license(statement_grounds(text, ns), links)
    }
}

/// The axiom outcome of the statement of a text.
pub open spec fn statement_outcome(text: Seq<char>, ns: Seq<KnowledgeNode>, links: Option<Seq<LinkView>>) -> (
    EvaluationStatus,
    Option<Seq<char>>,
    Seq<char>,
) {
    axiom_outcome(
        Some(statement_modality(text)),
        statement_conditions(text),
        statement_license(text, ns, links),
        statement_grounds(text, ns),
    )
}

/// Some status of `ss` is `s`.
pub open spec fn has_status(ss: Seq<EvaluationStatus>, s: EvaluationStatus) -> bool {
    exists|i: int| 0 <= i < ss.len() && ss[i] == s
}

/// Every status of `ss` is `s`.
pub open spec fn all_status(ss: Seq<EvaluationStatus>, s: EvaluationStatus) -> bool {
    forall|i: int| 0 <= i < ss.len() ==> ss[i] == s
}

/// The overall status of statement statuses, by strict precedence.
pub open spec fn overall(ss: Seq<EvaluationStatus>) -> EvaluationStatus {
    if has_status(ss, EvaluationStatus::ViolatesNorm) {
        EvaluationStatus::ViolatesNorm
    } else if has_status(ss, EvaluationStatus::IllFormed) {
        EvaluationStatus::IllFormed
    } else if has_status(ss, EvaluationStatus::Underdetermined) {
        EvaluationStatus::Underdetermined
    } else if has_status(ss, EvaluationStatus::Unsupported) {
        EvaluationStatus::Unsupported
    } else if has_status(ss, EvaluationStatus::ConditionallyAcceptable) {
        EvaluationStatus::ConditionallyAcceptable
    } else {
        EvaluationStatus::Acceptable
    }
}

/// Whether an overall status counts as licensed.
pub open spec fn licensed_for(s: EvaluationStatus) -> bool {
    match s {
        EvaluationStatus::Unsupported => true,
        EvaluationStatus::ConditionallyAcceptable => true,
        EvaluationStatus::Acceptable => true,
        _ => false,
    }
}

/// Whether an overall status invites a retry.
pub open spec fn retry_for(s: EvaluationStatus) -> bool {
    match s {
        EvaluationStatus::ViolatesNorm => true,
        EvaluationStatus::IllFormed => true,
        EvaluationStatus::Unsupported => true,
        _ => false,
    }
}

/// The feedback for an overall status.
pub open spec fn feedback_for(s: EvaluationStatus, axioms: Seq<Seq<char>>) -> Option<Seq<char>> {
    match s {
        EvaluationStatus::ViolatesNorm => Some(
            "Your response violates normative axioms: "@ + join_with(axioms, ", "@)
                + ". Please revise or refuse to answer if you lack required context."@,
        ),
        EvaluationStatus::IllFormed => Some(
            "Your response is structurally ill-formed. Please rephrase with clear subject-predicate statements."@,
        ),
        EvaluationStatus::Unsupported => Some(
            "Your statements lack required grounding. Consider asking for more context or using conditional phrasing."@,
        ),
        _ => None,
    }
}

/// The explanation for an overall status.
pub open spec fn explanation_for(s: EvaluationStatus, ss: Seq<EvaluationStatus>, axioms: Seq<Seq<char>>) -> Seq<char> {
    match s {
        EvaluationStatus::ViolatesNorm => "Violated axioms: "@ + debug_list_of(axioms),
        EvaluationStatus::IllFormed => "Structurally ill-formed statements detected"@,
        EvaluationStatus::Underdetermined => "Validator has no jurisdiction to judge"@,
        EvaluationStatus::Unsupported => "Statements lack required grounding (A4)"@,
        EvaluationStatus::ConditionallyAcceptable => if ss.len() > 0 && all_status(ss, EvaluationStatus::ConditionallyAcceptable) {
            "All statements are conditionally acceptable"@
        } else {
            "Mix of conditional and acceptable statements"@
        },
        _ => "All statements are normatively acceptable"@,
    }
}

/// How many statuses are acceptable or conditionally acceptable.
pub open spec fn count_acceptable(ss: Seq<EvaluationStatus>) -> nat
    decreases ss.len(),
{
    if ss.len() == 0 {
        0
    } else {
        count_acceptable(ss.drop_last()) + if ss.last() == EvaluationStatus::Acceptable || ss.last()
            == EvaluationStatus::ConditionallyAcceptable {
            1nat
        } else {
            0nat
        }
    }
}

/// The statuses of axiom results.
pub open spec fn statuses(rs: Seq<AxiomCheckResult>) -> Seq<EvaluationStatus> {
    rs.map_values(|r: AxiomCheckResult| r.status)
}

/// The violated axioms of axiom results, in order.
pub open spec fn axioms_of(rs: Seq<AxiomCheckResult>) -> Seq<Seq<char>>
    decreases rs.len(),
{
    if rs.len() == 0 {
        seq![]
    } else {
        match rs.last().violated_axiom {
            Some(a) => axioms_of(rs.drop_last()).push(a@),
            None => axioms_of(rs.drop_last()),
        }
    }
}

/// The violated axioms of statement results, in order.
pub open spec fn statement_axioms(rs: Seq<StatementValidationResult>) -> Seq<Seq<char>>
    decreases rs.len(),
{
    if rs.len() == 0 {
        seq![]
    } else {
        match rs.last().violated_axiom {
            Some(a) => statement_axioms(rs.drop_last()).push(a@),
            None => statement_axioms(rs.drop_last()),
        }
    }
}

/// An optional axiom as a list.
pub open spec fn axiom_list(a: Option<Seq<char>>) -> Seq<Seq<char>> {
    match a {
        Some(x) => seq![x],
        None => seq![],
    }
}

/// The reported form of an evaluation status.
pub open spec fn reported(s: EvaluationStatus) -> AdmissibilityStatus {
    match s {
        EvaluationStatus::Acceptable => AdmissibilityStatus::Acceptable,
        EvaluationStatus::ConditionallyAcceptable => AdmissibilityStatus::ConditionallyAcceptable,
        EvaluationStatus::ViolatesNorm => AdmissibilityStatus::ViolatesNorm,
        EvaluationStatus::Unsupported => AdmissibilityStatus::Unsupported,
        EvaluationStatus::IllFormed => AdmissibilityStatus::IllFormed,
        EvaluationStatus::Underdetermined => AdmissibilityStatus::Underdetermined,
        EvaluationStatus::NoNormativeContent => AdmissibilityStatus::NoNormativeContent,
        EvaluationStatus::WellFormed => AdmissibilityStatus::Underdetermined,
    }
}

/// The reported form of an evaluation status.
pub fn map_status(status: &EvaluationStatus) -> (r: AdmissibilityStatus)
    ensures
        r == reported(*status),
{
    match status {
        EvaluationStatus::Acceptable => AdmissibilityStatus::Acceptable,
        EvaluationStatus::ConditionallyAcceptable => AdmissibilityStatus::ConditionallyAcceptable,
        EvaluationStatus::ViolatesNorm => AdmissibilityStatus::ViolatesNorm,
        EvaluationStatus::Unsupported => AdmissibilityStatus::Unsupported,
        EvaluationStatus::IllFormed => AdmissibilityStatus::IllFormed,
        EvaluationStatus::Underdetermined => AdmissibilityStatus::Underdetermined,
        EvaluationStatus::NoNormativeContent => AdmissibilityStatus::NoNormativeContent,
        EvaluationStatus::WellFormed => AdmissibilityStatus::Underdetermined,
    }
}

/// The names of a license's modalities, in alphabetical order.
pub open spec fn license_names(lic: Set<Modality>) -> Seq<Seq<char>> {
    (if lic.contains(Modality::Assertive) { seq!["assertive"@] } else { seq![] })
        + (if lic.contains(Modality::Conditional) { seq!["conditional"@] } else { seq![] })
        + (if lic.contains(Modality::Descriptive) { seq!["descriptive"@] } else { seq![] })
        + (if lic.contains(Modality::Refusal) { seq!["refusal"@] } else { seq![] })
}

/// The overall fields of `r` follow from the per-statement outcomes.
pub open spec fn aggregated(r: ValidationResult, rs: Seq<AxiomCheckResult>) -> bool {
    let ss = statuses(rs);
    &&& r.status == overall(ss)
    &&& r.licensed == licensed_for(overall(ss))
    &&& r.can_retry == retry_for(overall(ss))
    &&& opt_view(r.feedback_hint) == feedback_for(overall(ss), axioms_of(rs))
    &&& r.explanation@ == explanation_for(overall(ss), ss, axioms_of(rs))
    &&& views(r.violated_axioms@) == axioms_of(rs)
    &&& r.num_statements == rs.len()
    &&& r.num_acceptable == count_acceptable(ss)
    &&& r.grounds_accepted == 0
    &&& r.grounds_cited == 0
}

/// The result of evaluating `text` over nodes `ns` and links `links`.
pub open spec fn core_result(r: ValidationResult, text: Seq<char>, ns: Seq<KnowledgeNode>, links: Option<Seq<LinkView>>) -> bool {
    if text.len() == 0 {
        &&& r.status == EvaluationStatus::Underdetermined
        &&& !r.licensed && !r.can_retry
        &&& r.feedback_hint is None
        &&& r.violated_axioms@.len() == 0
        &&& r.statement_results@.len() == 0
        &&& r.explanation@ == "No content to validate"@
        &&& r.num_statements == 0 && r.num_acceptable == 0
        &&& r.grounds_accepted == 0 && r.grounds_cited == 0
    } else if !has_statement(text) {
        &&& r.status == EvaluationStatus::NoNormativeContent
        &&& !r.licensed && !r.can_retry
        &&& r.feedback_hint is None
        &&& r.violated_axioms@.len() == 0
        &&& r.statement_results@.len() == 0
        &&& r.explanation@ == "Protocol-only output (greetings/offers) - no normative claims to evaluate"@
        &&& r.num_statements == 0 && r.num_acceptable == 0
        &&& r.grounds_accepted == 0 && r.grounds_cited == 0
    } else {
        let o = statement_outcome(text, ns, links);
        let ss = seq![o.0];
        &&& r.status == overall(ss)
        &&& r.licensed == licensed_for(overall(ss))
        &&& r.can_retry == retry_for(overall(ss))
        &&& opt_view(r.feedback_hint) == feedback_for(overall(ss), axiom_list(o.1))
        &&& r.explanation@ == explanation_for(overall(ss), ss, axiom_list(o.1))
        &&& views(r.violated_axioms@) == axiom_list(o.1)
        &&& r.num_statements == 1
        &&& r.num_acceptable == count_acceptable(ss)
        &&& r.grounds_accepted == 0 && r.grounds_cited == 0
        &&& r.statement_results@.len() == 1
        &&& statement_result_of(r.statement_results@[0], text, ns, links)
    }
}

/// One statement's result for the statement of `text`.
pub open spec fn statement_result_of(sr: StatementValidationResult, text: Seq<char>, ns: Seq<KnowledgeNode>, links: Option<Seq<LinkView>>) -> bool {
    let o = statement_outcome(text, ns, links);
    &&& sr.statement.id@ == "final_response"@
    &&& sr.statement.subject@ == "agent"@
    &&& sr.statement.predicate@ == "participation"@
    &&& sr.statement.raw_text@ == cleaned_text(text)
    &&& sr.statement.modality == Some(statement_modality(text))
    &&& views(sr.statement.conditions@) == statement_conditions(text)
    &&& sr.status == o.0
    &&& opt_view(sr.violated_axiom) == o.1
    &&& sr.explanation@ == o.2
    &&& sr.license@ == statement_license(text, ns, links)
    &&& sr.ground_set.nodes@ == statement_grounds(text, ns)
}

/// The judgment reports `r`.
pub open spec fn reports(j: AdmissibilityJudgment, r: ValidationResult) -> bool {
    &&& j.status == reported(r.status)
    &&& j.licensed == r.licensed
    &&& j.can_retry == r.can_retry
    &&& opt_view(j.feedback_hint) == opt_view(r.feedback_hint)
    &&& views(j.violated_axioms@) == statement_axioms(r.statement_results@)
    &&& j.explanation@ == r.explanation@
    &&& j.num_statements == r.num_statements
    &&& j.num_acceptable == r.num_acceptable
    &&& j.grounds_accepted == r.grounds_accepted
    &&& j.grounds_cited == r.grounds_cited
    &&& j.statement_evaluations@.len() == r.statement_results@.len()
    &&& forall|k: int| 0 <= k < j.statement_evaluations@.len() ==> evaluation_of(#[trigger] j.statement_evaluations@[k], r.statement_results@[k])
}

/// A reported statement evaluation shows a statement result.
pub open spec fn evaluation_of(e: StatementEvaluation, sr: StatementValidationResult) -> bool {
    &&& e.statement_id@ == sr.statement.id@
    &&& e.statement@ == sr.statement.raw_text@
    &&& e.modality@ == match sr.statement.modality {
        Some(m) => modality_name(m),
        None => "unknown"@,
    }
    &&& views(e.license@) == license_names(sr.license@)
    &&& e.status == reported(sr.status)
    &&& opt_view(e.violated_axiom) == opt_view(sr.violated_axiom)
    &&& e.explanation@ == sr.explanation@
    &&& e.grounding_trace@.len() == sr.ground_set.nodes@.len()
    &&& forall|i: int| 0 <= i < e.grounding_trace@.len() ==> trace_of(#[trigger] e.grounding_trace@[i], sr.ground_set.nodes@[i])
    &&& opt_view(e.subject) == Some(sr.statement.subject@)
    &&& opt_view(e.predicate) == Some(sr.statement.predicate@)
}

pub open spec fn scope_name(s: Scope) -> Seq<char> {
    match s {
        Scope::Factual => "factual"@,
        Scope::Contextual => "contextual"@,
    }
}

pub open spec fn source_name(s: Source) -> Seq<char> {
    match s {
        Source::Observed => "observed"@,
        Source::Explicit => "explicit"@,
        Source::Inferred => "inferred"@,
        Source::Repeated => "repeated"@,
    }
}

pub open spec fn node_status_name(s: Status) -> Seq<char> {
    match s {
        Status::Hypothesis => "hypothesis"@,
        Status::Candidate => "candidate"@,
        Status::Confirmed => "confirmed"@,
    }
}

/// A grounding record shows a node.
pub open spec fn trace_of(g: GroundRef, n: KnowledgeNode) -> bool {
    &&& g.id@ == n.id@
    &&& g.scope@ == scope_name(n.scope)
    &&& g.source@ == source_name(n.source)
    &&& g.status@ == node_status_name(n.status)
    &&& g.confidence == n.confidence
    &&& g.strength@ == n.strength@
    &&& opt_view(g.semantic_id) == opt_view(n.semantic_id)
}

/// The id under which the response's statement is linked.
pub open spec fn response_id() -> Seq<char> {
    "final_response"@
}

/// The distinct ground ids of grounds.
pub open spec fn ground_ids(gs: Seq<Ground>) -> Seq<Seq<char>> {
    gs.map_values(|g: Ground| g.ground_id@)
}

/// The distinct ground ids of links.
pub open spec fn link_ground_ids(ls: Seq<LinkView>) -> Seq<Seq<char>> {
    ls.map_values(|l: LinkView| l.ground_id)
}

/// The judgment for a response text evaluated over grounds alone, with no
/// tool results in the conversation.
pub open spec fn judged_on_grounds(j: AdmissibilityJudgment, text: Seq<char>, grounds: Seq<Ground>) -> bool {
    let links = links_for_keys(grounds_view(grounds), citation_keys(text), response_id());
    exists|ns: Seq<KnowledgeNode>, r: ValidationResult| {
        &&& missing_ground_nodes(seq![], grounds, ns)
        &&& core_result(r, text, ns, Some(links))
        &&& reports(j, ValidationResult { grounds_accepted: j.grounds_accepted, grounds_cited: j.grounds_cited, ..r })
        &&& j.grounds_accepted == dedup(ground_ids(grounds)).len()
        &&& j.grounds_cited == dedup(link_ground_ids(links)).len()
    }
}

/// The judgment for a response text at the end of a conversation, given
/// the conversation's tool results `rs`, the node blocks and references they
/// yield, the nodes `ns` after adding the grounds, and the result `r` of
/// evaluating the text over them: links go to the supplied grounds and to the
/// grounds that the references make.
pub open spec fn judged_with(
    j: AdmissibilityJudgment,
    text: Seq<char>,
    traj: Seq<ConversationMessage>,
    grounds: Seq<Ground>,
    rs: Seq<ToolResultSpeechAct>,
    blocks: Seq<Seq<KnowledgeNode>>,
    refs: Seq<(String, Vec<String>)>,
    ns: Seq<KnowledgeNode>,
    r: ValidationResult,
) -> bool {
    let base = flatten(blocks);
    let all_grounds = grounds_view(grounds) + ref_grounds(refs);
    let links = links_for_keys(all_grounds, citation_keys(text), response_id());
    &&& rs.len() == result_messages(traj).len()
    &&& forall|k: int| 0 <= k < rs.len() ==> tool_result_of(traj, result_messages(traj)[k], #[trigger] rs[k])
    &&& built_from(rs, blocks, base, refs)
    &&& ns.len() >= base.len()
    &&& ns.subrange(0, base.len() as int) == base
    &&& missing_ground_nodes(base, grounds, ns.subrange(base.len() as int, ns.len() as int))
    &&& core_result(r, text, ns, Some(links))
    &&& reports(j, ValidationResult { grounds_accepted: j.grounds_accepted, grounds_cited: j.grounds_cited, ..r })
    &&& j.grounds_accepted == dedup(all_grounds.map_values(|g: GroundView| g.ground_id)).len()
    &&& j.grounds_cited == dedup(link_ground_ids(links)).len()
}

/// The judgment for a response text at the end of a conversation.
pub open spec fn judged(j: AdmissibilityJudgment, text: Seq<char>, traj: Seq<ConversationMessage>, grounds: Seq<Ground>) -> bool {
    exists|rs: Seq<ToolResultSpeechAct>, blocks: Seq<Seq<KnowledgeNode>>, refs: Seq<(String, Vec<String>)>, ns: Seq<KnowledgeNode>, r: ValidationResult|
        #[trigger] judged_with(j, text, traj, grounds, rs, blocks, refs, ns, r)
}

/// What evaluating the final message `agent` of conversation `traj` gives:
/// the failure of the first tool result that cannot be read; else the
/// failure of reading the message; else the judgment of its text.
pub open spec fn message_outcome(
    agent: ConversationMessage,
    traj: Seq<ConversationMessage>,
    grounds: Seq<Ground>,
    r: Result<AdmissibilityJudgment, EvaluateError>,
) -> bool {
    if !all_readable(result_messages(traj)) {
        r matches Err(e) && exists|k: int| #[trigger] fails_at(result_messages(traj), k, e)
    } else {
        match content_text(agent.content) {
            ContentText::Text(t) => r matches Ok(j) && j.num_statements == (if t.len() > 0 && has_statement(t) { 1nat } else { 0nat })
                && judged(j, t, traj, grounds) && (result_messages(traj).len() == 0 ==> judged_on_grounds(j, t, grounds)),
            _ => r matches Err(e) && content_result(agent.content, Err(e)),
        }
    }
}

/// What evaluating an input gives, error by error in the order they are
/// checked: no input at all; an empty conversation; a last message not from
/// the assistant; its content unreadable or differing from the given output;
/// then the evaluation of the final message.
pub open spec fn evaluate_outcome(input: EvaluateInput, r: Result<AdmissibilityJudgment, EvaluateError>) -> bool {
    let grounds = opt_grounds(input.grounds);
    match input.conversation {
        None => match input.agent_output {
            None => r == Err::<AdmissibilityJudgment, EvaluateError>(EvaluateError::MissingInput),
            Some(a) => r matches Ok(j) && judged_on_grounds(j, a@, grounds),
        },
        Some(c) => if c@.len() == 0 {
            r == Err::<AdmissibilityJudgment, EvaluateError>(EvaluateError::InvalidConversation)
        } else if c@.last().role@ != "assistant"@ {
            r == Err::<AdmissibilityJudgment, EvaluateError>(EvaluateError::LastMessageNotAssistant)
        } else {
            match input.agent_output {
                Some(a) => match content_text(c@.last().content) {
                    ContentText::Text(t) => if t != a@ {
                        r == Err::<AdmissibilityJudgment, EvaluateError>(EvaluateError::AgentOutputMismatch)
                    } else {
                        message_outcome(c@.last(), c@, grounds, r)
                    },
                    _ => r matches Err(e) && content_result(c@.last().content, Err(e)),
                },
                None => message_outcome(c@.last(), c@, grounds, r),
            }
        },
    }
}

/// Runs the evaluation pipeline.
pub struct AdmissibilityEvaluator {
    extractor: StatementExtractor,
    modality_detector: ModalityDetector,
    knowledge_builder: KnowledgeStateBuilder,
    ground_matcher: GroundSetMatcher,
    license_deriver: LicenseDeriver,
    axiom_checker: AxiomChecker,
}

/// The distinct strings of `v`, in order of first occurrence.
fn distinct(v: &Vec<String>) -> (r: Vec<String>)
    ensures
        views(r@) == dedup(views(v@)),
{
    let mut out: Vec<String> = Vec::new();
    let mut i: usize = 0;
    while i < v.len()
        invariant
            i <= v@.len(),
            views(out@) == dedup(views(v@).subrange(0, i as int)),
        decreases v@.len() - i,
    {
        let ghost sub = views(v@).subrange(0, i + 1);
        proof {
            assert(sub.drop_last() == views(v@).subrange(0, i as int));
            assert(sub.last() == v@[i as int]@);
        }
        let mut found = false;
        let mut k: usize = 0;
        while k < out.len()
            invariant
                k <= out@.len(),
                found == exists|j: int| 0 <= j < k && out@[j]@ == v@[i as int]@,
                i < v@.len(),
            decreases out@.len() - k,
        {
            if out[k] == v[i] {
                found = true;
            }
            k = k + 1;
        }
        proof {
            if found {
                let j = choose|j: int| 0 <= j < out@.len() && out@[j]@ == v@[i as int]@;
                assert(views(out@)[j] == sub.last());
            } else {
                assert forall|j: int| 0 <= j < views(out@).len() implies views(out@)[j] != sub.last() by {
                    assert(views(out@)[j] == out@[j]@);
                }
            }
        }
        if !found {
            let ghost prev = out@;
            out.push(v[i].clone());
            assert(views(out@) =~= views(prev).push(v@[i as int]@));
        }
        i = i + 1;
    }
    assert(views(v@).subrange(0, v@.len() as int) == views(v@));
    out
}

impl AdmissibilityEvaluator {
    pub fn new() -> (r: AdmissibilityEvaluator) {
        AdmissibilityEvaluator {
            extractor: StatementExtractor,
            modality_detector: ModalityDetector,
            knowledge_builder: KnowledgeStateBuilder,
            ground_matcher: GroundSetMatcher,
            license_deriver: LicenseDeriver,
            axiom_checker: AxiomChecker,
        }
    }
}


fn any_with(rs: &[AxiomCheckResult], s: EvaluationStatus) -> (r: bool)
    ensures
        r == has_status(statuses(rs@), s),
{
    let mut i: usize = 0;
    while i < rs.len()
        invariant
            i <= rs@.len(),
            forall|j: int| 0 <= j < i ==> statuses(rs@)[j] != s,
        decreases rs@.len() - i,
    {
        if rs[i].status == s {
            assert(statuses(rs@)[i as int] == s);
            return true;
        }
        i = i + 1;
    }
    false
}

fn all_with(rs: &[AxiomCheckResult], s: EvaluationStatus) -> (r: bool)
    ensures
        r == all_status(statuses(rs@), s),
{
    let mut i: usize = 0;
    while i < rs.len()
        invariant
            i <= rs@.len(),
            forall|j: int| 0 <= j < i ==> statuses(rs@)[j] == s,
        decreases rs@.len() - i,
    {
        if rs[i].status != s {
            assert(statuses(rs@)[i as int] != s);
            return false;
        }
        i = i + 1;
    }
    true
}

fn acceptable_count(rs: &[AxiomCheckResult]) -> (r: usize)
    ensures
        r == count_acceptable(statuses(rs@)),
{
    let mut n: usize = 0;
    let mut i: usize = 0;
    while i < rs.len()
        invariant
            i <= rs@.len(),
            n == count_acceptable(statuses(rs@).subrange(0, i as int)),
            n <= i,
        decreases rs@.len() - i,
    {
        proof {
            let sub = statuses(rs@).subrange(0, i + 1);
            assert(sub.drop_last() == statuses(rs@).subrange(0, i as int));
            assert(sub.last() == rs@[i as int].status);
        }
        if rs[i].status == EvaluationStatus::Acceptable || rs[i].status == EvaluationStatus::ConditionallyAcceptable {
            n = n + 1;
        }
        i = i + 1;
    }
    assert(statuses(rs@).subrange(0, rs@.len() as int) == statuses(rs@));
    n
}

fn violated(rs: &[AxiomCheckResult]) -> (r: Vec<String>)
    ensures
        views(r@) == axioms_of(rs@),
{
    let mut out: Vec<String> = Vec::new();
    let mut i: usize = 0;
    while i < rs.len()
        invariant
            i <= rs@.len(),
            views(out@) == axioms_of(rs@.subrange(0, i as int)),
        decreases rs@.len() - i,
    {
        proof {
            let sub = rs@.subrange(0, i + 1);
            assert(sub.drop_last() == rs@.subrange(0, i as int));
            assert(sub.last() == rs@[i as int]);
        }
        match &rs[i].violated_axiom {
            Some(a) => {
                let ghost prev = out@;
                out.push(a.clone());
                assert(views(out@) =~= views(prev).push(a@));
            },
            None => {},
        }
        i = i + 1;
    }
    assert(rs@.subrange(0, rs@.len() as int) == rs@);
    out
}

fn copy_axiom_result(r: &AxiomCheckResult) -> (c: AxiomCheckResult)
    ensures
        c == *r,
{
    AxiomCheckResult { status: r.status, violated_axiom: copy_opt(&r.violated_axiom), explanation: r.explanation.clone() }
}

fn scope_str(s: Scope) -> (r: &'static str)
    ensures
        r@ == scope_name(s),
{
    match s {
        Scope::Factual => "factual",
        Scope::Contextual => "contextual",
    }
}

fn source_str(s: Source) -> (r: &'static str)
    ensures
        r@ == source_name(s),
{
    match s {
        Source::Observed => "observed",
        Source::Explicit => "explicit",
        Source::Inferred => "inferred",
        Source::Repeated => "repeated",
    }
}

fn node_status_str(s: Status) -> (r: &'static str)
    ensures
        r@ == node_status_name(s),
{
    match s {
        Status::Hypothesis => "hypothesis",
        Status::Candidate => "candidate",
        Status::Confirmed => "confirmed",
    }
}

fn license_strings(lic: &License) -> (r: Vec<String>)
    ensures
        views(r@) == license_names(lic@),
{
    let mut out: Vec<String> = Vec::new();
    let ghost mut expect: Seq<Seq<char>> = seq![];
    if lic.permits(Modality::Assertive) {
        out.push(String::from_str("assertive"));
    }
    proof { expect = if lic@.contains(Modality::Assertive) { seq!["assertive"@] } else { seq![] }; }
    assert(views(out@) =~= expect);
    if lic.permits(Modality::Conditional) {
        out.push(String::from_str("conditional"));
    }
    proof { expect = expect + if lic@.contains(Modality::Conditional) { seq!["conditional"@] } else { seq![] }; }
    assert(views(out@) =~= expect);
    if lic.permits(Modality::Descriptive) {
        out.push(String::from_str("descriptive"));
    }
    proof { expect = expect + if lic@.contains(Modality::Descriptive) { seq!["descriptive"@] } else { seq![] }; }
    assert(views(out@) =~= expect);
    if lic.permits(Modality::Refusal) {
        out.push(String::from_str("refusal"));
    }
    proof { expect = expect + if lic@.contains(Modality::Refusal) { seq!["refusal"@] } else { seq![] }; }
    assert(views(out@) =~= expect);
    out
}

fn ground_ref(n: &KnowledgeNode) -> (r: GroundRef)
    ensures
        trace_of(r, *n),
{
    GroundRef {
        id: n.id.clone(),
        scope: String::from_str(scope_str(n.scope)),
        source: String::from_str(source_str(n.source)),
        status: String::from_str(node_status_str(n.status)),
        confidence: n.confidence,
        strength: n.strength.clone(),
        semantic_id: copy_opt(&n.semantic_id),
    }
}

fn evaluation(sr: &StatementValidationResult) -> (e: StatementEvaluation)
    ensures
        evaluation_of(e, *sr),
{
    let modality = match sr.statement.modality {
        Some(m) => String::from_str(m.as_str()),
        None => String::from_str("unknown"),
    };
    let mut trace: Vec<GroundRef> = Vec::new();
    let mut i: usize = 0;
    while i < sr.ground_set.nodes.len()
        invariant
            i <= sr.ground_set.nodes@.len(),
            trace@.len() == i,
            forall|k: int| 0 <= k < i ==> trace_of(#[trigger] trace@[k], sr.ground_set.nodes@[k]),
        decreases sr.ground_set.nodes@.len() - i,
    {
        trace.push(ground_ref(&sr.ground_set.nodes[i]));
        i = i + 1;
    }
    StatementEvaluation {
        statement_id: sr.statement.id.clone(),
        statement: sr.statement.raw_text.clone(),
        modality,
        license: license_strings(&sr.license),
        status: map_status(&sr.status),
        violated_axiom: copy_opt(&sr.violated_axiom),
        explanation: sr.explanation.clone(),
        grounding_trace: trace,
        subject: Some(sr.statement.subject.clone()),
        predicate: Some(sr.statement.predicate.clone()),
    }
}

impl AdmissibilityEvaluator {
    /// Combines per-statement outcomes into one, by strict precedence.
    fn aggregate(&self, axiom_results: &[AxiomCheckResult], statement_results: Vec<StatementValidationResult>) -> (r: ValidationResult)
        requires
            statement_results@.len() == axiom_results@.len(),
        ensures
            aggregated(r, axiom_results@),
            r.statement_results == statement_results,
    {
        let violations = violated(axiom_results);
        let ghost ss = statuses(axiom_results@);
        let ghost ax = axioms_of(axiom_results@);
        let status: EvaluationStatus;
        let licensed: bool;
        let can_retry: bool;
        let feedback_hint: Option<String>;
        let explanation: String;
        if any_with(axiom_results, EvaluationStatus::ViolatesNorm) {
            status = EvaluationStatus::ViolatesNorm;
            licensed = false;
            can_retry = true;
            let mut f = String::from_str("Your response violates normative axioms: ");
            f.append(join_strings(&violations, ", ").as_str());
            f.append(". Please revise or refuse to answer if you lack required context.");
            feedback_hint = Some(f);
            let mut e = String::from_str("Violated axioms: ");
            e.append(debug_strings(&violations).as_str());
            explanation = e;
        } else if any_with(axiom_results, EvaluationStatus::IllFormed) {
            status = EvaluationStatus::IllFormed;
            licensed = false;
            can_retry = true;
            feedback_hint = Some(String::from_str(
                "Your response is structurally ill-formed. Please rephrase with clear subject-predicate statements.",
            ));
            explanation = String::from_str("Structurally ill-formed statements detected");
        } else if any_with(axiom_results, EvaluationStatus::Underdetermined) {
            status = EvaluationStatus::Underdetermined;
            licensed = false;
            can_retry = false;
            feedback_hint = None;
            explanation = String::from_str("Validator has no jurisdiction to judge");
        } else if any_with(axiom_results, EvaluationStatus::Unsupported) {
            status = EvaluationStatus::Unsupported;
            licensed = true;
            can_retry = true;
            feedback_hint = Some(String::from_str(
                "Your statements lack required grounding. Consider asking for more context or using conditional phrasing.",
            ));
            explanation = String::from_str("Statements lack required grounding (A4)");
        } else if axiom_results.len() > 0 && all_with(axiom_results, EvaluationStatus::ConditionallyAcceptable) {
            status = EvaluationStatus::ConditionallyAcceptable;
            licensed = true;
            can_retry = false;
            feedback_hint = None;
            explanation = String::from_str("All statements are conditionally acceptable");
            proof {
                assert(ss[0] == EvaluationStatus::ConditionallyAcceptable);
            }
        } else if any_with(axiom_results, EvaluationStatus::ConditionallyAcceptable) {
            status = EvaluationStatus::ConditionallyAcceptable;
            licensed = true;
            can_retry = false;
            feedback_hint = None;
            explanation = String::from_str("Mix of conditional and acceptable statements");
        } else {
            status = EvaluationStatus::Acceptable;
            licensed = true;
            can_retry = false;
            feedback_hint = None;
            explanation = String::from_str("All statements are normatively acceptable");
        }
        let num_acceptable = acceptable_count(axiom_results);
        let n = axiom_results.len();
        ValidationResult {
            status,
            licensed,
            can_retry,
            feedback_hint,
            violated_axioms: violations,
            statement_results,
            explanation,
            num_statements: n,
            num_acceptable,
            grounds_accepted: 0,
            grounds_cited: 0,
        }
    }

    /// The judgment that reports `result`.
    fn to_judgment(&self, result: ValidationResult) -> (j: AdmissibilityJudgment)
        ensures
            reports(j, result),
    {
        let mut statement_evaluations: Vec<StatementEvaluation> = Vec::new();
        let mut violated_axioms: Vec<String> = Vec::new();
        let mut i: usize = 0;
        while i < result.statement_results.len()
            invariant
                i <= result.statement_results@.len(),
                statement_evaluations@.len() == i,
                forall|k: int| 0 <= k < i ==> evaluation_of(#[trigger] statement_evaluations@[k], result.statement_results@[k]),
                views(violated_axioms@) == statement_axioms(result.statement_results@.subrange(0, i as int)),
            decreases result.statement_results@.len() - i,
        {
            let stmt = &result.statement_results[i];
            proof {
                let sub = result.statement_results@.subrange(0, i + 1);
                assert(sub.drop_last() == result.statement_results@.subrange(0, i as int));
                assert(sub.last() == *stmt);
            }
            statement_evaluations.push(evaluation(stmt));
            match &stmt.violated_axiom {
                Some(a) => {
                    let ghost prev = violated_axioms@;
                    violated_axioms.push(a.clone());
                    assert(views(violated_axioms@) =~= views(prev).push(a@));
                },
                None => {},
            }
            i = i + 1;
        }
        assert(result.statement_results@.subrange(0, result.statement_results@.len() as int) == result.statement_results@);
        AdmissibilityJudgment {
            status: map_status(&result.status),
            licensed: result.licensed,
            can_retry: result.can_retry,
            statement_evaluations,
            feedback_hint: result.feedback_hint,
            violated_axioms,
            explanation: result.explanation,
            num_statements: result.num_statements,
            num_acceptable: result.num_acceptable,
            grounds_accepted: result.grounds_accepted,
            grounds_cited: result.grounds_cited,
        }
    }
}


impl AdmissibilityEvaluator {
    /// Evaluates a response text over knowledge nodes and, when given,
    /// citation links.
    pub fn evaluate_core(&self, agent_output: &str, knowledge_nodes: &[KnowledgeNode], links: Option<&LinkSet>) -> (r: ValidationResult)
        ensures
            core_result(
                r,
                agent_output@,
                knowledge_nodes@,
                match links {
                    Some(l) => Some(l@),
                    None => None,
                },
            ),
    {
        if agent_output.is_empty() {
            return ValidationResult {
                status: EvaluationStatus::Underdetermined,
                licensed: false,
                can_retry: false,
                feedback_hint: None,
                violated_axioms: Vec::new(),
                statement_results: Vec::new(),
                explanation: String::from_str("No content to validate"),
                num_statements: 0,
                num_acceptable: 0,
                grounds_accepted: 0,
                grounds_cited: 0,
            };
        }
        let mut statements = self.extractor.extract(agent_output);
        let mut statement = match statements.pop() {
            None => {
                return ValidationResult {
                    status: EvaluationStatus::NoNormativeContent,
                    licensed: false,
                    can_retry: false,
                    feedback_hint: None,
                    violated_axioms: Vec::new(),
                    statement_results: Vec::new(),
                    explanation: String::from_str(
                        "Protocol-only output (greetings/offers) - no normative claims to evaluate",
                    ),
                    num_statements: 0,
                    num_acceptable: 0,
                    grounds_accepted: 0,
                    grounds_cited: 0,
                };
            },
            Some(st) => st,
        };
        let ghost text = agent_output@;
        let ghost lv = match links {
            Some(l) => Some(l@),
            None => None,
        };
        self.modality_detector.detect_with_conditions(&mut statement);
        assert(statement.modality == Some(statement_modality(text)));
        assert(views(statement.conditions@) == statement_conditions(text));
        let ground_set = self.ground_matcher.match_nodes(&statement, knowledge_nodes);
        let license = if statement.modality == Some(Modality::Descriptive) {
            let l = License { permitted_modalities: Vec::new() };
            assert(l@ =~= Set::<Modality>::empty());
            l
        } else {
            self.license_deriver.derive(&ground_set, links)
        };
        assert(license@ == statement_license(text, knowledge_nodes@, lv));
        let result = self.axiom_checker.check(&statement, &license, &ground_set, "task completion");
        let ghost rv = result;
        let mut axiom_results: Vec<AxiomCheckResult> = Vec::new();
        axiom_results.push(copy_axiom_result(&result));
        let mut statement_results: Vec<StatementValidationResult> = Vec::new();
        statement_results.push(StatementValidationResult {
            statement,
            status: result.status,
            license,
            ground_set,
            violated_axiom: result.violated_axiom,
            explanation: result.explanation,
        });
        let r = self.aggregate(&axiom_results, statement_results);
        proof {
            let o = statement_outcome(text, knowledge_nodes@, lv);
            assert(statuses(axiom_results@) =~= seq![o.0]);
            assert(axiom_results@.drop_last() =~= Seq::<AxiomCheckResult>::empty());
            assert(axiom_results@.last() == rv);
            assert(axioms_of(Seq::<AxiomCheckResult>::empty()) == Seq::<Seq<char>>::empty());
            match rv.violated_axiom {
                Some(a) => {
                    assert(axioms_of(axiom_results@) == Seq::<Seq<char>>::empty().push(a@));
                },
                None => {
                    assert(axioms_of(axiom_results@) == Seq::<Seq<char>>::empty());
                },
            }
            assert(axioms_of(axiom_results@) =~= axiom_list(o.1));
            assert(statuses(axiom_results@).drop_last() =~= Seq::<EvaluationStatus>::empty());
        }
        r
    }

    /// The tool results of a conversation.
    pub fn extract_tool_results(&self, trajectory: &[ConversationMessage]) -> (r: Result<Vec<crate::models::ToolResultSpeechAct>, EvaluateError>)
        ensures
            r is Ok <==> all_readable(result_messages(trajectory@)),
            r matches Ok(rs) ==> rs@.len() == result_messages(trajectory@).len() && forall|k: int|
                0 <= k < rs@.len() ==> crate::conversation::tool_result_of(trajectory@, result_messages(trajectory@)[k], #[trigger] rs@[k]),
            r matches Err(e) ==> exists|k: int| #[trigger] fails_at(result_messages(trajectory@), k, e),
    {
        extract_tool_results(trajectory)
    }

    fn to_speech_act(&self, assistant_message: &ConversationMessage) -> (r: Result<TextSpeechAct, EvaluateError>)
        ensures
            match content_text(assistant_message.content) {
                ContentText::Text(t) => r matches Ok(a) && a.text@ == t,
                _ => r matches Err(e) && crate::conversation::content_result(assistant_message.content, Err(e)),
            },
    {
        let content = extract_text_content(match &assistant_message.content {
            Some(c) => Some(c),
            None => None,
        });
        match content {
            Ok(text) => Ok(TextSpeechAct { text }),
            Err(e) => Err(e),
        }
    }

    /// Evaluates the agent's final message against the conversation it ends
    /// and the grounds supplied.
    #[verifier::rlimit(40)]
    pub fn evaluate_message(&self, agent_message: &ConversationMessage, trajectory: &[ConversationMessage], grounds: Vec<Ground>) -> (r: Result<AdmissibilityJudgment, EvaluateError>)
        ensures
            message_outcome(*agent_message, trajectory@, grounds@, r),
    {
        let tool_results = match self.extract_tool_results(trajectory) {
            Ok(t) => t,
            Err(e) => {
                return Err(e);
            },
        };
        let (knowledge_nodes, tool_call_refs) = self.knowledge_builder.build_with_references(&tool_results);
        let speech_act = match self.to_speech_act(agent_message) {
            Ok(a) => a,
            Err(e) => {
                return Err(e);
            },
        };
        let ghost initial = knowledge_nodes@;
        let knowledge_nodes = self.knowledge_builder.materialize_external_grounds(&knowledge_nodes, &grounds);
        let ghost given = grounds@;
        let mut combined_grounds = grounds;
        let mut from_refs = grounds_from_tool_call_refs(&tool_call_refs);
        let ghost ref_count = from_refs@.len();
        let ghost ref_view = grounds_view(from_refs@);
        proof {
            if tool_results@.len() == 0 {
                assert(tool_call_refs@.len() == 0);
                assert(crate::citations::ref_grounds(tool_call_refs@) =~= Seq::<crate::models::GroundView>::empty());
                assert(grounds_view(from_refs@).len() == from_refs@.len());
            }
        }
        combined_grounds.append(&mut from_refs);
        let text = speech_act.text;
        let links = build_links_from_grounds(text.as_str(), combined_grounds.as_slice(), "final_response");
        let mut ids: Vec<String> = Vec::new();
        let mut i: usize = 0;
        while i < combined_grounds.len()
            invariant
                i <= combined_grounds@.len(),
                views(ids@) == ground_ids(combined_grounds@).subrange(0, i as int),
            decreases combined_grounds@.len() - i,
        {
            let ghost prev = ids@;
            let gid = combined_grounds[i].ground_id.clone();
            ids.push(gid);
            assert(views(ids@) =~= views(prev).push(gid@));
            assert(ground_ids(combined_grounds@).subrange(0, i + 1) =~= ground_ids(combined_grounds@).subrange(0, i as int).push(combined_grounds@[i as int].ground_id@));
            assert(views(ids@) =~= ground_ids(combined_grounds@).subrange(0, i + 1));
            i = i + 1;
        }
        assert(ground_ids(combined_grounds@).subrange(0, combined_grounds@.len() as int) =~= ground_ids(combined_grounds@));
        let accepted = distinct(&ids);
        let mut cited_ids: Vec<String> = Vec::new();
        let mut i: usize = 0;
        while i < links.links.len()
            invariant
                i <= links.links@.len(),
                views(cited_ids@) == link_ground_ids(links@).subrange(0, i as int),
            decreases links.links@.len() - i,
        {
            let ghost prev = cited_ids@;
            let gid = links.links[i].ground_id.clone();
            cited_ids.push(gid);
            assert(views(cited_ids@) =~= views(prev).push(gid@));
            assert(links@[i as int] == links.links@[i as int]@);
            assert(link_ground_ids(links@).subrange(0, i + 1) =~= link_ground_ids(links@).subrange(0, i as int).push(links@[i as int].ground_id));
            assert(views(cited_ids@) =~= link_ground_ids(links@).subrange(0, i + 1));
            i = i + 1;
        }
        assert(link_ground_ids(links@).subrange(0, links.links@.len() as int) =~= link_ground_ids(links@));
        let cited = distinct(&cited_ids);
        let internal = self.evaluate_core(text.as_str(), knowledge_nodes.as_slice(), Some(&links));
        let ghost before = internal;
        let mut internal = internal;
        internal.grounds_accepted = accepted.len();
        internal.grounds_cited = cited.len();
        let j = self.to_judgment(internal);
        proof {
            let blocks = choose|b: Seq<Seq<KnowledgeNode>>| built_from(tool_results@, b, initial, tool_call_refs@);
            let all_grounds = grounds_view(given) + ref_grounds(tool_call_refs@);
            assert(grounds_view(combined_grounds@) =~= all_grounds);
            assert(ground_ids(combined_grounds@) =~= all_grounds.map_values(|g: GroundView| g.ground_id));
            assert(knowledge_nodes@.subrange(0, initial.len() as int) == initial);
            assert(judged_with(j, text@, trajectory@, given, tool_results@, blocks, tool_call_refs@, knowledge_nodes@, before));
        }
        proof {
            if result_messages(trajectory@).len() == 0 {
                assert(tool_results@.len() == 0);
                assert(initial.len() == 0);
                assert(knowledge_nodes@.subrange(0, 0) =~= initial);
                assert(knowledge_nodes@.subrange(0, knowledge_nodes@.len() as int) == knowledge_nodes@);
                assert(initial =~= Seq::<KnowledgeNode>::empty());
                assert(ref_count == 0);
                assert(combined_grounds@ =~= given);
                assert(internal == ValidationResult { grounds_accepted: j.grounds_accepted, grounds_cited: j.grounds_cited, ..before });
                assert(views(accepted@).len() == accepted@.len());
                assert(views(cited@).len() == cited@.len());
                let links_s = links_for_keys(grounds_view(given), citation_keys(text@), response_id());
                assert(links@ == links_s);
                assert(missing_ground_nodes(Seq::<KnowledgeNode>::empty(), given, knowledge_nodes@));
                assert(core_result(before, text@, knowledge_nodes@, Some(links_s)));
                assert(j.grounds_accepted == dedup(ground_ids(given)).len());
                assert(j.grounds_cited == dedup(link_ground_ids(links_s)).len());
                assert(judged_on_grounds(j, text@, given));
            }
        }
        Ok(j)
    }
}

/// Evaluates an agent's output, a conversation ending in it, or both.
pub fn evaluate(input: EvaluateInput) -> (r: Result<AdmissibilityJudgment, EvaluateError>)
    ensures
        evaluate_outcome(input, r),
{
    if input.agent_output.is_none() && input.conversation.is_none() {
        return Err(EvaluateError::MissingInput);
    }
    let grounds = match input.grounds {
        Some(g) => g,
        None => Vec::new(),
    };
    let evaluator = AdmissibilityEvaluator::new();
    match input.conversation {
        Some(conversation) => {
            if conversation.len() == 0 {
                return Err(EvaluateError::InvalidConversation);
            }
            let last = &conversation[conversation.len() - 1];
            if last.role != String::from_str("assistant") {
                return Err(EvaluateError::LastMessageNotAssistant);
            }
            match &input.agent_output {
                Some(expected_output) => {
                    let actual = match extract_text_content(match &last.content {
                        Some(c) => Some(c),
                        None => None,
                    }) {
                        Ok(t) => t,
                        Err(e) => {
                            return Err(e);
                        },
                    };
                    if actual != *expected_output {
                        return Err(EvaluateError::AgentOutputMismatch);
                    }
                },
                None => {},
            }
            evaluator.evaluate_message(last, conversation.as_slice(), grounds)
        },
        None => {
            let text = match input.agent_output {
                Some(t) => t,
                None => String::new(),
            };
            let msg = ConversationMessage {
                role: String::from_str("assistant"),
                content: Some(JsonValue::String(text.clone())),
                tool_call_id: None,
                tool_calls: Vec::new(),
                function_name: None,
            };
            let mut trajectory: Vec<ConversationMessage> = Vec::new();
            trajectory.push(ConversationMessage {
                role: String::from_str("assistant"),
                content: Some(JsonValue::String(text)),
                tool_call_id: None,
                tool_calls: Vec::new(),
                function_name: None,
            });
            proof {
                reveal_strlit("assistant");
                reveal_strlit("tool");
                reveal_strlit("function");
                assert(trajectory@.len() == 1);
                assert(trajectory@.last().role@ == "assistant"@);
                assert("assistant"@.len() != "tool"@.len());
                assert("assistant"@.len() != "function"@.len());
                assert(trajectory@.drop_last() =~= Seq::<ConversationMessage>::empty());
                assert(!crate::conversation::is_result_message(trajectory@.last()));
                assert(result_messages(trajectory@) == result_messages(trajectory@.drop_last()));
                assert(result_messages(Seq::<ConversationMessage>::empty()) =~= Seq::<ConversationMessage>::empty());
                assert(result_messages(trajectory@) =~= Seq::<ConversationMessage>::empty());
            }
            evaluator.evaluate_message(&msg, trajectory.as_slice(), grounds)
        },
    }
}


/// The grounds of an optional list, none when absent.
pub open spec fn opt_grounds(o: Option<Vec<Ground>>) -> Seq<Ground> {
    match o {
        Some(g) => g@,
        None => seq![],
    }
}

/// The field is absent or null.
pub open spec fn absent(f: Option<JsonValue>) -> bool {
    f is None || f == Some(JsonValue::Null)
}

/// The grounds that a grounds array gives.
pub open spec fn grounds_payload(p: Seq<JsonValue>) -> Seq<crate::models::GroundView> {
    if payload_grounds(p).len() > 0 {
        payload_grounds(p)
    } else {
        typed_grounds(p)
    }
}

/// The evaluation input that the fields of a request object give.
pub open spec fn input_from(m: Seq<(String, JsonValue)>, input: EvaluateInput) -> bool {
    let conv = entry_value(m, "conversation"@);
    let gr = entry_value(m, "grounds"@);
    &&& opt_view(input.agent_output) == string_field(m, "agent_output"@)
    &&& absent(conv) ==> input.conversation is None
    &&& conv matches Some(JsonValue::Array(arr)) ==> (input.conversation matches Some(ms) && ms@.len() == arr@.len()
        && forall|k: int| 0 <= k < ms@.len() ==> message_from(arr@[k], #[trigger] ms@[k]))
    &&& absent(gr) ==> input.grounds is None
    &&& gr matches Some(JsonValue::Array(g)) ==> (input.grounds matches Some(gs) && grounds_view(gs@) == grounds_payload(g@))
}

/// What evaluating a request value gives: a value that is not an object, or
/// whose conversation or grounds field is neither null nor an array, fails
/// with `InvalidJson`; a malformed message fails with `InvalidMessage`;
/// else the evaluation of the input its fields give.
pub open spec fn value_outcome(value: JsonValue, r: Result<AdmissibilityJudgment, EvaluateError>) -> bool {
    match value {
        JsonValue::Object(m) => {
            let conv = entry_value(m@, "conversation"@);
            let gr = entry_value(m@, "grounds"@);
            if !absent(conv) && !(conv->0 is Array) {
                r matches Err(EvaluateError::InvalidJson(_))
            } else if !absent(conv) && !(forall|k: int| 0 <= k < conv->0->Array_0@.len() ==> message_ok(#[trigger] conv->0->Array_0@[k])) {
                r matches Err(EvaluateError::InvalidMessage(_))
            } else if !absent(gr) && !(gr->0 is Array) {
                r matches Err(EvaluateError::InvalidJson(_))
            } else {
                exists|input: EvaluateInput| input_from(m@, input) && #[trigger] evaluate_outcome(input, r)
            }
        },
        _ => r matches Err(EvaluateError::InvalidJson(_)),
    }
}

/// Evaluates a request given as a JSON value: an object with an optional
/// `agent_output` string, `conversation` array and `grounds` array.
pub fn evaluate_value(value: &JsonValue) -> (r: Result<AdmissibilityJudgment, EvaluateError>)
    ensures
        value_outcome(*value, r),
{
    let obj = match value {
        JsonValue::Object(o) => o,
        _ => {
            return Err(EvaluateError::InvalidJson(String::from_str("payload must be object")));
        },
    };
    let agent_output = string_field_of(obj, "agent_output");
    let conversation = match value_field_of(obj, "conversation") {
        Some(JsonValue::Array(arr)) => match parse_conversation(arr.as_slice()) {
            Ok(c) => Some(c),
            Err(e) => {
                return Err(e);
            },
        },
        Some(JsonValue::Null) => None,
        None => None,
        Some(_) => {
            return Err(EvaluateError::InvalidJson(String::from_str("conversation must be an array")));
        },
    };
    let grounds = match value_field_of(obj, "grounds") {
        Some(JsonValue::Array(arr)) => Some(coerce_grounds_input(Some(arr.as_slice()), None, None)),
        Some(JsonValue::Null) => None,
        None => None,
        Some(_) => {
            return Err(EvaluateError::InvalidJson(String::from_str("grounds must be an array")));
        },
    };
    let input = EvaluateInput { agent_output, conversation, grounds };
    let ghost gi = input;
    proof {
        match entry_value(obj@, "grounds"@) {
            Some(JsonValue::Array(g)) => {
                assert(grounds_view(opt_grounds(gi.grounds)) =~= grounds_payload(g@) + Seq::<crate::models::GroundView>::empty());
            },
            _ => {},
        }
        assert(input_from(obj@, gi));
    }
    let r = evaluate(input);
    proof {
        assert(input_from(obj@, gi) && evaluate_outcome(gi, r));
    }
    r
}

/// Evaluates a request given as JSON text; text that does not read as JSON
/// fails with `InvalidJson`.
pub fn evaluate_from_json(input: &str) -> (r: Result<AdmissibilityJudgment, EvaluateError>)
    ensures
        crate::json::read_json(input.spec_bytes()) is None ==> r matches Err(EvaluateError::InvalidJson(_)),
        crate::json::read_json(input.spec_bytes()) matches Some(mo) ==> exists|v: JsonValue| crate::json::model(v) == mo
            && #[trigger] value_outcome(v, r),
        r is Ok ==> ws_end(input.spec_bytes(), 0) < input.spec_bytes().len() && input.spec_bytes()[ws_end(input.spec_bytes(), 0)] == 0x7b,
{
    let value = match parse_json(input) {
        Ok(v) => v,
        Err(e) => {
            return Err(EvaluateError::InvalidJson(e.message));
        },
    };
    let r = evaluate_value(&value);
    proof {
        assert(value_outcome(value, r));
    }
    r
}

} // verus!
