//! Grounds, citation links and the externally visible result types.
use vstd::prelude::*;
use crate::knowledge::opt_view;
use crate::json::JsonValue;

verus! {

/// Externally visible admissibility status.
#[derive(Debug, Clone, Copy, PartialEq, Eq, Structural)]
pub enum AdmissibilityStatus {
    Acceptable,
    ConditionallyAcceptable,
    ViolatesNorm,
    Unsupported,
    IllFormed,
    Underdetermined,
    NoNormativeContent,
}

/// The name under which a status is reported.
pub open spec fn status_name(s: AdmissibilityStatus) -> Seq<char> {
    match s {
        AdmissibilityStatus::Acceptable => "acceptable"@,
        AdmissibilityStatus::ConditionallyAcceptable => "conditionally_acceptable"@,
        AdmissibilityStatus::ViolatesNorm => "violates_norm"@,
        AdmissibilityStatus::Unsupported => "unsupported"@,
        AdmissibilityStatus::IllFormed => "ill_formed"@,
        AdmissibilityStatus::Underdetermined => "underdetermined"@,
        AdmissibilityStatus::NoNormativeContent => "no_normative_content"@,
    }
}

impl AdmissibilityStatus {
    pub fn as_str(&self) -> (r: &'static str)
        ensures
            r@ == status_name(*self),
    {
        match self {
            AdmissibilityStatus::Acceptable => "acceptable",
            AdmissibilityStatus::ConditionallyAcceptable => "conditionally_acceptable",
            AdmissibilityStatus::ViolatesNorm => "violates_norm",
            AdmissibilityStatus::Unsupported => "unsupported",
            AdmissibilityStatus::IllFormed => "ill_formed",
            AdmissibilityStatus::Underdetermined => "underdetermined",
            AdmissibilityStatus::NoNormativeContent => "no_normative_content",
        }
    }
}

/// One part of a message's content.
#[derive(Debug, Clone, PartialEq, Eq)]
pub enum ContentPart {
    Text(String),
    Refusal(String),
}

/// The role a cited ground plays for a statement.
#[derive(Debug, Clone, Copy, PartialEq, Eq, Structural)]
pub enum LinkRole {
    Supports,
    Disambiguates,
    Contextualizes,
}

pub open spec fn link_role_name(r: LinkRole) -> Seq<char> {
    match r {
        LinkRole::Supports => "supports"@,
        LinkRole::Disambiguates => "disambiguates"@,
        LinkRole::Contextualizes => "contextualizes"@,
    }
}

impl LinkRole {
    pub fn as_str(&self) -> (r: &'static str)
        ensures
            r@ == link_role_name(*self),
    {
        match self {
            LinkRole::Supports => "supports",
            LinkRole::Disambiguates => "disambiguates",
            LinkRole::Contextualizes => "contextualizes",
        }
    }

    /// The role with the given name.
    pub fn from_name(v: &str) -> (r: Option<LinkRole>)
        ensures
            r matches Some(role) ==> link_role_name(role) == v@,
            r is None ==> (forall|role: LinkRole| link_role_name(role) != v@),
    {
        let s = String::from_str(v);
        let a = String::from_str("supports");
        let b = String::from_str("disambiguates");
        let c = String::from_str("contextualizes");
        if s == a {
            Some(LinkRole::Supports)
        } else if s == b {
            Some(LinkRole::Disambiguates)
        } else if s == c {
            Some(LinkRole::Contextualizes)
        } else {
            proof {
                assert forall|role: LinkRole| link_role_name(role) != v@ by {
                    match role {
                        LinkRole::Supports => {},
                        LinkRole::Disambiguates => {},
                        LinkRole::Contextualizes => {},
                    }
                }
            }
            None
        }
    }
}

/// Who created a piece of evidence.
#[derive(Debug, Clone, Copy, PartialEq, Eq, Structural)]
pub enum CreatorType {
    Human,
    ToolObserver,
    AgentDeclaration,
    UpstreamPipeline,
}

pub open spec fn creator_name(c: CreatorType) -> Seq<char> {
    match c {
        CreatorType::Human => "human"@,
        CreatorType::ToolObserver => "tool_observer"@,
        CreatorType::AgentDeclaration => "agent_declaration"@,
        CreatorType::UpstreamPipeline => "upstream_pipeline"@,
    }
}

impl CreatorType {
    pub fn as_str(&self) -> (r: &'static str)
        ensures
            r@ == creator_name(*self),
    {
        match self {
            CreatorType::Human => "human",
            CreatorType::ToolObserver => "tool_observer",
            CreatorType::AgentDeclaration => "agent_declaration",
            CreatorType::UpstreamPipeline => "upstream_pipeline",
        }
    }
}

/// The kind of evidence.
#[derive(Debug, Clone, Copy, PartialEq, Eq, Structural)]
pub enum EvidenceType {
    Observation,
    Explicit,
    Structure,
    Validation,
}

pub open spec fn evidence_name(e: EvidenceType) -> Seq<char> {
    match e {
        EvidenceType::Observation => "observation"@,
        EvidenceType::Explicit => "explicit"@,
        EvidenceType::Structure => "structural"@,
        EvidenceType::Validation => "validation"@,
    }
}

impl EvidenceType {
    pub fn as_str(&self) -> (r: &'static str)
        ensures
            r@ == evidence_name(*self),
    {
        match self {
            EvidenceType::Observation => "observation",
            EvidenceType::Explicit => "explicit",
            EvidenceType::Structure => "structural",
            EvidenceType::Validation => "validation",
        }
    }
}

/// Where a link's evidence comes from.
#[derive(Debug, Clone, PartialEq, Eq)]
pub struct Provenance {
    pub creator: CreatorType,
    pub evidence_type: EvidenceType,
    pub evidence_content: Option<String>,
    pub signature: Option<String>,
}

/// A citation relationship from a statement to a ground.
#[derive(Debug, Clone, PartialEq, Eq)]
pub struct StatementGroundLink {
    pub statement_id: String,
    pub ground_id: String,
    pub role: LinkRole,
    pub provenance: Provenance,
}

/// The values a link carries.
pub struct LinkView {
    pub statement_id: Seq<char>,
    pub ground_id: Seq<char>,
    pub role: LinkRole,
    pub creator: CreatorType,
    pub evidence_type: EvidenceType,
    pub evidence_content: Option<Seq<char>>,
    pub signature: Option<Seq<char>>,
}

impl StatementGroundLink {
    pub open spec fn view(&self) -> LinkView {
        LinkView {
            statement_id: self.statement_id@,
            ground_id: self.ground_id@,
            role: self.role,
            creator: self.provenance.creator,
            evidence_type: self.provenance.evidence_type,
            evidence_content: opt_view(self.provenance.evidence_content),
            signature: opt_view(self.provenance.signature),
        }
    }
}

/// The links of one statement, in citation order.
#[derive(Debug, Clone, PartialEq, Eq)]
pub struct LinkSet {
    pub links: Vec<StatementGroundLink>,
}

impl LinkSet {
    pub open spec fn view(&self) -> Seq<LinkView> {
        self.links@.map_values(|l: StatementGroundLink| l@)
    }
}

/// A citable unit of external evidence.
#[derive(Debug, Clone, PartialEq, Eq)]
pub struct Ground {
    pub citation_key: String,
    pub ground_id: String,
    pub role: LinkRole,
    pub creator: CreatorType,
    pub evidence_type: EvidenceType,
    pub evidence_content: Option<String>,
    pub signature: Option<String>,
}

/// The values a ground carries.
pub struct GroundView {
    pub citation_key: Seq<char>,
    pub ground_id: Seq<char>,
    pub role: LinkRole,
    pub creator: CreatorType,
    pub evidence_type: EvidenceType,
    pub evidence_content: Option<Seq<char>>,
    pub signature: Option<Seq<char>>,
}

impl Ground {
    pub open spec fn view(&self) -> GroundView {
        GroundView {
            citation_key: self.citation_key@,
            ground_id: self.ground_id@,
            role: self.role,
            creator: self.creator,
            evidence_type: self.evidence_type,
            evidence_content: opt_view(self.evidence_content),
            signature: opt_view(self.signature),
        }
    }
}

/// The views of a list of grounds.
pub open spec fn grounds_view(gs: Seq<Ground>) -> Seq<GroundView> {
    gs.map_values(|g: Ground| g@)
}

/// The text of an agent's message.
#[derive(Debug, Clone, PartialEq, Eq)]
pub struct TextSpeechAct {
    pub text: String,
}

/// An agent's explicit refusal.
#[derive(Debug, Clone, PartialEq, Eq)]
pub struct RefusalSpeechAct {
    pub refusal: String,
}

/// One grounding record as reported: the node's values by name. The
/// confidence is in thousandths.
#[derive(Debug, Clone, PartialEq, Eq)]
pub struct GroundRef {
    pub id: String,
    pub scope: String,
    pub source: String,
    pub status: String,
    pub confidence: u32,
    pub strength: String,
    pub semantic_id: Option<String>,
}

/// One statement's evaluation as reported.
#[derive(Debug, Clone, PartialEq, Eq)]
pub struct StatementEvaluation {
    pub statement_id: String,
    pub statement: String,
    pub modality: String,
    pub license: Vec<String>,
    pub status: AdmissibilityStatus,
    pub violated_axiom: Option<String>,
    pub explanation: String,
    pub grounding_trace: Vec<GroundRef>,
    pub subject: Option<String>,
    pub predicate: Option<String>,
}

/// The verdict for one agent response.
#[derive(Debug, Clone, PartialEq, Eq)]
pub struct AdmissibilityJudgment {
    pub status: AdmissibilityStatus,
    pub licensed: bool,
    pub can_retry: bool,
    pub statement_evaluations: Vec<StatementEvaluation>,
    pub feedback_hint: Option<String>,
    pub violated_axioms: Vec<String>,
    pub explanation: String,
    pub num_statements: usize,
    pub num_acceptable: usize,
    pub grounds_accepted: usize,
    pub grounds_cited: usize,
}

/// A tool call that an assistant message declares.
#[derive(Debug, PartialEq, Eq)]
pub struct ToolCall {
    pub id: String,
    pub kind: String,
    pub function_name: Option<String>,
    pub function_arguments: Option<JsonValue>,
    pub custom_name: Option<String>,
    pub custom_input: Option<String>,
}

/// One message of a conversation.
#[derive(Debug, PartialEq, Eq)]
pub struct ConversationMessage {
    pub role: String,
    pub content: Option<JsonValue>,
    pub tool_call_id: Option<String>,
    pub tool_calls: Vec<ToolCall>,
    pub function_name: Option<String>,
}

/// The result of one tool call, as text, with the call's arguments.
#[derive(Debug, PartialEq, Eq)]
pub struct ToolResultSpeechAct {
    pub tool_name: String,
    pub tool_call_id: Option<String>,
    pub arguments: Vec<(String, JsonValue)>,
    pub result_text: String,
}

} // verus!
