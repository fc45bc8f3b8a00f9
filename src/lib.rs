//! Admissibility evaluation of an AI agent's normative statements: citation
//! links, knowledge from tool results, statement extraction, modality
//! classification, license derivation, axiom checks and aggregation into a
//! judgment.
pub mod axiom_checker;
pub mod citations;
pub mod conversation;
pub mod evaluator;
pub mod extractor;
pub mod ground_matcher;
pub mod json;
pub mod knowledge;
pub mod knowledge_builder;
pub mod laws;
pub mod license_deriver;
pub mod modality_detector;
pub mod models;
pub mod report;
pub mod text;

pub use axiom_checker::AxiomChecker;
pub use citations::build_links_from_grounds;
pub use citations::coerce_grounds_input;
pub use citations::extract_citation_keys;
pub use citations::grounds_from_openai_citations;
pub use citations::grounds_from_tool_call_refs;
pub use citations::is_valid_citation_key;
pub use citations::link_set_from_openai_citations;
pub use citations::parse_grounds;
pub use citations::parse_openai_citations;
pub use conversation::EvaluateError;
pub use conversation::extract_text_content;
pub use conversation::extract_tool_results;
pub use conversation::parse_conversation;
pub use conversation::parse_tool_args;
pub use conversation::parse_tool_calls;
pub use evaluator::AdmissibilityEvaluator;
pub use evaluator::EvaluateInput;
pub use evaluator::evaluate;
pub use evaluator::evaluate_from_json;
pub use evaluator::evaluate_value;
pub use evaluator::map_status;
pub use extractor::StatementExtractor;
pub use extractor::split_sentences;
pub use ground_matcher::GroundSetMatcher;
pub use json::JsonError;
pub use json::JsonValue;
pub use json::parse_json;
pub use json::quote;
pub use json::to_pretty_json;
pub use knowledge::AxiomCheckResult;
pub use knowledge::EvaluationStatus;
pub use knowledge::GroundSet;
pub use knowledge::KnowledgeNode;
pub use knowledge::License;
pub use knowledge::Modality;
pub use knowledge::Scope;
pub use knowledge::Source;
pub use knowledge::Statement;
pub use knowledge::StatementValidationResult;
pub use knowledge::Status;
pub use knowledge::ValidationResult;
pub use knowledge_builder::KnowledgeStateBuilder;
pub use knowledge_builder::SemanticExtract;
pub use knowledge_builder::stable_id_fragment;
pub use license_deriver::LicenseDeriver;
pub use license_deriver::license_from;
pub use modality_detector::ModalityDetector;
pub use modality_detector::extract_after_keyword;
pub use models::AdmissibilityJudgment;
pub use models::AdmissibilityStatus;
pub use models::ContentPart;
pub use models::ConversationMessage;
pub use models::CreatorType;
pub use models::EvidenceType;
pub use models::Ground;
pub use models::GroundRef;
pub use models::LinkRole;
pub use models::LinkSet;
pub use models::Provenance;
pub use models::RefusalSpeechAct;
pub use models::StatementEvaluation;
pub use models::StatementGroundLink;
pub use models::TextSpeechAct;
pub use models::ToolCall;
pub use models::ToolResultSpeechAct;
