use normcore::AdmissibilityStatus;
use normcore::ConversationMessage;
use normcore::CreatorType;
use normcore::EvaluateInput;
use normcore::EvidenceType;
use normcore::Ground;
use normcore::JsonValue;
use normcore::LinkRole;
use normcore::ToolCall;
use normcore::evaluate;

fn assistant_text(content: &str) -> ConversationMessage {
    ConversationMessage {
        role: "assistant".to_string(),
        content: Some(JsonValue::String(content.to_string())),
        tool_call_id: None,
        tool_calls: Vec::new(),
        function_name: None,
    }
}

#[test]
fn scenario_conversation_with_tool_citation_produces_grounded_acceptable_status() {
    let conversation = vec![
        ConversationMessage {
            role: "assistant".to_string(),
            content: Some(JsonValue::String(String::new())),
            tool_call_id: None,
            tool_calls: vec![ToolCall {
                id: "callWeatherNYC".to_string(),
                kind: "function".to_string(),
                function_name: Some("get_weather".to_string()),
                function_arguments: Some(JsonValue::String("{\"city\":\"New York\"}".to_string())),
                custom_name: None,
                custom_input: None,
            }],
            function_name: None,
        },
        ConversationMessage {
            role: "tool".to_string(),
            content: Some(JsonValue::String("{\"weather_id\":\"nyc_2026-02-07\"}".to_string())),
            tool_call_id: Some("callWeatherNYC".to_string()),
            tool_calls: Vec::new(),
            function_name: None,
        },
        assistant_text("You should carry an umbrella [@callWeatherNYC]."),
    ];
    let judgment = evaluate(EvaluateInput { agent_output: None, conversation: Some(conversation), grounds: None })
        .expect("evaluation should succeed");
    assert_eq!(judgment.status, AdmissibilityStatus::Acceptable);
    assert!(judgment.licensed);
    assert!(!judgment.can_retry);
    assert_eq!(judgment.grounds_accepted, 1);
    assert_eq!(judgment.grounds_cited, 1);
    assert_eq!(judgment.num_statements, 1);
    assert_eq!(judgment.statement_evaluations.len(), 1);
}

#[test]
fn scenario_external_ground_without_tool_history_keeps_assertive_claim_acceptable() {
    let grounds = vec![Ground {
        citation_key: "file_weather_2025".to_string(),
        ground_id: "file_weather_2025".to_string(),
        role: LinkRole::Supports,
        creator: CreatorType::UpstreamPipeline,
        evidence_type: EvidenceType::Observation,
        evidence_content: Some("openai_citation".to_string()),
        signature: None,
    }];
    let judgment = evaluate(EvaluateInput {
        agent_output: Some("You should compare with archive [@file_weather_2025].".to_string()),
        conversation: None,
        grounds: Some(grounds),
    })
    .expect("evaluation should succeed");
    assert_eq!(judgment.status, AdmissibilityStatus::Acceptable);
    assert_eq!(judgment.grounds_accepted, 1);
    assert_eq!(judgment.grounds_cited, 1);
    assert_eq!(judgment.violated_axioms, Vec::<String>::new());
}

#[test]
fn scenario_assertive_without_grounding_returns_norm_violation() {
    let judgment = evaluate(EvaluateInput {
        agent_output: Some("We should deploy now.".to_string()),
        conversation: None,
        grounds: None,
    })
    .expect("evaluation should succeed");
    assert_eq!(judgment.status, AdmissibilityStatus::ViolatesNorm);
    assert!(!judgment.licensed);
    assert!(judgment.can_retry);
    assert_eq!(judgment.violated_axioms, vec!["A5".to_string()]);
    assert_eq!(judgment.grounds_accepted, 0);
    assert_eq!(judgment.grounds_cited, 0);
}

#[test]
fn scenario_greeting_only_has_no_normative_content() {
    let judgment = evaluate(EvaluateInput {
        agent_output: Some("Hello! How can I help you today?".to_string()),
        conversation: None,
        grounds: None,
    })
    .expect("evaluation should succeed");
    assert_eq!(judgment.status, AdmissibilityStatus::NoNormativeContent);
    assert!(!judgment.licensed);
    assert!(!judgment.can_retry);
    assert_eq!(judgment.num_statements, 0);
}

#[test]
fn scenario_refusal_is_acceptable_without_grounds() {
    let judgment = evaluate(EvaluateInput {
        agent_output: Some("I cannot determine whether you should deploy.".to_string()),
        conversation: None,
        grounds: None,
    })
    .expect("evaluation should succeed");
    assert_eq!(judgment.status, AdmissibilityStatus::Acceptable);
    assert!(judgment.licensed);
    assert_eq!(judgment.statement_evaluations[0].modality, "refusal");
    assert_eq!(judgment.statement_evaluations[0].explanation, "Explicit refusal is always admissible (A6)");
}

#[test]
fn scenario_uncited_ground_does_not_license_assertion() {
    let grounds = vec![Ground {
        citation_key: "doc".to_string(),
        ground_id: "file_1".to_string(),
        role: LinkRole::Supports,
        creator: CreatorType::UpstreamPipeline,
        evidence_type: EvidenceType::Observation,
        evidence_content: None,
        signature: None,
    }];
    let judgment = evaluate(EvaluateInput {
        agent_output: Some("You should deploy now [@other].".to_string()),
        conversation: None,
        grounds: Some(grounds),
    })
    .expect("evaluation should succeed");
    assert_eq!(judgment.status, AdmissibilityStatus::ViolatesNorm);
    assert_eq!(judgment.grounds_accepted, 1);
    assert_eq!(judgment.grounds_cited, 0);
    assert_eq!(judgment.statement_evaluations[0].grounding_trace.len(), 1);
    assert_eq!(judgment.statement_evaluations[0].grounding_trace[0].confidence, 1000);
    assert_eq!(judgment.statement_evaluations[0].grounding_trace[0].scope, "factual");
}
