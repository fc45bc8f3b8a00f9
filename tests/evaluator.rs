use normcore::AdmissibilityEvaluator;
use normcore::AdmissibilityStatus;
use normcore::ConversationMessage;
use normcore::EvaluateError;
use normcore::EvaluateInput;
use normcore::EvaluationStatus;
use normcore::JsonValue;
use normcore::ToolCall;
use normcore::evaluate;
use normcore::evaluate_from_json;
use normcore::extract_text_content;
use normcore::extract_tool_results;
use normcore::map_status;
use normcore::parse_conversation;
use normcore::parse_json;
use normcore::parse_tool_args;
use normcore::parse_tool_calls;

fn assistant_text(content: &str) -> ConversationMessage {
    ConversationMessage {
        role: "assistant".to_string(),
        content: Some(JsonValue::String(content.to_string())),
        tool_call_id: None,
        tool_calls: Vec::new(),
        function_name: None,
    }
}

fn function_call(id: &str, name: &str, args: &str) -> ToolCall {
    ToolCall {
        id: id.to_string(),
        kind: "function".to_string(),
        function_name: Some(name.to_string()),
        function_arguments: Some(JsonValue::String(args.to_string())),
        custom_name: None,
        custom_input: None,
    }
}

fn tool_message(call_id: &str, content: &str) -> ConversationMessage {
    ConversationMessage {
        role: "tool".to_string(),
        content: Some(JsonValue::String(content.to_string())),
        tool_call_id: Some(call_id.to_string()),
        tool_calls: Vec::new(),
        function_name: None,
    }
}

#[test]
fn evaluate_core_empty_agent_output() {
    let evaluator = AdmissibilityEvaluator::new();
    let result = evaluator.evaluate_core("", &[], None);
    assert_eq!(result.status, EvaluationStatus::Underdetermined);
    assert!(!result.licensed);
}

#[test]
fn evaluate_core_no_normative_returns_no_normative_content() {
    let evaluator = AdmissibilityEvaluator::new();
    let result = evaluator.evaluate_core("hello", &[], None);
    assert_eq!(result.status, EvaluationStatus::NoNormativeContent);
}

#[test]
fn parse_tool_args_variants() {
    assert_eq!(parse_tool_args(None).len(), 0);
    let parsed = parse_tool_args(Some(&parse_json(r#"{"a":1}"#).expect("json")));
    assert!(parsed.iter().any(|(k, _)| k == "a"));
    let parsed = parse_tool_args(Some(&JsonValue::String("{\"a\":1}".to_string())));
    assert!(parsed.iter().any(|(k, _)| k == "a"));
    let parsed = parse_tool_args(Some(&JsonValue::String("not json".to_string())));
    assert!(parsed.is_empty());
}

#[test]
fn extract_tool_results_from_trajectory() {
    let trajectory = vec![
        ConversationMessage {
            role: "assistant".to_string(),
            content: Some(JsonValue::String(String::new())),
            tool_call_id: None,
            tool_calls: vec![function_call("call1", "search", "{\"q\":\"x\"}")],
            function_name: None,
        },
        tool_message("call1", "result"),
        ConversationMessage {
            role: "function".to_string(),
            content: Some(JsonValue::String("ok".to_string())),
            tool_call_id: None,
            tool_calls: Vec::new(),
            function_name: Some("legacy".to_string()),
        },
    ];
    let evaluator = AdmissibilityEvaluator::new();
    let results = evaluator.extract_tool_results(&trajectory).expect("must parse trajectory");
    assert_eq!(extract_tool_results(&trajectory).expect("must parse trajectory").len(), 2);
    assert_eq!(results.len(), 2);
    assert_eq!(results[0].tool_name, "search");
    assert_eq!(results[1].tool_name, "legacy");
    assert_eq!(results[0].tool_call_id.as_deref(), Some("call1"));
    assert!(results[0].arguments.iter().any(|(k, _)| k == "q"));
    assert_eq!(results[1].tool_call_id, None);
}

#[test]
fn evaluate_with_conversation_and_citation() {
    let conversation = vec![
        ConversationMessage {
            role: "assistant".to_string(),
            content: Some(JsonValue::String(String::new())),
            tool_call_id: None,
            tool_calls: vec![function_call("callWeatherNYC", "get_weather", "{\"city\":\"New York\"}")],
            function_name: None,
        },
        tool_message("callWeatherNYC", "{\"weather_id\":\"nyc_2026-02-07\"}"),
        assistant_text("You should carry an umbrella [@callWeatherNYC]."),
    ];
    let result = evaluate(EvaluateInput { agent_output: None, conversation: Some(conversation), grounds: None })
        .expect("evaluation must succeed");
    assert_eq!(result.status, AdmissibilityStatus::Acceptable);
    assert!(result.grounds_accepted >= 1);
    assert!(result.grounds_cited >= 1);
}

#[test]
fn evaluate_mismatched_agent_output_fails() {
    let conversation = vec![assistant_text("Use umbrella [@callWeatherNYC].")];
    let err = evaluate(EvaluateInput {
        agent_output: Some("Different output".to_string()),
        conversation: Some(conversation),
        grounds: None,
    })
    .unwrap_err();
    assert_eq!(err, EvaluateError::AgentOutputMismatch);
}

#[test]
fn parse_conversation_from_json_array() {
    let input = parse_json(r#"[{"role":"assistant","content":"hi","tool_calls":[]}]"#).expect("json parses");
    let JsonValue::Array(arr) = input else { panic!("array expected") };
    let messages = parse_conversation(&arr).expect("conversation parses");
    assert_eq!(messages.len(), 1);
    assert_eq!(messages[0].role, "assistant");
}

#[test]
fn input_errors() {
    assert_eq!(
        evaluate(EvaluateInput { agent_output: None, conversation: None, grounds: None }).unwrap_err(),
        EvaluateError::MissingInput
    );
    assert_eq!(
        evaluate(EvaluateInput { agent_output: None, conversation: Some(vec![]), grounds: None }).unwrap_err(),
        EvaluateError::InvalidConversation
    );
    assert_eq!(
        evaluate(EvaluateInput { agent_output: None, conversation: Some(vec![tool_message("c", "x")]), grounds: None })
            .unwrap_err(),
        EvaluateError::LastMessageNotAssistant
    );
    let mut odd = assistant_text("");
    odd.content = Some(JsonValue::Bool(true));
    assert_eq!(
        evaluate(EvaluateInput { agent_output: None, conversation: Some(vec![odd]), grounds: None }).unwrap_err(),
        EvaluateError::LastAssistantContentNotString
    );
}

#[test]
fn content_parts_are_joined_or_rejected() {
    let parts = parse_json(r#"[{"type":"text","text":" You should "},{"type":"text","text":"rest. "},7]"#).unwrap();
    assert_eq!(extract_text_content(Some(&parts)).unwrap(), "You should rest.");
    let refusal = parse_json(r#"[{"type":"refusal","refusal":"I won't."}]"#).unwrap();
    assert_eq!(extract_text_content(Some(&refusal)).unwrap(), "I won't.");
    let mixed = parse_json(r#"[{"type":"refusal","refusal":"no"},{"type":"text","text":"yes"}]"#).unwrap();
    assert!(matches!(extract_text_content(Some(&mixed)), Err(EvaluateError::InvalidMessage(_))));
    assert_eq!(extract_text_content(None).unwrap(), "");
    assert_eq!(extract_text_content(Some(&JsonValue::Null)).unwrap_err(), EvaluateError::LastAssistantContentNotString);
}

#[test]
fn message_parsing_errors() {
    let arr = |t: &str| match parse_json(t).unwrap() {
        JsonValue::Array(a) => a,
        _ => panic!("array expected"),
    };
    assert!(matches!(parse_conversation(&arr("[3]")), Err(EvaluateError::InvalidMessage(_))));
    assert!(matches!(parse_conversation(&arr(r#"[{"content":"x"}]"#)), Err(EvaluateError::InvalidMessage(_))));
    assert!(matches!(parse_conversation(&arr(r#"[{"role":"a","tool_calls":{}}]"#)), Err(EvaluateError::InvalidMessage(_))));
    let calls = parse_json(r#"[{"id":"c1","function":{"name":"f","arguments":"{}"}},{"type":"custom"},{"id":"c2","type":"custom","custom":{"name":"n","input":"i"}}]"#).unwrap();
    let parsed = parse_tool_calls(Some(&calls)).unwrap();
    assert_eq!(parsed.len(), 2);
    assert_eq!(parsed[0].kind, "function");
    assert_eq!(parsed[0].function_name.as_deref(), Some("f"));
    assert_eq!(parsed[1].custom_input.as_deref(), Some("i"));
}

#[test]
fn json_requests() {
    let ok = evaluate_from_json(r#"{"agent_output":"We should deploy now."}"#).unwrap();
    assert_eq!(ok.status, AdmissibilityStatus::ViolatesNorm);
    assert!(matches!(evaluate_from_json("not json"), Err(EvaluateError::InvalidJson(_))));
    assert!(matches!(evaluate_from_json("[]"), Err(EvaluateError::InvalidJson(_))));
    assert!(matches!(evaluate_from_json(r#"{"conversation":3}"#), Err(EvaluateError::InvalidJson(_))));
    assert!(matches!(evaluate_from_json(r#"{"agent_output":"x","grounds":"g"}"#), Err(EvaluateError::InvalidJson(_))));
    assert_eq!(evaluate_from_json("{}").unwrap_err(), EvaluateError::MissingInput);
    let cited = evaluate_from_json(
        r#"{"agent_output":"You should read it [@doc].","grounds":[{"citation_key":"doc","ground_id":"file_9"}]}"#,
    )
    .unwrap();
    assert_eq!(cited.status, AdmissibilityStatus::Acceptable);
    assert_eq!(cited.grounds_cited, 1);
}

#[test]
fn status_mapping() {
    assert_eq!(map_status(&EvaluationStatus::WellFormed), AdmissibilityStatus::Underdetermined);
    assert_eq!(map_status(&EvaluationStatus::IllFormed), AdmissibilityStatus::IllFormed);
    assert_eq!(AdmissibilityStatus::NoNormativeContent.as_str(), "no_normative_content");
}

#[test]
fn conditional_without_grounds_is_conditionally_acceptable() {
    let j = evaluate(EvaluateInput {
        agent_output: Some("If the tests pass, you should deploy.".to_string()),
        conversation: None,
        grounds: None,
    })
    .unwrap();
    assert_eq!(j.status, AdmissibilityStatus::ConditionallyAcceptable);
    assert!(j.licensed);
    assert!(!j.can_retry);
    assert_eq!(j.num_acceptable, 1);
    assert_eq!(j.statement_evaluations[0].modality, "conditional");
    assert_eq!(j.statement_evaluations[0].license, vec!["refusal"]);
}

#[test]
fn descriptive_without_grounds_is_unsupported() {
    let j = evaluate(EvaluateInput {
        agent_output: Some("The deployment is blocked.".to_string()),
        conversation: None,
        grounds: None,
    })
    .unwrap();
    assert_eq!(j.status, AdmissibilityStatus::Unsupported);
    assert_eq!(j.violated_axioms, vec!["A4"]);
    assert!(j.licensed);
    assert!(j.can_retry);
    assert_eq!(
        j.feedback_hint.as_deref(),
        Some("Your statements lack required grounding. Consider asking for more context or using conditional phrasing.")
    );
}

#[test]
fn unreadable_tool_result_fails_evaluation() {
    let mut bad = tool_message("c1", "");
    bad.content = Some(JsonValue::Bool(false));
    let err = evaluate(EvaluateInput {
        agent_output: None,
        conversation: Some(vec![bad, assistant_text("You should go.")]),
        grounds: None,
    })
    .unwrap_err();
    assert_eq!(err, EvaluateError::LastAssistantContentNotString);
    let mixed = parse_json(r#"[{"type":"refusal","refusal":"no"},{"type":"text","text":"yes"}]"#).unwrap();
    let mut last = assistant_text("");
    last.content = Some(mixed);
    let err = evaluate(EvaluateInput {
        agent_output: Some("yes".to_string()),
        conversation: Some(vec![last]),
        grounds: None,
    })
    .unwrap_err();
    assert!(matches!(err, EvaluateError::InvalidMessage(_)));
}

#[test]
fn tool_call_fields_are_kept() {
    let calls = parse_json(r#"[{"id":"c1","function":{"name":"f","arguments":{"q":"x"}},"custom":{"name":"n"}}]"#).unwrap();
    let parsed = parse_tool_calls(Some(&calls)).unwrap();
    assert!(matches!(&parsed[0].function_arguments, Some(JsonValue::Object(es)) if es.len() == 1 && es[0].0 == "q"));
    assert_eq!(parsed[0].custom_name.as_deref(), Some("n"));
    assert_eq!(parsed[0].custom_input, None);
}
