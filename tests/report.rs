use normcore::EvaluateInput;
use normcore::JsonValue;
use normcore::evaluate;
use normcore::to_pretty_json;

fn keys(v: &JsonValue) -> Vec<String> {
    match v {
        JsonValue::Object(es) => es.iter().map(|(k, _)| k.clone()).collect(),
        _ => panic!("object expected"),
    }
}

#[test]
fn judgment_json_has_every_field_with_explicit_nulls() {
    let j = evaluate(EvaluateInput {
        agent_output: Some("If it rains, take a coat.".to_string()),
        conversation: None,
        grounds: None,
    })
    .unwrap();
    let v = j.to_json_value();
    assert_eq!(
        keys(&v),
        vec![
            "can_retry",
            "explanation",
            "feedback_hint",
            "grounds_accepted",
            "grounds_cited",
            "licensed",
            "num_acceptable",
            "num_statements",
            "statement_evaluations",
            "status",
            "violated_axioms"
        ]
    );
    assert!(matches!(v.get("feedback_hint"), Some(JsonValue::Null)));
    assert!(matches!(v.get("status"), Some(JsonValue::String(s)) if s == "conditionally_acceptable"));
    assert!(matches!(v.get("num_statements"), Some(JsonValue::Number(n)) if n == "1"));
    let evals = v.get("statement_evaluations").and_then(|e| e.as_array()).unwrap();
    assert_eq!(
        keys(&evals[0]),
        vec![
            "explanation",
            "grounding_trace",
            "license",
            "modality",
            "predicate",
            "statement",
            "statement_id",
            "status",
            "subject",
            "violated_axiom"
        ]
    );
    assert!(matches!(evals[0].get("violated_axiom"), Some(JsonValue::Null)));
    let text = to_pretty_json(&v);
    assert!(text.contains("\"feedback_hint\": null"));
}

#[test]
fn grounding_trace_confidence_prints_as_number() {
    let grounds = vec![normcore::Ground {
        citation_key: "d".to_string(),
        ground_id: "g".to_string(),
        role: normcore::LinkRole::Supports,
        creator: normcore::CreatorType::Human,
        evidence_type: normcore::EvidenceType::Explicit,
        evidence_content: None,
        signature: None,
    }];
    let j = evaluate(EvaluateInput {
        agent_output: Some("You should read it [@d].".to_string()),
        conversation: None,
        grounds: Some(grounds),
    })
    .unwrap();
    let text = to_pretty_json(&j.to_json_value());
    assert!(text.contains("\"confidence\": 1,"));
    assert!(text.contains("\"semantic_id\": \"g\""));
    assert!(text.contains("\"grounds_cited\": 1"));
}
