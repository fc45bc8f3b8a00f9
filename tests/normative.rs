use normcore::AxiomChecker;
use normcore::CreatorType;
use normcore::EvaluationStatus;
use normcore::EvidenceType;
use normcore::Ground;
use normcore::GroundSet;
use normcore::GroundSetMatcher;
use normcore::KnowledgeNode;
use normcore::KnowledgeStateBuilder;
use normcore::License;
use normcore::LicenseDeriver;
use normcore::LinkRole;
use normcore::LinkSet;
use normcore::Modality;
use normcore::ModalityDetector;
use normcore::Provenance;
use normcore::Scope;
use normcore::Source;
use normcore::Statement;
use normcore::StatementExtractor;
use normcore::StatementGroundLink;
use normcore::Status;
use normcore::ToolResultSpeechAct;
use normcore::split_sentences;
use normcore::stable_id_fragment;

fn node(id: &str, scope: Scope, strength: &str) -> KnowledgeNode {
    KnowledgeNode::new(
        id.to_string(),
        Source::Observed,
        Status::Confirmed,
        1000,
        scope,
        strength.to_string(),
        Some(format!("sem_{id}")),
    )
    .expect("must create node")
}

fn statement(modality: Option<Modality>, conditions: Vec<String>) -> Statement {
    Statement {
        id: "s1".to_string(),
        subject: "agent".to_string(),
        predicate: "participation".to_string(),
        raw_text: "text".to_string(),
        modality,
        conditions,
    }
}

fn link(ground_id: &str, role: LinkRole) -> StatementGroundLink {
    StatementGroundLink {
        statement_id: "s1".to_string(),
        ground_id: ground_id.to_string(),
        role,
        provenance: Provenance {
            creator: CreatorType::Human,
            evidence_type: EvidenceType::Explicit,
            evidence_content: None,
            signature: None,
        },
    }
}

fn tool_result(name: &str, call_id: Option<&str>, text: &str) -> ToolResultSpeechAct {
    ToolResultSpeechAct {
        tool_name: name.to_string(),
        tool_call_id: call_id.map(|c| c.to_string()),
        arguments: Vec::new(),
        result_text: text.to_string(),
    }
}

#[test]
fn extractor_protocol_only_returns_empty() {
    let ex = StatementExtractor;
    assert!(ex.extract("Hello! How can I help you today?").is_empty());
}

#[test]
fn detector_goal_conditional_over_recommendation() {
    let d = ModalityDetector;
    assert_eq!(d.detect("If your goal is speed, X is better."), Modality::Conditional);
}

#[test]
fn axiom_assertive_without_license_violates_a5() {
    let checker = AxiomChecker;
    let st = statement(Some(Modality::Assertive), vec![]);
    let license = License { permitted_modalities: vec![Modality::Refusal] };
    let result = checker.check(&st, &license, &GroundSet { nodes: vec![] }, "goal");
    assert_eq!(result.status, EvaluationStatus::ViolatesNorm);
    assert_eq!(result.violated_axiom, Some("A5".to_string()));
}

#[test]
fn license_with_links_strong_supports_assertive() {
    let deriver = LicenseDeriver;
    let ground_set = GroundSet { nodes: vec![node("n1", Scope::Factual, "strong")] };
    let license = deriver.derive(&ground_set, Some(&LinkSet { links: vec![link("n1", LinkRole::Supports)] }));
    assert!(license.permits(Modality::Assertive));
}

#[test]
fn knowledge_builder_extracts_semantic_id() {
    let builder = KnowledgeStateBuilder;
    let result = tool_result("get_issue", None, "{\"issue_id\":\"123\"}");
    let node = builder.tool_result_to_knowledge(&result).expect("must produce node");
    assert_eq!(node[0].semantic_id, Some("issue_123".to_string()));
}

#[test]
fn materialize_external_grounds_injects_missing() {
    let builder = KnowledgeStateBuilder;
    let initial = vec![node("tool_weather", Scope::Factual, "strong")];
    let grounds = vec![Ground {
        citation_key: "file_hist".to_string(),
        ground_id: "archive_nyc_weather_2025-02-07".to_string(),
        role: LinkRole::Supports,
        creator: CreatorType::UpstreamPipeline,
        evidence_type: EvidenceType::Observation,
        evidence_content: None,
        signature: None,
    }];
    let out = builder.materialize_external_grounds(&initial, &grounds);
    assert!(out.iter().any(|node| node.id == "archive_nyc_weather_2025-02-07"));
}

#[test]
fn materialize_skips_known_ids() {
    let builder = KnowledgeStateBuilder;
    let initial = vec![node("n1", Scope::Factual, "strong")];
    let mut g = Ground {
        citation_key: "k".to_string(),
        ground_id: "sem_n1".to_string(),
        role: LinkRole::Supports,
        creator: CreatorType::UpstreamPipeline,
        evidence_type: EvidenceType::Observation,
        evidence_content: None,
        signature: None,
    };
    assert_eq!(builder.materialize_external_grounds(&initial, &[g.clone()]).len(), 1);
    g.ground_id = "n1".to_string();
    assert_eq!(builder.materialize_external_grounds(&initial, &[g.clone()]).len(), 1);
    g.ground_id = "new".to_string();
    let out = builder.materialize_external_grounds(&initial, &[g]);
    assert_eq!(out.len(), 2);
    assert_eq!(out[1].confidence, 1000);
    assert_eq!(out[1].strength, "strong");
    assert_eq!(out[1].semantic_id.as_deref(), Some("new"));
}

#[test]
fn knowledge_node_rejects_invalid_values() {
    assert!(KnowledgeNode::new("a".into(), Source::Observed, Status::Confirmed, 1001, Scope::Factual, "strong".into(), None).is_err());
    assert!(KnowledgeNode::new("a".into(), Source::Observed, Status::Confirmed, 500, Scope::Factual, "medium".into(), None).is_err());
    assert!(KnowledgeNode::new("a".into(), Source::Inferred, Status::Candidate, 0, Scope::Contextual, "weak".into(), None).is_ok());
}

#[test]
fn detector_classifies_each_rule() {
    let d = ModalityDetector;
    assert_eq!(d.detect("I cannot determine which is better."), Modality::Refusal);
    assert_eq!(d.detect("This plan works for you."), Modality::Conditional);
    assert_eq!(d.detect("Option A is better overall."), Modality::Assertive);
    assert_eq!(d.detect("It depends on the budget"), Modality::Conditional);
    assert_eq!(d.detect("The ticket has status done"), Modality::Descriptive);
    assert_eq!(d.detect("The ticket has status done and you should close it"), Modality::Assertive);
    assert_eq!(d.detect("YOU SHOULD DEPLOY"), Modality::Assertive);
    assert_eq!(d.detect("PLEASE CLARIFY the scope"), Modality::Refusal);
}

#[test]
fn detector_uses_core_assertion_only() {
    let d = ModalityDetector;
    assert_eq!(d.detect("Deploy today. If it fails, roll back."), Modality::Assertive);
    assert_eq!(d.detect("Deploy today\n\nIf it fails, roll back."), Modality::Assertive);
}

#[test]
fn conditions_are_extracted() {
    let d = ModalityDetector;
    assert_eq!(d.extract_conditions("If the build is green, ship it."), vec!["the build is green"]);
    assert_eq!(d.extract_conditions("Ship it unless tests fail; then wait."), vec!["NOT tests fail"]);
    assert_eq!(d.extract_conditions("Given your budget, pick B"), vec!["given your budget"]);
    assert_eq!(d.extract_conditions("This might work"), vec!["unspecified"]);
    assert_eq!(d.extract_conditions("Pick B for you"), vec!["for you"]);
}

#[test]
fn detect_with_conditions_fills_statement() {
    let d = ModalityDetector;
    let mut st = statement(None, vec![]);
    st.raw_text = "If it rains, take a coat.".to_string();
    d.detect_with_conditions(&mut st);
    assert_eq!(st.modality, Some(Modality::Conditional));
    assert_eq!(st.conditions, vec!["it rains"]);
}

#[test]
fn extractor_strips_greeting_and_offers() {
    let ex = StatementExtractor;
    let out = ex.extract("Hello! You should deploy now. Let me know if you need anything else.");
    assert_eq!(out.len(), 1);
    assert_eq!(out[0].raw_text, "You should deploy now");
    assert_eq!(out[0].id, "final_response");
    assert_eq!(out[0].subject, "agent");
    assert_eq!(out[0].predicate, "participation");
    assert!(ex.extract("   ").is_empty());
    assert!(ex.extract("The sky is blue.").is_empty());
}

#[test]
fn extractor_drops_bare_question() {
    let ex = StatementExtractor;
    assert!(ex.extract("Is this blocking anything?").is_empty());
    assert_eq!(ex.extract("Should we deploy?").len(), 1);
}

#[test]
fn sentences_keep_delimiters() {
    assert_eq!(split_sentences("One. Two!  Three? four"), vec!["One.", "Two!", "Three?", "four"]);
    assert!(split_sentences("  ").is_empty());
}

#[test]
fn matcher_selects_by_modality() {
    let m = GroundSetMatcher;
    let nodes = vec![node("f", Scope::Factual, "strong"), node("c", Scope::Contextual, "weak")];
    assert_eq!(m.match_nodes(&statement(Some(Modality::Descriptive), vec![]), &nodes).nodes.len(), 1);
    assert_eq!(m.match_nodes(&statement(Some(Modality::Assertive), vec![]), &nodes).nodes.len(), 2);
    assert_eq!(m.match_nodes(&statement(Some(Modality::Refusal), vec![]), &nodes).nodes.len(), 0);
    assert_eq!(m.match_nodes(&statement(None, vec![]), &nodes).nodes.len(), 0);
}

#[test]
fn conservative_license_levels() {
    let deriver = LicenseDeriver;
    let empty = deriver.derive(&GroundSet { nodes: vec![] }, None);
    assert_eq!(empty.permitted_modalities, vec![Modality::Refusal]);
    let contextual = deriver.derive(&GroundSet { nodes: vec![node("c", Scope::Contextual, "strong")] }, None);
    assert_eq!(contextual.permitted_modalities, vec![Modality::Refusal]);
    let weak = deriver.derive(&GroundSet { nodes: vec![node("w", Scope::Factual, "weak")] }, None);
    assert_eq!(weak.permitted_modalities, vec![Modality::Conditional, Modality::Refusal]);
    let strong = deriver.derive(&GroundSet { nodes: vec![node("w", Scope::Factual, "weak"), node("s", Scope::Factual, "strong")] }, None);
    assert_eq!(strong.permitted_modalities, vec![Modality::Assertive, Modality::Conditional, Modality::Refusal]);
}

#[test]
fn linked_license_needs_supporting_factual_citation() {
    let deriver = LicenseDeriver;
    let gs = GroundSet { nodes: vec![node("n1", Scope::Factual, "strong"), node("n2", Scope::Factual, "weak")] };
    let none = deriver.derive(&gs, Some(&LinkSet { links: vec![] }));
    assert_eq!(none.permitted_modalities, vec![Modality::Refusal]);
    let ctx = deriver.derive(&gs, Some(&LinkSet { links: vec![link("n1", LinkRole::Contextualizes)] }));
    assert_eq!(ctx.permitted_modalities, vec![Modality::Refusal]);
    let weak = deriver.derive(&gs, Some(&LinkSet { links: vec![link("sem_n2", LinkRole::Supports)] }));
    assert_eq!(weak.permitted_modalities, vec![Modality::Conditional, Modality::Refusal]);
    let unknown = deriver.derive(&gs, Some(&LinkSet { links: vec![link("zzz", LinkRole::Supports)] }));
    assert_eq!(unknown.permitted_modalities, vec![Modality::Refusal]);
}

#[test]
fn derive_with_trace_reports_mode() {
    let deriver = LicenseDeriver;
    let gs = GroundSet { nodes: vec![node("n1", Scope::Factual, "strong")] };
    let (license, trace) = deriver.derive_with_trace(&gs, None);
    assert!(license.permits(Modality::Assertive));
    assert!(matches!(trace.get("mode"), Some(normcore::JsonValue::String(s)) if s == "conservative"));
    assert!(matches!(trace.get("ground_set_size"), Some(normcore::JsonValue::Number(s)) if s == "1"));
    let (_, trace) = deriver.derive_with_trace(&gs, Some(&LinkSet { links: vec![link("n1", LinkRole::Supports)] }));
    assert!(matches!(trace.get("supports_links_count"), Some(normcore::JsonValue::Number(s)) if s == "1"));
}

#[test]
fn axiom_rules_in_order() {
    let checker = AxiomChecker;
    let full = License { permitted_modalities: vec![Modality::Assertive, Modality::Conditional, Modality::Refusal] };
    let hedged = License { permitted_modalities: vec![Modality::Conditional, Modality::Refusal] };
    let empty = GroundSet { nodes: vec![] };
    let grounded = GroundSet { nodes: vec![node("n", Scope::Factual, "strong")] };
    let r = checker.check(&statement(Some(Modality::Refusal), vec![]), &hedged, &empty, "g");
    assert_eq!(r.status, EvaluationStatus::Acceptable);
    assert_eq!(r.violated_axiom, None);
    let r = checker.check(&statement(Some(Modality::Conditional), vec![]), &full, &empty, "g");
    assert_eq!(r.status, EvaluationStatus::ConditionallyAcceptable);
    let r = checker.check(&statement(Some(Modality::Conditional), vec!["x".to_string()]), &hedged, &empty, "g");
    assert_eq!(r.status, EvaluationStatus::ConditionallyAcceptable);
    assert_eq!(r.explanation, "Conditional statement with declared conditions: [\"x\"]");
    let r = checker.check(&statement(Some(Modality::Conditional), vec![]), &hedged, &empty, "g");
    assert_eq!(r.violated_axiom.as_deref(), Some("A7"));
    let r = checker.check(&statement(Some(Modality::Assertive), vec![]), &full, &empty, "g");
    assert_eq!(r.violated_axiom.as_deref(), Some("A4"));
    let r = checker.check(&statement(Some(Modality::Assertive), vec![]), &full, &grounded, "g");
    assert_eq!(r.status, EvaluationStatus::Acceptable);
    assert_eq!(r.explanation, "Statement modality (assertive) permitted by license");
    let r = checker.check(&statement(Some(Modality::Descriptive), vec![]), &hedged, &empty, "g");
    assert_eq!(r.violated_axiom.as_deref(), Some("A4"));
    let r = checker.check(&statement(Some(Modality::Descriptive), vec![]), &hedged, &grounded, "g");
    assert_eq!(r.status, EvaluationStatus::Acceptable);
    let r = checker.check(&statement(None, vec![]), &full, &grounded, "g");
    assert_eq!(r.status, EvaluationStatus::Underdetermined);
}

#[test]
fn stable_ids_are_fnv1a_prefixes() {
    assert_eq!(stable_id_fragment(""), "cbf29ce484");
    assert_eq!(stable_id_fragment("a"), "af63dc4c86");
    let builder = KnowledgeStateBuilder;
    let nodes = builder.tool_result_to_knowledge(&tool_result("get_issue", None, "{\"issue_id\":\"123\"}")).unwrap();
    assert_eq!(nodes[0].id, "tool_get_issue_e40342eb4b");
}

#[test]
fn array_results_give_one_node_per_item() {
    let builder = KnowledgeStateBuilder;
    let text = r#"[{"issue_id":"123","title":"x"},{"name":"none"},{"b_key":"k","a_id":"i"}]"#;
    let nodes = builder.tool_result_to_knowledge(&tool_result("get_issue", Some("c1"), text)).unwrap();
    assert_eq!(nodes.len(), 2);
    assert_eq!(nodes[0].id, "tool_get_issue_item0_3ae91354bb");
    assert_eq!(nodes[0].semantic_id.as_deref(), Some("issue_123"));
    assert_eq!(nodes[1].semantic_id.as_deref(), Some("b_k"));
}

#[test]
fn opaque_results_give_one_node() {
    let builder = KnowledgeStateBuilder;
    let nodes = builder.tool_result_to_knowledge(&tool_result("", None, "plain text")).unwrap();
    assert_eq!(nodes.len(), 1);
    assert!(nodes[0].id.starts_with("tool_unknown_"));
    assert_eq!(nodes[0].semantic_id, None);
    assert_eq!(nodes[0].scope, Scope::Factual);
}

#[test]
fn personalization_tools_are_skipped() {
    let builder = KnowledgeStateBuilder;
    for name in ["save_memory", "Update_Profile", "user_preferences", "get_user_cognitive_context", "personal_context_fetch"] {
        assert!(builder.is_non_epistemic_tool(name), "{name}");
        assert!(builder.tool_result_to_knowledge(&tool_result(name, None, "{}")).is_none());
    }
    for name in ["memory_search", "get_weather", "profile_view"] {
        assert!(!builder.is_non_epistemic_tool(name), "{name}");
    }
}

#[test]
fn references_record_ids_per_call() {
    let builder = KnowledgeStateBuilder;
    let results = vec![
        tool_result("get_issue", Some("c2"), "{\"issue_id\":\"1\"}"),
        tool_result("get_issue", Some("c1"), "opaque"),
        tool_result("save_memory", Some("c3"), "x"),
    ];
    let (nodes, refs) = builder.build_with_references(&results);
    assert_eq!(nodes.len(), 2);
    assert_eq!(refs.len(), 2);
    assert_eq!(refs[0].0, "c1");
    assert_eq!(refs[0].1, vec![nodes[1].id.clone()]);
    assert_eq!(refs[1].0, "c2");
    assert_eq!(refs[1].1, vec!["issue_1".to_string()]);
    assert_eq!(builder.build(&results).len(), 2);
}

#[test]
fn offer_stripping_stops_after_five_passes() {
    let ex = StatementExtractor;
    let text = "You should go. I can help. I can help. I can help. I can help. I can help. I can help.";
    assert_eq!(ex.strip_protocol_suffix(text), "You should go. I can help");
    let out = ex.extract(text);
    assert_eq!(out[0].raw_text, "You should go. I can help");
    assert_eq!(ex.strip_protocol_suffix("You should go. Would you like more?"), "You should go");
}

#[test]
fn framing_sentences_are_dropped_until_content() {
    let ex = StatementExtractor;
    assert_eq!(
        ex.strip_protocol_prefix_sentences("Thanks for asking. Nice day. You must rest. Bye?"),
        "Nice day. You must rest. Bye?"
    );
    assert_eq!(ex.strip_protocol_prefix_sentences(""), "");
}

#[test]
fn core_assertion_is_the_first_sentence() {
    let d = ModalityDetector;
    assert_eq!(d.detect("The build has status green. You should deploy\n\nThanks."), Modality::Descriptive);
}

#[test]
fn repeated_new_ground_ids_add_one_node() {
    let builder = KnowledgeStateBuilder;
    let g = Ground {
        citation_key: "k".to_string(),
        ground_id: "fresh".to_string(),
        role: LinkRole::Supports,
        creator: CreatorType::UpstreamPipeline,
        evidence_type: EvidenceType::Observation,
        evidence_content: None,
        signature: None,
    };
    let mut other = g.clone();
    other.citation_key = "k2".to_string();
    let out = builder.materialize_external_grounds(&[], &[g.clone(), other, g]);
    assert_eq!(out.len(), 1);
    assert_eq!(out[0].id, "fresh");
}
