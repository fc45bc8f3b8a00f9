use normcore::CreatorType;
use normcore::EvidenceType;
use normcore::Ground;
use normcore::JsonValue;
use normcore::LinkRole;
use normcore::build_links_from_grounds;
use normcore::coerce_grounds_input;
use normcore::extract_citation_keys;
use normcore::grounds_from_openai_citations;
use normcore::grounds_from_tool_call_refs;
use normcore::is_valid_citation_key;
use normcore::link_set_from_openai_citations;
use normcore::parse_grounds;
use normcore::parse_json;
use normcore::parse_openai_citations;

fn ground(key: &str, id: &str) -> Ground {
    Ground {
        citation_key: key.to_string(),
        ground_id: id.to_string(),
        role: LinkRole::Supports,
        creator: CreatorType::UpstreamPipeline,
        evidence_type: EvidenceType::Observation,
        evidence_content: None,
        signature: None,
    }
}

fn array(text: &str) -> Vec<JsonValue> {
    match parse_json(text).expect("json parses") {
        JsonValue::Array(arr) => arr,
        _ => panic!("array expected"),
    }
}

#[test]
fn extract_citation_keys_preserves_order() {
    let text = "First [@toolCall1], again [@toolCall1], then [@DocX].";
    assert_eq!(extract_citation_keys(text), vec!["toolCall1", "DocX"]);
}

#[test]
fn build_links_only_for_cited_keys() {
    let grounds = vec![ground("toolCall1", "issue_AGENT-8"), ground("DocX", "file_123")];
    let links = build_links_from_grounds("Need action [@toolCall1], nothing else.", &grounds, "final_response");
    assert_eq!(links.links.len(), 1);
    assert_eq!(links.links[0].ground_id, "issue_AGENT-8");
}

#[test]
fn parse_openai_citations_validates_payload() {
    let arr = array(r#"[{"type":"file_citation","file_id":"file_1","filename":"a","index":0}]"#);
    let out = parse_openai_citations(&arr);
    assert_eq!(out.len(), 1);
}

#[test]
fn citation_keys_dedup_first_occurrence() {
    assert_eq!(extract_citation_keys("[@K1] ... [@K1] ... [@K2]"), vec!["K1", "K2"]);
}

#[test]
fn citation_keys_skip_invalid_and_empty() {
    assert_eq!(extract_citation_keys("[@] [@1abc] [@ok-key_2] [@bad key] [@z]"), vec!["ok-key_2", "z"]);
    assert_eq!(extract_citation_keys(""), Vec::<String>::new());
    assert_eq!(extract_citation_keys("[@unclosed"), Vec::<String>::new());
    assert_eq!(extract_citation_keys("[@a [@b]"), Vec::<String>::new());
}

#[test]
fn citation_key_validity() {
    assert!(is_valid_citation_key("a"));
    assert!(is_valid_citation_key("Abc-1_2"));
    assert!(!is_valid_citation_key(""));
    assert!(!is_valid_citation_key("1a"));
    assert!(!is_valid_citation_key("a b"));
    assert!(!is_valid_citation_key("é"));
}

#[test]
fn unknown_key_contributes_no_links() {
    let grounds = vec![ground("DocX", "file_123")];
    let links = build_links_from_grounds("See [@Other].", &grounds, "s1");
    assert!(links.links.is_empty());
}

#[test]
fn links_follow_key_order_and_default_evidence() {
    let mut g2 = ground("A", "id_a2");
    g2.evidence_content = Some("given".to_string());
    let grounds = vec![ground("B", "id_b"), ground("A", "id_a1"), g2];
    let links = build_links_from_grounds("[@A] then [@B]", &grounds, "s1");
    let ids: Vec<&str> = links.links.iter().map(|l| l.ground_id.as_str()).collect();
    assert_eq!(ids, vec!["id_a1", "id_a2", "id_b"]);
    assert_eq!(links.links[0].provenance.evidence_content.as_deref(), Some("citation_key=A"));
    assert_eq!(links.links[1].provenance.evidence_content.as_deref(), Some("given"));
    assert_eq!(links.links[0].statement_id, "s1");
}

#[test]
fn tool_call_refs_become_grounds() {
    let refs = vec![("call1".to_string(), vec!["x".to_string(), "y".to_string()])];
    let grounds = grounds_from_tool_call_refs(&refs);
    assert_eq!(grounds.len(), 2);
    assert_eq!(grounds[0].citation_key, "call1");
    assert_eq!(grounds[1].ground_id, "y");
    assert_eq!(grounds[0].creator, CreatorType::ToolObserver);
    assert_eq!(grounds[0].evidence_content.as_deref(), Some("tool_call_id=call1"));
}

#[test]
fn explicit_grounds_drop_malformed_entries() {
    let arr = array(r#"[{"citation_key":"k","ground_id":"g","signature":"s"},{"citation_key":"x"},3]"#);
    let grounds = parse_grounds(&arr);
    assert_eq!(grounds.len(), 1);
    assert_eq!(grounds[0].ground_id, "g");
    assert_eq!(grounds[0].signature.as_deref(), Some("s"));
    assert_eq!(grounds[0].evidence_content, None);
}

#[test]
fn typed_citations_kinds() {
    let arr = array(
        r#"[{"type":"url_citation","url":"https://e.x"},{"type":"file_path"},{"type":"other","file_id":"f"},{"type":"container_file_citation","file_id":"c1"}]"#,
    );
    assert_eq!(parse_openai_citations(&arr).len(), 2);
    let grounds = grounds_from_openai_citations(&arr);
    assert_eq!(grounds.len(), 2);
    assert_eq!(grounds[0].ground_id, "https://e.x");
    assert_eq!(grounds[1].citation_key, "c1");
    assert_eq!(grounds[1].evidence_content.as_deref(), Some("openai_citation"));
    let links = link_set_from_openai_citations(&arr, "s");
    assert_eq!(links.links.len(), 2);
    assert_eq!(links.links[1].provenance.evidence_content.as_deref(), Some("openai_citation[3]"));
}

#[test]
fn coerce_prefers_explicit_grounds() {
    let explicit = array(r#"[{"citation_key":"k","ground_id":"g"},{"type":"url_citation","url":"u"}]"#);
    let typed = array(r#"[{"type":"url_citation","url":"u"}]"#);
    assert_eq!(coerce_grounds_input(Some(&explicit), None, None).len(), 1);
    let out = coerce_grounds_input(Some(&typed), Some(&typed), None);
    assert_eq!(out.len(), 2);
    assert_eq!(out[0].ground_id, "u");
    assert!(coerce_grounds_input(None, None, None).is_empty());
}

#[test]
fn link_roles_by_name() {
    assert_eq!(LinkRole::from_name("supports"), Some(LinkRole::Supports));
    assert_eq!(LinkRole::from_name("contextualizes"), Some(LinkRole::Contextualizes));
    assert_eq!(LinkRole::from_name("refutes"), None);
    assert_eq!(LinkRole::Disambiguates.as_str(), "disambiguates");
    assert_eq!(CreatorType::AgentDeclaration.as_str(), "agent_declaration");
    assert_eq!(EvidenceType::Structure.as_str(), "structural");
}
