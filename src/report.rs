//! The judgment as a JSON value: every documented field present, absent
//! optional values as explicit nulls, keys in sorted order.
use vstd::prelude::*;
use vstd::string::StringExecFns;
use crate::json::JsonValue;
use crate::json::decimal;
use crate::json::decimal_string;
use crate::json::keys_sorted;
use crate::json::text_lt;
use crate::knowledge::opt_view;
use crate::models::AdmissibilityJudgment;
use crate::models::GroundRef;
use crate::models::StatementEvaluation;
use crate::models::status_name;
use crate::text::push_char;
use crate::text::views;

verus! {

/// The JSON form of an optional string: the string, or null.
pub open spec fn is_opt_string(v: JsonValue, o: Option<String>) -> bool {
    match o {
        Some(s) => v matches JsonValue::String(t) && t@ == s@,
        None => v is Null,
    }
}

/// The JSON form of a string.
pub open spec fn is_string(v: JsonValue, s: Seq<char>) -> bool {
    v matches JsonValue::String(t) && t@ == s
}

/// The JSON form of a count.
pub open spec fn is_count(v: JsonValue, n: nat) -> bool {
    v matches JsonValue::Number(t) && t@ == decimal(n)
}

/// The JSON form of a list of strings.
pub open spec fn is_string_list(v: JsonValue, ss: Seq<Seq<char>>) -> bool {
    v matches JsonValue::Array(a) && a@.len() == ss.len() && forall|i: int| 0 <= i < ss.len() ==> is_string(#[trigger] a@[i], ss[i])
}

/// A confidence in thousandths as a decimal number, without trailing zeros.
pub open spec fn confidence_text(c: nat) -> Seq<char> {
    let f = c % 1000;
    if f == 0 {
        decimal(c / 1000)
    } else if f % 100 == 0 {
        decimal(c / 1000) + "."@ + decimal(f / 100)
    } else if f % 10 == 0 {
        decimal(c / 1000) + "."@ + decimal(f / 100) + decimal((f / 10) % 10)
    } else {
        decimal(c / 1000) + "."@ + decimal(f / 100) + decimal((f / 10) % 10) + decimal(f % 10)
    }
}

fn confidence_string(c: u32) -> (r: String)
    ensures
        r@ == confidence_text(c as nat),
{
    let f = c % 1000;
    let mut out = decimal_string((c / 1000) as usize);
    if f == 0 {
        return out;
    }
    out.append(".");
    out.append(decimal_string((f / 100) as usize).as_str());
    if f % 100 == 0 {
        return out;
    }
    out.append(decimal_string(((f / 10) % 10) as usize).as_str());
    if f % 10 == 0 {
        return out;
    }
    out.append(decimal_string((f % 10) as usize).as_str());
    out
}

fn opt_string_value(o: &Option<String>) -> (r: JsonValue)
    ensures
        is_opt_string(r, *o),
{
    match o {
        Some(s) => JsonValue::String(s.clone()),
        None => JsonValue::Null,
    }
}

fn string_list_value(v: &Vec<String>) -> (r: JsonValue)
    ensures
        is_string_list(r, views(v@)),
{
    let mut out: Vec<JsonValue> = Vec::new();
    let mut i: usize = 0;
    while i < v.len()
        invariant
            i <= v@.len(),
            out@.len() == i,
            forall|k: int| 0 <= k < i ==> is_string(#[trigger] out@[k], v@[k]@),
        decreases v@.len() - i,
    {
        out.push(JsonValue::String(v[i].clone()));
        i = i + 1;
    }
    JsonValue::Array(out)
}

fn entry(key: &str, value: JsonValue) -> (r: (String, JsonValue))
    ensures
        r.0@ == key@,
        r.1 == value,
{
    (String::from_str(key), value)
}

/// The JSON form of a grounding record.
pub open spec fn ground_ref_json(v: JsonValue, g: GroundRef) -> bool {
    v matches JsonValue::Object(es) && {
        &&& es@.len() == 7
        &&& es@[0].0@ == "confidence"@
        &&& (es@[0].1 matches JsonValue::Number(t) && t@ == confidence_text(g.confidence as nat))
        &&& es@[1].0@ == "id"@ && is_string(es@[1].1, g.id@)
        &&& es@[2].0@ == "scope"@ && is_string(es@[2].1, g.scope@)
        &&& es@[3].0@ == "semantic_id"@ && is_opt_string(es@[3].1, g.semantic_id)
        &&& es@[4].0@ == "source"@ && is_string(es@[4].1, g.source@)
        &&& es@[5].0@ == "status"@ && is_string(es@[5].1, g.status@)
        &&& es@[6].0@ == "strength"@ && is_string(es@[6].1, g.strength@)
    }
}

/// The JSON form of a grounding record.
pub fn ground_ref_to_json(value: &GroundRef) -> (r: JsonValue)
    ensures
        ground_ref_json(r, *value),
{
    let mut obj: Vec<(String, JsonValue)> = Vec::new();
    obj.push(entry("confidence", JsonValue::Number(confidence_string(value.confidence))));
    obj.push(entry("id", JsonValue::String(value.id.clone())));
    obj.push(entry("scope", JsonValue::String(value.scope.clone())));
    obj.push(entry("semantic_id", opt_string_value(&value.semantic_id)));
    obj.push(entry("source", JsonValue::String(value.source.clone())));
    obj.push(entry("status", JsonValue::String(value.status.clone())));
    obj.push(entry("strength", JsonValue::String(value.strength.clone())));
    JsonValue::Object(obj)
}

/// The JSON form of a statement evaluation.
pub open spec fn statement_eval_json(v: JsonValue, e: StatementEvaluation) -> bool {
    v matches JsonValue::Object(es) && {
        &&& es@.len() == 10
        &&& es@[0].0@ == "explanation"@ && is_string(es@[0].1, e.explanation@)
        &&& es@[1].0@ == "grounding_trace"@
        &&& (es@[1].1 matches JsonValue::Array(a) && a@.len() == e.grounding_trace@.len()
            && forall|i: int| 0 <= i < a@.len() ==> ground_ref_json(#[trigger] a@[i], e.grounding_trace@[i]))
        &&& es@[2].0@ == "license"@ && is_string_list(es@[2].1, views(e.license@))
        &&& es@[3].0@ == "modality"@ && is_string(es@[3].1, e.modality@)
        &&& es@[4].0@ == "predicate"@ && is_opt_string(es@[4].1, e.predicate)
        &&& es@[5].0@ == "statement"@ && is_string(es@[5].1, e.statement@)
        &&& es@[6].0@ == "statement_id"@ && is_string(es@[6].1, e.statement_id@)
        &&& es@[7].0@ == "status"@ && is_string(es@[7].1, status_name(e.status))
        &&& es@[8].0@ == "subject"@ && is_opt_string(es@[8].1, e.subject)
        &&& es@[9].0@ == "violated_axiom"@ && is_opt_string(es@[9].1, e.violated_axiom)
    }
}

/// The JSON form of a statement evaluation.
pub fn statement_eval_to_json(value: &StatementEvaluation) -> (r: JsonValue)
    ensures
        statement_eval_json(r, *value),
{
    let mut trace: Vec<JsonValue> = Vec::new();
    let mut i: usize = 0;
    while i < value.grounding_trace.len()
        invariant
            i <= value.grounding_trace@.len(),
            trace@.len() == i,
            forall|k: int| 0 <= k < i ==> ground_ref_json(#[trigger] trace@[k], value.grounding_trace@[k]),
        decreases value.grounding_trace@.len() - i,
    {
        trace.push(ground_ref_to_json(&value.grounding_trace[i]));
        i = i + 1;
    }
    let mut obj: Vec<(String, JsonValue)> = Vec::new();
    obj.push(entry("explanation", JsonValue::String(value.explanation.clone())));
    obj.push(entry("grounding_trace", JsonValue::Array(trace)));
    obj.push(entry("license", string_list_value(&value.license)));
    obj.push(entry("modality", JsonValue::String(value.modality.clone())));
    obj.push(entry("predicate", opt_string_value(&value.predicate)));
    obj.push(entry("statement", JsonValue::String(value.statement.clone())));
    obj.push(entry("statement_id", JsonValue::String(value.statement_id.clone())));
    obj.push(entry("status", JsonValue::String(String::from_str(value.status.as_str()))));
    obj.push(entry("subject", opt_string_value(&value.subject)));
    obj.push(entry("violated_axiom", opt_string_value(&value.violated_axiom)));
    JsonValue::Object(obj)
}

/// The JSON form of a judgment: its eleven documented fields, in sorted
/// order, a missing feedback hint as null.
pub open spec fn judgment_json(v: JsonValue, j: AdmissibilityJudgment) -> bool {
    v matches JsonValue::Object(es) && {
        &&& es@.len() == 11
        &&& es@[0].0@ == "can_retry"@ && es@[0].1 == JsonValue::Bool(j.can_retry)
        &&& es@[1].0@ == "explanation"@ && is_string(es@[1].1, j.explanation@)
        &&& es@[2].0@ == "feedback_hint"@ && is_opt_string(es@[2].1, j.feedback_hint)
        &&& es@[3].0@ == "grounds_accepted"@ && is_count(es@[3].1, j.grounds_accepted as nat)
        &&& es@[4].0@ == "grounds_cited"@ && is_count(es@[4].1, j.grounds_cited as nat)
        &&& es@[5].0@ == "licensed"@ && es@[5].1 == JsonValue::Bool(j.licensed)
        &&& es@[6].0@ == "num_acceptable"@ && is_count(es@[6].1, j.num_acceptable as nat)
        &&& es@[7].0@ == "num_statements"@ && is_count(es@[7].1, j.num_statements as nat)
        &&& es@[8].0@ == "statement_evaluations"@
        &&& (es@[8].1 matches JsonValue::Array(a) && a@.len() == j.statement_evaluations@.len()
            && forall|i: int| 0 <= i < a@.len() ==> statement_eval_json(#[trigger] a@[i], j.statement_evaluations@[i]))
        &&& es@[9].0@ == "status"@ && is_string(es@[9].1, status_name(j.status))
        &&& es@[10].0@ == "violated_axioms"@ && is_string_list(es@[10].1, views(j.violated_axioms@))
    }
}

impl AdmissibilityJudgment {
    /// The judgment as a JSON object.
    pub fn to_json_value(&self) -> (r: JsonValue)
        ensures
            judgment_json(r, *self),
    {
        let mut evals: Vec<JsonValue> = Vec::new();
        let mut i: usize = 0;
        while i < self.statement_evaluations.len()
            invariant
                i <= self.statement_evaluations@.len(),
                evals@.len() == i,
                forall|k: int| 0 <= k < i ==> statement_eval_json(#[trigger] evals@[k], self.statement_evaluations@[k]),
            decreases self.statement_evaluations@.len() - i,
        {
            evals.push(statement_eval_to_json(&self.statement_evaluations[i]));
            i = i + 1;
        }
        let mut obj: Vec<(String, JsonValue)> = Vec::new();
        obj.push(entry("can_retry", JsonValue::Bool(self.can_retry)));
        obj.push(entry("explanation", JsonValue::String(self.explanation.clone())));
        obj.push(entry("feedback_hint", opt_string_value(&self.feedback_hint)));
        obj.push(entry("grounds_accepted", JsonValue::Number(decimal_string(self.grounds_accepted))));
        obj.push(entry("grounds_cited", JsonValue::Number(decimal_string(self.grounds_cited))));
        obj.push(entry("licensed", JsonValue::Bool(self.licensed)));
        obj.push(entry("num_acceptable", JsonValue::Number(decimal_string(self.num_acceptable))));
        obj.push(entry("num_statements", JsonValue::Number(decimal_string(self.num_statements))));
        obj.push(entry("statement_evaluations", JsonValue::Array(evals)));
        obj.push(entry("status", JsonValue::String(String::from_str(self.status.as_str()))));
        obj.push(entry("violated_axioms", string_list_value(&self.violated_axioms)));
        JsonValue::Object(obj)
    }
}

} // verus!
