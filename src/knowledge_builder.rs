//! Knowledge nodes from tool results and from externally supplied grounds.
use vstd::prelude::*;
use vstd::string::StringExecFns;
use vstd::string::StringSliceAdditionalSpecFns;
use vstd::utf8::encode_utf8;
use crate::json::JsonValue;
use crate::json::decimal;
use crate::json::decimal_string;
use crate::json::hex_char;
use crate::json::keys_sorted;
use crate::json::parse_json;
use crate::json::JsonModel;
use crate::json::model;
use crate::json::read_json;
use crate::json::items_model;
use crate::json::entries_model;
use crate::json::lemma_entries_model;
use crate::json::insert_entry_refs;
use crate::knowledge::CONFIDENCE_SCALE;
use crate::knowledge::KnowledgeNode;
use crate::knowledge::Scope;
use crate::knowledge::Source;
use crate::knowledge::Status;
use crate::knowledge::copy_opt;
use crate::knowledge::opt_view;
use crate::models::Ground;
use crate::models::ToolResultSpeechAct;
use crate::text::chars_of;
use crate::text::contains_any;
use crate::text::contains_vec;
use crate::text::ends;
use crate::text::has_any;
use crate::text::lower_of;
use crate::text::lowercase;
use crate::text::occurs;
use crate::text::trim;
use crate::text::trim_str;
use crate::text::views;

verus! {

pub const FNV_OFFSET: u64 = 0xcbf29ce484222325;

pub const FNV_PRIME: u64 = 0x100000001b3;

/// The 64-bit FNV-1a hash of `b`.
pub open spec fn fnv1a(b: Seq<u8>) -> u64
    decreases b.len(),
{
    if b.len() == 0 {
        FNV_OFFSET
    } else {
        ((((fnv1a(b.drop_last()) ^ (b.last() as u64)) as nat) * (FNV_PRIME as nat)) % 0x1_0000_0000_0000_0000nat) as u64
    }
}

/// The last `n` hexadecimal digits of `v`, most significant first.
pub open spec fn hex_fixed(v: nat, n: nat) -> Seq<char>
    decreases n,
{
    if n == 0 {
        seq![]
    } else {
        hex_fixed(v / 16, (n - 1) as nat).push(hex_char((v % 16) as int))
    }
}

/// The first ten of the sixteen hexadecimal digits of the hash of `s`'s
/// UTF-8 bytes.
pub open spec fn id_fragment(s: Seq<char>) -> Seq<char> {
    hex_fixed(fnv1a(encode_utf8(s)) as nat / 0x1000000, 10)
}

fn hex_fixed_string(v: u64, n: usize) -> (r: String)
    ensures
        r@ == hex_fixed(v as nat, n as nat),
    decreases n,
{
    if n == 0 {
        String::new()
    } else {
        let mut s = hex_fixed_string(v / 16, n - 1);
        let d = crate::json::hex_digit_char((v % 16) as u32);
        crate::text::push_char(&mut s, d);
        s
    }
}

/// The stable id fragment of `value`.
pub fn stable_id_fragment(value: &str) -> (r: String)
    ensures
        r@ == id_fragment(value@),
{
    let bytes = value.as_bytes();
    let mut hash: u64 = FNV_OFFSET;
    let mut i: usize = 0;
    while i < bytes.len()
        invariant
            i <= bytes@.len(),
            bytes@ == value.spec_bytes(),
            hash == fnv1a(bytes@.subrange(0, i as int)),
        decreases bytes@.len() - i,
    {
        proof {
            assert(bytes@.subrange(0, i + 1).drop_last() == bytes@.subrange(0, i as int));
        }
        hash = hash ^ (bytes[i] as u64);
        hash = hash.wrapping_mul(FNV_PRIME);
        i = i + 1;
    }
    assert(bytes@.subrange(0, bytes@.len() as int) == bytes@);
    hex_fixed_string(hash / 0x1000000, 10)
}

/// A node observed through a tool: confirmed, full confidence, factual and
/// strong.
pub open spec fn is_observation(n: KnowledgeNode, id: Seq<char>, sem: Option<Seq<char>>) -> bool {
    &&& n.id@ == id
    &&& n.source == Source::Observed
    &&& n.status == Status::Confirmed
    &&& n.confidence == CONFIDENCE_SCALE
    &&& n.scope == Scope::Factual
    &&& n.strength@ == "strong"@
    &&& opt_view(n.semantic_id) == sem
}

fn observation(id: String, semantic_id: Option<String>) -> (r: KnowledgeNode)
    ensures
        is_observation(r, id@, opt_view(semantic_id)),
        r.wf(),
{
    proof {
        reveal_strlit("strong");
    }
    KnowledgeNode {
        id,
        source: Source::Observed,
        status: Status::Confirmed,
        confidence: CONFIDENCE_SCALE,
        scope: Scope::Factual,
        strength: String::from_str("strong"),
        semantic_id,
    }
}

pub open spec fn memory_actions() -> Seq<&'static str> {
    seq!["save", "note", "notes", "load", "consolidat", "distill", "state"]
}

pub open spec fn profile_actions() -> Seq<&'static str> {
    seq!["save", "set", "update", "load", "consolidat"]
}

pub open spec fn preference_markers() -> Seq<&'static str> {
    seq!["remember", "preference", "preferences", "setting", "settings"]
}

/// A lowercase tool name that marks personalization, memory or profile
/// upkeep rather than evidence.
pub open spec fn non_epistemic(t: Seq<char>) -> bool {
    ||| t == "get_user_cognitive_context"@
    ||| occurs(t, "personalization"@)
    ||| occurs(t, "personal_context"@)
    ||| (occurs(t, "memory"@) && has_any(t, memory_actions()))
    ||| (occurs(t, "profile"@) && has_any(t, profile_actions()))
    ||| has_any(t, preference_markers())
}

/// The entity id from the first entry, in order, whose key ends with
/// `suffix` and whose value is a string: the key without the suffix, `_`,
/// and the value.
pub open spec fn entity_from(es: Seq<(String, JsonValue)>, suffix: Seq<char>, i: int) -> Option<Seq<char>>
    decreases es.len() - i,
{
    if i < 0 || i >= es.len() {
        None
    } else if ends(es[i].0@, suffix) && es[i].0@.len() >= suffix.len() && es[i].1 is String {
        Some(es[i].0@.subrange(0, es[i].0@.len() - suffix.len()) + "_"@ + (es[i].1)->String_0@)
    } else {
        entity_from(es, suffix, i + 1)
    }
}

/// The entity id of an object: by a `_key` field first, else by an `_id` field.
pub open spec fn entity_id(es: Seq<(String, JsonValue)>) -> Option<Seq<char>> {
    if entity_from(es, "_key"@, 0) is Some {
        entity_from(es, "_key"@, 0)
    } else {
        entity_from(es, "_id"@, 0)
    }
}

/// The entity ids of the objects of `items` that have one, in order.
pub open spec fn item_entity_ids(items: Seq<JsonValue>) -> Seq<Seq<char>>
    decreases items.len(),
{
    if items.len() == 0 {
        seq![]
    } else {
        let prev = item_entity_ids(items.drop_last());
        match items.last() {
            JsonValue::Object(m) => match entity_id(m@) {
                Some(e) => prev.push(e),
                None => prev,
            },
            _ => prev,
        }
    }
}

/// The semantic ids found in a tool result.
pub enum SemanticExtract {
    One(String),
    Many(Vec<String>),
}

/// The semantic ids of a parsed tool result: one per identified item of an
/// array, or one for an identified object.
pub open spec fn semantic_matches(v: JsonValue, r: Option<SemanticExtract>) -> bool {
    match v {
        JsonValue::Array(items) => if item_entity_ids(items@).len() == 0 {
            r is None
        } else {
            r matches Some(SemanticExtract::Many(x)) && views(x@) == item_entity_ids(items@)
        },
        JsonValue::Object(m) => match entity_id(m@) {
            Some(e) => r matches Some(SemanticExtract::One(s)) && s@ == e,
            None => r is None,
        },
        _ => r is None,
    }
}

/// Semantic ids as values: one id, or the ids of an array's items.
pub enum SemanticModel {
    One(Seq<char>),
    Many(Seq<Seq<char>>),
}

/// The values of found semantic ids.
pub open spec fn extract_view(e: Option<SemanticExtract>) -> Option<SemanticModel> {
    match e {
        Some(SemanticExtract::One(s)) => Some(SemanticModel::One(s@)),
        Some(SemanticExtract::Many(ids)) => Some(SemanticModel::Many(views(ids@))),
        None => None,
    }
}

/// `entity_from` over the model of an object's entries.
pub open spec fn entity_from_m(es: Seq<(Seq<char>, JsonModel)>, suffix: Seq<char>, i: int) -> Option<Seq<char>>
    decreases es.len() - i,
{
    if i < 0 || i >= es.len() {
        None
    } else if ends(es[i].0, suffix) && es[i].0.len() >= suffix.len() && es[i].1 is Str {
        Some(es[i].0.subrange(0, es[i].0.len() - suffix.len()) + "_"@ + (es[i].1)->Str_0)
    } else {
        entity_from_m(es, suffix, i + 1)
    }
}

/// `entity_id` over the model of an object's entries.
pub open spec fn entity_id_m(es: Seq<(Seq<char>, JsonModel)>) -> Option<Seq<char>> {
    if entity_from_m(es, "_key"@, 0) is Some {
        entity_from_m(es, "_key"@, 0)
    } else {
        entity_from_m(es, "_id"@, 0)
    }
}

/// `item_entity_ids` over the models of an array's items.
pub open spec fn item_entity_ids_m(items: Seq<JsonModel>) -> Seq<Seq<char>>
    decreases items.len(),
{
    if items.len() == 0 {
        seq![]
    } else {
        let prev = item_entity_ids_m(items.drop_last());
        match items.last() {
            JsonModel::Object(m) => match entity_id_m(m) {
                Some(e) => prev.push(e),
                None => prev,
            },
            _ => prev,
        }
    }
}

/// The semantic ids of a JSON value: one per identified item of an array
/// (none when no item is identified), or one for an identified object.
pub open spec fn semantic_of_model(m: JsonModel) -> Option<SemanticModel> {
    match m {
        JsonModel::Array(items) => if item_entity_ids_m(items).len() == 0 {
            None
        } else {
            Some(SemanticModel::Many(item_entity_ids_m(items)))
        },
        JsonModel::Object(es) => match entity_id_m(es) {
            Some(e) => Some(SemanticModel::One(e)),
            None => None,
        },
        _ => None,
    }
}

/// The semantic ids of a tool result's text: none when it is blank or does
/// not read as JSON.
pub open spec fn semantic_of_text(text: Seq<char>) -> Option<SemanticModel> {
    if trim(text).len() == 0 {
        None
    } else {
        match read_json(encode_utf8(text)) {
            Some(m) => semantic_of_model(m),
            None => None,
        }
    }
}

proof fn lemma_entity_from_model(map: Vec<(String, JsonValue)>, suffix: Seq<char>, i: int)
    requires
        0 <= i,
    ensures
        entity_from(map@, suffix, i) == entity_from_m(entries_model(map, map@.len()), suffix, i),
    decreases map@.len() - i,
{
    lemma_entries_model(map, map@.len());
    if i < map@.len() {
        lemma_entity_from_model(map, suffix, i + 1);
        let em = entries_model(map, map@.len());
        assert(em[i] == (map@[i].0@, model(map@[i].1)));
    }
}

proof fn lemma_entity_id_model(map: Vec<(String, JsonValue)>)
    ensures
        entity_id(map@) == entity_id_m(entries_model(map, map@.len())),
{
    lemma_entity_from_model(map, "_key"@, 0);
    lemma_entity_from_model(map, "_id"@, 0);
}

proof fn lemma_item_ids_model(items: Vec<JsonValue>, n: nat)
    requires
        n <= items@.len(),
    ensures
        item_entity_ids(items@.subrange(0, n as int)) == item_entity_ids_m(items_model(items, n)),
    decreases n,
{
    if n > 0 {
        lemma_item_ids_model(items, (n - 1) as nat);
        let sub = items@.subrange(0, n as int);
        assert(sub.drop_last() == items@.subrange(0, n - 1));
        assert(sub.last() == items@[n - 1]);
        let ms = items_model(items, n);
        assert(ms.drop_last() == items_model(items, (n - 1) as nat));
        assert(ms.last() == model(items@[n - 1]));
        if items@[n - 1] is Object {
            lemma_entity_id_model(items@[n - 1]->Object_0);
        }
    } else {
        assert(items@.subrange(0, 0) =~= Seq::<JsonValue>::empty());
    }
}

/// The id of the node for item `idx`, with semantic id `sid`, of tool `name`.
pub open spec fn item_node_id(name: Seq<char>, idx: nat, sid: Seq<char>) -> Seq<char> {
    "tool_"@ + name + "_item"@ + decimal(idx) + "_"@ + id_fragment(name + ":"@ + sid)
}

/// The id of the single node of a tool result.
pub open spec fn single_node_id(name: Seq<char>, result: Seq<char>, call_id: Seq<char>) -> Seq<char> {
    "tool_"@ + name + "_"@ + id_fragment(name + ":"@ + result + ":"@ + call_id)
}

/// The nodes of one tool result given its semantic ids: one per id of an
/// array, else one node for the whole result.
pub open spec fn nodes_match(
    ns: Seq<KnowledgeNode>,
    name: Seq<char>,
    result: Seq<char>,
    call_id: Seq<char>,
    e: Option<SemanticModel>,
) -> bool {
    match e {
        Some(SemanticModel::Many(ids)) => {
            &&& ns.len() == ids.len()
            &&& forall|k: int| 0 <= k < ns.len() ==> is_observation(#[trigger] ns[k], item_node_id(name, k as nat, ids[k]), Some(ids[k]))
        },
        Some(SemanticModel::One(sid)) => ns.len() == 1 && is_observation(ns[0], single_node_id(name, result, call_id), Some(sid)),
        None => ns.len() == 1 && is_observation(ns[0], single_node_id(name, result, call_id), None),
    }
}

/// The nodes added for externally supplied grounds, in order: one for each
/// ground whose id neither an existing node nor a node added before carries
/// as id or semantic id.
pub open spec fn missing_ground_nodes(ns: Seq<KnowledgeNode>, gs: Seq<Ground>, out: Seq<KnowledgeNode>) -> bool
    decreases gs.len(),
{
    if gs.len() == 0 {
        out.len() == 0
    } else {
        let g = gs.last().ground_id@;
        ||| (known_id(ns + out, g) && missing_ground_nodes(ns, gs.drop_last(), out))
        ||| (out.len() > 0 && !known_id(ns + out.drop_last(), g) && is_observation(out.last(), g, Some(g))
            && missing_ground_nodes(ns, gs.drop_last(), out.drop_last()))
    }
}

/// Some node of `ns` has id or semantic id `g`.
pub open spec fn known_id(ns: Seq<KnowledgeNode>, g: Seq<char>) -> bool {
    exists|i: int| 0 <= i < ns.len() && ((#[trigger] ns[i]).id@ == g || opt_view(ns[i].semantic_id) == Some(g))
}

/// Builds knowledge nodes from tool results and grounds.
pub struct KnowledgeStateBuilder;

impl KnowledgeStateBuilder {
    /// The nodes from `tool_results`.
    pub fn build(&self, tool_results: &[ToolResultSpeechAct]) -> (r: Vec<KnowledgeNode>)
        ensures
            exists|blocks: Seq<Seq<KnowledgeNode>>, refs: Seq<(String, Vec<String>)>| #[trigger] built_from(
                tool_results@,
                blocks,
                r@,
                refs,
            ),
            forall|i: int| 0 <= i < r@.len() ==> (#[trigger] r@[i]).wf() && r@[i].scope == Scope::Factual,
    {
        let (nodes, refs) = self.build_with_references(tool_results);
        proof {
            let blocks = choose|b: Seq<Seq<KnowledgeNode>>| built_from(tool_results@, b, nodes@, refs@);
            assert(built_from(tool_results@, blocks, nodes@, refs@));
        }
        nodes
    }

    /// The nodes from `tool_results`, with, per tool call id, the ids (or
    /// semantic ids) of the nodes that its result produced; the call ids are
    /// sorted and a later result for the same id replaces an earlier one.
    pub fn build_with_references(&self, tool_results: &[ToolResultSpeechAct]) -> (r: (
        Vec<KnowledgeNode>,
        Vec<(String, Vec<String>)>,
    ))
        ensures
            exists|blocks: Seq<Seq<KnowledgeNode>>| #[trigger] built_from(tool_results@, blocks, r.0@, r.1@),
            forall|i: int| 0 <= i < r.0@.len() ==> (#[trigger] r.0@[i]).wf() && r.0@[i].scope == Scope::Factual,
            keys_sorted_refs(r.1@),
            forall|i: int| 0 <= i < r.1@.len() ==> (#[trigger] r.1@[i]).1@.len() > 0,
            tool_results@.len() == 0 ==> r.0@.len() == 0 && r.1@.len() == 0,
    {
        let mut nodes: Vec<KnowledgeNode> = Vec::new();
        let mut refs: Vec<(String, Vec<String>)> = Vec::new();
        let ghost mut blocks: Seq<Seq<KnowledgeNode>> = seq![];
        let mut t: usize = 0;
        while t < tool_results.len()
            invariant
                t <= tool_results@.len(),
                blocks.len() == t,
                built_from(tool_results@.subrange(0, t as int), blocks, nodes@, refs@),
                forall|i: int| 0 <= i < nodes@.len() ==> (#[trigger] nodes@[i]).wf() && nodes@[i].scope == Scope::Factual,
                keys_sorted_refs(refs@),
                forall|i: int| 0 <= i < refs@.len() ==> (#[trigger] refs@[i]).1@.len() > 0,
                tool_results@.len() == 0 ==> nodes@.len() == 0 && refs@.len() == 0,
            decreases tool_results@.len() - t,
        {
            let result = &tool_results[t];
            let ghost trs = tool_results@.subrange(0, t + 1);
            proof {
                assert(trs.drop_last() == tool_results@.subrange(0, t as int));
                assert(trs.last() == *result);
            }
            let ghost old_refs = refs@;
            let ghost old_nodes = nodes@;
            match self.tool_result_to_knowledge(result) {
                None => {
                    proof {
                        lemma_built_step(tool_results@.subrange(0, t as int), blocks, old_nodes, old_refs, *result, seq![], refs@);
                        assert(tool_results@.subrange(0, t as int).push(*result) =~= tool_results@.subrange(0, t + 1));
                        blocks = blocks.push(seq![]);
                        assert(nodes@ =~= old_nodes + Seq::<KnowledgeNode>::empty());
                    }
                },
                Some(produced) => {
                    let mut ids: Vec<String> = Vec::new();
                    let mut k: usize = 0;
                    while k < produced.len()
                        invariant
                            k <= produced@.len(),
                            views(ids@) == ref_ids(produced@.subrange(0, k as int)),
                        decreases produced@.len() - k,
                    {
                        let ghost prev = ids@;
                        let item = match &produced[k].semantic_id {
                            Some(s) => s.clone(),
                            None => produced[k].id.clone(),
                        };
                        ids.push(item);
                        assert(views(ids@) =~= views(prev).push(item@));
                        assert(produced@.subrange(0, k + 1) =~= produced@.subrange(0, k as int).push(produced@[k as int]));
                        assert(ref_ids(produced@.subrange(0, k + 1)) =~= ref_ids(produced@.subrange(0, k as int)).push(item@));
                        k = k + 1;
                    }
                    assert(produced@.subrange(0, produced@.len() as int) == produced@);
                    match &result.tool_call_id {
                        Some(call_id) => {
                            if ids.len() > 0 {
                                let ghost ids_v = views(ids@);
                                let ghost c = call_id@;
                                insert_entry_refs(&mut refs, call_id.clone(), ids);
                                proof {
                                    assert(ids_v == ref_ids(produced@));
                                    assert forall|j: int| 0 <= j < refs@.len() implies old_refs.contains(#[trigger] refs@[j]) || (refs@[j].0@ == c && views(refs@[j].1@) == ref_ids(produced@)) by {
                                    }
                                    assert forall|j: int| 0 <= j < refs@.len() && (#[trigger] refs@[j]).0@ == c implies views(refs@[j].1@) == ref_ids(produced@) by {
                                    }
                                }
                            }
                        },
                        None => {},
                    }
                    let mut k: usize = 0;
                    while k < produced.len()
                        invariant
                            k <= produced@.len(),
                            nodes@ == old_nodes + produced@.subrange(0, k as int),
                            forall|i: int| 0 <= i < produced@.len() ==> (#[trigger] produced@[i]).wf() && produced@[i].scope == Scope::Factual,
                            forall|i: int| 0 <= i < nodes@.len() ==> (#[trigger] nodes@[i]).wf() && nodes@[i].scope == Scope::Factual,
                        decreases produced@.len() - k,
                    {
                        nodes.push(produced[k].duplicate());
                        k = k + 1;
                        assert(nodes@ =~= old_nodes + produced@.subrange(0, k as int));
                    }
                    proof {
                        assert(produced@.subrange(0, produced@.len() as int) == produced@);
                        lemma_built_step(tool_results@.subrange(0, t as int), blocks, old_nodes, old_refs, *result, produced@, refs@);
                        assert(tool_results@.subrange(0, t as int).push(*result) =~= tool_results@.subrange(0, t + 1));
                        blocks = blocks.push(produced@);
                    }
                },
            }
            t = t + 1;
        }
        assert(tool_results@.subrange(0, tool_results@.len() as int) == tool_results@);
        assert(built_from(tool_results@, blocks, nodes@, refs@));
        let r = (nodes, refs);
        assert(built_from(tool_results@, blocks, r.0@, r.1@));
        r
    }

    /// Adds a node for every ground whose id no node, existing or added
    /// before, carries as id or semantic id; existing nodes stay as they are.
    pub fn materialize_external_grounds(&self, knowledge_nodes: &[KnowledgeNode], grounds: &[Ground]) -> (r: Vec<KnowledgeNode>)
        ensures
            r@.len() >= knowledge_nodes@.len(),
            r@.subrange(0, knowledge_nodes@.len() as int) == knowledge_nodes@,
            missing_ground_nodes(knowledge_nodes@, grounds@, r@.subrange(knowledge_nodes@.len() as int, r@.len() as int)),
    {
        let mut expanded: Vec<KnowledgeNode> = Vec::new();
        let mut i: usize = 0;
        while i < knowledge_nodes.len()
            invariant
                i <= knowledge_nodes@.len(),
                expanded@ == knowledge_nodes@.subrange(0, i as int),
            decreases knowledge_nodes@.len() - i,
        {
            expanded.push(knowledge_nodes[i].duplicate());
            i = i + 1;
            assert(expanded@ =~= knowledge_nodes@.subrange(0, i as int));
        }
        let n0 = knowledge_nodes.len();
        let mut j: usize = 0;
        while j < grounds.len()
            invariant
                j <= grounds@.len(),
                n0 == knowledge_nodes@.len(),
                expanded@.len() >= n0,
                expanded@.subrange(0, n0 as int) == knowledge_nodes@,
                missing_ground_nodes(knowledge_nodes@, grounds@.subrange(0, j as int), expanded@.subrange(n0 as int, expanded@.len() as int)),
            decreases grounds@.len() - j,
        {
            let g = &grounds[j];
            let ghost before = expanded@;
            let ghost tail0 = before.subrange(n0 as int, before.len() as int);
            assert(before =~= knowledge_nodes@ + tail0);
            let known = self.is_known(expanded.as_slice(), &g.ground_id);
            proof {
                assert(grounds@.subrange(0, j + 1).drop_last() == grounds@.subrange(0, j as int));
                assert(grounds@.subrange(0, j + 1).last() == *g);
            }
            if !known {
                let node = observation(g.ground_id.clone(), Some(g.ground_id.clone()));
                expanded.push(node);
                proof {
                    let tail = expanded@.subrange(n0 as int, expanded@.len() as int);
                    assert(tail.drop_last() =~= tail0);
                    assert(tail.last() == node);
                    assert(expanded@.subrange(0, n0 as int) =~= before.subrange(0, n0 as int));
                }
            }
            j = j + 1;
        }
        assert(grounds@.subrange(0, grounds@.len() as int) == grounds@);
        expanded
    }

    fn is_known(&self, nodes: &[KnowledgeNode], g: &String) -> (r: bool)
        ensures
            r == known_id(nodes@, g@),
    {
        let mut i: usize = 0;
        while i < nodes.len()
            invariant
                i <= nodes@.len(),
                forall|j: int| 0 <= j < i ==> !((#[trigger] nodes@[j]).id@ == g@ || opt_view(nodes@[j].semantic_id) == Some(g@)),
            decreases nodes@.len() - i,
        {
            if nodes[i].id == *g {
                return true;
            }
            match &nodes[i].semantic_id {
                Some(s) => {
                    if *s == *g {
                        return true;
                    }
                },
                None => {},
            }
            i = i + 1;
        }
        false
    }

    /// The nodes that a tool result yields; nothing for a non-evidentiary
    /// tool. An empty tool name counts as "unknown".
    pub fn tool_result_to_knowledge(&self, tool_result: &ToolResultSpeechAct) -> (r: Option<Vec<KnowledgeNode>>)
        ensures
            ({
                &&& r is None <==> non_epistemic(lower_of(tool_label(tool_result.tool_name@)))
                &&& r matches Some(ns) ==> nodes_match(
                    ns@,
                    tool_label(tool_result.tool_name@),
                    tool_result.result_text@,
                    call_id_text(tool_result.tool_call_id),
                    semantic_of_text(tool_result.result_text@),
                )
                &&& r matches Some(ns) ==> forall|i: int| 0 <= i < ns@.len() ==> (#[trigger] ns@[i]).wf() && ns@[i].scope == Scope::Factual
                &&& r matches Some(ns) ==> ns@.len() > 0
            }),
    {
        let tool_name = if tool_result.tool_name.as_str().is_empty() {
            String::from_str("unknown")
        } else {
            tool_result.tool_name.clone()
        };
        assert(tool_name@ == tool_label(tool_result.tool_name@));
        if self.is_non_epistemic_tool(tool_name.as_str()) {
            return None;
        }
        let extracted = self.extract_semantic_id(tool_result);
        let ghost e = extracted;
        let nodes = self.knowledge_from_extract(tool_name.as_str(), tool_result, extracted);
        assert(nodes_match(nodes@, tool_name@, tool_result.result_text@, call_id_text(tool_result.tool_call_id), extract_view(e)));
        Some(nodes)
    }

    /// The nodes of a tool result named `tool_name`, given the semantic ids
    /// found in it.
    pub fn knowledge_from_extract(&self, tool_name: &str, tool_result: &ToolResultSpeechAct, extracted: Option<SemanticExtract>) -> (r: Vec<KnowledgeNode>)
        ensures
            nodes_match(
                r@,
                tool_name@,
                tool_result.result_text@,
                call_id_text(tool_result.tool_call_id),
                extract_view(extracted),
            ),
            forall|i: int| 0 <= i < r@.len() ==> (#[trigger] r@[i]).wf() && r@[i].scope == Scope::Factual,
    {
        let ghost e = extracted;
        match extracted {
            Some(SemanticExtract::Many(ids)) => {
                let mut out: Vec<KnowledgeNode> = Vec::new();
                let mut idx: usize = 0;
                while idx < ids.len()
                    invariant
                        idx <= ids@.len(),
                        e == Some(SemanticExtract::Many(ids)),
                        out@.len() == idx,
                        forall|k: int| 0 <= k < idx ==> is_observation(#[trigger] out@[k], item_node_id(tool_name@, k as nat, ids@[k]@), Some(ids@[k]@)),
                        forall|k: int| 0 <= k < out@.len() ==> (#[trigger] out@[k]).wf(),
                    decreases ids@.len() - idx,
                {
                    let sid = &ids[idx];
                    let mut key = String::from_str(tool_name);
                    key.append(":");
                    key.append(sid.as_str());
                    let stable = stable_id_fragment(key.as_str());
                    let mut id = String::from_str("tool_");
                    id.append(tool_name);
                    id.append("_item");
                    id.append(decimal_string(idx).as_str());
                    id.append("_");
                    id.append(stable.as_str());
                    proof {
                        assert(key@ == tool_name@ + ":"@ + sid@);
                        assert(id@ =~= item_node_id(tool_name@, idx as nat, sid@));
                    }
                    out.push(observation(id, Some(sid.clone())));
                    idx = idx + 1;
                }
                out
            },
            _ => {
                let mut key = String::from_str(tool_name);
                key.append(":");
                key.append(tool_result.result_text.as_str());
                key.append(":");
                match &tool_result.tool_call_id {
                    Some(c) => key.append(c.as_str()),
                    None => {},
                }
                let stable = stable_id_fragment(key.as_str());
                let mut id = String::from_str("tool_");
                id.append(tool_name);
                id.append("_");
                id.append(stable.as_str());
                let ghost cid = call_id_text(tool_result.tool_call_id);
                proof {
                    assert(key@ =~= tool_name@ + ":"@ + tool_result.result_text@ + ":"@ + cid);
                    assert(id@ =~= single_node_id(tool_name@, tool_result.result_text@, cid));
                }
                let semantic_id = match extracted {
                    Some(SemanticExtract::One(v)) => Some(v),
                    _ => None,
                };
                let mut out: Vec<KnowledgeNode> = Vec::new();
                out.push(observation(id, semantic_id));
                out
            },
        }
    }

    /// Whether a tool serves personalization or memory rather than evidence.
    pub fn is_non_epistemic_tool(&self, tool_name: &str) -> (r: bool)
        ensures
            r == non_epistemic(lower_of(tool_name@)),
    {
        let name = lowercase(tool_name);
        self.is_non_epistemic_lowered(&name)
    }

    /// Whether a lowercase tool name serves personalization or memory.
    pub fn is_non_epistemic_lowered(&self, name: &String) -> (r: bool)
        ensures
            r == non_epistemic(name@),
    {
        let t = chars_of(name.as_str());
        if *name == String::from_str("get_user_cognitive_context") {
            return true;
        }
        if contains_vec(&t, &chars_of("personalization")) || contains_vec(&t, &chars_of("personal_context")) {
            return true;
        }
        let memory = ["save", "note", "notes", "load", "consolidat", "distill", "state"];
        assert(memory@ =~= memory_actions());
        if contains_vec(&t, &chars_of("memory")) && contains_any(&t, &memory) {
            return true;
        }
        let profile = ["save", "set", "update", "load", "consolidat"];
        assert(profile@ =~= profile_actions());
        if contains_vec(&t, &chars_of("profile")) && contains_any(&t, &profile) {
            return true;
        }
        let prefs = ["remember", "preference", "preferences", "setting", "settings"];
        assert(prefs@ =~= preference_markers());
        contains_any(&t, &prefs)
    }

    fn extract_semantic_id(&self, tool_result: &ToolResultSpeechAct) -> (r: Option<SemanticExtract>)
        ensures
            extract_view(r) == semantic_of_text(tool_result.result_text@),
            r matches Some(SemanticExtract::Many(ids)) ==> ids@.len() > 0,
    {
        let trimmed = trim_str(tool_result.result_text.as_str());
        if trimmed.as_str().is_empty() {
            return None;
        }
        match parse_json(tool_result.result_text.as_str()) {
            Ok(data) => semantic_from_value(&data),
            Err(_) => None,
        }
    }
}

/// The name a tool result goes by: "unknown" when it has none.
pub open spec fn tool_label(name: Seq<char>) -> Seq<char> {
    if name.len() == 0 {
        "unknown"@
    } else {
        name
    }
}

/// The nodes that one tool result yields: none for a non-evidentiary tool,
/// else at least one, as `nodes_match` lays out for some semantic ids.
pub open spec fn yields(t: ToolResultSpeechAct, b: Seq<KnowledgeNode>) -> bool {
    if non_epistemic(lower_of(tool_label(t.tool_name@))) {
        b.len() == 0
    } else {
        b.len() > 0 && nodes_match(
            b,
            tool_label(t.tool_name@),
            t.result_text@,
            call_id_text(t.tool_call_id),
            semantic_of_text(t.result_text@),
        )
    }
}

/// The blocks of nodes one after the other.
pub open spec fn flatten(bs: Seq<Seq<KnowledgeNode>>) -> Seq<KnowledgeNode>
    decreases bs.len(),
{
    if bs.len() == 0 {
        seq![]
    } else {
        flatten(bs.drop_last()) + bs.last()
    }
}

/// The id by which each node is referenced: its semantic id, else its id.
pub open spec fn ref_ids(b: Seq<KnowledgeNode>) -> Seq<Seq<char>> {
    b.map_values(|n: KnowledgeNode| match n.semantic_id {
        Some(s) => s@,
        None => n.id@,
    })
}

/// The index of the last result below `n` with call id `c` that yielded
/// nodes; or -1.
pub open spec fn latest_below(trs: Seq<ToolResultSpeechAct>, blocks: Seq<Seq<KnowledgeNode>>, c: Seq<char>, n: int) -> int
    decreases n,
{
    if n <= 0 {
        -1
    } else if opt_view(trs[n - 1].tool_call_id) == Some(c) && blocks[n - 1].len() > 0 {
        n - 1
    } else {
        latest_below(trs, blocks, c, n - 1)
    }
}

/// The index of the last result with call id `c` that yielded nodes; or -1.
pub open spec fn latest(trs: Seq<ToolResultSpeechAct>, blocks: Seq<Seq<KnowledgeNode>>, c: Seq<char>) -> int {
    latest_below(trs, blocks, c, trs.len() as int)
}

/// A reference entry holds the ids of the nodes that the last result with
/// its call id yielded.
pub open spec fn recorded(e: (String, Vec<String>), trs: Seq<ToolResultSpeechAct>, blocks: Seq<Seq<KnowledgeNode>>) -> bool {
    &&& 0 <= latest(trs, blocks, e.0@) < blocks.len()
    &&& views(e.1@) == ref_ids(blocks[latest(trs, blocks, e.0@)])
}

/// The call id of a result that yielded nodes has a reference entry.
pub open spec fn has_entry(refs: Seq<(String, Vec<String>)>, c: Seq<char>) -> bool {
    exists|j: int| 0 <= j < refs.len() && (#[trigger] refs[j]).0@ == c
}

/// The nodes are the blocks that the results yield, in order; each call id
/// whose result yielded nodes has a reference entry, and each entry holds the
/// ids of the last such result's nodes.
pub open spec fn built_from(
    trs: Seq<ToolResultSpeechAct>,
    blocks: Seq<Seq<KnowledgeNode>>,
    nodes: Seq<KnowledgeNode>,
    refs: Seq<(String, Vec<String>)>,
) -> bool {
    &&& blocks.len() == trs.len()
    &&& forall|i: int| 0 <= i < trs.len() ==> yields(trs[i], #[trigger] blocks[i])
    &&& nodes == flatten(blocks)
    &&& forall|j: int| 0 <= j < refs.len() ==> recorded(#[trigger] refs[j], trs, blocks)
    &&& forall|i: int| 0 <= i < trs.len() && blocks[i].len() > 0 && (#[trigger] trs[i]).tool_call_id is Some
        ==> has_entry(refs, trs[i].tool_call_id->0@)
}

proof fn lemma_latest_push(
    trs: Seq<ToolResultSpeechAct>,
    blocks: Seq<Seq<KnowledgeNode>>,
    t: ToolResultSpeechAct,
    b: Seq<KnowledgeNode>,
    c: Seq<char>,
    n: int,
)
    requires
        blocks.len() == trs.len(),
        0 <= n <= trs.len(),
    ensures
        latest_below(trs.push(t), blocks.push(b), c, n) == latest_below(trs, blocks, c, n),
    decreases n,
{
    if n > 0 {
        lemma_latest_push(trs, blocks, t, b, c, n - 1);
        assert(trs.push(t)[n - 1] == trs[n - 1]);
        assert(blocks.push(b)[n - 1] == blocks[n - 1]);
    }
}

proof fn lemma_latest_bounds(trs: Seq<ToolResultSpeechAct>, blocks: Seq<Seq<KnowledgeNode>>, c: Seq<char>, n: int)
    requires
        0 <= n,
    ensures
        -1 <= latest_below(trs, blocks, c, n) < n,
        latest_below(trs, blocks, c, n) >= 0 ==> opt_view(trs[latest_below(trs, blocks, c, n)].tool_call_id) == Some(c),
    decreases n,
{
    if n > 0 {
        lemma_latest_bounds(trs, blocks, c, n - 1);
    }
}

proof fn lemma_built_step(
    trs: Seq<ToolResultSpeechAct>,
    blocks: Seq<Seq<KnowledgeNode>>,
    nodes: Seq<KnowledgeNode>,
    refs: Seq<(String, Vec<String>)>,
    t: ToolResultSpeechAct,
    b: Seq<KnowledgeNode>,
    refs2: Seq<(String, Vec<String>)>,
)
    requires
        built_from(trs, blocks, nodes, refs),
        yields(t, b),
        !(b.len() > 0 && t.tool_call_id is Some) ==> refs2 == refs,
        b.len() > 0 && t.tool_call_id is Some ==> ({
            let c = t.tool_call_id->0@;
            &&& forall|j: int| 0 <= j < refs2.len() ==> refs.contains(#[trigger] refs2[j]) || (refs2[j].0@ == c && views(refs2[j].1@) == ref_ids(b))
            &&& exists|j: int| 0 <= j < refs2.len() && (#[trigger] refs2[j]).0@ == c
            &&& forall|j: int| 0 <= j < refs2.len() && (#[trigger] refs2[j]).0@ == c ==> views(refs2[j].1@) == ref_ids(b)
            &&& forall|j: int| 0 <= j < refs.len() && (#[trigger] refs[j]).0@ != c ==> refs2.contains(refs[j])
        }),
    ensures
        built_from(trs.push(t), blocks.push(b), nodes + b, refs2),
{
    let trs2 = trs.push(t);
    let bl2 = blocks.push(b);
    let n = trs.len() as int;
    assert(bl2.drop_last() == blocks);
    assert forall|i: int| 0 <= i < trs2.len() implies yields(trs2[i], #[trigger] bl2[i]) by {
        if i < trs.len() {
            assert(trs2[i] == trs[i] && bl2[i] == blocks[i]);
        }
    }
    assert(trs2[n] == t && bl2[n] == b);
    assert forall|c: Seq<char>| #[trigger] latest(trs2, bl2, c) == (if opt_view(t.tool_call_id) == Some(c) && b.len() > 0 { n } else { latest(trs, blocks, c) }) by {
        lemma_latest_push(trs, blocks, t, b, c, n);
    }
    assert forall|j: int| 0 <= j < refs2.len() implies recorded(#[trigger] refs2[j], trs2, bl2) by {
        let c2 = refs2[j].0@;
        lemma_latest_bounds(trs, blocks, c2, n);
        if b.len() > 0 && t.tool_call_id is Some && c2 == t.tool_call_id->0@ {
            assert(latest(trs2, bl2, c2) == n);
        } else {
            assert(refs.contains(refs2[j]));
            let jj = choose|jj: int| 0 <= jj < refs.len() && refs[jj] == refs2[j];
            assert(recorded(refs[jj], trs, blocks));
            assert(latest(trs2, bl2, c2) == latest(trs, blocks, c2));
            assert(bl2[latest(trs, blocks, c2)] == blocks[latest(trs, blocks, c2)]);
        }
    }
    assert forall|i: int| 0 <= i < trs2.len() && bl2[i].len() > 0 && (#[trigger] trs2[i]).tool_call_id is Some
        implies has_entry(refs2, trs2[i].tool_call_id->0@) by {
        if i == n {
            let j = choose|j: int| 0 <= j < refs2.len() && (#[trigger] refs2[j]).0@ == t.tool_call_id->0@;
        } else {
            assert(trs2[i] == trs[i] && bl2[i] == blocks[i]);
            let ci = trs[i].tool_call_id->0@;
            assert(has_entry(refs, ci));
            let j = choose|j: int| 0 <= j < refs.len() && (#[trigger] refs[j]).0@ == ci;
            if b.len() > 0 && t.tool_call_id is Some {
                if ci == t.tool_call_id->0@ {
                    let k = choose|k: int| 0 <= k < refs2.len() && (#[trigger] refs2[k]).0@ == ci;
                } else {
                    assert(refs2.contains(refs[j]));
                    let k = choose|k: int| 0 <= k < refs2.len() && refs2[k] == refs[j];
                    assert(refs2[k].0@ == ci);
                }
            }
        }
    }
}

/// A call id's text, empty when there is none.
pub open spec fn call_id_text(o: Option<String>) -> Seq<char> {
    match o {
        Some(c) => c@,
        None => seq![],
    }
}

/// Whether call ids are sorted.
pub open spec fn keys_sorted_refs(es: Seq<(String, Vec<String>)>) -> bool {
    forall|i: int| 0 <= i < es.len() - 1 ==> crate::json::text_lt(#[trigger] es[i].0@, es[i + 1].0@)
}

/// Whether `suffix` ends `key`.
fn ends_with_str(key: &String, suffix: &str) -> (r: bool)
    ensures
        r == (ends(key@, suffix@) && key@.len() >= suffix@.len()),
{
    let k = chars_of(key.as_str());
    let s = chars_of(suffix);
    if s.len() > k.len() {
        return false;
    }
    crate::text::matches_at(&k, &s, k.len() - s.len())
}

/// The entity id of the first entry, in order, whose key ends with `suffix`
/// and whose value is a string.
pub fn entity_with_suffix(map: &Vec<(String, JsonValue)>, suffix: &str) -> (r: Option<String>)
    ensures
        opt_view(r) == entity_from(map@, suffix@, 0),
{
    let mut i: usize = 0;
    while i < map.len()
        invariant
            i <= map@.len(),
            entity_from(map@, suffix@, 0) == entity_from(map@, suffix@, i as int),
        decreases map@.len() - i,
    {
        let field = &map[i].0;
        if ends_with_str(field, suffix) {
            match &map[i].1 {
                JsonValue::String(v) => {
                    let fc = chars_of(field.as_str());
                    let sl = chars_of(suffix).len();
                    let mut out = crate::text::string_of_range(&fc, 0, fc.len() - sl);
                    out.append("_");
                    out.append(v.as_str());
                    return Some(out);
                },
                _ => {},
            }
        }
        i = i + 1;
    }
    None
}

/// The entity id of an object: by a `_key` field first, else by an `_id` field.
pub fn extract_entity_id(map: &Vec<(String, JsonValue)>) -> (r: Option<String>)
    ensures
        opt_view(r) == entity_id(map@),
{
    match entity_with_suffix(map, "_key") {
        Some(v) => Some(v),
        None => entity_with_suffix(map, "_id"),
    }
}

/// The semantic ids of a parsed tool result.
pub fn semantic_from_value(data: &JsonValue) -> (r: Option<SemanticExtract>)
    ensures
        semantic_matches(*data, r),
        extract_view(r) == semantic_of_model(model(*data)),
{
    proof {
        if data is Array {
            let items = data->Array_0;
            lemma_item_ids_model(items, items@.len());
            assert(items@.subrange(0, items@.len() as int) == items@);
        } else if data is Object {
            lemma_entity_id_model(data->Object_0);
        }
    }
    match data {
        JsonValue::Array(items) => {
            let mut ids: Vec<String> = Vec::new();
            let mut i: usize = 0;
            while i < items.len()
                invariant
                    i <= items@.len(),
                    views(ids@) == item_entity_ids(items@.subrange(0, i as int)),
                decreases items@.len() - i,
            {
                proof {
                    assert(items@.subrange(0, i + 1).drop_last() == items@.subrange(0, i as int));
                    assert(items@.subrange(0, i + 1).last() == items@[i as int]);
                }
                match &items[i] {
                    JsonValue::Object(map) => {
                        match extract_entity_id(map) {
                            Some(id) => {
                                let ghost prev = ids@;
                                ids.push(id);
                                assert(views(ids@) =~= views(prev).push(id@));
                            },
                            None => {},
                        }
                    },
                    _ => {},
                }
                i = i + 1;
            }
            assert(items@.subrange(0, items@.len() as int) == items@);
            if ids.len() == 0 {
                None
            } else {
                Some(SemanticExtract::Many(ids))
            }
        },
        JsonValue::Object(map) => match extract_entity_id(map) {
            Some(v) => Some(SemanticExtract::One(v)),
            None => None,
        },
        _ => None,
    }
}

} // verus!
