//! Reading conversations: message text, tool results, and messages given as
//! JSON values.
use vstd::prelude::*;
use crate::json::JsonValue;
use crate::json::entry_index;
use crate::json::parse_json;
use crate::json::JsonModel;
use crate::json::model;
use crate::knowledge::copy_opt;
use crate::knowledge::opt_view;
use crate::models::ConversationMessage;
use crate::models::ToolCall;
use crate::models::ToolResultSpeechAct;
use crate::text::join_strings;
use crate::text::join_with;
use crate::text::trim;
use crate::text::trim_str;
use crate::text::views;

verus! {

/// Why an evaluation could not be made.
#[derive(Debug, Clone, PartialEq, Eq)]
pub enum EvaluateError {
    MissingInput,
    InvalidConversation,
    LastMessageNotAssistant,
    LastAssistantContentNotString,
    AgentOutputMismatch,
    InvalidJson(String),
    InvalidMessage(String),
}

/// The string under `key` of an object's entries, if there is one.
pub open spec fn string_field(es: Seq<(String, JsonValue)>, key: Seq<char>) -> Option<Seq<char>> {
    let i = entry_index(es, key, 0);
    if i >= 0 && i < es.len() && es[i].1 is String {
        Some((es[i].1)->String_0@)
    } else {
        None
    }
}

/// The texts of the parts of kind `kind`, read from field `field`, in order.
pub open spec fn part_texts(parts: Seq<JsonValue>, kind: Seq<char>, field: Seq<char>) -> Seq<Seq<char>>
    decreases parts.len(),
{
    if parts.len() == 0 {
        seq![]
    } else {
        let prev = part_texts(parts.drop_last(), kind, field);
        match parts.last() {
            JsonValue::Object(m) => if string_field(m@, "type"@) == Some(kind) && string_field(m@, field) is Some {
                prev.push(string_field(m@, field)->0)
            } else {
                prev
            },
            _ => prev,
        }
    }
}

/// What reading a message's content gives.
pub enum ContentText {
    Text(Seq<char>),
    Mixed,
    NotText,
}

/// The text of a message's content: a string as it is; a list of parts,
/// all text or all refusal, joined and trimmed; nothing at all is empty.
pub open spec fn content_text(c: Option<JsonValue>) -> ContentText {
    match c {
        None => ContentText::Text(seq![]),
        Some(JsonValue::String(s)) => ContentText::Text(s@),
        Some(JsonValue::Array(parts)) => {
            let refusals = part_texts(parts@, "refusal"@, "refusal"@);
            let texts = part_texts(parts@, "text"@, "text"@);
            if refusals.len() > 0 && texts.len() > 0 {
                ContentText::Mixed
            } else if refusals.len() > 0 {
                ContentText::Text(trim(join_with(refusals, seq![])))
            } else {
                ContentText::Text(trim(join_with(texts, seq![])))
            }
        },
        Some(_) => ContentText::NotText,
    }
}

/// The result of reading a content matches what `content_text` says.
pub open spec fn content_result(c: Option<JsonValue>, r: Result<String, EvaluateError>) -> bool {
    match content_text(c) {
        ContentText::Text(t) => r matches Ok(s) && s@ == t,
        ContentText::Mixed => r matches Err(EvaluateError::InvalidMessage(_)),
        ContentText::NotText => r matches Err(EvaluateError::LastAssistantContentNotString),
    }
}

pub(crate) fn string_field_of(m: &Vec<(String, JsonValue)>, key: &str) -> (r: Option<String>)
    ensures
        opt_view(r) == string_field(m@, key@),
{
    let mut i: usize = 0;
    let k = String::from_str(key);
    while i < m.len()
        invariant
            i <= m@.len(),
            k@ == key@,
            entry_index(m@, key@, 0) == entry_index(m@, key@, i as int),
        decreases m@.len() - i,
    {
        if m[i].0 == k {
            assert(m@[i as int].0@ == key@);
            return match &m[i].1 {
                JsonValue::String(s) => Some(s.clone()),
                _ => None,
            };
        }
        i = i + 1;
    }
    None
}

/// The text of a message's content.
pub fn extract_text_content(content: Option<&JsonValue>) -> (r: Result<String, EvaluateError>)
    ensures
        content_result(
            match content {
                Some(c) => Some(*c),
                None => None,
            },
            r,
        ),
{
    let c = match content {
        None => {
            return Ok(String::new());
        },
        Some(c) => c,
    };
    match c {
        JsonValue::String(s) => Ok(s.clone()),
        JsonValue::Array(parts) => {
            let mut refusal_parts: Vec<String> = Vec::new();
            let mut text_parts: Vec<String> = Vec::new();
            let mut i: usize = 0;
            while i < parts.len()
                invariant
                    i <= parts@.len(),
                    views(refusal_parts@) == part_texts(parts@.subrange(0, i as int), "refusal"@, "refusal"@),
                    views(text_parts@) == part_texts(parts@.subrange(0, i as int), "text"@, "text"@),
                decreases parts@.len() - i,
            {
                proof {
                    assert(parts@.subrange(0, i + 1).drop_last() == parts@.subrange(0, i as int));
                    assert(parts@.subrange(0, i + 1).last() == parts@[i as int]);
                }
                match &parts[i] {
                    JsonValue::Object(m) => {
                        let kind = string_field_of(m, "type");
                        let is_refusal = match &kind {
                            Some(k) => *k == String::from_str("refusal"),
                            None => false,
                        };
                        let is_text = match &kind {
                            Some(k) => *k == String::from_str("text"),
                            None => false,
                        };
                        if is_refusal {
                            match string_field_of(m, "refusal") {
                                Some(s) => {
                                    let ghost prev = refusal_parts@;
                                    refusal_parts.push(s);
                                    assert(views(refusal_parts@) =~= views(prev).push(s@));
                                },
                                None => {},
                            }
                        }
                        if is_text {
                            match string_field_of(m, "text") {
                                Some(s) => {
                                    let ghost prev = text_parts@;
                                    text_parts.push(s);
                                    assert(views(text_parts@) =~= views(prev).push(s@));
                                },
                                None => {},
                            }
                        }
                        proof {
                            reveal_strlit("refusal");
                            reveal_strlit("text");
                        }
                    },
                    _ => {},
                }
                i = i + 1;
            }
            assert(parts@.subrange(0, parts@.len() as int) == parts@);
            if refusal_parts.len() > 0 && text_parts.len() > 0 {
                return Err(
                    EvaluateError::InvalidMessage(
                        String::from_str("Assistant content cannot mix text and refusal parts"),
                    ),
                );
            }
            if refusal_parts.len() > 0 {
                let joined = join_strings(&refusal_parts, "");
                proof {
                    reveal_strlit("");
                    assert(""@ =~= Seq::<char>::empty());
                }
                Ok(trim_str(joined.as_str()))
            } else {
                let joined = join_strings(&text_parts, "");
                proof {
                    reveal_strlit("");
                    assert(""@ =~= Seq::<char>::empty());
                }
                Ok(trim_str(joined.as_str()))
            }
        },
        _ => Err(EvaluateError::LastAssistantContentNotString),
    }
}


/// The last call of `calls` declared as a function with id `id`.
pub open spec fn call_in(calls: Seq<ToolCall>, id: Seq<char>) -> Option<ToolCall>
    decreases calls.len(),
{
    if calls.len() == 0 {
        None
    } else if calls.last().kind@ == "function"@ && calls.last().id@ == id {
        Some(calls.last())
    } else {
        call_in(calls.drop_last(), id)
    }
}

/// The last function call with id `id` that an assistant message of `traj`
/// declares.
pub open spec fn declared_call(traj: Seq<ConversationMessage>, id: Seq<char>) -> Option<ToolCall>
    decreases traj.len(),
{
    if traj.len() == 0 {
        None
    } else if traj.last().role@ == "assistant"@ && call_in(traj.last().tool_calls@, id) is Some {
        call_in(traj.last().tool_calls@, id)
    } else {
        declared_call(traj.drop_last(), id)
    }
}

/// A message that carries a tool's result.
pub open spec fn is_result_message(m: ConversationMessage) -> bool {
    m.role@ == "tool"@ || (m.role@ == "function"@ && m.function_name is Some)
}

/// The messages of `traj` that carry tool results, in order.
pub open spec fn result_messages(traj: Seq<ConversationMessage>) -> Seq<ConversationMessage>
    decreases traj.len(),
{
    if traj.len() == 0 {
        seq![]
    } else if is_result_message(traj.last()) {
        result_messages(traj.drop_last()).push(traj.last())
    } else {
        result_messages(traj.drop_last())
    }
}

/// The tool name of a result message: for a tool message, the name of the
/// function call it answers ("unknown" without one); else the message's name.
pub open spec fn result_tool_name(traj: Seq<ConversationMessage>, m: ConversationMessage) -> Seq<char> {
    if m.role@ == "tool"@ {
        match declared_call(traj, opt_text(m.tool_call_id)) {
            Some(c) => match c.function_name {
                Some(n) => n@,
                None => "unknown"@,
            },
            None => "unknown"@,
        }
    } else {
        opt_text(m.function_name)
    }
}

/// An optional string's text, empty when absent.
pub open spec fn opt_text(o: Option<String>) -> Seq<char> {
    match o {
        Some(s) => s@,
        None => seq![],
    }
}

/// `r` is the result that result message `m` of `traj` gives.
pub open spec fn tool_result_of(traj: Seq<ConversationMessage>, m: ConversationMessage, r: ToolResultSpeechAct) -> bool {
    &&& r.tool_name@ == result_tool_name(traj, m)
    &&& opt_view(r.tool_call_id) == (if m.role@ == "tool"@ { Some(opt_text(m.tool_call_id)) } else { None })
    &&& content_text(m.content) == ContentText::Text(r.result_text@)
}

/// Every result message of `ms` has readable text.
pub open spec fn all_readable(ms: Seq<ConversationMessage>) -> bool {
    forall|k: int| 0 <= k < ms.len() ==> (#[trigger] content_text(ms[k].content)) is Text
}

fn is_role(m: &ConversationMessage, role: &str) -> (r: bool)
    ensures
        r == (m.role@ == role@),
{
    m.role == String::from_str(role)
}

fn find_call<'a>(calls: &'a Vec<ToolCall>, id: &String) -> (r: Option<&'a ToolCall>)
    ensures
        match r {
            Some(c) => call_in(calls@, id@) == Some(*c),
            None => call_in(calls@, id@) is None,
        },
{
    let mut k: usize = calls.len();
    assert(calls@.subrange(0, calls@.len() as int) == calls@);
    while k > 0
        invariant
            k <= calls@.len(),
            call_in(calls@, id@) == call_in(calls@.subrange(0, k as int), id@),
        decreases k,
    {
        let c = &calls[k - 1];
        proof {
            let sub = calls@.subrange(0, k as int);
            assert(sub.drop_last() == calls@.subrange(0, k - 1));
            assert(sub.last() == *c);
        }
        if c.kind == String::from_str("function") && c.id == *id {
            return Some(c);
        }
        k = k - 1;
    }
    None
}

fn find_declared<'a>(traj: &'a [ConversationMessage], id: &String) -> (r: Option<&'a ToolCall>)
    ensures
        match r {
            Some(c) => declared_call(traj@, id@) == Some(*c),
            None => declared_call(traj@, id@) is None,
        },
{
    let mut k: usize = traj.len();
    assert(traj@.subrange(0, traj@.len() as int) == traj@);
    while k > 0
        invariant
            k <= traj@.len(),
            declared_call(traj@, id@) == declared_call(traj@.subrange(0, k as int), id@),
        decreases k,
    {
        let m = &traj[k - 1];
        proof {
            let sub = traj@.subrange(0, k as int);
            assert(sub.drop_last() == traj@.subrange(0, k - 1));
            assert(sub.last() == *m);
        }
        if is_role(m, "assistant") {
            match find_call(&m.tool_calls, id) {
                Some(c) => {
                    return Some(c);
                },
                None => {},
            }
        }
        k = k - 1;
    }
    None
}

/// The arguments of a tool call: an object as it is, a string read as JSON
/// text holding an object; anything else gives none.
pub fn parse_tool_args(arguments: Option<&JsonValue>) -> (r: Vec<(String, JsonValue)>)
    ensures
        arguments is None ==> r@.len() == 0,
        arguments matches Some(a) ==> (a is Object ==> a->Object_0@.len() == r@.len()),
        arguments matches Some(a) ==> !(a is Object || a is String) ==> r@.len() == 0,
{
    let a = match arguments {
        None => {
            return Vec::new();
        },
        Some(a) => a,
    };
    match a {
        JsonValue::Object(_) => {
            match a.deep_copy() {
                JsonValue::Object(m) => m,
                _ => Vec::new(),
            }
        },
        JsonValue::String(s) => match parse_json(s.as_str()) {
            Ok(JsonValue::Object(m)) => m,
            _ => Vec::new(),
        },
        _ => Vec::new(),
    }
}

/// The tool results that a conversation holds: one per tool message and
/// per named function message, in order; fails when one of them has no
/// readable text.
pub fn extract_tool_results(trajectory: &[ConversationMessage]) -> (r: Result<Vec<ToolResultSpeechAct>, EvaluateError>)
    ensures
        r is Ok <==> all_readable(result_messages(trajectory@)),
        r matches Ok(rs) ==> rs@.len() == result_messages(trajectory@).len() && forall|k: int|
            0 <= k < rs@.len() ==> tool_result_of(trajectory@, result_messages(trajectory@)[k], #[trigger] rs@[k]),
        r matches Err(e) ==> exists|k: int| #[trigger] fails_at(result_messages(trajectory@), k, e),
{
    let mut out: Vec<ToolResultSpeechAct> = Vec::new();
    let mut i: usize = 0;
    while i < trajectory.len()
        invariant
            i <= trajectory@.len(),
            all_readable(result_messages(trajectory@.subrange(0, i as int))),
            out@.len() == result_messages(trajectory@.subrange(0, i as int)).len(),
            forall|k: int| 0 <= k < out@.len() ==> tool_result_of(trajectory@, result_messages(trajectory@.subrange(0, i as int))[k], #[trigger] out@[k]),
        decreases trajectory@.len() - i,
    {
        let message = &trajectory[i];
        let ghost prefix = trajectory@.subrange(0, i as int);
        let ghost next = trajectory@.subrange(0, i + 1);
        proof {
            assert(next.drop_last() == prefix);
            assert(next.last() == *message);
        }
        if is_role(message, "tool") {
            let call_id = match &message.tool_call_id {
                Some(c) => c.clone(),
                None => String::new(),
            };
            let (name, args) = match find_declared(trajectory, &call_id) {
                Some(call) => (
                    match &call.function_name {
                        Some(n) => n.clone(),
                        None => String::from_str("unknown"),
                    },
                    parse_tool_args(match &call.function_arguments {
                        Some(a) => Some(a),
                        None => None,
                    }),
                ),
                None => (String::from_str("unknown"), Vec::new()),
            };
            let content = match extract_text_content(match &message.content {
                Some(c) => Some(c),
                None => None,
            }) {
                Ok(t) => t,
                Err(e) => {
                    proof {
                        lemma_unreadable(trajectory@, i as int);
                        lemma_first_fail(trajectory@, i as int, e);
                    }
                    return Err(e);
                },
            };
            let item = ToolResultSpeechAct { tool_name: name, tool_call_id: Some(call_id), arguments: args, result_text: content };
            assert(tool_result_of(trajectory@, *message, item));
            out.push(item);
            proof {
                assert(result_messages(next) == result_messages(prefix).push(*message));
            }
        } else if is_role(message, "function") && message.function_name.is_some() {
            let name = match &message.function_name {
                Some(n) => n.clone(),
                None => String::new(),
            };
            let content = match extract_text_content(match &message.content {
                Some(c) => Some(c),
                None => None,
            }) {
                Ok(t) => t,
                Err(e) => {
                    proof {
                        lemma_unreadable(trajectory@, i as int);
                        lemma_first_fail(trajectory@, i as int, e);
                    }
                    return Err(e);
                },
            };
            proof {
                reveal_strlit("tool");
                reveal_strlit("function");
                assert(message.role@ != "tool"@);
            }
            let item = ToolResultSpeechAct { tool_name: name, tool_call_id: None, arguments: Vec::new(), result_text: content };
            assert(tool_result_of(trajectory@, *message, item));
            out.push(item);
            proof {
                assert(result_messages(next) == result_messages(prefix).push(*message));
            }
        } else {
            proof {
                assert(!is_result_message(*message));
                assert(result_messages(next) == result_messages(prefix));
            }
        }
        i = i + 1;
    }
    assert(trajectory@.subrange(0, trajectory@.len() as int) == trajectory@);
    Ok(out)
}

/// The `k`-th result message is the first whose content cannot be read, and
/// `r` is the failure that reading it gives.
pub open spec fn fails_at(ms: Seq<ConversationMessage>, k: int, e: EvaluateError) -> bool {
    &&& 0 <= k < ms.len()
    &&& !(content_text(ms[k].content) is Text)
    &&& forall|j: int| 0 <= j < k ==> (#[trigger] content_text(ms[j].content)) is Text
    &&& content_result(ms[k].content, Err(e))
}

proof fn lemma_first_fail(traj: Seq<ConversationMessage>, i: int, r: EvaluateError)
    requires
        0 <= i < traj.len(),
        is_result_message(traj[i]),
        all_readable(result_messages(traj.subrange(0, i))),
        !(content_text(traj[i].content) is Text),
        content_result(traj[i].content, Err(r)),
    ensures
        exists|k: int| #[trigger] fails_at(result_messages(traj), k, r),
{
    let pre = traj.subrange(0, i);
    let next = traj.subrange(0, i + 1);
    assert(next.drop_last() == pre);
    assert(next.last() == traj[i]);
    let k = result_messages(pre).len() as int;
    lemma_result_messages_prefix(traj, i + 1, traj.len() as int);
    lemma_result_messages_prefix(traj, i, traj.len() as int);
    assert(traj.subrange(0, traj.len() as int) == traj);
    assert(result_messages(traj)[k] == traj[i]);
    assert forall|j: int| 0 <= j < k implies (#[trigger] content_text(result_messages(traj)[j].content)) is Text by {
        assert(result_messages(traj)[j] == result_messages(pre)[j]);
    }
    assert(fails_at(result_messages(traj), k, r));
}

proof fn lemma_result_messages_prefix(traj: Seq<ConversationMessage>, i: int, j: int)
    requires
        0 <= i <= j <= traj.len(),
    ensures
        result_messages(traj.subrange(0, i)).len() <= result_messages(traj.subrange(0, j)).len(),
        forall|k: int| 0 <= k < result_messages(traj.subrange(0, i)).len() ==> #[trigger] result_messages(traj.subrange(0, j))[k]
            == result_messages(traj.subrange(0, i))[k],
    decreases j - i,
{
    if i < j {
        lemma_result_messages_prefix(traj, i, j - 1);
        assert(traj.subrange(0, j).drop_last() == traj.subrange(0, j - 1));
    }
}

proof fn lemma_unreadable(traj: Seq<ConversationMessage>, i: int)
    requires
        0 <= i < traj.len(),
        is_result_message(traj[i]),
        !(content_text(traj[i].content) is Text),
    ensures
        !all_readable(result_messages(traj)),
{
    let next = traj.subrange(0, i + 1);
    assert(next.drop_last() == traj.subrange(0, i));
    assert(next.last() == traj[i]);
    let k = result_messages(next).len() - 1;
    lemma_result_messages_prefix(traj, i + 1, traj.len() as int);
    assert(traj.subrange(0, traj.len() as int) == traj);
    assert(result_messages(traj)[k] == traj[i]);
}


/// The object entries under `key` of an object's entries, if that value is
/// an object.
pub open spec fn object_field(es: Seq<(String, JsonValue)>, key: Seq<char>) -> Option<Seq<(String, JsonValue)>> {
    let i = entry_index(es, key, 0);
    if i >= 0 && i < es.len() && es[i].1 is Object {
        Some((es[i].1)->Object_0@)
    } else {
        None
    }
}

/// What a tool call item declares: its id, its type ("function" by
/// default) and its function's name; nothing for an item that is not an
/// object with a string id.
pub open spec fn declared_item(item: JsonValue) -> Option<CallView> {
    match item {
        JsonValue::Object(m) => match string_field(m@, "id"@) {
            Some(id) => Some(CallView {
                id: id,
                kind: match string_field(m@, "type"@) {
                    Some(t) => t,
                    None => "function"@,
                },
                function_name: match object_field(m@, "function"@) {
                    Some(f) => string_field(f, "name"@),
                    None => None,
                },
                function_arguments: match object_field(m@, "function"@) {
                    Some(f) => match entry_value(f, "arguments"@) {
                        Some(a) => Some(model(a)),
                        None => None,
                    },
                    None => None,
                },
                custom_name: match object_field(m@, "custom"@) {
                    Some(c) => string_field(c, "name"@),
                    None => None,
                },
                custom_input: match object_field(m@, "custom"@) {
                    Some(c) => string_field(c, "input"@),
                    None => None,
                },
            }),
            None => None,
        },
        _ => None,
    }
}

/// The values a tool call carries, its arguments as a model.
pub struct CallView {
    pub id: Seq<char>,
    pub kind: Seq<char>,
    pub function_name: Option<Seq<char>>,
    pub function_arguments: Option<JsonModel>,
    pub custom_name: Option<Seq<char>>,
    pub custom_input: Option<Seq<char>>,
}

/// The values of a tool call.
pub open spec fn call_view(c: ToolCall) -> CallView {
    CallView {
        id: c.id@,
        kind: c.kind@,
        function_name: opt_view(c.function_name),
        function_arguments: match c.function_arguments {
            Some(a) => Some(model(a)),
            None => None,
        },
        custom_name: opt_view(c.custom_name),
        custom_input: opt_view(c.custom_input),
    }
}

/// The value under `key` of an object's entries, if any.
pub open spec fn entry_value(es: Seq<(String, JsonValue)>, key: Seq<char>) -> Option<JsonValue> {
    let i = entry_index(es, key, 0);
    if 0 <= i < es.len() {
        Some(es[i].1)
    } else {
        None
    }
}

/// What the tool call items of `items` declare, skipping malformed ones.
pub open spec fn declared_items(items: Seq<JsonValue>) -> Seq<CallView>
    decreases items.len(),
{
    if items.len() == 0 {
        seq![]
    } else {
        match declared_item(items.last()) {
            Some(d) => declared_items(items.drop_last()).push(d),
            None => declared_items(items.drop_last()),
        }
    }
}

fn object_field_of<'a>(m: &'a Vec<(String, JsonValue)>, key: &str) -> (r: Option<&'a Vec<(String, JsonValue)>>)
    ensures
        match r {
            Some(f) => object_field(m@, key@) == Some(f@),
            None => object_field(m@, key@) is None,
        },
{
    let mut i: usize = 0;
    let k = String::from_str(key);
    while i < m.len()
        invariant
            i <= m@.len(),
            k@ == key@,
            entry_index(m@, key@, 0) == entry_index(m@, key@, i as int),
        decreases m@.len() - i,
    {
        if m[i].0 == k {
            assert(m@[i as int].0@ == key@);
            return match &m[i].1 {
                JsonValue::Object(f) => Some(f),
                _ => None,
            };
        }
        i = i + 1;
    }
    None
}

pub(crate) fn value_field_of<'a>(m: &'a Vec<(String, JsonValue)>, key: &str) -> (r: Option<&'a JsonValue>)
    ensures
        match r {
            Some(v) => entry_index(m@, key@, 0) >= 0 && entry_index(m@, key@, 0) < m@.len() && m@[entry_index(m@, key@, 0)].1 == *v,
            None => entry_index(m@, key@, 0) == -1,
        },
{
    let mut i: usize = 0;
    let k = String::from_str(key);
    while i < m.len()
        invariant
            i <= m@.len(),
            k@ == key@,
            entry_index(m@, key@, 0) == entry_index(m@, key@, i as int),
        decreases m@.len() - i,
    {
        if m[i].0 == k {
            assert(m@[i as int].0@ == key@);
            return Some(&m[i].1);
        }
        i = i + 1;
    }
    None
}

/// The tool calls of a message: none when absent; an error when not an
/// array; items that are not objects with a string id are skipped.
pub fn parse_tool_calls(value: Option<&JsonValue>) -> (r: Result<Vec<ToolCall>, EvaluateError>)
    ensures
        r is Ok <==> (value is None || value->0 is Array),
        r is Err ==> r matches Err(EvaluateError::InvalidMessage(_)),
        r matches Ok(cs) ==> value matches Some(v) ==> cs@.len() == declared_items(v->Array_0@).len()
            && forall|k: int| 0 <= k < cs@.len() ==> call_view(#[trigger] cs@[k]) == declared_items(v->Array_0@)[k],
        r matches Ok(cs) ==> value is None ==> cs@.len() == 0,
{
    let v = match value {
        None => {
            return Ok(Vec::new());
        },
        Some(v) => v,
    };
    let arr = match v {
        JsonValue::Array(a) => a,
        _ => {
            return Err(EvaluateError::InvalidMessage(String::from_str("tool_calls must be an array")));
        },
    };
    let mut out: Vec<ToolCall> = Vec::new();
    let mut i: usize = 0;
    while i < arr.len()
        invariant
            i <= arr@.len(),
            *v == JsonValue::Array(*arr),
            out@.len() == declared_items(arr@.subrange(0, i as int)).len(),
            forall|k: int| 0 <= k < out@.len() ==> call_view(#[trigger] out@[k]) == declared_items(arr@.subrange(0, i as int))[k],
        decreases arr@.len() - i,
    {
        proof {
            assert(arr@.subrange(0, i + 1).drop_last() == arr@.subrange(0, i as int));
            assert(arr@.subrange(0, i + 1).last() == arr@[i as int]);
        }
        match &arr[i] {
            JsonValue::Object(obj) => {
                match string_field_of(obj, "id") {
                    Some(id) => {
                        let kind = match string_field_of(obj, "type") {
                            Some(t) => t,
                            None => String::from_str("function"),
                        };
                        let mut function_name: Option<String> = None;
                        let mut function_arguments: Option<JsonValue> = None;
                        match object_field_of(obj, "function") {
                            Some(f) => {
                                function_name = string_field_of(f, "name");
                                function_arguments = match value_field_of(f, "arguments") {
                                    Some(a) => Some(a.deep_copy()),
                                    None => None,
                                };
                            },
                            None => {},
                        }
                        let mut custom_name: Option<String> = None;
                        let mut custom_input: Option<String> = None;
                        match object_field_of(obj, "custom") {
                            Some(c) => {
                                custom_name = string_field_of(c, "name");
                                custom_input = string_field_of(c, "input");
                            },
                            None => {},
                        }
                        let call = ToolCall { id, kind, function_name, function_arguments, custom_name, custom_input };
                        assert(declared_item(arr@[i as int]) == Some(call_view(call)));
                        out.push(call);
                    },
                    None => {},
                }
            },
            _ => {},
        }
        i = i + 1;
    }
    assert(arr@.subrange(0, arr@.len() as int) == arr@);
    Ok(out)
}

/// A JSON value that reads as a message: an object with a string role and
/// tool calls, if any, in an array.
pub open spec fn message_ok(v: JsonValue) -> bool {
    &&& v is Object
    &&& string_field(v->Object_0@, "role"@) is Some
    &&& (entry_index(v->Object_0@, "tool_calls"@, 0) == -1 || v->Object_0@[entry_index(v->Object_0@, "tool_calls"@, 0)].1 is Array)
}

/// The tool calls read from a message's `tool_calls` field.
pub open spec fn calls_match(calls: Seq<ToolCall>, f: Option<JsonValue>) -> bool {
    match f {
        Some(JsonValue::Array(a)) => calls.len() == declared_items(a@).len() && forall|k: int|
            0 <= k < calls.len() ==> call_view(#[trigger] calls[k]) == declared_items(a@)[k],
        _ => calls.len() == 0,
    }
}

/// A message read from JSON value `v`: its role, call id and name, a copy of
/// its content, and its tool calls.
pub open spec fn message_from(v: JsonValue, msg: ConversationMessage) -> bool {
    let m = v->Object_0@;
    &&& Some(msg.role@) == string_field(m, "role"@)
    &&& opt_view(msg.tool_call_id) == string_field(m, "tool_call_id"@)
    &&& opt_view(msg.function_name) == string_field(m, "name"@)
    &&& match entry_value(m, "content"@) {
        Some(c) => msg.content matches Some(x) && model(x) == model(c),
        None => msg.content is None,
    }
    &&& calls_match(msg.tool_calls@, entry_value(m, "tool_calls"@))
}

/// Messages read from JSON values; the first malformed one fails the whole.
pub fn parse_conversation(messages: &[JsonValue]) -> (r: Result<Vec<ConversationMessage>, EvaluateError>)
    ensures
        r is Ok <==> forall|k: int| 0 <= k < messages@.len() ==> message_ok(#[trigger] messages@[k]),
        r is Err ==> r matches Err(EvaluateError::InvalidMessage(_)),
        r matches Ok(ms) ==> ms@.len() == messages@.len() && forall|k: int| 0 <= k < ms@.len() ==> message_from(messages@[k], #[trigger] ms@[k]),
{
    let mut out: Vec<ConversationMessage> = Vec::new();
    let mut i: usize = 0;
    while i < messages.len()
        invariant
            i <= messages@.len(),
            out@.len() == i,
            forall|k: int| 0 <= k < i ==> message_ok(#[trigger] messages@[k]),
            forall|k: int| 0 <= k < i ==> message_from(messages@[k], #[trigger] out@[k]),
        decreases messages@.len() - i,
    {
        let obj = match &messages[i] {
            JsonValue::Object(o) => o,
            _ => {
                return Err(EvaluateError::InvalidMessage(String::from_str("message must be object")));
            },
        };
        let role = match string_field_of(obj, "role") {
            Some(r) => r,
            None => {
                return Err(EvaluateError::InvalidMessage(String::from_str("message.role is required")));
            },
        };
        let content = match value_field_of(obj, "content") {
            Some(c) => Some(c.deep_copy()),
            None => None,
        };
        let tool_call_id = string_field_of(obj, "tool_call_id");
        let function_name = string_field_of(obj, "name");
        let tool_calls = match parse_tool_calls(value_field_of(obj, "tool_calls")) {
            Ok(t) => t,
            Err(e) => {
                return Err(e);
            },
        };
        let msg = ConversationMessage { role, content, tool_call_id, tool_calls, function_name };
        assert(message_from(messages@[i as int], msg));
        out.push(msg);
        i = i + 1;
    }
    Ok(out)
}

} // verus!
