//! Citation markers in text, and the links they make to grounds.
use vstd::prelude::*;
use vstd::string::StringExecFns;
use crate::knowledge::opt_view;
use crate::knowledge::copy_opt;
use crate::models::CreatorType;
use crate::models::EvidenceType;
use crate::models::Ground;
use crate::models::GroundView;
use crate::models::LinkRole;
use crate::models::LinkSet;
use crate::models::LinkView;
use crate::models::Provenance;
use crate::models::StatementGroundLink;
use crate::models::grounds_view;
use crate::text::chars_of;
use crate::text::is_ascii_alnum;
use crate::text::is_ascii_alpha;
use crate::text::string_of_range;
use crate::text::views;
use crate::json::JsonValue;
use crate::json::same_top;
use crate::json::decimal;
use crate::json::decimal_string;
use crate::conversation::string_field;
use crate::conversation::string_field_of;

verus! {

/// A citation key starts with an ASCII letter and holds only ASCII letters,
/// digits, `_` and `-`.
pub open spec fn is_citation_key(k: Seq<char>) -> bool {
    &&& k.len() > 0
    &&& is_ascii_alpha(k[0])
    &&& forall|i: int| 1 <= i < k.len() ==> is_ascii_alnum(#[trigger] k[i]) || k[i] == '_' || k[i] == '-'
}

/// The index of the first `]` at or after `j`, or the length of `t`.
pub open spec fn close_from(t: Seq<char>, j: int) -> int
    decreases t.len() - j,
{
    if j < 0 || j >= t.len() {
        t.len() as int
    } else if t[j] == ']' {
        j
    } else {
        close_from(t, j + 1)
    }
}

/// The valid keys of the markers `[@key]` found scanning `t` from `i`; a scan
/// resumes after the `]` that closes each marker.
pub open spec fn marker_keys(t: Seq<char>, i: int) -> Seq<Seq<char>>
    decreases t.len() + 1 - i via marker_keys_decreases
{
    if i < 0 || i + 2 >= t.len() {
        seq![]
    } else if t[i] == '[' && t[i + 1] == '@' {
        let e = close_from(t, i + 2);
        if e < t.len() && e > i + 2 && is_citation_key(t.subrange(i + 2, e)) {
            seq![t.subrange(i + 2, e)] + marker_keys(t, e + 1)
        } else {
            marker_keys(t, e + 1)
        }
    } else {
        marker_keys(t, i + 1)
    }
}

/// `s` with every element after its first occurrence dropped.
pub open spec fn dedup(s: Seq<Seq<char>>) -> Seq<Seq<char>>
    decreases s.len(),
{
    if s.len() == 0 {
        s
    } else if dedup(s.drop_last()).contains(s.last()) {
        dedup(s.drop_last())
    } else {
        dedup(s.drop_last()).push(s.last())
    }
}

#[via_fn]
proof fn marker_keys_decreases(t: Seq<char>, i: int) {
    if 0 <= i && i + 2 < t.len() && t[i] == '[' && t[i + 1] == '@' {
        lemma_close_bounds(t, i + 2);
    }
}

/// The distinct citation keys of `t`, in order of first occurrence.
pub open spec fn citation_keys(t: Seq<char>) -> Seq<Seq<char>> {
    dedup(marker_keys(t, 0))
}

pub proof fn lemma_close_bounds(t: Seq<char>, j: int)
    requires
        0 <= j,
    ensures
        j <= close_from(t, j) <= t.len() || (j > t.len() && close_from(t, j) == t.len()),
        close_from(t, j) < t.len() ==> t[close_from(t, j)] == ']',
        forall|k: int| j <= k < close_from(t, j) ==> t[k] != ']',
    decreases t.len() - j,
{
    if j < t.len() && t[j] != ']' {
        lemma_close_bounds(t, j + 1);
    }
}

/// Whether `key` is a valid citation key.
pub fn is_valid_citation_key(key: &str) -> (r: bool)
    ensures
        r == is_citation_key(key@),
{
    let k = chars_of(key);
    if k.len() == 0 {
        return false;
    }
    let c0 = k[0];
    if !(('a' <= c0 && c0 <= 'z') || ('A' <= c0 && c0 <= 'Z')) {
        return false;
    }
    let mut i: usize = 1;
    while i < k.len()
        invariant
            1 <= i <= k@.len(),
            k@ == key@,
            forall|j: int| 1 <= j < i ==> is_ascii_alnum(#[trigger] k@[j]) || k@[j] == '_' || k@[j] == '-',
        decreases k@.len() - i,
    {
        let c = k[i];
        if !(('a' <= c && c <= 'z') || ('A' <= c && c <= 'Z') || ('0' <= c && c <= '9') || c == '_'
            || c == '-') {
            return false;
        }
        i = i + 1;
    }
    true
}

/// Whether some string of `v` equals `s`.
fn contains_string(v: &Vec<String>, s: &String) -> (r: bool)
    ensures
        r == views(v@).contains(s@),
{
    let mut i: usize = 0;
    while i < v.len()
        invariant
            i <= v@.len(),
            forall|j: int| 0 <= j < i ==> v@[j]@ != s@,
        decreases v@.len() - i,
    {
        if v[i] == *s {
            assert(views(v@)[i as int] == s@);
            return true;
        }
        i = i + 1;
    }
    proof {
        if views(v@).contains(s@) {
            let j = choose|j: int| 0 <= j < views(v@).len() && views(v@)[j] == s@;
            assert(v@[j]@ == s@);
        }
    }
    false
}

/// The distinct citation keys of `text`, in order of first occurrence.
pub fn extract_citation_keys(text: &str) -> (r: Vec<String>)
    ensures
        views(r@) == citation_keys(text@),
{
    let t = chars_of(text);
    let ghost tv = t@;
    let mut keys: Vec<String> = Vec::new();
    let ghost mut found: Seq<Seq<char>> = seq![];
    let mut i: usize = 0;
    while i < t.len() && t.len() - i > 2
        invariant
            tv == t@,
            tv == text@,
            i <= t@.len(),
            marker_keys(tv, 0) == found + marker_keys(tv, i as int),
            views(keys@) == dedup(found),
        decreases t@.len() - i,
    {
        if t[i] == '[' && t[i + 1] == '@' {
            let start = i + 2;
            let mut end = start;
            while end < t.len() && t[end] != ']'
                invariant
                    start <= end <= t@.len(),
                    close_from(tv, start as int) == close_from(tv, end as int),
                    tv == t@,
                decreases t@.len() - end,
            {
                end = end + 1;
            }
            let ghost rest = marker_keys(tv, end + 1);
            if end < t.len() && end > start {
                let cand = string_of_range(&t, start, end);
                if is_valid_citation_key(cand.as_str()) {
                    proof {
                        assert(marker_keys(tv, i as int) == seq![cand@] + rest);
                        assert(found + marker_keys(tv, i as int) == found.push(cand@) + rest);
                        assert(found.push(cand@).drop_last() == found);
                    }
                    if !contains_string(&keys, &cand) {
                        keys.push(cand);
                        proof {
                            assert(views(keys@) == views(keys@).drop_last().push(keys@.last()@));
                            assert(views(keys@).drop_last() =~= views(keys@.drop_last()));
                        }
                    }
                    proof {
                        found = found.push(cand@);
                    }
                } else {
                    assert(marker_keys(tv, i as int) == rest);
                }
            } else {
                assert(marker_keys(tv, i as int) == rest);
            }
            if end == t.len() {
                proof {
                    assert(marker_keys(tv, end + 1) == Seq::<Seq<char>>::empty());
                    assert(found + Seq::<Seq<char>>::empty() == found);
                }
                return keys;
            }
            i = end;
        }
        i = i + 1;
    }
    proof {
        assert(marker_keys(tv, i as int) == Seq::<Seq<char>>::empty());
        assert(found + Seq::<Seq<char>>::empty() == found);
    }
    keys
}

/// The link that citing `g` under `key` makes for statement `sid`.
pub open spec fn link_for(g: GroundView, key: Seq<char>, sid: Seq<char>) -> LinkView {
    LinkView {
        statement_id: sid,
        ground_id: g.ground_id,
        role: g.role,
        creator: g.creator,
        evidence_type: g.evidence_type,
        evidence_content: match g.evidence_content {
            Some(c) => Some(c),
            None => Some("citation_key="@ + key),
        },
        signature: g.signature,
    }
}

/// The links made for `key` by the grounds of `gs` that carry it, in order.
pub open spec fn links_for_key(gs: Seq<GroundView>, key: Seq<char>, sid: Seq<char>) -> Seq<LinkView>
    decreases gs.len(),
{
    if gs.len() == 0 {
        seq![]
    } else {
        let prev = links_for_key(gs.drop_last(), key, sid);
        if gs.last().citation_key == key {
            prev.push(link_for(gs.last(), key, sid))
        } else {
            prev
        }
    }
}

/// The links made for each key of `keys` in turn.
pub open spec fn links_for_keys(gs: Seq<GroundView>, keys: Seq<Seq<char>>, sid: Seq<char>) -> Seq<LinkView>
    decreases keys.len(),
{
    if keys.len() == 0 {
        seq![]
    } else {
        links_for_keys(gs, keys.drop_last(), sid) + links_for_key(gs, keys.last(), sid)
    }
}

/// A copy of a ground's link for `key`.
fn make_link(g: &Ground, key: &String, statement_id: &str) -> (r: StatementGroundLink)
    ensures
        r@ == link_for(g@, key@, statement_id@),
{
    let content = match &g.evidence_content {
        Some(c) => c.clone(),
        None => {
            let mut s = String::from_str("citation_key=");
            s.append(key.as_str());
            s
        },
    };
    StatementGroundLink {
        statement_id: String::from_str(statement_id),
        ground_id: g.ground_id.clone(),
        role: g.role,
        provenance: Provenance {
            creator: g.creator,
            evidence_type: g.evidence_type,
            evidence_content: Some(content),
            signature: copy_opt(&g.signature),
        },
    }
}

/// The links from statement `statement_id` to every ground that `text`
/// cites: keys in order of first occurrence, and for each key the grounds
/// that carry it in their given order. A key that no ground carries makes no
/// link.
pub fn build_links_from_grounds(text: &str, grounds: &[Ground], statement_id: &str) -> (r: LinkSet)
    ensures
        r@ == links_for_keys(grounds_view(grounds@), citation_keys(text@), statement_id@),
{
    let keys = extract_citation_keys(text);
    let ghost gv = grounds_view(grounds@);
    let mut links: Vec<StatementGroundLink> = Vec::new();
    let mut k: usize = 0;
    while k < keys.len()
        invariant
            k <= keys@.len(),
            gv == grounds_view(grounds@),
            views(keys@) == citation_keys(text@),
            links@.map_values(|l: StatementGroundLink| l@) == links_for_keys(
                gv,
                views(keys@).subrange(0, k as int),
                statement_id@,
            ),
        decreases keys@.len() - k,
    {
        let key = &keys[k];
        let ghost before = links@.map_values(|l: StatementGroundLink| l@);
        let mut j: usize = 0;
        while j < grounds.len()
            invariant
                j <= grounds@.len(),
                k < keys@.len(),
                *key == keys@[k as int],
                gv == grounds_view(grounds@),
                links@.map_values(|l: StatementGroundLink| l@) == before + links_for_key(
                    gv.subrange(0, j as int),
                    key@,
                    statement_id@,
                ),
            decreases grounds@.len() - j,
        {
            assert(gv.subrange(0, j + 1).drop_last() == gv.subrange(0, j as int));
            assert(gv.subrange(0, j + 1).last() == grounds@[j as int]@);
            if grounds[j].citation_key == *key {
                let l = make_link(&grounds[j], key, statement_id);
                let ghost prev = links@;
                links.push(l);
                assert(links@ == prev.push(l));
                assert(links@.map_values(|l: StatementGroundLink| l@) =~= prev.map_values(
                    |l: StatementGroundLink| l@,
                ).push(l@));
                assert(links@.map_values(|l: StatementGroundLink| l@) =~= before + links_for_key(
                    gv.subrange(0, j + 1),
                    key@,
                    statement_id@,
                ));
            }
            j = j + 1;
        }
        proof {
            assert(gv.subrange(0, grounds@.len() as int) == gv);
            let ks = views(keys@).subrange(0, k + 1);
            assert(ks.drop_last() == views(keys@).subrange(0, k as int));
            assert(ks.last() == key@);
        }
        k = k + 1;
    }
    proof {
        assert(views(keys@).subrange(0, keys@.len() as int) == views(keys@));
    }
    LinkSet { links }
}

/// The ground that a tool call's reference makes: cited by the call id.
pub open spec fn ref_ground(call_id: Seq<char>, ground_id: Seq<char>) -> GroundView {
    GroundView {
        citation_key: call_id,
        ground_id: ground_id,
        role: LinkRole::Supports,
        creator: CreatorType::ToolObserver,
        evidence_type: EvidenceType::Observation,
        evidence_content: Some("tool_call_id="@ + call_id),
        signature: None,
    }
}

/// The grounds of one call id's references, in order.
pub open spec fn ref_grounds_of(call_id: Seq<char>, ids: Seq<Seq<char>>) -> Seq<GroundView> {
    ids.map_values(|g: Seq<char>| ref_ground(call_id, g))
}

/// The grounds of all references, entry after entry.
pub open spec fn ref_grounds(refs: Seq<(String, Vec<String>)>) -> Seq<GroundView>
    decreases refs.len(),
{
    if refs.len() == 0 {
        seq![]
    } else {
        ref_grounds(refs.drop_last()) + ref_grounds_of(refs.last().0@, views(refs.last().1@))
    }
}

/// One ground for every id that a tool call produced, cited by the call id.
/// `tool_call_refs` pairs each call id with the ids it produced.
pub fn grounds_from_tool_call_refs(tool_call_refs: &Vec<(String, Vec<String>)>) -> (r: Vec<Ground>)
    ensures
        grounds_view(r@) == ref_grounds(tool_call_refs@),
{
    let mut out: Vec<Ground> = Vec::new();
    let mut k: usize = 0;
    while k < tool_call_refs.len()
        invariant
            k <= tool_call_refs@.len(),
            grounds_view(out@) == ref_grounds(tool_call_refs@.subrange(0, k as int)),
        decreases tool_call_refs@.len() - k,
    {
        let key = &tool_call_refs[k].0;
        let ids = &tool_call_refs[k].1;
        let ghost before = grounds_view(out@);
        let mut j: usize = 0;
        while j < ids.len()
            invariant
                j <= ids@.len(),
                k < tool_call_refs@.len(),
                *key == tool_call_refs@[k as int].0,
                *ids == tool_call_refs@[k as int].1,
                grounds_view(out@) == before + ref_grounds_of(key@, views(ids@).subrange(0, j as int)),
            decreases ids@.len() - j,
        {
            let mut content = String::from_str("tool_call_id=");
            content.append(key.as_str());
            let ghost prev = out@;
            let g = Ground {
                    citation_key: key.clone(),
                    ground_id: ids[j].clone(),
                    role: LinkRole::Supports,
                    creator: CreatorType::ToolObserver,
                    evidence_type: EvidenceType::Observation,
                    evidence_content: Some(content),
                    signature: None,
                };
            assert(g@ == ref_ground(key@, views(ids@)[j as int]));
            out.push(g);
            assert(grounds_view(out@) =~= grounds_view(prev).push(g@));
            assert(views(ids@).subrange(0, j + 1) == views(ids@).subrange(0, j as int).push(views(ids@)[j as int]));
            assert(grounds_view(out@) =~= before + ref_grounds_of(
                key@,
                views(ids@).subrange(0, j + 1),
            ));
            j = j + 1;
        }
        proof {
            assert(views(ids@).subrange(0, ids@.len() as int) == views(ids@));
            assert(tool_call_refs@.subrange(0, k + 1).drop_last() == tool_call_refs@.subrange(
                0,
                k as int,
            ));
        }
        k = k + 1;
    }
    proof {
        assert(tool_call_refs@.subrange(0, tool_call_refs@.len() as int) == tool_call_refs@);
    }
    out
}


/// The ground that an explicit grounds entry declares: an object with a
/// string citation key and ground id.
pub open spec fn payload_ground(item: JsonValue) -> Option<GroundView> {
    match item {
        JsonValue::Object(m) => if string_field(m@, "citation_key"@) is Some && string_field(m@, "ground_id"@) is Some {
            Some(GroundView {
                citation_key: string_field(m@, "citation_key"@)->0,
                ground_id: string_field(m@, "ground_id"@)->0,
                role: LinkRole::Supports,
                creator: CreatorType::UpstreamPipeline,
                evidence_type: EvidenceType::Observation,
                evidence_content: string_field(m@, "evidence_content"@),
                signature: string_field(m@, "signature"@),
            })
        } else {
            None
        },
        _ => None,
    }
}

/// The grounds that the well-formed entries of `items` declare, in order.
pub open spec fn payload_grounds(items: Seq<JsonValue>) -> Seq<GroundView>
    decreases items.len(),
{
    if items.len() == 0 {
        seq![]
    } else {
        match payload_ground(items.last()) {
            Some(g) => payload_grounds(items.drop_last()).push(g),
            None => payload_grounds(items.drop_last()),
        }
    }
}

/// Grounds from an explicit grounds array; malformed entries are dropped.
pub fn parse_grounds(payload: &[JsonValue]) -> (r: Vec<Ground>)
    ensures
        grounds_view(r@) == payload_grounds(payload@),
{
    let mut grounds: Vec<Ground> = Vec::new();
    let mut i: usize = 0;
    while i < payload.len()
        invariant
            i <= payload@.len(),
            grounds_view(grounds@) == payload_grounds(payload@.subrange(0, i as int)),
        decreases payload@.len() - i,
    {
        proof {
            let sub = payload@.subrange(0, i + 1);
            assert(sub.drop_last() == payload@.subrange(0, i as int));
            assert(sub.last() == payload@[i as int]);
        }
        match &payload[i] {
            JsonValue::Object(obj) => {
                let key = string_field_of(obj, "citation_key");
                let gid = string_field_of(obj, "ground_id");
                match (key, gid) {
                    (Some(citation_key), Some(ground_id)) => {
                        let g = Ground {
                            citation_key,
                            ground_id,
                            role: LinkRole::Supports,
                            creator: CreatorType::UpstreamPipeline,
                            evidence_type: EvidenceType::Observation,
                            evidence_content: string_field_of(obj, "evidence_content"),
                            signature: string_field_of(obj, "signature"),
                        };
                        let ghost prev = grounds@;
                        grounds.push(g);
                        assert(grounds_view(grounds@) =~= grounds_view(prev).push(g@));
                    },
                    _ => {},
                }
            },
            _ => {},
        }
        i = i + 1;
    }
    assert(payload@.subrange(0, payload@.len() as int) == payload@);
    grounds
}

/// The file kinds of typed citations.
pub open spec fn is_file_kind(k: Seq<char>) -> bool {
    k == "file_citation"@ || k == "container_file_citation"@ || k == "file_path"@
}

/// The ground id of a typed citation: its file id for the file kinds, its
/// URL for a URL citation; nothing for other kinds or a missing field.
pub open spec fn typed_citation_id(item: JsonValue) -> Option<Seq<char>> {
    match item {
        JsonValue::Object(m) => match string_field(m@, "type"@) {
            Some(k) => if is_file_kind(k) {
                string_field(m@, "file_id"@)
            } else if k == "url_citation"@ {
                string_field(m@, "url"@)
            } else {
                None
            },
            None => None,
        },
        _ => None,
    }
}

/// The ground id of a typed citation.
pub fn extract_ground_id(citation: &JsonValue) -> (r: Option<String>)
    ensures
        opt_view(r) == typed_citation_id(*citation),
{
    let obj = match citation {
        JsonValue::Object(o) => o,
        _ => {
            return None;
        },
    };
    let kind = match string_field_of(obj, "type") {
        Some(k) => k,
        None => {
            return None;
        },
    };
    if kind == String::from_str("file_citation") || kind == String::from_str("container_file_citation") || kind
        == String::from_str("file_path") {
        string_field_of(obj, "file_id")
    } else if kind == String::from_str("url_citation") {
        string_field_of(obj, "url")
    } else {
        None
    }
}

/// The typed citations of `items` that name a ground, in order.
pub open spec fn valid_citations(items: Seq<JsonValue>) -> Seq<JsonValue>
    decreases items.len(),
{
    if items.len() == 0 {
        seq![]
    } else if typed_citation_id(items.last()) is Some {
        valid_citations(items.drop_last()).push(items.last())
    } else {
        valid_citations(items.drop_last())
    }
}

/// The typed citations of `citations` of a known kind with their required
/// field, copied.
pub fn parse_openai_citations(citations: &[JsonValue]) -> (r: Vec<JsonValue>)
    ensures
        r@.len() == valid_citations(citations@).len(),
        forall|k: int| 0 <= k < r@.len() ==> same_top(valid_citations(citations@)[k], #[trigger] r@[k]),
        forall|k: int| 0 <= k < r@.len() ==> crate::json::model(#[trigger] r@[k]) == crate::json::model(valid_citations(citations@)[k]),
{
    let mut out: Vec<JsonValue> = Vec::new();
    let mut i: usize = 0;
    while i < citations.len()
        invariant
            i <= citations@.len(),
            out@.len() == valid_citations(citations@.subrange(0, i as int)).len(),
            forall|k: int| 0 <= k < out@.len() ==> same_top(valid_citations(citations@.subrange(0, i as int))[k], #[trigger] out@[k]),
            forall|k: int| 0 <= k < out@.len() ==> crate::json::model(#[trigger] out@[k]) == crate::json::model(valid_citations(citations@.subrange(0, i as int))[k]),
        decreases citations@.len() - i,
    {
        proof {
            let sub = citations@.subrange(0, i + 1);
            assert(sub.drop_last() == citations@.subrange(0, i as int));
            assert(sub.last() == citations@[i as int]);
        }
        if extract_ground_id(&citations[i]).is_some() {
            out.push(citations[i].deep_copy());
        }
        i = i + 1;
    }
    assert(citations@.subrange(0, citations@.len() as int) == citations@);
    out
}

/// The ground of a typed citation naming `id`.
pub open spec fn typed_ground(id: Seq<char>) -> GroundView {
    GroundView {
        citation_key: id,
        ground_id: id,
        role: LinkRole::Supports,
        creator: CreatorType::UpstreamPipeline,
        evidence_type: EvidenceType::Observation,
        evidence_content: Some("openai_citation"@),
        signature: None,
    }
}

/// The grounds of the typed citations of `items` that name one, in order.
pub open spec fn typed_grounds(items: Seq<JsonValue>) -> Seq<GroundView>
    decreases items.len(),
{
    if items.len() == 0 {
        seq![]
    } else {
        match typed_citation_id(items.last()) {
            Some(id) => typed_grounds(items.drop_last()).push(typed_ground(id)),
            None => typed_grounds(items.drop_last()),
        }
    }
}

/// One ground per typed citation that names a ground, keyed by that id.
pub fn grounds_from_openai_citations(citations: &[JsonValue]) -> (r: Vec<Ground>)
    ensures
        grounds_view(r@) == typed_grounds(citations@),
{
    let mut grounds: Vec<Ground> = Vec::new();
    let mut i: usize = 0;
    while i < citations.len()
        invariant
            i <= citations@.len(),
            grounds_view(grounds@) == typed_grounds(citations@.subrange(0, i as int)),
        decreases citations@.len() - i,
    {
        proof {
            let sub = citations@.subrange(0, i + 1);
            assert(sub.drop_last() == citations@.subrange(0, i as int));
            assert(sub.last() == citations@[i as int]);
        }
        match extract_ground_id(&citations[i]) {
            Some(ground_id) => {
                let g = Ground {
                    citation_key: ground_id.clone(),
                    ground_id,
                    role: LinkRole::Supports,
                    creator: CreatorType::UpstreamPipeline,
                    evidence_type: EvidenceType::Observation,
                    evidence_content: Some(String::from_str("openai_citation")),
                    signature: None,
                };
                let ghost prev = grounds@;
                grounds.push(g);
                assert(grounds_view(grounds@) =~= grounds_view(prev).push(g@));
            },
            None => {},
        }
        i = i + 1;
    }
    assert(citations@.subrange(0, citations@.len() as int) == citations@);
    grounds
}

/// The links of the typed citations of `items` that name a ground; each
/// records the citation's position among all the citations.
pub open spec fn typed_links(items: Seq<JsonValue>, sid: Seq<char>) -> Seq<LinkView>
    decreases items.len(),
{
    if items.len() == 0 {
        seq![]
    } else {
        match typed_citation_id(items.last()) {
            Some(id) => typed_links(items.drop_last(), sid).push(LinkView {
                statement_id: sid,
                ground_id: id,
                role: LinkRole::Supports,
                creator: CreatorType::UpstreamPipeline,
                evidence_type: EvidenceType::Observation,
                evidence_content: Some("openai_citation["@ + decimal((items.len() - 1) as nat) + "]"@),
                signature: None,
            }),
            None => typed_links(items.drop_last(), sid),
        }
    }
}

/// Links from statement `statement_id` to every ground that a typed
/// citation names.
pub fn link_set_from_openai_citations(citations: &[JsonValue], statement_id: &str) -> (r: LinkSet)
    ensures
        r@ == typed_links(citations@, statement_id@),
{
    let mut links: Vec<StatementGroundLink> = Vec::new();
    let mut i: usize = 0;
    while i < citations.len()
        invariant
            i <= citations@.len(),
            links@.map_values(|l: StatementGroundLink| l@) == typed_links(citations@.subrange(0, i as int), statement_id@),
        decreases citations@.len() - i,
    {
        proof {
            let sub = citations@.subrange(0, i + 1);
            assert(sub.drop_last() == citations@.subrange(0, i as int));
            assert(sub.last() == citations@[i as int]);
            assert(sub.len() - 1 == i);
        }
        match extract_ground_id(&citations[i]) {
            Some(ground_id) => {
                let mut content = String::from_str("openai_citation[");
                content.append(decimal_string(i).as_str());
                content.append("]");
                let l = StatementGroundLink {
                    statement_id: String::from_str(statement_id),
                    ground_id,
                    role: LinkRole::Supports,
                    provenance: Provenance {
                        creator: CreatorType::UpstreamPipeline,
                        evidence_type: EvidenceType::Observation,
                        evidence_content: Some(content),
                        signature: None,
                    },
                };
                let ghost prev = links@;
                links.push(l);
                assert(links@.map_values(|l: StatementGroundLink| l@) =~= prev.map_values(|l: StatementGroundLink| l@).push(l@));
            },
            None => {},
        }
        i = i + 1;
    }
    assert(citations@.subrange(0, citations@.len() as int) == citations@);
    LinkSet { links }
}

/// Grounds from a grounds payload, explicit entries first; a payload with
/// no explicit entry is read as typed citations; legacy typed citations
/// follow. Legacy links are not read.
pub fn coerce_grounds_input(
    grounds_payload: Option<&[JsonValue]>,
    legacy_openai_citations: Option<&[JsonValue]>,
    legacy_links: Option<&JsonValue>,
) -> (r: Vec<Ground>)
    ensures
        grounds_view(r@) == (match grounds_payload {
            Some(p) => if payload_grounds(p@).len() > 0 { payload_grounds(p@) } else { typed_grounds(p@) },
            None => seq![],
        }) + (match legacy_openai_citations {
            Some(c) => typed_grounds(c@),
            None => seq![],
        }),
{
    let mut normalized: Vec<Ground> = Vec::new();
    match grounds_payload {
        Some(payload) => {
            let explicit = parse_grounds(payload);
            if explicit.len() > 0 {
                normalized = explicit;
            } else {
                normalized = grounds_from_openai_citations(payload);
            }
        },
        None => {},
    }
    let ghost first = grounds_view(normalized@);
    match legacy_openai_citations {
        Some(citations) => {
            let mut typed = grounds_from_openai_citations(citations);
            let ghost t = grounds_view(typed@);
            let ghost prev = normalized@;
            normalized.append(&mut typed);
            assert(grounds_view(normalized@) =~= grounds_view(prev) + t);
        },
        None => {
            assert(grounds_view(normalized@) =~= first + Seq::<GroundView>::empty());
        },
    }
    normalized
}
} // verus!
