//! Which modalities a statement may use, given its grounding.
use vstd::prelude::*;
use crate::knowledge::GroundSet;
use crate::knowledge::KnowledgeNode;
use crate::knowledge::License;
use crate::knowledge::Modality;
use crate::knowledge::Scope;
use crate::knowledge::has_scope_in;
use crate::knowledge::resolve_in;
use crate::knowledge::strong_in;
use crate::models::LinkRole;
use crate::models::LinkSet;
use crate::models::LinkView;
use crate::json::JsonValue;
use crate::json::decimal;
use crate::json::decimal_string;

verus! {

/// Assertive, conditional and refusal.
pub open spec fn full_license() -> Set<Modality> {
    set![Modality::Assertive, Modality::Conditional, Modality::Refusal]
}

/// Conditional and refusal.
pub open spec fn hedged_license() -> Set<Modality> {
    set![Modality::Conditional, Modality::Refusal]
}

/// Refusal alone.
pub open spec fn refusal_license() -> Set<Modality> {
    set![Modality::Refusal]
}

/// The license from raw grounding: refusal only without a factual node,
/// everything with a strong factual node, else conditional and refusal.
pub open spec fn conservative_license(ns: Seq<KnowledgeNode>) -> Set<Modality> {
    if ns.len() == 0 || !has_scope_in(ns, Scope::Factual) {
        refusal_license()
    } else if strong_in(ns, Scope::Factual) {
        full_license()
    } else {
        hedged_license()
    }
}

/// Link `l` supports the statement and resolves in `ns` to a factual node.
pub open spec fn cites_factual(ns: Seq<KnowledgeNode>, l: LinkView) -> bool {
    &&& l.role == LinkRole::Supports
    &&& resolve_in(ns, l.ground_id) matches Some(n)
    &&& n.scope == Scope::Factual
}

/// Link `l` supports the statement and resolves in `ns` to a strong factual node.
pub open spec fn cites_strong_factual(ns: Seq<KnowledgeNode>, l: LinkView) -> bool {
    &&& cites_factual(ns, l)
    &&& resolve_in(ns, l.ground_id)->0.strength@ == "strong"@
}

/// The license from citation links: everything when a supporting link cites a
/// strong factual node, conditional and refusal when one cites only a weak
/// factual node, else refusal only.
pub open spec fn linked_license(ns: Seq<KnowledgeNode>, ls: Seq<LinkView>) -> Set<Modality> {
    if exists|i: int| 0 <= i < ls.len() && cites_strong_factual(ns, #[trigger] ls[i]) {
        full_license()
    } else if exists|i: int| 0 <= i < ls.len() && cites_factual(ns, #[trigger] ls[i]) {
        hedged_license()
    } else {
        refusal_license()
    }
}

/// The license of a ground set, from the links when there are any.
pub open spec fn derived_license(ns: Seq<KnowledgeNode>, links: Option<Seq<LinkView>>) -> Set<Modality> {
    match links {
        Some(ls) => linked_license(ns, ls),
        None => conservative_license(ns),
    }
}

/// A license that permits `ms`, which are listed in order without repeats.
pub fn license_from(ms: &[Modality]) -> (r: License)
    ensures
        r.permitted_modalities@ == ms@,
        r@ == ms@.to_set(),
{
    let mut v: Vec<Modality> = Vec::new();
    let mut i: usize = 0;
    while i < ms.len()
        invariant
            i <= ms@.len(),
            v@ == ms@.subrange(0, i as int),
        decreases ms@.len() - i,
    {
        v.push(ms[i]);
        i = i + 1;
    }
    assert(v@ == ms@);
    License { permitted_modalities: v }
}

fn full() -> (r: License)
    ensures
        r@ == full_license(),
{
    let r = license_from(&[Modality::Assertive, Modality::Conditional, Modality::Refusal]);
    assert(r@ =~= full_license()) by {
        assert(r.permitted_modalities@[0] == Modality::Assertive);
        assert(r.permitted_modalities@[1] == Modality::Conditional);
        assert(r.permitted_modalities@[2] == Modality::Refusal);
    }
    r
}

fn hedged() -> (r: License)
    ensures
        r@ == hedged_license(),
{
    let r = license_from(&[Modality::Conditional, Modality::Refusal]);
    assert(r@ =~= hedged_license()) by {
        assert(r.permitted_modalities@[0] == Modality::Conditional);
        assert(r.permitted_modalities@[1] == Modality::Refusal);
    }
    r
}

fn refusal_only() -> (r: License)
    ensures
        r@ == refusal_license(),
{
    let r = license_from(&[Modality::Refusal]);
    assert(r@ =~= refusal_license()) by {
        assert(r.permitted_modalities@[0] == Modality::Refusal);
    }
    r
}

/// Derives licenses from grounding.
pub struct LicenseDeriver;

impl LicenseDeriver {
    /// The license of `ground_set`: from the citation links when given,
    /// else conservatively from the grounding alone.
    pub fn derive(&self, ground_set: &GroundSet, links: Option<&LinkSet>) -> (r: License)
        ensures
            r@ == derived_license(
                ground_set.nodes@,
                match links {
                    Some(l) => Some(l@),
                    None => None,
                },
            ),
    {
        match links {
            Some(link_set) => self.derive_with_links(ground_set, link_set),
            None => self.derive_conservative(ground_set),
        }
    }

    fn derive_conservative(&self, ground_set: &GroundSet) -> (r: License)
        ensures
            r@ == conservative_license(ground_set.nodes@),
    {
        if ground_set.is_empty() {
            return refusal_only();
        }
        match ground_set.get_scope_strength(Scope::Factual) {
            None => refusal_only(),
            Some(s) => {
                let strong = String::from_str("strong");
                if s == strong {
                    full()
                } else {
                    hedged()
                }
            },
        }
    }

    fn derive_with_links(&self, ground_set: &GroundSet, links: &LinkSet) -> (r: License)
        ensures
            r@ == linked_license(ground_set.nodes@, links@),
    {
        let ghost ns = ground_set.nodes@;
        let ghost ls = links@;
        let mut any_factual = false;
        let mut i: usize = 0;
        while i < links.links.len()
            invariant
                i <= links.links@.len(),
                ns == ground_set.nodes@,
                ls == links@,
                ls.len() == links.links@.len(),
                forall|j: int| 0 <= j < i ==> !cites_strong_factual(ns, #[trigger] ls[j]),
                any_factual == exists|j: int| 0 <= j < i && cites_factual(ns, #[trigger] ls[j]),
            decreases links.links@.len() - i,
        {
            let link = &links.links[i];
            assert(ls[i as int] == link@);
            if link.role == LinkRole::Supports {
                match ground_set.resolve_ground(link.ground_id.as_str()) {
                    Some(g) => {
                        if g.scope == Scope::Factual {
                            if g.is_strong() {
                                return full();
                            }
                            any_factual = true;
                        }
                    },
                    None => {},
                }
            }
            i = i + 1;
        }
        if any_factual {
            hedged()
        } else {
            refusal_only()
        }
    }
}


/// How many links support the statement.
pub open spec fn supports_count(ls: Seq<LinkView>) -> nat
    decreases ls.len(),
{
    if ls.len() == 0 {
        0
    } else {
        supports_count(ls.drop_last()) + if ls.last().role == LinkRole::Supports { 1nat } else { 0nat }
    }
}

/// The trace of a derivation: mode, ground set size and emptiness, the
/// factual scope's presence, strength and strong nodes, the permitted
/// modalities and, with links, how many support the statement.
pub open spec fn license_trace(v: JsonValue, ns: Seq<KnowledgeNode>, links: Option<Seq<LinkView>>, lic: License) -> bool {
    v matches JsonValue::Object(es) && {
        &&& es@.len() == (if links is Some { 6int } else { 5 })
        &&& es@[0].0@ == "factual"@
        &&& (es@[0].1 matches JsonValue::Object(f) && f@.len() == 3
            && f@[0].0@ == "has_strong"@ && f@[0].1 == JsonValue::Bool(strong_in(ns, Scope::Factual))
            && f@[1].0@ == "present"@ && f@[1].1 == JsonValue::Bool(has_scope_in(ns, Scope::Factual))
            && f@[2].0@ == "strength"@ && (if !has_scope_in(ns, Scope::Factual) {
                f@[2].1 is Null
            } else if strong_in(ns, Scope::Factual) {
                f@[2].1 matches JsonValue::String(t) && t@ == "strong"@
            } else {
                f@[2].1 matches JsonValue::String(t) && t@ == "weak"@
            }))
        &&& es@[1].0@ == "ground_set_size"@ && (es@[1].1 matches JsonValue::Number(t) && t@ == decimal(ns.len()))
        &&& es@[2].0@ == "is_empty"@ && es@[2].1 == JsonValue::Bool(ns.len() == 0)
        &&& es@[3].0@ == "mode"@ && (es@[3].1 matches JsonValue::String(t) && t@ == (if links is Some { "links"@ } else { "conservative"@ }))
        &&& es@[4].0@ == "permitted_modalities"@ && (es@[4].1 matches JsonValue::Array(a) && a@.len() == lic.permitted_modalities@.len()
            && forall|i: int| 0 <= i < a@.len() ==> (#[trigger] a@[i] matches JsonValue::String(t) && t@
                == crate::knowledge::modality_name(lic.permitted_modalities@[i])))
        &&& links matches Some(ls) ==> es@[5].0@ == "supports_links_count"@ && (es@[5].1 matches JsonValue::Number(t) && t@ == decimal(supports_count(ls)))
    }
}

impl LicenseDeriver {
    /// The license, with a trace of how it was derived.
    pub fn derive_with_trace(&self, ground_set: &GroundSet, links: Option<&LinkSet>) -> (r: (License, JsonValue))
        ensures
            r.0@ == derived_license(
                ground_set.nodes@,
                match links {
                    Some(l) => Some(l@),
                    None => None,
                },
            ),
            license_trace(r.1, ground_set.nodes@, match links {
                Some(l) => Some(l@),
                None => None,
            }, r.0),
    {
        let license = self.derive(ground_set, links);
        let mut factual: Vec<(String, JsonValue)> = Vec::new();
        factual.push((String::from_str("has_strong"), JsonValue::Bool(ground_set.has_strong_in_scope(Scope::Factual))));
        factual.push((String::from_str("present"), JsonValue::Bool(ground_set.has_scope(Scope::Factual))));
        let strength = match ground_set.get_scope_strength(Scope::Factual) {
            Some(v) => JsonValue::String(v),
            None => JsonValue::Null,
        };
        factual.push((String::from_str("strength"), strength));
        let mut obj: Vec<(String, JsonValue)> = Vec::new();
        obj.push((String::from_str("factual"), JsonValue::Object(factual)));
        obj.push((String::from_str("ground_set_size"), JsonValue::Number(decimal_string(ground_set.nodes.len()))));
        obj.push((String::from_str("is_empty"), JsonValue::Bool(ground_set.is_empty())));
        let mode = match links {
            Some(_) => "links",
            None => "conservative",
        };
        obj.push((String::from_str("mode"), JsonValue::String(String::from_str(mode))));
        let mut names: Vec<JsonValue> = Vec::new();
        let mut i: usize = 0;
        while i < license.permitted_modalities.len()
            invariant
                i <= license.permitted_modalities@.len(),
                names@.len() == i,
                forall|k: int| 0 <= k < i ==> (#[trigger] names@[k] matches JsonValue::String(t) && t@
                    == crate::knowledge::modality_name(license.permitted_modalities@[k])),
            decreases license.permitted_modalities@.len() - i,
        {
            names.push(JsonValue::String(String::from_str(license.permitted_modalities[i].as_str())));
            i = i + 1;
        }
        obj.push((String::from_str("permitted_modalities"), JsonValue::Array(names)));
        match links {
            Some(link_set) => {
                let mut count: usize = 0;
                let mut k: usize = 0;
                while k < link_set.links.len()
                    invariant
                        k <= link_set.links@.len(),
                        count == supports_count(link_set@.subrange(0, k as int)),
                        count <= k,
                    decreases link_set.links@.len() - k,
                {
                    proof {
                        let sub = link_set@.subrange(0, k + 1);
                        assert(sub.drop_last() == link_set@.subrange(0, k as int));
                        assert(sub.last() == link_set.links@[k as int]@);
                    }
                    if link_set.links[k].role == LinkRole::Supports {
                        count = count + 1;
                    }
                    k = k + 1;
                }
                assert(link_set@.subrange(0, link_set.links@.len() as int) == link_set@);
                obj.push((String::from_str("supports_links_count"), JsonValue::Number(decimal_string(count))));
            },
            None => {},
        }
        proof {
            reveal_strlit("strong");
            reveal_strlit("weak");
        }
        (license, JsonValue::Object(obj))
    }
}
} // verus!
