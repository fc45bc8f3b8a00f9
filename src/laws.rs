//! Properties that relate the pipeline's parts, proved over their
//! specifications.
use vstd::prelude::*;
use crate::axiom_checker::axiom_outcome;
use crate::citations::citation_keys;
use crate::citations::dedup;
use crate::citations::is_citation_key;
use crate::citations::link_for;
use crate::citations::links_for_key;
use crate::citations::links_for_keys;
use crate::citations::marker_keys;
use crate::citations::close_from;
use crate::evaluator::licensed_for;
use crate::evaluator::overall;
use crate::evaluator::retry_for;
use crate::evaluator::statement_modality;
use crate::evaluator::statement_outcome;
use crate::knowledge::EvaluationStatus;
use crate::knowledge::KnowledgeNode;
use crate::knowledge::Modality;
use crate::knowledge::Scope;
use crate::license_deriver::conservative_license;
use crate::license_deriver::full_license;
use crate::models::GroundView;
use crate::models::LinkView;

verus! {

proof fn lemma_dedup_distinct(s: Seq<Seq<char>>)
    ensures
        forall|i: int, j: int| 0 <= i < j < dedup(s).len() ==> dedup(s)[i] != dedup(s)[j],
        forall|i: int| 0 <= i < dedup(s).len() ==> s.contains(#[trigger] dedup(s)[i]),
    decreases s.len(),
{
    if s.len() > 0 {
        let p = s.drop_last();
        lemma_dedup_distinct(p);
        assert forall|i: int| 0 <= i < dedup(s).len() implies s.contains(#[trigger] dedup(s)[i]) by {
            if i < dedup(p).len() {
                assert(p.contains(dedup(p)[i]));
                let k = choose|k: int| 0 <= k < p.len() && p[k] == dedup(p)[i];
                assert(s[k] == p[k]);
            } else {
                assert(s[s.len() - 1] == s.last());
            }
        }
    }
}

proof fn lemma_marker_keys_valid(t: Seq<char>, i: int)
    ensures
        forall|k: int| 0 <= k < marker_keys(t, i).len() ==> is_citation_key(#[trigger] marker_keys(t, i)[k]),
    decreases t.len() + 1 - i,
{
    if !(i < 0 || i + 2 >= t.len()) {
        if t[i] == '[' && t[i + 1] == '@' {
            crate::citations::lemma_close_bounds(t, i + 2);
            let e = close_from(t, i + 2);
            lemma_marker_keys_valid(t, e + 1);
            let rest = marker_keys(t, e + 1);
            if e < t.len() && e > i + 2 && is_citation_key(t.subrange(i + 2, e)) {
                let m = marker_keys(t, i);
                assert(m == seq![t.subrange(i + 2, e)] + rest);
                assert forall|k: int| 0 <= k < m.len() implies is_citation_key(#[trigger] m[k]) by {
                    if k > 0 {
                        assert(m[k] == rest[k - 1]);
                    }
                }
            } else {
                assert(marker_keys(t, i) == rest);
            }
        } else {
            lemma_marker_keys_valid(t, i + 1);
            assert(marker_keys(t, i) == marker_keys(t, i + 1));
        }
    } else {
        assert(marker_keys(t, i).len() == 0);
    }
}

/// The citation keys of a text are distinct, each a valid key, and each
/// one that the text cites.
pub proof fn law_citation_keys_distinct(t: Seq<char>)
    ensures
        forall|i: int, j: int| 0 <= i < j < citation_keys(t).len() ==> citation_keys(t)[i] != citation_keys(t)[j],
        forall|i: int| 0 <= i < citation_keys(t).len() ==> is_citation_key(#[trigger] citation_keys(t)[i]),
        forall|i: int| 0 <= i < citation_keys(t).len() ==> marker_keys(t, 0).contains(#[trigger] citation_keys(t)[i]),
{
    lemma_dedup_distinct(marker_keys(t, 0));
    lemma_marker_keys_valid(t, 0);
    assert forall|i: int| 0 <= i < citation_keys(t).len() implies is_citation_key(#[trigger] citation_keys(t)[i]) by {
        let k = choose|k: int| 0 <= k < marker_keys(t, 0).len() && marker_keys(t, 0)[k] == citation_keys(t)[i];
    }
}

/// The index of the first occurrence of `x` in `s`, or -1.
pub open spec fn first_pos(s: Seq<Seq<char>>, x: Seq<char>) -> int
    decreases s.len(),
{
    if s.len() == 0 {
        -1
    } else if first_pos(s.drop_last(), x) >= 0 {
        first_pos(s.drop_last(), x)
    } else if s.last() == x {
        s.len() - 1
    } else {
        -1
    }
}

proof fn lemma_first_pos(s: Seq<Seq<char>>, x: Seq<char>)
    ensures
        -1 <= first_pos(s, x) < s.len(),
        (first_pos(s, x) >= 0) == s.contains(x),
    decreases s.len(),
{
    if s.len() > 0 {
        let p = s.drop_last();
        lemma_first_pos(p, x);
        if p.contains(x) {
            let k = choose|k: int| 0 <= k < p.len() && p[k] == x;
            assert(s[k] == x);
        }
        if s.contains(x) && !p.contains(x) {
            let k = choose|k: int| 0 <= k < s.len() && s[k] == x;
            if k < p.len() {
                assert(p[k] == x);
            }
        }
        if s.last() == x {
            assert(s[s.len() - 1] == x);
        }
    }
}

proof fn lemma_dedup_covers(s: Seq<Seq<char>>, x: Seq<char>)
    requires
        s.contains(x),
    ensures
        dedup(s).contains(x),
    decreases s.len(),
{
    let p = s.drop_last();
    let k = choose|k: int| 0 <= k < s.len() && s[k] == x;
    if k < p.len() {
        assert(p[k] == x);
        lemma_dedup_covers(p, x);
        let d = dedup(p);
        let i = choose|i: int| 0 <= i < d.len() && d[i] == x;
        if !d.contains(s.last()) {
            assert(dedup(s)[i] == x);
        }
    } else {
        if dedup(p).contains(s.last()) {
        } else {
            assert(dedup(s)[dedup(s).len() - 1] == x);
        }
    }
}

proof fn lemma_dedup_order(s: Seq<Seq<char>>, i: int, j: int)
    requires
        0 <= i < j < dedup(s).len(),
    ensures
        first_pos(s, dedup(s)[i]) >= 0,
        first_pos(s, dedup(s)[i]) < first_pos(s, dedup(s)[j]),
    decreases s.len(),
{
    let p = s.drop_last();
    lemma_dedup_distinct(p);
    lemma_first_pos(p, dedup(s)[i]);
    lemma_first_pos(p, dedup(s)[j]);
    lemma_first_pos(s, dedup(s)[i]);
    lemma_first_pos(s, dedup(s)[j]);
    if j < dedup(p).len() {
        lemma_dedup_order(p, i, j);
        assert(dedup(s)[i] == dedup(p)[i] && dedup(s)[j] == dedup(p)[j]);
        assert(p.contains(dedup(p)[i]) && p.contains(dedup(p)[j]));
    } else {
        assert(dedup(s)[i] == dedup(p)[i]);
        assert(p.contains(dedup(p)[i]));
        assert(dedup(s)[j] == s.last());
        if p.contains(s.last()) {
            lemma_dedup_covers(p, s.last());
        }
    }
}

/// The citation keys of a text come in the order of the first recognised
/// marker that cites each: the key listed earlier was cited first.
pub proof fn law_citation_keys_in_first_occurrence_order(t: Seq<char>, i: int, j: int)
    requires
        0 <= i < j < citation_keys(t).len(),
    ensures
        first_pos(marker_keys(t, 0), citation_keys(t)[i]) >= 0,
        first_pos(marker_keys(t, 0), citation_keys(t)[i]) < first_pos(marker_keys(t, 0), citation_keys(t)[j]),
{
    lemma_dedup_order(marker_keys(t, 0), i, j);
}

proof fn lemma_links_for_key(gs: Seq<GroundView>, key: Seq<char>, sid: Seq<char>)
    ensures
        forall|k: int| 0 <= k < links_for_key(gs, key, sid).len() ==> exists|g: int| 0 <= g < gs.len() && gs[g].citation_key == key
            && #[trigger] links_for_key(gs, key, sid)[k] == link_for(gs[g], key, sid),
        (forall|g: int| 0 <= g < gs.len() ==> gs[g].citation_key != key) ==> links_for_key(gs, key, sid).len() == 0,
    decreases gs.len(),
{
    if gs.len() > 0 {
        let p = gs.drop_last();
        lemma_links_for_key(p, key, sid);
        assert forall|k: int| 0 <= k < links_for_key(gs, key, sid).len() implies exists|g: int| 0 <= g < gs.len() && gs[g].citation_key == key
            && #[trigger] links_for_key(gs, key, sid)[k] == link_for(gs[g], key, sid) by {
            if k < links_for_key(p, key, sid).len() {
                let g = choose|g: int| 0 <= g < p.len() && p[g].citation_key == key && links_for_key(p, key, sid)[k] == link_for(p[g], key, sid);
                assert(gs[g] == p[g]);
            } else {
                assert(gs[gs.len() - 1] == gs.last());
            }
        }
        if forall|g: int| 0 <= g < gs.len() ==> gs[g].citation_key != key {
            assert forall|g: int| 0 <= g < p.len() implies p[g].citation_key != key by {
                assert(p[g] == gs[g]);
            }
            assert(gs.last() == gs[gs.len() - 1]);
        }
    }
}

/// Every link cites, under one of the text's citation keys, a ground that
/// carries that key; a key that no ground carries makes no link.
pub proof fn law_links_only_for_grounded_keys(gs: Seq<GroundView>, keys: Seq<Seq<char>>, sid: Seq<char>)
    ensures
        forall|k: int| 0 <= k < links_for_keys(gs, keys, sid).len() ==> exists|g: int, c: int| 0 <= g < gs.len() && 0 <= c < keys.len()
            && gs[g].citation_key == keys[c] && #[trigger] links_for_keys(gs, keys, sid)[k] == link_for(gs[g], keys[c], sid),
        forall|c: int| 0 <= c < keys.len() && (forall|g: int| 0 <= g < gs.len() ==> gs[g].citation_key != keys[c])
            ==> #[trigger] links_for_key(gs, keys[c], sid).len() == 0,
    decreases keys.len(),
{
    assert forall|c: int| 0 <= c < keys.len() && (forall|g: int| 0 <= g < gs.len() ==> gs[g].citation_key != keys[c])
        implies #[trigger] links_for_key(gs, keys[c], sid).len() == 0 by {
        lemma_links_for_key(gs, keys[c], sid);
    }
    if keys.len() > 0 {
        let p = keys.drop_last();
        law_links_only_for_grounded_keys(gs, p, sid);
        lemma_links_for_key(gs, keys.last(), sid);
        let prev = links_for_keys(gs, p, sid);
        let tail = links_for_key(gs, keys.last(), sid);
        assert forall|k: int| 0 <= k < links_for_keys(gs, keys, sid).len() implies exists|g: int, c: int| 0 <= g < gs.len() && 0 <= c < keys.len()
            && gs[g].citation_key == keys[c] && #[trigger] links_for_keys(gs, keys, sid)[k] == link_for(gs[g], keys[c], sid) by {
            if k < prev.len() {
                assert(links_for_keys(gs, keys, sid)[k] == prev[k]);
                let (g, c) = choose|g: int, c: int| 0 <= g < gs.len() && 0 <= c < p.len() && gs[g].citation_key == p[c] && prev[k] == link_for(gs[g], p[c], sid);
                assert(keys[c] == p[c]);
            } else {
                assert(links_for_keys(gs, keys, sid)[k] == tail[k - prev.len()]);
                let g = choose|g: int| 0 <= g < gs.len() && gs[g].citation_key == keys.last() && tail[k - prev.len()] == link_for(gs[g], keys.last(), sid);
                assert(keys[keys.len() - 1] == keys.last());
            }
        }
    }
}

/// A refusal is acceptable whatever its license, conditions and grounding;
/// as the only statement it makes the response licensed, with no retry.
pub proof fn law_refusal_always_acceptable(
    conditions: Seq<Seq<char>>,
    lic: Set<Modality>,
    ns: Seq<KnowledgeNode>,
)
    ensures
        axiom_outcome(Some(Modality::Refusal), conditions, lic, ns).0 == EvaluationStatus::Acceptable,
        axiom_outcome(Some(Modality::Refusal), conditions, lic, ns).1 is None,
        overall(seq![EvaluationStatus::Acceptable]) == EvaluationStatus::Acceptable,
        licensed_for(overall(seq![EvaluationStatus::Acceptable])),
        !retry_for(overall(seq![EvaluationStatus::Acceptable])),
{
    let ss = seq![EvaluationStatus::Acceptable];
    assert(!crate::evaluator::has_status(ss, EvaluationStatus::ViolatesNorm));
    assert(!crate::evaluator::has_status(ss, EvaluationStatus::IllFormed));
    assert(!crate::evaluator::has_status(ss, EvaluationStatus::Underdetermined));
    assert(!crate::evaluator::has_status(ss, EvaluationStatus::Unsupported));
    assert(!crate::evaluator::has_status(ss, EvaluationStatus::ConditionallyAcceptable));
}

/// A response whose statement is a refusal is acceptable over any nodes and
/// links.
pub proof fn law_refusal_statement_acceptable(text: Seq<char>, ns: Seq<KnowledgeNode>, links: Option<Seq<LinkView>>)
    requires
        statement_modality(text) == Modality::Refusal,
    ensures
        statement_outcome(text, ns, links).0 == EvaluationStatus::Acceptable,
        statement_outcome(text, ns, links).1 is None,
{
}

/// Conservatively, no grounding permits neither assertive nor conditional
/// statements; adding a strong factual node to any grounding permits both.
pub proof fn law_conservative_license_monotonic(ns: Seq<KnowledgeNode>, n: KnowledgeNode)
    requires
        n.scope == Scope::Factual,
        n.strength@ == "strong"@,
    ensures
        !conservative_license(seq![]).contains(Modality::Assertive),
        !conservative_license(seq![]).contains(Modality::Conditional),
        conservative_license(ns.push(n)).contains(Modality::Assertive),
        conservative_license(ns.push(n)).contains(Modality::Conditional),
{
    let m = ns.push(n);
    assert(m[ns.len() as int] == n);
    assert(crate::knowledge::has_scope_in(m, Scope::Factual));
    assert(crate::knowledge::strong_in(m, Scope::Factual));
    assert(full_license().contains(Modality::Assertive));
    assert(full_license().contains(Modality::Conditional));
}

} // verus!
