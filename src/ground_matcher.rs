//! Selection of the knowledge nodes relevant to a statement.
use vstd::prelude::*;
use crate::knowledge::GroundSet;
use crate::knowledge::KnowledgeNode;
use crate::knowledge::Modality;
use crate::knowledge::Scope;
use crate::knowledge::Statement;

verus! {

/// Whether a node is relevant evidence for a statement of modality `m`:
/// descriptive statements use factual nodes, normative ones factual or
/// contextual nodes, refusals none.
pub open spec fn is_relevant(m: Option<Modality>, n: KnowledgeNode) -> bool {
    match m {
        Some(Modality::Descriptive) => n.scope == Scope::Factual,
        Some(Modality::Assertive) | Some(Modality::Conditional) => n.scope == Scope::Factual
            || n.scope == Scope::Contextual,
        _ => false,
    }
}

/// The nodes of `ns` relevant for modality `m`, in order.
pub open spec fn relevant_nodes(ns: Seq<KnowledgeNode>, m: Option<Modality>) -> Seq<KnowledgeNode>
    decreases ns.len(),
{
    if ns.len() == 0 {
        seq![]
    } else if is_relevant(m, ns.last()) {
        relevant_nodes(ns.drop_last(), m).push(ns.last())
    } else {
        relevant_nodes(ns.drop_last(), m)
    }
}

/// Chooses the knowledge nodes relevant to a statement.
pub struct GroundSetMatcher;

impl GroundSetMatcher {
    pub fn match_nodes(&self, statement: &Statement, knowledge_nodes: &[KnowledgeNode]) -> (r: GroundSet)
        ensures
            r.nodes@ == relevant_nodes(knowledge_nodes@, statement.modality),
    {
        let mut relevant: Vec<KnowledgeNode> = Vec::new();
        let mut i: usize = 0;
        while i < knowledge_nodes.len()
            invariant
                i <= knowledge_nodes@.len(),
                relevant@ == relevant_nodes(knowledge_nodes@.subrange(0, i as int), statement.modality),
            decreases knowledge_nodes@.len() - i,
        {
            assert(knowledge_nodes@.subrange(0, i + 1).drop_last() == knowledge_nodes@.subrange(0, i as int));
            if self.is_relevant(statement, &knowledge_nodes[i]) {
                relevant.push(knowledge_nodes[i].duplicate());
            }
            i = i + 1;
        }
        assert(knowledge_nodes@.subrange(0, knowledge_nodes@.len() as int) == knowledge_nodes@);
        GroundSet { nodes: relevant }
    }

    fn is_relevant(&self, statement: &Statement, node: &KnowledgeNode) -> (r: bool)
        ensures
            r == is_relevant(statement.modality, *node),
    {
        match statement.modality {
            Some(Modality::Descriptive) => node.scope == Scope::Factual,
            Some(Modality::Assertive) | Some(Modality::Conditional) => {
                node.scope == Scope::Factual || node.scope == Scope::Contextual
            },
            Some(Modality::Refusal) => false,
            None => false,
        }
    }
}

} // verus!
