//! The evaluation layer's data model: modalities, knowledge nodes, ground
//! sets, licenses and per-statement outcomes.
use vstd::prelude::*;

verus! {

/// The speech-act type of a statement.
#[derive(Debug, Clone, Copy, PartialEq, Eq, Structural, Hash, PartialOrd, Ord)]
pub enum Modality {
    Assertive,
    Conditional,
    Refusal,
    Descriptive,
}

/// The lowercase name of a modality.
pub open spec fn modality_name(m: Modality) -> Seq<char> {
    match m {
        Modality::Assertive => "assertive"@,
        Modality::Conditional => "conditional"@,
        Modality::Refusal => "refusal"@,
        Modality::Descriptive => "descriptive"@,
    }
}

impl Modality {
    pub fn as_str(&self) -> (r: &'static str)
        ensures
            r@ == modality_name(*self),
    {
        match self {
            Modality::Assertive => "assertive",
            Modality::Conditional => "conditional",
            Modality::Refusal => "refusal",
            Modality::Descriptive => "descriptive",
        }
    }
}

/// How a knowledge node came to be known.
#[derive(Debug, Clone, Copy, PartialEq, Eq, Structural)]
pub enum Source {
    Observed,
    Explicit,
    Inferred,
    Repeated,
}

/// How settled a knowledge node is.
#[derive(Debug, Clone, Copy, PartialEq, Eq, Structural)]
pub enum Status {
    Hypothesis,
    Candidate,
    Confirmed,
}

/// Whether a knowledge node states a fact or only context.
#[derive(Debug, Clone, Copy, PartialEq, Eq, Structural)]
pub enum Scope {
    Factual,
    Contextual,
}

/// Outcome of checking one statement, and of a whole evaluation.
#[derive(Debug, Clone, Copy, PartialEq, Eq, Structural)]
pub enum EvaluationStatus {
    WellFormed,
    IllFormed,
    Unsupported,
    Underdetermined,
    ConditionallyAcceptable,
    ViolatesNorm,
    Acceptable,
    NoNormativeContent,
}

/// One unit of agent output under evaluation.
#[derive(Debug, Clone, PartialEq, Eq)]
pub struct Statement {
    pub id: String,
    pub subject: String,
    pub predicate: String,
    pub raw_text: String,
    pub modality: Option<Modality>,
    pub conditions: Vec<String>,
}

/// The largest confidence, in thousandths.
pub const CONFIDENCE_SCALE: u32 = 1000;

/// An evidentiary record. `confidence` is counted in thousandths, so it lies
/// in `0..=1000` for the interval from 0 to 1.
#[derive(Debug, Clone, PartialEq, Eq)]
pub struct KnowledgeNode {
    pub id: String,
    pub source: Source,
    pub status: Status,
    pub confidence: u32,
    pub scope: Scope,
    pub strength: String,
    pub semantic_id: Option<String>,
}

/// The view of an optional string.
pub open spec fn opt_view(o: Option<String>) -> Option<Seq<char>> {
    match o {
        Some(s) => Some(s@),
        None => None,
    }
}

/// An optional string, copied.
pub fn copy_opt(o: &Option<String>) -> (r: Option<String>)
    ensures
        r == *o,
{
    match o {
        Some(s) => Some(s.clone()),
        None => None,
    }
}

impl KnowledgeNode {
    /// The node's invariant: confidence within the unit interval and a
    /// strength of either "strong" or "weak".
    pub open spec fn wf(&self) -> bool {
        &&& self.confidence <= CONFIDENCE_SCALE
        &&& (self.strength@ == "strong"@ || self.strength@ == "weak"@)
    }

    /// Builds a node, refusing a confidence above 1000 thousandths or a
    /// strength other than "strong" or "weak".
    pub fn new(
        id: String,
        source: Source,
        status: Status,
        confidence: u32,
        scope: Scope,
        strength: String,
        semantic_id: Option<String>,
    ) -> (r: Result<KnowledgeNode, String>)
        ensures
            r is Ok <==> (confidence <= CONFIDENCE_SCALE && (strength@ == "strong"@ || strength@
                == "weak"@)),
            r matches Ok(n) ==> n.wf() && n.id == id && n.source == source && n.status == status
                && n.confidence == confidence && n.scope == scope && n.strength == strength
                && n.semantic_id == semantic_id,
    {
        if confidence > CONFIDENCE_SCALE {
            return Err(String::from_str("Confidence must be in [0.0, 1.0]"));
        }
        let strong = String::from_str("strong");
        let weak = String::from_str("weak");
        if strength != strong && strength != weak {
            return Err(String::from_str("Strength must be 'strong' or 'weak'"));
        }
        Ok(KnowledgeNode { id, source, status, confidence, scope, strength, semantic_id })
    }

    /// A node holding the same values.
    pub fn duplicate(&self) -> (r: KnowledgeNode)
        ensures
            r == *self,
    {
        KnowledgeNode {
            id: self.id.clone(),
            source: self.source,
            status: self.status,
            confidence: self.confidence,
            scope: self.scope,
            strength: self.strength.clone(),
            semantic_id: copy_opt(&self.semantic_id),
        }
    }

    /// Whether the node's strength is "strong".
    pub fn is_strong(&self) -> (r: bool)
        ensures
            r == (self.strength@ == "strong"@),
    {
        let strong = String::from_str("strong");
        self.strength == strong
    }
}

/// Some node of `ns` has scope `sc`.
pub open spec fn has_scope_in(ns: Seq<KnowledgeNode>, sc: Scope) -> bool {
    exists|i: int| 0 <= i < ns.len() && (#[trigger] ns[i]).scope == sc
}

/// Some node of `ns` has scope `sc` and strength "strong".
pub open spec fn strong_in(ns: Seq<KnowledgeNode>, sc: Scope) -> bool {
    exists|i: int| 0 <= i < ns.len() && (#[trigger] ns[i]).scope == sc && ns[i].strength@ == "strong"@
}

/// The index of the first node of `ns`, at or after `i`, whose id is `g`; or -1.
pub open spec fn index_by_id(ns: Seq<KnowledgeNode>, g: Seq<char>, i: int) -> int
    decreases ns.len() - i,
{
    if i < 0 || i >= ns.len() {
        -1
    } else if ns[i].id@ == g {
        i
    } else {
        index_by_id(ns, g, i + 1)
    }
}

/// The index of the first node of `ns`, at or after `i`, whose semantic id is `g`; or -1.
pub open spec fn index_by_semantic(ns: Seq<KnowledgeNode>, g: Seq<char>, i: int) -> int
    decreases ns.len() - i,
{
    if i < 0 || i >= ns.len() {
        -1
    } else if opt_view(ns[i].semantic_id) == Some(g) {
        i
    } else {
        index_by_semantic(ns, g, i + 1)
    }
}

/// The node that a ground id resolves to: the first whose id matches, else
/// the first whose semantic id matches.
pub open spec fn resolve_in(ns: Seq<KnowledgeNode>, g: Seq<char>) -> Option<KnowledgeNode> {
    if index_by_id(ns, g, 0) >= 0 {
        Some(ns[index_by_id(ns, g, 0)])
    } else if index_by_semantic(ns, g, 0) >= 0 {
        Some(ns[index_by_semantic(ns, g, 0)])
    } else {
        None
    }
}

proof fn lemma_index_bounds(ns: Seq<KnowledgeNode>, g: Seq<char>, i: int)
    requires
        0 <= i,
    ensures
        -1 <= index_by_id(ns, g, i) < ns.len(),
        index_by_id(ns, g, i) >= 0 ==> ns[index_by_id(ns, g, i)].id@ == g,
        -1 <= index_by_semantic(ns, g, i) < ns.len(),
        index_by_semantic(ns, g, i) >= 0 ==> opt_view(ns[index_by_semantic(ns, g, i)].semantic_id)
            == Some(g),
    decreases ns.len() - i,
{
    if i < ns.len() {
        lemma_index_bounds(ns, g, i + 1);
    }
}

/// The knowledge nodes relevant to one statement.
#[derive(Debug, Clone, PartialEq, Eq)]
pub struct GroundSet {
    pub nodes: Vec<KnowledgeNode>,
}

impl GroundSet {
    pub fn is_empty(&self) -> (r: bool)
        ensures
            r == (self.nodes@.len() == 0),
    {
        self.nodes.len() == 0
    }

    pub fn has_factual(&self) -> (r: bool)
        ensures
            r == has_scope_in(self.nodes@, Scope::Factual),
    {
        self.has_scope(Scope::Factual)
    }

    pub fn has_scope(&self, scope: Scope) -> (r: bool)
        ensures
            r == has_scope_in(self.nodes@, scope),
    {
        let mut i: usize = 0;
        while i < self.nodes.len()
            invariant
                i <= self.nodes@.len(),
                forall|j: int| 0 <= j < i ==> (#[trigger] self.nodes@[j]).scope != scope,
            decreases self.nodes@.len() - i,
        {
            if self.nodes[i].scope == scope {
                return true;
            }
            i = i + 1;
        }
        false
    }

    /// "strong" when some node of the scope is strong, "weak" when the scope
    /// has nodes but none is strong, nothing when it has none.
    pub fn get_scope_strength(&self, scope: Scope) -> (r: Option<String>)
        ensures
            r is Some <==> has_scope_in(self.nodes@, scope),
            r matches Some(s) ==> (s@ == "strong"@ <==> strong_in(self.nodes@, scope)),
            r matches Some(s) ==> (s@ == "weak"@ <==> !strong_in(self.nodes@, scope)),
    {
        proof {
            reveal_strlit("strong");
            reveal_strlit("weak");
            assert("strong"@.len() != "weak"@.len());
        }
        let strong = self.has_strong_in_scope(scope);
        if strong {
            return Some(String::from_str("strong"));
        }
        if self.has_scope(scope) {
            Some(String::from_str("weak"))
        } else {
            None
        }
    }

    pub fn has_strong_in_scope(&self, scope: Scope) -> (r: bool)
        ensures
            r == strong_in(self.nodes@, scope),
    {
        let mut i: usize = 0;
        while i < self.nodes.len()
            invariant
                i <= self.nodes@.len(),
                forall|j: int|
                    0 <= j < i ==> !((#[trigger] self.nodes@[j]).scope == scope
                        && self.nodes@[j].strength@ == "strong"@),
            decreases self.nodes@.len() - i,
        {
            if self.nodes[i].scope == scope && self.nodes[i].is_strong() {
                return true;
            }
            i = i + 1;
        }
        false
    }

    /// The node that `ground_id` names: by id first, then by semantic id.
    pub fn resolve_ground(&self, ground_id: &str) -> (r: Option<KnowledgeNode>)
        ensures
            r is Some <==> resolve_in(self.nodes@, ground_id@) is Some,
            r == resolve_in(self.nodes@, ground_id@),
    {
        let g = String::from_str(ground_id);
        proof {
            lemma_index_bounds(self.nodes@, g@, 0);
        }
        let mut i: usize = 0;
        while i < self.nodes.len()
            invariant
                i <= self.nodes@.len(),
                g@ == ground_id@,
                index_by_id(self.nodes@, g@, 0) == index_by_id(self.nodes@, g@, i as int),
            decreases self.nodes@.len() - i,
        {
            if self.nodes[i].id == g {
                return Some(self.nodes[i].duplicate());
            }
            i = i + 1;
        }
        let mut i: usize = 0;
        while i < self.nodes.len()
            invariant
                i <= self.nodes@.len(),
                g@ == ground_id@,
                index_by_id(self.nodes@, g@, 0) == -1,
                index_by_semantic(self.nodes@, g@, 0) == index_by_semantic(
                    self.nodes@,
                    g@,
                    i as int,
                ),
            decreases self.nodes@.len() - i,
        {
            match &self.nodes[i].semantic_id {
                Some(s) => {
                    if *s == g {
                        return Some(self.nodes[i].duplicate());
                    }
                },
                None => {},
            }
            i = i + 1;
        }
        None
    }
}

/// The modalities a statement may use.
#[derive(Debug, Clone, PartialEq, Eq)]
pub struct License {
    pub permitted_modalities: Vec<Modality>,
}

impl License {
    /// The permitted modalities as a set.
    pub open spec fn view(&self) -> Set<Modality> {
        self.permitted_modalities@.to_set()
    }

    pub fn permits(&self, modality: Modality) -> (r: bool)
        ensures
            r == self.view().contains(modality),
    {
        let mut i: usize = 0;
        while i < self.permitted_modalities.len()
            invariant
                i <= self.permitted_modalities@.len(),
                forall|j: int| 0 <= j < i ==> self.permitted_modalities@[j] != modality,
            decreases self.permitted_modalities@.len() - i,
        {
            if self.permitted_modalities[i] == modality {
                proof {
                    assert(self.permitted_modalities@.contains(modality));
                }
                return true;
            }
            i = i + 1;
        }
        false
    }
}

/// The outcome of checking one statement against the axioms.
#[derive(Debug, Clone, PartialEq, Eq)]
pub struct AxiomCheckResult {
    pub status: EvaluationStatus,
    pub violated_axiom: Option<String>,
    pub explanation: String,
}

/// One statement with its outcome, license and grounding.
#[derive(Debug, Clone, PartialEq, Eq)]
pub struct StatementValidationResult {
    pub statement: Statement,
    pub status: EvaluationStatus,
    pub license: License,
    pub ground_set: GroundSet,
    pub violated_axiom: Option<String>,
    pub explanation: String,
}

/// The aggregate outcome over all statements of one response.
#[derive(Debug, Clone, PartialEq, Eq)]
pub struct ValidationResult {
    pub status: EvaluationStatus,
    pub licensed: bool,
    pub can_retry: bool,
    pub feedback_hint: Option<String>,
    pub violated_axioms: Vec<String>,
    pub statement_results: Vec<StatementValidationResult>,
    pub explanation: String,
    pub num_statements: usize,
    pub num_acceptable: usize,
    pub grounds_accepted: usize,
    pub grounds_cited: usize,
}

} // verus!
