//! Classification of a statement's core assertion into a modality, and the
//! conditions that a conditional statement declares.
use vstd::prelude::*;
use vstd::string::StringExecFns;
use crate::knowledge::Modality;
use crate::knowledge::Statement;
use crate::text::chars_of;
use crate::text::contains_any;
use crate::text::contains_vec;
use crate::text::find;
use crate::text::find_vec;
use crate::text::has_any;
use crate::text::lower_of;
use crate::text::lowercase;
use crate::text::occurs;
use crate::text::starts;
use crate::text::starts_with_str;
use crate::text::string_of;
use crate::text::trim;
use crate::text::trim_vec;
use crate::text::copy_range;
use crate::text::views;

verus! {

pub open spec fn refusal_markers() -> Seq<&'static str> {
    seq![
        "cannot determine",
        "cannot decide",
        "cannot choose",
        "need more",
        "require more",
        "insufficient",
        "please provide",
        "please clarify",
        "i don't know",
        "i do not know",
        "hard to say",
        "hard to determine",
        "i would not",
        "i won't",
    ]
}

pub open spec fn conditional_markers() -> Seq<&'static str> {
    seq!["if ", "unless ", "assuming ", "given that", "provided ", "depends on", " might ", " could "]
}

pub open spec fn goal_prefixes() -> Seq<&'static str> {
    seq![
        "if your goal is",
        "if you want",
        "assuming you want",
        "if you're optimizing",
        "if you are optimizing",
        "if you're aiming",
    ]
}

pub open spec fn personalization_markers() -> Seq<&'static str> {
    seq![
        "for you",
        "given your",
        "based on your",
        "according to your",
        "with your preferences",
        "with your constraints",
    ]
}

pub open spec fn descriptive_markers() -> Seq<&'static str> {
    seq!["blocks", "is blocked by", "depends on", "has status", "due date is", "is blocked"]
}

pub open spec fn normative_markers() -> Seq<&'static str> {
    seq!["should", "must", "need to", "needs to", "recommend", "suggest", "advise"]
}

pub open spec fn recommendation_markers() -> Seq<&'static str> {
    seq![
        " is better",
        " are better",
        "should be prioritiz",
        "recommend ",
        "suggest you",
        "best choice",
        "best option",
        "prioritize ",
        " first",
    ]
}

/// `t` begins with one of `ps`.
pub open spec fn starts_any(t: Seq<char>, ps: Seq<&str>) -> bool {
    exists|k: int| 0 <= k < ps.len() && starts(t, ps[k]@)
}

/// The modality of a lowercase core assertion, by the first rule that applies.
pub open spec fn modality_of(core: Seq<char>) -> Modality {
    if has_any(core, refusal_markers()) {
        Modality::Refusal
    } else if starts_any(core, goal_prefixes()) {
        Modality::Conditional
    } else if has_any(core, personalization_markers()) {
        Modality::Conditional
    } else if has_any(core, recommendation_markers()) {
        Modality::Assertive
    } else if has_any(core, conditional_markers()) {
        Modality::Conditional
    } else if has_any(core, descriptive_markers()) && !has_any(core, normative_markers()) {
        Modality::Descriptive
    } else {
        Modality::Assertive
    }
}

/// The core assertion of a text: its first sentence, through the first
/// ". ", else up to the first blank line, else up to the first line break,
/// else its first 500 characters; trimmed.
pub open spec fn core_assertion(t: Seq<char>) -> Seq<char> {
    if find(t, seq!['.', ' ']) >= 0 {
        trim(t.subrange(0, find(t, seq!['.', ' ']) + 1))
    } else if find(t, seq!['\n', '\n']) >= 0 {
        trim(t.subrange(0, find(t, seq!['\n', '\n'])))
    } else if find(t, seq!['\n']) >= 0 {
        trim(t.subrange(0, find(t, seq!['\n'])))
    } else if t.len() > 500 {
        trim(t.subrange(0, 500))
    } else {
        trim(t)
    }
}

/// The modality of a text.
pub open spec fn detected_modality(text: Seq<char>) -> Modality {
    modality_of(core_assertion(lower_of(text)))
}

/// The index of the first `,`, `.` or `;` at or after `j`, or the length.
pub open spec fn stop_from(t: Seq<char>, j: int) -> int
    decreases t.len() - j,
{
    if j < 0 || j >= t.len() {
        t.len() as int
    } else if t[j] == ',' || t[j] == '.' || t[j] == ';' {
        j
    } else {
        stop_from(t, j + 1)
    }
}

/// The clause after the first occurrence of `kw` in `t`, up to the next
/// `,`, `.` or `;`, trimmed; nothing when `kw` is absent or the clause empty.
pub open spec fn clause_after(t: Seq<char>, kw: Seq<char>) -> Option<Seq<char>> {
    let f = find(t, kw);
    if f < 0 {
        None
    } else {
        let tail = t.subrange(f + kw.len(), t.len() as int);
        let c = trim(tail.subrange(0, stop_from(tail, 0)));
        if c.len() == 0 {
            None
        } else {
            Some(c)
        }
    }
}

/// `c` as a one-element list, optionally prefixed; empty when absent.
pub open spec fn opt_item(prefix: Seq<char>, c: Option<Seq<char>>) -> Seq<Seq<char>> {
    match c {
        Some(x) => seq![prefix + x],
        None => seq![],
    }
}

/// The conditions found in a lowercase text, in a fixed order of keywords.
pub open spec fn found_conditions(lower: Seq<char>) -> Seq<Seq<char>> {
    opt_item(seq![], clause_after(lower, "if "@)) + opt_item("NOT "@, clause_after(lower, "unless "@))
        + opt_item(seq![], clause_after(lower, "assuming "@)) + opt_item(
        seq![],
        clause_after(lower, "given that "@),
    ) + opt_item("given your "@, clause_after(lower, "given your "@)) + opt_item(
        "based on your "@,
        clause_after(lower, "based on your "@),
    ) + (if occurs(lower, "for you"@) {
        seq!["for you"@]
    } else {
        seq![]
    })
}

/// The declared conditions of a lowercase text; `["unspecified"]` when none.
pub open spec fn conditions_of(lower: Seq<char>) -> Seq<Seq<char>> {
    if found_conditions(lower).len() == 0 {
        seq!["unspecified"@]
    } else {
        found_conditions(lower)
    }
}

proof fn lemma_stop_bounds(t: Seq<char>, j: int)
    requires
        0 <= j <= t.len(),
    ensures
        j <= stop_from(t, j) <= t.len(),
    decreases t.len() - j,
{
    if j < t.len() && !(t[j] == ',' || t[j] == '.' || t[j] == ';') {
        lemma_stop_bounds(t, j + 1);
    }
}

/// The clause after the first occurrence of `keyword` in `text`.
pub fn extract_after_keyword(text: &Vec<char>, keyword: &str) -> (r: Option<Vec<char>>)
    ensures
        match r {
            Some(c) => clause_after(text@, keyword@) == Some(c@),
            None => clause_after(text@, keyword@) is None,
        },
{
    let kw = chars_of(keyword);
    match find_vec(text, &kw) {
        None => None,
        Some(f) => {
            let start = f + kw.len();
            let ghost tail = text@.subrange(start as int, text@.len() as int);
            let mut end = start;
            proof {
                lemma_stop_bounds(tail, 0);
            }
            while end < text.len() && text[end] != ',' && text[end] != '.' && text[end] != ';'
                invariant
                    start <= end <= text@.len(),
                    tail == text@.subrange(start as int, text@.len() as int),
                    stop_from(tail, 0) == stop_from(tail, end - start),
                decreases text@.len() - end,
            {
                end = end + 1;
            }
            let piece = copy_range(text, start, end);
            assert(piece@ == tail.subrange(0, stop_from(tail, 0)));
            let clause = trim_vec(&piece);
            if clause.len() == 0 {
                None
            } else {
                Some(clause)
            }
        },
    }
}

/// Classifies statements by modality.
pub struct ModalityDetector;

impl ModalityDetector {
    /// The modality of `text`.
    pub fn detect(&self, text: &str) -> (r: Modality)
        ensures
            r == detected_modality(text@),
    {
        let text_lower = lowercase(text);
        self.detect_lowered(&text_lower)
    }

    /// The modality of a text that is already lowercase.
    pub fn detect_lowered(&self, text_lower: &String) -> (r: Modality)
        ensures
            r == modality_of(core_assertion(text_lower@)),
    {
        let lower = chars_of(text_lower.as_str());
        let core = self.extract_core_assertion(&lower);
        if self.is_refusal(&core) {
            return Modality::Refusal;
        }
        if self.is_goal_conditional(&core) {
            return Modality::Conditional;
        }
        if self.is_personalization_conditional(&core) {
            return Modality::Conditional;
        }
        if self.has_recommendation(&core) {
            return Modality::Assertive;
        }
        if self.is_conditional(&core) {
            return Modality::Conditional;
        }
        if self.is_descriptive(&core) && !self.is_normative(&core) {
            return Modality::Descriptive;
        }
        Modality::Assertive
    }

    /// Sets the statement's modality and, for a conditional statement, its
    /// declared conditions.
    pub fn detect_with_conditions(&self, statement: &mut Statement)
        ensures
            final(statement).modality == Some(detected_modality(old(statement).raw_text@)),
            final(statement).id == old(statement).id,
            final(statement).subject == old(statement).subject,
            final(statement).predicate == old(statement).predicate,
            final(statement).raw_text == old(statement).raw_text,
            detected_modality(old(statement).raw_text@) == Modality::Conditional
                ==> views(final(statement).conditions@) == conditions_of(lower_of(old(statement).raw_text@)),
            detected_modality(old(statement).raw_text@) != Modality::Conditional
                ==> final(statement).conditions == old(statement).conditions,
    {
        let modality = self.detect(statement.raw_text.as_str());
        statement.modality = Some(modality);
        if modality == Modality::Conditional {
            statement.conditions = self.extract_conditions(statement.raw_text.as_str());
        }
    }

    pub fn is_refusal(&self, text: &Vec<char>) -> (r: bool)
        ensures
            r == has_any(text@, refusal_markers()),
    {
        let ms = [
            "cannot determine",
            "cannot decide",
            "cannot choose",
            "need more",
            "require more",
            "insufficient",
            "please provide",
            "please clarify",
            "i don't know",
            "i do not know",
            "hard to say",
            "hard to determine",
            "i would not",
            "i won't",
        ];
        assert(ms@ =~= refusal_markers());
        contains_any(text, &ms)
    }

    pub fn is_conditional(&self, text: &Vec<char>) -> (r: bool)
        ensures
            r == has_any(text@, conditional_markers()),
    {
        let ms = ["if ", "unless ", "assuming ", "given that", "provided ", "depends on", " might ", " could "];
        assert(ms@ =~= conditional_markers());
        contains_any(text, &ms)
    }

    pub fn is_goal_conditional(&self, text: &Vec<char>) -> (r: bool)
        ensures
            r == starts_any(text@, goal_prefixes()),
    {
        let ps = [
            "if your goal is",
            "if you want",
            "assuming you want",
            "if you're optimizing",
            "if you are optimizing",
            "if you're aiming",
        ];
        assert(ps@ =~= goal_prefixes());
        let mut k: usize = 0;
        while k < ps.len()
            invariant
                k <= ps@.len(),
                ps@ == goal_prefixes(),
                forall|j: int| 0 <= j < k ==> !starts(text@, #[trigger] ps@[j]@),
            decreases ps@.len() - k,
        {
            if starts_with_str(text, ps[k]) {
                return true;
            }
            k = k + 1;
        }
        false
    }

    pub fn is_personalization_conditional(&self, text: &Vec<char>) -> (r: bool)
        ensures
            r == has_any(text@, personalization_markers()),
    {
        let ms = [
            "for you",
            "given your",
            "based on your",
            "according to your",
            "with your preferences",
            "with your constraints",
        ];
        assert(ms@ =~= personalization_markers());
        contains_any(text, &ms)
    }

    pub fn is_descriptive(&self, text: &Vec<char>) -> (r: bool)
        ensures
            r == has_any(text@, descriptive_markers()),
    {
        let ms = ["blocks", "is blocked by", "depends on", "has status", "due date is", "is blocked"];
        assert(ms@ =~= descriptive_markers());
        contains_any(text, &ms)
    }

    pub fn is_normative(&self, text: &Vec<char>) -> (r: bool)
        ensures
            r == has_any(text@, normative_markers()),
    {
        let ms = ["should", "must", "need to", "needs to", "recommend", "suggest", "advise"];
        assert(ms@ =~= normative_markers());
        contains_any(text, &ms)
    }

    pub fn has_recommendation(&self, text: &Vec<char>) -> (r: bool)
        ensures
            r == has_any(text@, recommendation_markers()),
    {
        let ms = [
            " is better",
            " are better",
            "should be prioritiz",
            "recommend ",
            "suggest you",
            "best choice",
            "best option",
            "prioritize ",
            " first",
        ];
        assert(ms@ =~= recommendation_markers());
        contains_any(text, &ms)
    }

    pub fn extract_core_assertion(&self, text: &Vec<char>) -> (r: Vec<char>)
        ensures
            r@ == core_assertion(text@),
    {
        let blank: Vec<char> = vec!['\n', '\n'];
        let stop: Vec<char> = vec!['.', ' '];
        let newline: Vec<char> = vec!['\n'];
        assert(blank@ == seq!['\n', '\n']);
        assert(stop@ == seq!['.', ' ']);
        assert(newline@ == seq!['\n']);
        if let Some(i) = find_vec(text, &stop) {
            proof { crate::text::lemma_find_bounds(text@, stop@); }
            return trim_vec(&copy_range(text, 0, i + 1));
        }
        if let Some(i) = find_vec(text, &blank) {
            proof { crate::text::lemma_find_bounds(text@, blank@); }
            return trim_vec(&copy_range(text, 0, i));
        }
        if let Some(i) = find_vec(text, &newline) {
            proof { crate::text::lemma_find_bounds(text@, newline@); }
            return trim_vec(&copy_range(text, 0, i));
        }
        if text.len() > 500 {
            trim_vec(&copy_range(text, 0, 500))
        } else {
            trim_vec(text)
        }
    }

    /// The declared conditions of `text`.
    pub fn extract_conditions(&self, text: &str) -> (r: Vec<String>)
        ensures
            views(r@) == conditions_of(lower_of(text@)),
    {
        let lower = lowercase(text);
        self.conditions_from_lowered(&lower)
    }

    /// The declared conditions of a text that is already lowercase.
    pub fn conditions_from_lowered(&self, lower: &String) -> (r: Vec<String>)
        ensures
            views(r@) == conditions_of(lower@),
    {
        let t = chars_of(lower.as_str());
        let mut out: Vec<String> = Vec::new();
        let ghost mut expect: Seq<Seq<char>> = seq![];
        if let Some(c) = extract_after_keyword(&t, "if ") {
            out.push(string_of(&c));
        }
        proof { expect = opt_item(seq![], clause_after(t@, "if "@)); }
        assert(views(out@) =~= expect);
        if let Some(c) = extract_after_keyword(&t, "unless ") {
            let mut s = String::from_str("NOT ");
            s.append(string_of(&c).as_str());
            out.push(s);
        }
        proof { expect = expect + opt_item("NOT "@, clause_after(t@, "unless "@)); }
        assert(views(out@) =~= expect);
        if let Some(c) = extract_after_keyword(&t, "assuming ") {
            out.push(string_of(&c));
        }
        proof { expect = expect + opt_item(seq![], clause_after(t@, "assuming "@)); }
        assert(views(out@) =~= expect);
        if let Some(c) = extract_after_keyword(&t, "given that ") {
            out.push(string_of(&c));
        }
        proof { expect = expect + opt_item(seq![], clause_after(t@, "given that "@)); }
        assert(views(out@) =~= expect);
        if let Some(c) = extract_after_keyword(&t, "given your ") {
            let mut s = String::from_str("given your ");
            s.append(string_of(&c).as_str());
            out.push(s);
        }
        proof { expect = expect + opt_item("given your "@, clause_after(t@, "given your "@)); }
        assert(views(out@) =~= expect);
        if let Some(c) = extract_after_keyword(&t, "based on your ") {
            let mut s = String::from_str("based on your ");
            s.append(string_of(&c).as_str());
            out.push(s);
        }
        proof { expect = expect + opt_item("based on your "@, clause_after(t@, "based on your "@)); }
        assert(views(out@) =~= expect);
        let for_you = chars_of("for you");
        if contains_vec(&t, &for_you) {
            out.push(String::from_str("for you"));
        }
        assert(views(out@) =~= found_conditions(t@));
        if out.len() == 0 {
            out.push(String::from_str("unspecified"));
            assert(views(out@) =~= seq!["unspecified"@]);
        }
        out
    }
}

} // verus!
