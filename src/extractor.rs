//! Extraction of the normative statement, if any, from an agent's message.
use vstd::prelude::*;
use crate::knowledge::Statement;
use crate::text::chars_of;
use crate::text::contains_any;
use crate::text::copy_range;
use crate::text::ends_with_char;
use crate::text::has_any;
use crate::text::is_whitespace;
use crate::text::is_ws;
use crate::text::join_strings;
use crate::text::join_with;
use crate::text::lower_of;
use crate::text::lowercase;
use crate::text::rfind;
use crate::text::rfind_vec;
use crate::text::starts;
use crate::text::starts_with_str;
use crate::text::string_of;
use crate::text::string_of_range;
use crate::text::trim;
use crate::text::trim_end;
use crate::text::trim_str;
use crate::text::trim_vec;
use crate::text::views;

verus! {

/// Markers without which a message holds no normative content.
pub open spec fn content_markers() -> Seq<&'static str> {
    seq![
        "should",
        "must",
        "recommend",
        "prioritize",
        "block",
        "depends on",
        "is blocked",
        "is better",
        "better for you",
        "if ",
        "cannot determine",
        "not enough information",
        "i would not",
        "i won't",
        "for you",
        "given your",
        "based on your",
    ]
}

/// Trailing offers of further help, cut from the end of a message.
pub open spec fn offer_markers() -> Seq<&'static str> {
    seq!["i can help", "let me know if", "feel free to ask", "how can i help", "would you like"]
}

/// Markers of a sentence with normative, conditional or personal content.
pub open spec fn sentence_markers() -> Seq<&'static str> {
    seq![
        "should",
        "must",
        "recommend",
        "prioritize",
        "blocks",
        "is blocked",
        "depends on",
        "if ",
        "for you",
        "given your",
        "based on your",
        "i would not",
        "cannot determine",
    ]
}

/// Markers of a sentence with strong normative content.
pub open spec fn strong_markers() -> Seq<&'static str> {
    seq!["should", "must", "recommend", "prioritize", "blocks", "depends on", "if "]
}

/// Markers of conversational framing.
pub open spec fn protocol_markers() -> Seq<&'static str> {
    seq!["i can", "how can i", "what can i", "thanks for", "let me know", "feel free", "hope you"]
}

/// Greetings stripped from the start of a message.
pub open spec fn greeting_prefixes() -> Seq<&'static str> {
    seq![
        "hello",
        "hi",
        "hey",
        "greetings",
        "good morning",
        "good afternoon",
        "good evening",
        "thanks for asking",
        "i'm doing well",
        "i am doing well",
        "i'm ready",
        "i am ready",
        "i'm here",
        "i am here",
        "hope you're doing well",
        "hope you are doing well",
    ]
}

/// Markers that keep a message ending in a question.
pub open spec fn question_markers() -> Seq<&'static str> {
    seq!["should", "must", "recommend", "if "]
}

/// The last index of the first offer marker, in list order, found in
/// `lower`; or -1.
pub open spec fn offer_cut(lower: Seq<char>, k: int) -> int
    decreases offer_markers().len() - k,
{
    if k < 0 || k >= offer_markers().len() {
        -1
    } else if rfind(lower, offer_markers()[k]@) >= 0 {
        rfind(lower, offer_markers()[k]@)
    } else {
        offer_cut(lower, k + 1)
    }
}

/// `t` without trailing `.`, `,` and `;`.
pub open spec fn strip_end_punct(t: Seq<char>) -> Seq<char>
    decreases t.len(),
{
    if t.len() > 0 && (t.last() == '.' || t.last() == ',' || t.last() == ';') {
        strip_end_punct(t.drop_last())
    } else {
        t
    }
}

/// At most `n` passes that each cut the text before the last occurrence of
/// an offer marker.
pub open spec fn offer_passes(out: Seq<char>, n: nat) -> Seq<char>
    decreases n,
{
    if n == 0 {
        out
    } else {
        let c = offer_cut(lower_of(out), 0);
        if c < 0 {
            out
        } else {
            let end = if c <= out.len() { c } else { out.len() as int };
            offer_passes(strip_end_punct(trim(out.subrange(0, end))), (n - 1) as nat)
        }
    }
}

/// A message with its trailing offers removed, in at most five passes.
pub open spec fn without_offers(text: Seq<char>) -> Seq<char> {
    offer_passes(trim(text), 5)
}

pub open spec fn is_terminator(c: char) -> bool {
    c == '.' || c == '!' || c == '?'
}

/// `s` trimmed, as a list of one sentence, or no sentence when blank.
pub open spec fn piece(s: Seq<char>) -> Seq<Seq<char>> {
    if trim(s).len() > 0 {
        seq![trim(s)]
    } else {
        seq![]
    }
}

/// The sentences of `t` from a sentence starting at `start`, scanning at `i`.
pub open spec fn split_from(t: Seq<char>, start: int, i: int) -> Seq<Seq<char>>
    decreases t.len() - i,
{
    if i < 0 || i >= t.len() {
        piece(t.subrange(start, t.len() as int))
    } else if is_terminator(t[i]) {
        piece(t.subrange(start, i + 1)) + split_from(t, i + 1, i + 1)
    } else {
        split_from(t, start, i + 1)
    }
}

/// The sentences of `t`: each ends with `.`, `!` or `?`, which it keeps;
/// the rest after the last one is a sentence too; all trimmed, none blank.
pub open spec fn sentences(t: Seq<char>) -> Seq<Seq<char>> {
    split_from(t, 0, 0)
}

/// A sentence with normative, conditional or personal content.
pub open spec fn marked(s: Seq<char>) -> bool {
    has_any(lower_of(s), sentence_markers())
}

/// A sentence with strong normative content.
pub open spec fn strongly_marked(s: Seq<char>) -> bool {
    has_any(lower_of(s), strong_markers())
}

/// A sentence that reads as conversational framing.
pub open spec fn looks_protocol(s: Seq<char>) -> bool {
    ||| has_any(lower_of(s), protocol_markers())
    ||| (ends_question(trim(lower_of(s))) && !marked(s))
}

pub open spec fn ends_question(t: Seq<char>) -> bool {
    t.len() > 0 && t.last() == '?'
}

/// The sentences kept from index `i` on: framing without strong content is
/// dropped; from the first marked sentence on, everything is kept.
pub open spec fn kept_from(ss: Seq<Seq<char>>, i: int) -> Seq<Seq<char>>
    decreases ss.len() - i,
{
    if i < 0 || i >= ss.len() {
        seq![]
    } else if looks_protocol(ss[i]) && !strongly_marked(ss[i]) {
        kept_from(ss, i + 1)
    } else if marked(ss[i]) {
        ss.subrange(i, ss.len() as int)
    } else {
        seq![ss[i]] + kept_from(ss, i + 1)
    }
}

/// A message with its leading framing sentences removed.
pub open spec fn without_framing(t: Seq<char>) -> Seq<char> {
    if sentences(t).len() == 0 {
        t
    } else {
        trim(join_with(kept_from(sentences(t), 0), " "@))
    }
}

/// The length of the first greeting, in list order, that `lower` begins
/// with; or -1.
pub open spec fn greeting_len(lower: Seq<char>, k: int) -> int
    decreases greeting_prefixes().len() - k,
{
    if k < 0 || k >= greeting_prefixes().len() {
        -1
    } else if starts(lower, greeting_prefixes()[k]@) {
        greeting_prefixes()[k]@.len() as int
    } else {
        greeting_len(lower, k + 1)
    }
}

/// Characters skipped after a greeting.
pub open spec fn is_greeting_gap(c: char) -> bool {
    is_ws(c) || c == ',' || c == '.' || c == '!' || c == '-' || c == '\u{2014}'
}

/// `t` without leading whitespace and greeting punctuation.
pub open spec fn strip_gap(t: Seq<char>) -> Seq<char>
    decreases t.len(),
{
    if t.len() > 0 && is_greeting_gap(t[0]) {
        strip_gap(t.drop_first())
    } else {
        t
    }
}

/// `t` without a leading greeting.
pub open spec fn without_greeting(t: Seq<char>) -> Seq<char> {
    let g = greeting_len(lower_of(t), 0);
    if g < 0 {
        t
    } else {
        strip_gap(t.subrange(if g <= t.len() { g } else { t.len() as int }, t.len() as int))
    }
}

/// The normative content of a message, or empty when it has none.
pub open spec fn cleaned_text(text: Seq<char>) -> Seq<char> {
    let c0 = trim(text);
    if !has_any(lower_of(c0), content_markers()) {
        seq![]
    } else {
        let c2 = without_greeting(without_framing(without_offers(c0)));
        if ends_question(trim_end(c2)) && !has_any(lower_of(c2), question_markers()) {
            seq![]
        } else {
            trim(c2)
        }
    }
}

/// The message holds a statement to evaluate.
pub open spec fn has_statement(text: Seq<char>) -> bool {
    trim(text).len() > 0 && trim(cleaned_text(text)).len() > 0
}

proof fn lemma_strip_gap_range(t: Seq<char>, i: int)
    requires
        0 <= i <= t.len(),
        forall|j: int| 0 <= j < i ==> is_greeting_gap(t[j]),
    ensures
        strip_gap(t) == strip_gap(t.subrange(i, t.len() as int)),
    decreases i,
{
    if i > 0 {
        assert(is_greeting_gap(t[0]));
        assert forall|j: int| 0 <= j < i - 1 implies is_greeting_gap(t.drop_first()[j]) by {
            assert(is_greeting_gap(t[j + 1]));
        }
        lemma_strip_gap_range(t.drop_first(), i - 1);
        assert(t.drop_first().subrange(i - 1, t.len() - 1) == t.subrange(i, t.len() as int));
    } else {
        assert(t.subrange(0, t.len() as int) == t);
    }
}

proof fn lemma_strip_end_range(t: Seq<char>, i: int)
    requires
        0 <= i <= t.len(),
        forall|j: int| i <= j < t.len() ==> t[j] == '.' || t[j] == ',' || t[j] == ';',
    ensures
        strip_end_punct(t) == strip_end_punct(t.subrange(0, i)),
    decreases t.len() - i,
{
    if i < t.len() {
        assert(t.drop_last() == t.subrange(0, t.len() - 1));
        assert forall|j: int| i <= j < t.len() - 1 implies (t.drop_last()[j] == '.' || t.drop_last()[j]
            == ',' || t.drop_last()[j] == ';') by {
            assert(t[j] == '.' || t[j] == ',' || t[j] == ';');
        }
        lemma_strip_end_range(t.drop_last(), i);
        assert(t.drop_last().subrange(0, i) == t.subrange(0, i));
    } else {
        assert(t.subrange(0, i) == t);
    }
}

/// Finds the normative statement of a message.
pub struct StatementExtractor;

impl StatementExtractor {
    /// The statements of `text`: none when it is blank or holds no
    /// normative content, else exactly one over the cleaned text.
    pub fn extract(&self, text: &str) -> (r: Vec<Statement>)
        ensures
            r@.len() == (if has_statement(text@) { 1int } else { 0 }),
            r@.len() == 1 ==> ({
                let s = r@[0];
                &&& s.id@ == "final_response"@
                &&& s.subject@ == "agent"@
                &&& s.predicate@ == "participation"@
                &&& s.raw_text@ == cleaned_text(text@)
                &&& s.modality is None
                &&& s.conditions@.len() == 0
            }),
    {
        let trimmed = trim_str(text);
        if trimmed.as_str().is_empty() {
            return Vec::new();
        }
        let cleaned = self.strip_greeting(text);
        let c2 = trim_str(cleaned.as_str());
        if c2.as_str().is_empty() {
            return Vec::new();
        }
        let mut out: Vec<Statement> = Vec::new();
        out.push(
            Statement {
                id: String::from_str("final_response"),
                subject: String::from_str("agent"),
                predicate: String::from_str("participation"),
                raw_text: cleaned,
                modality: None,
                conditions: Vec::new(),
            },
        );
        out
    }

    /// The normative content of `text`, or empty when it has none.
    pub fn strip_greeting(&self, text: &str) -> (r: String)
        ensures
            r@ == cleaned_text(text@),
    {
        let cleaned = trim_str(text);
        let lower = chars_of(lowercase(cleaned.as_str()).as_str());
        let gate = [
            "should",
            "must",
            "recommend",
            "prioritize",
            "block",
            "depends on",
            "is blocked",
            "is better",
            "better for you",
            "if ",
            "cannot determine",
            "not enough information",
            "i would not",
            "i won't",
            "for you",
            "given your",
            "based on your",
        ];
        assert(gate@ =~= content_markers());
        if !contains_any(&lower, &gate) {
            return String::new();
        }
        let c1 = self.strip_protocol_suffix(cleaned.as_str());
        let c1 = self.strip_protocol_prefix_sentences(c1.as_str());
        let c2 = self.strip_greeting_prefix(&c1);
        let cv = chars_of(c2.as_str());
        let te = crate::text::trim_end_vec(&cv);
        let ends_q = ends_with_char(&te, '?');
        if ends_q {
            let lv = chars_of(lowercase(c2.as_str()).as_str());
            let qm = ["should", "must", "recommend", "if "];
            assert(qm@ =~= question_markers());
            if !contains_any(&lv, &qm) {
                return String::new();
            }
        }
        trim_str(c2.as_str())
    }

    fn strip_greeting_prefix(&self, c1: &String) -> (r: String)
        ensures
            r@ == without_greeting(c1@),
    {
        let lowered = chars_of(lowercase(c1.as_str()).as_str());
        let prefixes = [
            "hello",
            "hi",
            "hey",
            "greetings",
            "good morning",
            "good afternoon",
            "good evening",
            "thanks for asking",
            "i'm doing well",
            "i am doing well",
            "i'm ready",
            "i am ready",
            "i'm here",
            "i am here",
            "hope you're doing well",
            "hope you are doing well",
        ];
        assert(prefixes@ =~= greeting_prefixes());
        let mut k: usize = 0;
        while k < prefixes.len()
            invariant
                k <= prefixes@.len(),
                prefixes@ == greeting_prefixes(),
                lowered@ == lower_of(c1@),
                greeting_len(lowered@, 0) == greeting_len(lowered@, k as int),
            decreases prefixes@.len() - k,
        {
            if starts_with_str(&lowered, prefixes[k]) {
                let cv = chars_of(c1.as_str());
                let plen = chars_of(prefixes[k]).len();
                let from = if plen <= cv.len() { plen } else { cv.len() };
                let mut a = from;
                while a < cv.len() && self.is_gap(cv[a])
                    invariant
                        from <= a <= cv@.len(),
                        forall|j: int| from <= j < a ==> is_greeting_gap(cv@[j]),
                    decreases cv@.len() - a,
                {
                    a = a + 1;
                }
                proof {
                    let t = cv@.subrange(from as int, cv@.len() as int);
                    lemma_strip_gap_range(t, a - from);
                    assert(t.subrange(a - from, t.len() as int) == cv@.subrange(a as int, cv@.len() as int));
                    let u = cv@.subrange(a as int, cv@.len() as int);
                    if u.len() > 0 {
                        assert(u[0] == cv@[a as int]);
                    }
                }
                return string_of_range(&cv, a, cv.len());
            }
            k = k + 1;
        }
        c1.clone()
    }

    fn is_gap(&self, c: char) -> (r: bool)
        ensures
            r == is_greeting_gap(c),
    {
        is_whitespace(c) || c == ',' || c == '.' || c == '!' || c == '-' || c == '\u{2014}'
    }

    /// `text` with trailing offers of help cut off, in at most five passes.
    pub fn strip_protocol_suffix(&self, text: &str) -> (r: String)
        ensures
            r@ == without_offers(text@),
    {
        let mut out = trim_str(text);
        let markers = [
            "i can help",
            "let me know if",
            "feel free to ask",
            "how can i help",
            "would you like",
        ];
        assert(markers@ =~= offer_markers());
        let mut pass: usize = 0;
        while pass < 5
            invariant
                pass <= 5,
                markers@ == offer_markers(),
                offer_passes(out@, (5 - pass) as nat) == without_offers(text@),
            decreases 5 - pass,
        {
            let lower = chars_of(lowercase(out.as_str()).as_str());
            let cut = offer_cut_index(&lower, &markers);
            match cut {
                None => {
                    return out;
                },
                Some(idx) => {
                    let ov = chars_of(out.as_str());
                    let end = if idx <= ov.len() { idx } else { ov.len() };
                    let piece = trim_vec(&copy_range(&ov, 0, end));
                    let mut b = piece.len();
                    while b > 0 && (piece[b - 1] == '.' || piece[b - 1] == ',' || piece[b - 1] == ';')
                        invariant
                            b <= piece@.len(),
                            forall|j: int| b <= j < piece@.len() ==> piece@[j] == '.' || piece@[j] == ','
                                || piece@[j] == ';',
                        decreases b,
                    {
                        b = b - 1;
                    }
                    proof {
                        lemma_strip_end_range(piece@, b as int);
                        let u = piece@.subrange(0, b as int);
                        if u.len() > 0 {
                            assert(u.last() == piece@[b - 1]);
                        }
                    }
                    out = string_of_range(&piece, 0, b);
                },
            }
            pass = pass + 1;
        }
        out
    }

    /// `text` without its leading framing sentences.
    pub fn strip_protocol_prefix_sentences(&self, text: &str) -> (r: String)
        ensures
            r@ == without_framing(text@),
    {
        let ss = split_sentences(text);
        if ss.len() == 0 {
            return String::from_str(text);
        }
        let ghost sv = views(ss@);
        let mut kept: Vec<String> = Vec::new();
        let mut idx: usize = 0;
        while idx < ss.len()
            invariant
                idx <= ss@.len(),
                sv == views(ss@),
                sv == sentences(text@),
                views(kept@) + kept_from(sv, idx as int) == kept_from(sv, 0),
            decreases ss@.len() - idx,
        {
            let sentence = &ss[idx];
            assert(sv[idx as int] == sentence@);
            let lower = chars_of(lowercase(sentence.as_str()).as_str());
            let any_marks = [
                "should",
                "must",
                "recommend",
                "prioritize",
                "blocks",
                "is blocked",
                "depends on",
                "if ",
                "for you",
                "given your",
                "based on your",
                "i would not",
                "cannot determine",
            ];
            assert(any_marks@ =~= sentence_markers());
            let strong_marks = ["should", "must", "recommend", "prioritize", "blocks", "depends on", "if "];
            assert(strong_marks@ =~= strong_markers());
            let protocol_marks = [
                "i can",
                "how can i",
                "what can i",
                "thanks for",
                "let me know",
                "feel free",
                "hope you",
            ];
            assert(protocol_marks@ =~= protocol_markers());
            let has_any_normative = contains_any(&lower, &any_marks);
            let has_strong_normative = contains_any(&lower, &strong_marks);
            let lower_trimmed = trim_vec(&lower);
            let looks_protocol = contains_any(&lower, &protocol_marks) || (ends_with_char(
                &lower_trimmed,
                '?',
            ) && !has_any_normative);
            if looks_protocol && !has_strong_normative {
                idx = idx + 1;
                continue;
            }
            if has_any_normative {
                let ghost before = views(kept@);
                let mut j: usize = idx;
                while j < ss.len()
                    invariant
                        idx <= j <= ss@.len(),
                        sv == views(ss@),
                        views(kept@) == before + sv.subrange(idx as int, j as int),
                    decreases ss@.len() - j,
                {
                    let ghost prev = kept@;
                    let item = ss[j].clone();
                    kept.push(item);
                    assert(kept@ == prev.push(item));
                    assert(views(kept@) =~= views(prev).push(item@));
                    assert(sv.subrange(idx as int, j + 1) =~= sv.subrange(idx as int, j as int).push(sv[j as int]));
                    assert(views(kept@) =~= before + sv.subrange(idx as int, j + 1));
                    j = j + 1;
                }
                proof {
                    assert(views(kept@) == kept_from(sv, 0));
                }
                let joined = join_strings(&kept, " ");
                return trim_str(joined.as_str());
            }
            let ghost before = views(kept@);
            let ghost prev = kept@;
            let item = sentence.clone();
            kept.push(item);
            assert(kept@ == prev.push(item));
            assert(views(kept@) =~= before.push(sentence@));
            assert(before + kept_from(sv, idx as int) == before.push(sentence@) + kept_from(sv, idx + 1));
            idx = idx + 1;
        }
        assert(views(kept@) == kept_from(sv, 0)) by {
            assert(views(kept@) + Seq::<Seq<char>>::empty() == views(kept@));
        }
        let joined = join_strings(&kept, " ");
        trim_str(joined.as_str())
    }
}

/// The last index of the first marker of `markers`, in order, found in `lower`.
fn offer_cut_index(lower: &Vec<char>, markers: &[&str]) -> (r: Option<usize>)
    requires
        markers@ == offer_markers(),
    ensures
        match r {
            Some(i) => offer_cut(lower@, 0) == i,
            None => offer_cut(lower@, 0) == -1,
        },
{
    let mut k: usize = 0;
    while k < markers.len()
        invariant
            k <= markers@.len(),
            markers@ == offer_markers(),
            offer_cut(lower@, 0) == offer_cut(lower@, k as int),
        decreases markers@.len() - k,
    {
        let m = chars_of(markers[k]);
        match rfind_vec(lower, &m) {
            Some(idx) => {
                return Some(idx);
            },
            None => {},
        }
        k = k + 1;
    }
    None
}

/// `text` split into sentences.
pub fn split_sentences(text: &str) -> (r: Vec<String>)
    ensures
        views(r@) == sentences(text@),
{
    let t = chars_of(text);
    let mut out: Vec<String> = Vec::new();
    let mut start: usize = 0;
    let mut i: usize = 0;
    while i < t.len()
        invariant
            start <= i <= t@.len(),
            t@ == text@,
            views(out@) + split_from(t@, start as int, i as int) == sentences(text@),
        decreases t@.len() - i,
    {
        let c = t[i];
        if c == '.' || c == '!' || c == '?' {
            let s = trim_vec(&copy_range(&t, start, i + 1));
            let ghost before = views(out@);
            if s.len() > 0 {
                out.push(string_of(&s));
                assert(views(out@) =~= before + piece(t@.subrange(start as int, i + 1)));
            } else {
                assert(views(out@) =~= before + piece(t@.subrange(start as int, i + 1)));
            }
            assert(before + split_from(t@, start as int, i as int) == views(out@) + split_from(
                t@,
                i + 1,
                i + 1,
            ));
            start = i + 1;
        }
        i = i + 1;
    }
    let s = trim_vec(&copy_range(&t, start, t.len()));
    let ghost before = views(out@);
    if s.len() > 0 {
        out.push(string_of(&s));
    }
    assert(views(out@) =~= before + piece(t@.subrange(start as int, t@.len() as int)));
    out
}

} // verus!
