//! A small tree-shaped value with a recursive-descent reader for JSON text
//! and an indented printer.
//!
//! A number keeps the text it was read from; an object keeps its entries
//! sorted by key, without repeats, the later of two equal keys winning.
use vstd::prelude::*;
use vstd::string::StringExecFns;
use vstd::string::StringSliceAdditionalSpecFns;
use crate::text::push_char;

verus! {

/// A JSON value.
#[derive(Debug, PartialEq, Eq)]
pub enum JsonValue {
    Null,
    Bool(bool),
    Number(String),
    String(String),
    Array(Vec<JsonValue>),
    Object(Vec<(String, JsonValue)>),
}

/// `a` sorts before `b`, comparing characters by code point.
pub open spec fn text_lt(a: Seq<char>, b: Seq<char>) -> bool
    decreases a.len(),
{
    if a.len() == 0 {
        b.len() > 0
    } else if b.len() == 0 {
        false
    } else if a[0] != b[0] {
        a[0] < b[0]
    } else {
        text_lt(a.drop_first(), b.drop_first())
    }
}

/// The keys of an object's entries rise strictly.
pub open spec fn keys_sorted(es: Seq<(String, JsonValue)>) -> bool {
    forall|i: int| 0 <= i < es.len() - 1 ==> text_lt(#[trigger] es[i].0@, es[i + 1].0@)
}

/// The index of the first entry with key `k`, or -1.
pub open spec fn entry_index(es: Seq<(String, JsonValue)>, k: Seq<char>, i: int) -> int
    decreases es.len() - i,
{
    if i < 0 || i >= es.len() {
        -1
    } else if es[i].0@ == k {
        i
    } else {
        entry_index(es, k, i + 1)
    }
}

/// Whether `a` sorts before `b`.
pub fn string_lt(a: &String, b: &String) -> (r: bool)
    ensures
        r == text_lt(a@, b@),
{
    let av = crate::text::chars_of(a.as_str());
    let bv = crate::text::chars_of(b.as_str());
    let mut i: usize = 0;
    assert(av@.subrange(0, av@.len() as int) == av@);
    assert(bv@.subrange(0, bv@.len() as int) == bv@);
    while i < av.len() && i < bv.len() && av[i] == bv[i]
        invariant
            i <= av@.len(),
            i <= bv@.len(),
            text_lt(av@, bv@) == text_lt(av@.subrange(i as int, av@.len() as int), bv@.subrange(i as int, bv@.len() as int)),
        decreases av@.len() - i,
    {
        let ghost sa = av@.subrange(i as int, av@.len() as int);
        let ghost sb = bv@.subrange(i as int, bv@.len() as int);
        assert(sa.drop_first() == av@.subrange(i + 1, av@.len() as int));
        assert(sb.drop_first() == bv@.subrange(i + 1, bv@.len() as int));
        i = i + 1;
    }
    let ghost sa = av@.subrange(i as int, av@.len() as int);
    let ghost sb = bv@.subrange(i as int, bv@.len() as int);
    if i == av.len() {
        i < bv.len()
    } else if i == bv.len() {
        false
    } else {
        assert(sa[0] == av@[i as int] && sb[0] == bv@[i as int]);
        av[i] < bv[i]
    }
}

/// Puts `key` with `value` into sorted entries, replacing an entry with the
/// same key.
pub fn insert_entry(entries: &mut Vec<(String, JsonValue)>, key: String, value: JsonValue)
    requires
        keys_sorted(old(entries)@),
    ensures
        keys_sorted(final(entries)@),
        entry_index(final(entries)@, key@, 0) >= 0,
        final(entries)@[entry_index(final(entries)@, key@, 0)].1 == value,
        entries_model(*final(entries), final(entries)@.len()) == put_entry(
            entries_model(*old(entries), old(entries)@.len()),
            key@,
            model(value),
        ),
{
    let ghost m0 = entries_model(*entries, entries@.len());
    let ghost k0 = key@;
    let ghost mv = model(value);
    proof {
        lemma_entries_model(*entries, entries@.len());
    }
    let mut i: usize = 0;
    while i < entries.len() && string_lt(&entries[i].0, &key)
        invariant
            i <= entries@.len(),
            keys_sorted(entries@),
            forall|j: int| 0 <= j < i ==> text_lt(#[trigger] entries@[j].0@, key@),
            m0 == entries_model(*entries, entries@.len()),
            m0.len() == entries@.len(),
            forall|j: int| 0 <= j < entries@.len() ==> #[trigger] m0[j] == (entries@[j].0@, model(entries@[j].1)),
            insert_pos(m0, key@, 0) == insert_pos(m0, key@, i as int),
        decreases entries@.len() - i,
    {
        assert(m0[i as int].0 == entries@[i as int].0@);
        i = i + 1;
    }
    proof {
        if i < m0.len() {
            assert(m0[i as int].0 == entries@[i as int].0@);
        }
        assert(insert_pos(m0, k0, i as int) == i);
    }
    if i < entries.len() && entries[i].0 == key {
        let ghost old_es = entries@;
        entries.set(i, (key, value));
        proof {
            lemma_entries_model(*entries, entries@.len());
            assert(entries_model(*entries, entries@.len()) =~= m0.update(i as int, (k0, mv)));
            assert forall|j: int| 0 <= j < entries@.len() - 1 implies text_lt(#[trigger] entries@[j].0@, entries@[j + 1].0@) by {
                assert(old_es[j].0@ == entries@[j].0@);
                assert(old_es[j + 1].0@ == entries@[j + 1].0@);
            }
            lemma_entry_index_found(entries@, key@, i as int);
        }
    } else {
        let ghost old_es = entries@;
        proof {
            if i < old_es.len() {
                lemma_text_lt_total(old_es[i as int].0@, key@);
            }
        }
        entries.insert(i, (key, value));
        proof {
            lemma_entries_model(*entries, entries@.len());
            assert forall|j: int| 0 <= j < entries@.len() implies #[trigger] entries_model(*entries, entries@.len())[j] == m0.insert(i as int, (k0, mv))[j] by {
                if j < i {
                    assert(entries@[j] == old_es[j]);
                } else if j > i {
                    assert(entries@[j] == old_es[j - 1]);
                }
            }
            assert(entries_model(*entries, entries@.len()) =~= m0.insert(i as int, (k0, mv)));
            assert forall|j: int| 0 <= j < entries@.len() - 1 implies text_lt(#[trigger] entries@[j].0@, entries@[j + 1].0@) by {
                if j + 1 < i {
                    assert(entries@[j] == old_es[j] && entries@[j + 1] == old_es[j + 1]);
                } else if j + 1 == i {
                    assert(entries@[j] == old_es[j]);
                } else if j == i {
                    assert(entries@[j + 1] == old_es[j]);
                } else {
                    assert(entries@[j] == old_es[j - 1] && entries@[j + 1] == old_es[j]);
                }
            }
            assert forall|j: int| 0 <= j < i implies #[trigger] entries@[j].0@ != key@ by {
                assert(entries@[j] == old_es[j]);
                lemma_text_lt_irreflexive(old_es[j].0@, key@);
            }
            lemma_entry_index_found(entries@, key@, i as int);
        }
    }
}

/// Puts `key` with `ids` into entries sorted by key, replacing an entry
/// with the same key.
pub fn insert_entry_refs(entries: &mut Vec<(String, Vec<String>)>, key: String, ids: Vec<String>)
    requires
        forall|i: int| 0 <= i < old(entries)@.len() - 1 ==> text_lt(#[trigger] old(entries)@[i].0@, old(entries)@[i + 1].0@),
        forall|i: int| 0 <= i < old(entries)@.len() ==> (#[trigger] old(entries)@[i]).1@.len() > 0,
        ids@.len() > 0,
    ensures
        forall|i: int| 0 <= i < final(entries)@.len() - 1 ==> text_lt(#[trigger] final(entries)@[i].0@, final(entries)@[i + 1].0@),
        forall|i: int| 0 <= i < final(entries)@.len() ==> (#[trigger] final(entries)@[i]).1@.len() > 0,
        forall|i: int| 0 <= i < final(entries)@.len() ==> old(entries)@.contains(#[trigger] final(entries)@[i]) || (final(entries)@[i].0@ == key@ && final(entries)@[i].1 == ids),
        exists|i: int| 0 <= i < final(entries)@.len() && (#[trigger] final(entries)@[i]).0@ == key@ && final(entries)@[i].1 == ids,
        forall|i: int| 0 <= i < final(entries)@.len() && (#[trigger] final(entries)@[i]).0@ == key@ ==> final(entries)@[i].1 == ids,
        forall|i: int| 0 <= i < old(entries)@.len() && (#[trigger] old(entries)@[i]).0@ != key@ ==> final(entries)@.contains(old(entries)@[i]),
{
    let ghost k0 = key@;
    let ghost ids0 = ids;
    let mut i: usize = 0;
    while i < entries.len() && string_lt(&entries[i].0, &key)
        invariant
            i <= entries@.len(),
            forall|j: int| 0 <= j < entries@.len() - 1 ==> text_lt(#[trigger] entries@[j].0@, entries@[j + 1].0@),
            forall|j: int| 0 <= j < i ==> text_lt(#[trigger] entries@[j].0@, key@),
        decreases entries@.len() - i,
    {
        i = i + 1;
    }
    let ghost old_es = entries@;
    if i < entries.len() && entries[i].0 == key {
        entries.set(i, (key, ids));
        assert forall|j: int| 0 <= j < entries@.len() - 1 implies text_lt(#[trigger] entries@[j].0@, entries@[j + 1].0@) by {
            assert(old_es[j].0@ == entries@[j].0@);
            assert(old_es[j + 1].0@ == entries@[j + 1].0@);
        }
        assert forall|j: int| 0 <= j < entries@.len() implies (#[trigger] entries@[j]).1@.len() > 0 by {
            if j != i {
                assert(entries@[j] == old_es[j]);
            }
        }
        assert forall|j: int| 0 <= j < entries@.len() implies old_es.contains(#[trigger] entries@[j]) || (entries@[j].0@ == k0 && entries@[j].1 == ids0) by {
            if j != i {
                assert(entries@[j] == old_es[j]);
            }
        }
        assert(entries@[i as int].0@ == k0);
        proof {
            lemma_sorted_unique(entries@);
        }
        assert forall|j: int| 0 <= j < old_es.len() && (#[trigger] old_es[j]).0@ != k0 implies entries@.contains(old_es[j]) by {
            assert(j != i);
            assert(entries@[j] == old_es[j]);
        }
    } else {
        proof {
            if i < old_es.len() {
                lemma_text_lt_total(old_es[i as int].0@, key@);
            }
        }
        entries.insert(i, (key, ids));
        assert forall|j: int| 0 <= j < entries@.len() - 1 implies text_lt(#[trigger] entries@[j].0@, entries@[j + 1].0@) by {
            if j + 1 < i {
                assert(entries@[j] == old_es[j] && entries@[j + 1] == old_es[j + 1]);
            } else if j + 1 == i {
                assert(entries@[j] == old_es[j]);
            } else if j == i {
                assert(entries@[j + 1] == old_es[j]);
            } else {
                assert(entries@[j] == old_es[j - 1] && entries@[j + 1] == old_es[j]);
            }
        }
        assert forall|j: int| 0 <= j < entries@.len() implies (#[trigger] entries@[j]).1@.len() > 0 by {
            if j < i {
                assert(entries@[j] == old_es[j]);
            } else if j > i {
                assert(entries@[j] == old_es[j - 1]);
            }
        }
        assert forall|j: int| 0 <= j < entries@.len() implies old_es.contains(#[trigger] entries@[j]) || (entries@[j].0@ == k0 && entries@[j].1 == ids0) by {
            if j < i {
                assert(entries@[j] == old_es[j]);
            } else if j > i {
                assert(entries@[j] == old_es[j - 1]);
            }
        }
        assert(entries@[i as int].0@ == k0);
        proof {
            lemma_sorted_unique(entries@);
        }
        assert forall|j: int| 0 <= j < old_es.len() && (#[trigger] old_es[j]).0@ != k0 implies entries@.contains(old_es[j]) by {
            if j < i {
                assert(entries@[j] == old_es[j]);
            } else {
                assert(entries@[j + 1] == old_es[j]);
            }
        }
    }
}

proof fn lemma_text_lt_trans(a: Seq<char>, b: Seq<char>, c: Seq<char>)
    requires
        text_lt(a, b),
        text_lt(b, c),
    ensures
        text_lt(a, c),
    decreases a.len(),
{
    if a.len() > 0 && b.len() > 0 && c.len() > 0 && a[0] == b[0] && b[0] == c[0] {
        lemma_text_lt_trans(a.drop_first(), b.drop_first(), c.drop_first());
    }
}

/// Keys that rise from each entry to the next rise throughout, so no two
/// entries share a key.
proof fn lemma_sorted_unique<V>(es: Seq<(String, V)>)
    requires
        forall|i: int| 0 <= i < es.len() - 1 ==> text_lt(#[trigger] es[i].0@, es[i + 1].0@),
    ensures
        forall|a: int, b: int| 0 <= a < b < es.len() ==> #[trigger] es[a].0@ != #[trigger] es[b].0@,
{
    assert forall|a: int, b: int| 0 <= a < b < es.len() implies #[trigger] es[a].0@ != #[trigger] es[b].0@ by {
        lemma_sorted_chain(es, a, b);
        lemma_text_lt_irreflexive(es[a].0@, es[b].0@);
    }
}

proof fn lemma_sorted_chain<V>(es: Seq<(String, V)>, a: int, b: int)
    requires
        forall|i: int| 0 <= i < es.len() - 1 ==> text_lt(#[trigger] es[i].0@, es[i + 1].0@),
        0 <= a < b < es.len(),
    ensures
        text_lt(es[a].0@, es[b].0@),
    decreases b - a,
{
    if b > a + 1 {
        lemma_sorted_chain(es, a, b - 1);
        assert(text_lt(es[b - 1].0@, es[b].0@));
        lemma_text_lt_trans(es[a].0@, es[b - 1].0@, es[b].0@);
    }
}

proof fn lemma_text_lt_total(a: Seq<char>, b: Seq<char>)
    ensures
        text_lt(a, b) || text_lt(b, a) || a == b,
    decreases a.len(),
{
    if a.len() > 0 && b.len() > 0 && a[0] == b[0] {
        lemma_text_lt_total(a.drop_first(), b.drop_first());
        if a.drop_first() == b.drop_first() {
            assert(a =~= seq![a[0]] + a.drop_first());
            assert(b =~= seq![b[0]] + b.drop_first());
        }
    } else if a.len() > 0 && b.len() > 0 {
        assert(a[0] != b[0]);
    } else if a.len() == 0 && b.len() == 0 {
        assert(a =~= b);
    }
}

proof fn lemma_text_lt_irreflexive(a: Seq<char>, b: Seq<char>)
    requires
        text_lt(a, b),
    ensures
        a != b,
    decreases a.len(),
{
    if a.len() > 0 && b.len() > 0 && a[0] == b[0] {
        lemma_text_lt_irreflexive(a.drop_first(), b.drop_first());
    }
}

proof fn lemma_entry_index_found(es: Seq<(String, JsonValue)>, k: Seq<char>, i: int)
    requires
        0 <= i < es.len(),
        es[i].0@ == k,
        forall|j: int| 0 <= j < i ==> #[trigger] es[j].0@ != k,
    ensures
        entry_index(es, k, 0) == i,
{
    lemma_entry_index_from(es, k, 0, i);
}

proof fn lemma_entry_index_from(es: Seq<(String, JsonValue)>, k: Seq<char>, m: int, i: int)
    requires
        0 <= m <= i < es.len(),
        es[i].0@ == k,
        forall|j: int| 0 <= j < i ==> #[trigger] es[j].0@ != k,
    ensures
        entry_index(es, k, m) == i,
    decreases i - m,
{
    if m < i {
        lemma_entry_index_from(es, k, m + 1, i);
    }
}

} // verus!

verus! {

/// A parse failure, with its reason.
#[derive(Debug, Clone, PartialEq, Eq)]
pub struct JsonError {
    pub message: String,
}

impl JsonError {
    pub fn new(message: &str) -> (r: JsonError)
        ensures
            r.message@ == message@,
    {
        JsonError { message: String::from_str(message) }
    }
}

/// JSON whitespace.
pub open spec fn is_json_ws(b: u8) -> bool {
    b == 0x20 || b == 0x0a || b == 0x0d || b == 0x09
}

pub open spec fn is_digit(b: u8) -> bool {
    0x30 <= b <= 0x39
}

/// The first index at or after `i` that is not whitespace, or the length.
pub open spec fn ws_end(b: Seq<u8>, i: int) -> int
    decreases b.len() - i,
{
    if i < 0 || i >= b.len() || !is_json_ws(b[i]) {
        i
    } else {
        ws_end(b, i + 1)
    }
}

/// The first index at or after `i` that is not a digit, or the length.
pub open spec fn digits_end(b: Seq<u8>, i: int) -> int
    decreases b.len() - i,
{
    if i < 0 || i >= b.len() || !is_digit(b[i]) {
        i
    } else {
        digits_end(b, i + 1)
    }
}

/// The value of a hexadecimal digit.
pub open spec fn hex_digit(b: u8) -> Option<int> {
    if 0x30 <= b <= 0x39 {
        Some(b - 0x30)
    } else if 0x61 <= b <= 0x66 {
        Some(b - 0x61 + 10)
    } else if 0x41 <= b <= 0x46 {
        Some(b - 0x41 + 10)
    } else {
        None
    }
}

/// The value of the four hexadecimal digits at `i`.
pub open spec fn hex4_at(b: Seq<u8>, i: int) -> Option<int> {
    if 0 <= i && i + 4 <= b.len() && hex_digit(b[i]) is Some && hex_digit(b[i + 1]) is Some
        && hex_digit(b[i + 2]) is Some && hex_digit(b[i + 3]) is Some {
        Some(
            hex_digit(b[i])->0 * 4096 + hex_digit(b[i + 1])->0 * 256 + hex_digit(b[i + 2])->0 * 16
                + hex_digit(b[i + 3])->0,
        )
    } else {
        None
    }
}

/// The code point of a character.
pub open spec fn code_of(c: char) -> int {
    c as int
}

/// The character of a `\u` escape: none for a surrogate.
pub open spec fn escape_char(code: int) -> Option<char> {
    if 0xD800 <= code <= 0xDFFF || code < 0 || code > 0xFFFF {
        None
    } else {
        Some(choose|c: char| #[trigger] code_of(c) == code)
    }
}

/// The character that the single-letter escape `\e` stands for.
pub open spec fn simple_escape(e: u8) -> Option<char> {
    if e == 0x22 {
        Some('"')
    } else if e == 0x5c {
        Some('\\')
    } else if e == 0x2f {
        Some('/')
    } else if e == 0x62 {
        Some('\u{8}')
    } else if e == 0x66 {
        Some('\u{c}')
    } else if e == 0x6e {
        Some('\n')
    } else if e == 0x72 {
        Some('\r')
    } else if e == 0x74 {
        Some('\t')
    } else {
        None
    }
}

/// The characters of a string body starting at `j`, after its opening
/// quote, and the index after its closing quote; none when malformed. Each
/// plain byte stands for the character with that code.
pub open spec fn string_body(b: Seq<u8>, j: int) -> Option<(Seq<char>, int)>
    decreases b.len() - j,
{
    if j < 0 || j >= b.len() {
        None
    } else if b[j] == 0x22 {
        Some((seq![], j + 1))
    } else if b[j] == 0x5c {
        if j + 1 >= b.len() {
            None
        } else if b[j + 1] == 0x75 {
            match hex4_at(b, j + 2) {
                Some(code) => match escape_char(code) {
                    Some(c) => match string_body(b, j + 6) {
                        Some((rest, e)) => Some((seq![c] + rest, e)),
                        None => None,
                    },
                    None => None,
                },
                None => None,
            }
        } else {
            match simple_escape(b[j + 1]) {
                Some(c) => match string_body(b, j + 2) {
                    Some((rest, e)) => Some((seq![c] + rest, e)),
                    None => None,
                },
                None => None,
            }
        }
    } else if b[j] < 0x20 || b[j] == 0x7f {
        None
    } else {
        match string_body(b, j + 1) {
            Some((rest, e)) => Some((seq![b[j] as char] + rest, e)),
            None => None,
        }
    }
}

/// Relies on `char::from_u32`: the character with the given code, none for
/// a surrogate.
#[verifier::external_body]
fn char_from_code(code: u16) -> (r: Option<char>)
    ensures
        r == escape_char(code as int),
        r matches Some(c) ==> c as int == code as int,
{
    char::from_u32(code as u32)
}

/// Reads JSON from bytes, left to right.
pub struct Parser<'a> {
    pub bytes: &'a [u8],
    pub i: usize,
}

impl<'a> Parser<'a> {
    /// The byte at the position.
    pub fn peek(&self) -> (r: Option<u8>)
        ensures
            r == (if self.i < self.bytes@.len() { Some(self.bytes@[self.i as int]) } else { None }),
            r is Some ==> self.i < self.bytes.len(),
    {
        if self.i < self.bytes.len() {
            Some(self.bytes[self.i])
        } else {
            None
        }
    }

    /// The byte at the position, which is then passed.
    pub fn next(&mut self) -> (r: Option<u8>)
        ensures
            final(self).bytes == old(self).bytes,
            r == (if old(self).i < old(self).bytes@.len() { Some(old(self).bytes@[old(self).i as int]) } else { None }),
            final(self).i == (if r is Some { old(self).i + 1 } else { old(self).i as int }),
    {
        let out = self.peek();
        if out.is_some() {
            self.i = self.i + 1;
        }
        out
    }

    /// Passes `byte` when it is next.
    pub fn try_consume(&mut self, byte: u8) -> (r: bool)
        ensures
            final(self).bytes == old(self).bytes,
            r == (old(self).i < old(self).bytes@.len() && old(self).bytes@[old(self).i as int] == byte),
            final(self).i == (if r { old(self).i + 1 } else { old(self).i as int }),
    {
        if self.peek() == Some(byte) {
            self.i = self.i + 1;
            true
        } else {
            false
        }
    }

    /// Passes `needle` when it comes next.
    pub fn consume_bytes(&mut self, needle: &[u8]) -> (r: bool)
        ensures
            final(self).bytes == old(self).bytes,
            r == (old(self).i + needle@.len() <= old(self).bytes@.len() && old(self).bytes@.subrange(
                old(self).i as int,
                old(self).i + needle@.len(),
            ) == needle@),
            final(self).i == (if r { old(self).i + needle@.len() } else { old(self).i as int }),
    {
        if self.i > self.bytes.len() || needle.len() > self.bytes.len() - self.i {
            return false;
        }
        let mut k: usize = 0;
        while k < needle.len()
            invariant
                k <= needle.len(),
                self.i + needle.len() <= self.bytes.len(),
                forall|j: int| 0 <= j < k ==> self.bytes@[self.i + j] == needle@[j],
            decreases needle.len() - k,
        {
            if self.bytes[self.i + k] != needle[k] {
                assert(self.bytes@.subrange(self.i as int, self.i + needle@.len())[k as int] != needle@[k as int]);
                return false;
            }
            k = k + 1;
        }
        assert(self.bytes@.subrange(self.i as int, self.i + needle@.len()) =~= needle@);
        self.i = self.i + needle.len();
        true
    }

    /// Passes `byte`, which must come next.
    pub fn expect(&mut self, byte: u8) -> (r: Result<(), JsonError>)
        ensures
            final(self).bytes == old(self).bytes,
            r is Ok == (old(self).i < old(self).bytes@.len() && old(self).bytes@[old(self).i as int] == byte),
            r is Ok ==> final(self).i == old(self).i + 1,
            old(self).i <= final(self).i <= old(self).i + 1,
            old(self).i <= old(self).bytes@.len() ==> final(self).i <= final(self).bytes@.len(),
    {
        match self.next() {
            Some(b) => {
                if b == byte {
                    Ok(())
                } else {
                    Err(JsonError::new("unexpected token"))
                }
            },
            None => Err(JsonError::new("unexpected token")),
        }
    }

    /// Passes `needle`, which must come next.
    pub fn expect_bytes(&mut self, needle: &[u8]) -> (r: Result<(), JsonError>)
        ensures
            final(self).bytes == old(self).bytes,
            r is Ok == (old(self).i + needle@.len() <= old(self).bytes@.len() && old(self).bytes@.subrange(
                old(self).i as int,
                old(self).i + needle@.len(),
            ) == needle@),
            final(self).i == (if r is Ok { old(self).i + needle@.len() } else { old(self).i as int }),
    {
        if self.consume_bytes(needle) {
            Ok(())
        } else {
            Err(JsonError::new("unexpected token"))
        }
    }

    /// Passes the digits that come next.
    pub fn consume_digits(&mut self)
        requires
            old(self).i <= old(self).bytes@.len(),
        ensures
            final(self).bytes == old(self).bytes,
            final(self).i == digits_end(old(self).bytes@, old(self).i as int),
            old(self).i <= final(self).i <= final(self).bytes@.len(),
    {
        proof {
            lemma_digits_end(self.bytes@, self.i as int);
        }
        while self.i < self.bytes.len() && 0x30 <= self.bytes[self.i] && self.bytes[self.i] <= 0x39
            invariant
                self.i <= self.bytes@.len(),
                self.bytes == old(self).bytes,
                digits_end(self.bytes@, old(self).i as int) == digits_end(self.bytes@, self.i as int),
            decreases self.bytes@.len() - self.i,
        {
            self.i = self.i + 1;
        }
    }

    /// Passes the whitespace that comes next.
    pub fn skip_ws(&mut self)
        requires
            old(self).i <= old(self).bytes@.len(),
        ensures
            final(self).bytes == old(self).bytes,
            final(self).i == ws_end(old(self).bytes@, old(self).i as int),
            old(self).i <= final(self).i <= final(self).bytes@.len(),
    {
        proof {
            lemma_ws_end(self.bytes@, self.i as int);
        }
        while self.i < self.bytes.len() && (self.bytes[self.i] == 0x20 || self.bytes[self.i] == 0x0a
            || self.bytes[self.i] == 0x0d || self.bytes[self.i] == 0x09)
            invariant
                self.i <= self.bytes@.len(),
                self.bytes == old(self).bytes,
                ws_end(self.bytes@, old(self).i as int) == ws_end(self.bytes@, self.i as int),
            decreases self.bytes@.len() - self.i,
        {
            self.i = self.i + 1;
        }
    }

    /// Reads four hexadecimal digits.
    pub fn parse_hex4(&mut self) -> (r: Result<u16, JsonError>)
        requires
            old(self).i <= old(self).bytes@.len(),
        ensures
            final(self).bytes == old(self).bytes,
            old(self).i <= final(self).i <= old(self).i + 4,
            final(self).i <= final(self).bytes@.len(),
            r is Ok == hex4_at(old(self).bytes@, old(self).i as int) is Some,
            r matches Ok(v) ==> v as int == hex4_at(old(self).bytes@, old(self).i as int)->0
                && final(self).i == old(self).i + 4,
    {
        let ghost b = self.bytes@;
        let ghost i0 = self.i as int;
        let mut value: u16 = 0;
        let mut k: usize = 0;
        while k < 4
            invariant
                k <= 4,
                self.bytes@ == b,
                self.bytes == old(self).bytes,
                i0 == old(self).i,
                self.i == i0 + k,
                i0 + k <= b.len(),
                forall|j: int| 0 <= j < k ==> (#[trigger] hex_digit(b[i0 + j])) is Some,
                value as int == (if k == 0 { 0 } else if k == 1 { hex_digit(b[i0])->0 } else if k == 2 {
                    hex_digit(b[i0])->0 * 16 + hex_digit(b[i0 + 1])->0
                } else if k == 3 {
                    hex_digit(b[i0])->0 * 256 + hex_digit(b[i0 + 1])->0 * 16 + hex_digit(b[i0 + 2])->0
                } else {
                    hex_digit(b[i0])->0 * 4096 + hex_digit(b[i0 + 1])->0 * 256 + hex_digit(b[i0 + 2])->0 * 16
                        + hex_digit(b[i0 + 3])->0
                }),
                value < (if k == 0 { 1int } else if k == 1 { 16 } else if k == 2 { 256 } else if k == 3 { 4096 } else { 65536 }),
            decreases 4 - k,
        {
            let b0 = match self.next() {
                Some(x) => x,
                None => {
                    return Err(JsonError::new("truncated unicode escape"));
                },
            };
            let d: u16 = if 0x30 <= b0 && b0 <= 0x39 {
                (b0 - 0x30) as u16
            } else if 0x61 <= b0 && b0 <= 0x66 {
                (b0 - 0x61 + 10) as u16
            } else if 0x41 <= b0 && b0 <= 0x46 {
                (b0 - 0x41 + 10) as u16
            } else {
                assert(hex_digit(b[i0 + k]) is None);
                return Err(JsonError::new("invalid hex in unicode escape"));
            };
            assert(d as int == hex_digit(b[i0 + k])->0);
            value = value * 16 + d;
            k = k + 1;
        }
        assert(hex_digit(b[i0 + 0]) is Some);
        assert(hex_digit(b[i0 + 1]) is Some);
        assert(hex_digit(b[i0 + 2]) is Some);
        assert(hex_digit(b[i0 + 3]) is Some);
        Ok(value)
    }
}


/// The characters with the codes of `b`'s bytes.
pub open spec fn byte_chars(b: Seq<u8>) -> Seq<char> {
    b.map_values(|x: u8| x as char)
}

/// Where a number's digits start, after an optional minus sign.
pub open spec fn after_sign(b: Seq<u8>, s: int) -> int {
    if 0 <= s < b.len() && b[s] == 0x2d { s + 1 } else { s }
}

/// Where a number's integer digits end.
pub open spec fn int_end(b: Seq<u8>, s: int) -> int {
    digits_end(b, after_sign(b, s))
}

/// The number has a decimal point.
pub open spec fn has_point(b: Seq<u8>, s: int) -> bool {
    0 <= int_end(b, s) < b.len() && b[int_end(b, s)] == 0x2e
}

/// Where a number's fraction ends.
pub open spec fn frac_end(b: Seq<u8>, s: int) -> int {
    if has_point(b, s) { digits_end(b, int_end(b, s) + 1) } else { int_end(b, s) }
}

/// The number has an exponent.
pub open spec fn has_exponent(b: Seq<u8>, s: int) -> bool {
    0 <= frac_end(b, s) < b.len() && (b[frac_end(b, s)] == 0x65 || b[frac_end(b, s)] == 0x45)
}

/// Where the exponent's digits start.
pub open spec fn exp_start(b: Seq<u8>, s: int) -> int {
    let e = frac_end(b, s) + 1;
    if 0 <= e < b.len() && (b[e] == 0x2b || b[e] == 0x2d) { e + 1 } else { e }
}

/// Where a number starting at `s` ends.
pub open spec fn number_end(b: Seq<u8>, s: int) -> int {
    if has_exponent(b, s) { digits_end(b, exp_start(b, s)) } else { frac_end(b, s) }
}

/// The number text has a digit before or after its point, and digits in
/// its exponent if it has one.
pub open spec fn number_ok(b: Seq<u8>, s: int) -> bool {
    &&& (int_end(b, s) > after_sign(b, s) || (has_point(b, s) && frac_end(b, s) > int_end(b, s) + 1))
    &&& (has_exponent(b, s) ==> number_end(b, s) > exp_start(b, s))
}

proof fn lemma_digits_end(b: Seq<u8>, i: int)
    requires
        0 <= i <= b.len(),
    ensures
        i <= digits_end(b, i) <= b.len(),
    decreases b.len() - i,
{
    if i < b.len() && is_digit(b[i]) {
        lemma_digits_end(b, i + 1);
    }
}

proof fn lemma_ws_end(b: Seq<u8>, i: int)
    requires
        0 <= i <= b.len(),
    ensures
        i <= ws_end(b, i) <= b.len(),
        ws_end(b, i) < b.len() ==> !is_json_ws(b[ws_end(b, i)]),
    decreases b.len() - i,
{
    if i < b.len() && is_json_ws(b[i]) {
        lemma_ws_end(b, i + 1);
    }
}

proof fn lemma_number_end(b: Seq<u8>, s: int)
    requires
        0 <= s <= b.len(),
    ensures
        s <= number_end(b, s) <= b.len(),
        number_ok(b, s) ==> number_end(b, s) > s,
{
    lemma_digits_end(b, after_sign(b, s));
    if has_point(b, s) {
        lemma_digits_end(b, int_end(b, s) + 1);
    }
    if has_exponent(b, s) {
        lemma_digits_end(b, exp_start(b, s));
    }
}

/// What kind of value starts with byte `c`.
pub open spec fn starts_kind(v: JsonValue, c: u8) -> bool {
    match v {
        JsonValue::Null => c == 0x6e,
        JsonValue::Bool(_) => c == 0x74 || c == 0x66,
        JsonValue::Number(_) => c == 0x2d || is_digit(c),
        JsonValue::String(_) => c == 0x22,
        JsonValue::Array(_) => c == 0x5b,
        JsonValue::Object(es) => c == 0x7b && keys_sorted(es@),
    }
}

impl<'a> Parser<'a> {
    /// Reads a string, quotes included.
    pub fn parse_string(&mut self) -> (r: Result<String, JsonError>)
        requires
            old(self).i <= old(self).bytes@.len(),
        ensures
            final(self).bytes == old(self).bytes,
            old(self).i <= final(self).i <= final(self).bytes@.len(),
            r is Ok ==> final(self).i > old(self).i,
            r is Ok == (old(self).i < old(self).bytes@.len() && old(self).bytes@[old(self).i as int] == 0x22
                && string_body(old(self).bytes@, old(self).i + 1) is Some),
            r matches Ok(s) ==> string_body(old(self).bytes@, old(self).i + 1) == Some((s@, final(self).i as int)),
    {
        let ghost b = self.bytes@;
        if !self.try_consume(0x22) {
            return Err(JsonError::new("unexpected token"));
        }
        let ghost start = self.i as int;
        let mut out = String::new();
        loop
            invariant
                self.bytes == old(self).bytes,
                b == self.bytes@,
                start == old(self).i + 1,
                start <= self.i <= b.len(),
                b[start - 1] == 0x22,
                string_body(b, start) == match string_body(b, self.i as int) {
                    Some((rest, e)) => Some((out@ + rest, e)),
                    None => None,
                },
            decreases b.len() - self.i,
        {
            let ghost j = self.i as int;
            let c = match self.next() {
                Some(x) => x,
                None => {
                    return Err(JsonError::new("unterminated string"));
                },
            };
            if c == 0x22 {
                assert(string_body(b, j) == Some((Seq::<char>::empty(), j + 1)));
                assert(out@ + Seq::<char>::empty() == out@);
                return Ok(out);
            } else if c == 0x5c {
                let esc = match self.next() {
                    Some(x) => x,
                    None => {
                        return Err(JsonError::new("incomplete escape"));
                    },
                };
                let ch: char;
                if esc == 0x75 {
                    let code = match self.parse_hex4() {
                        Ok(v) => v,
                        Err(e) => {
                            return Err(e);
                        },
                    };
                    ch = match char_from_code(code) {
                        Some(x) => x,
                        None => {
                            return Err(JsonError::new("invalid unicode escape"));
                        },
                    };
                    proof {
                        assert(code_of(ch) == code as int);
                        let c2 = choose|c: char| #[trigger] code_of(c) == code as int;
                        assert(c2 == ch);
                    }
                } else if esc == 0x22 {
                    ch = '"';
                } else if esc == 0x5c {
                    ch = '\\';
                } else if esc == 0x2f {
                    ch = '/';
                } else if esc == 0x62 {
                    ch = '\u{8}';
                } else if esc == 0x66 {
                    ch = '\u{c}';
                } else if esc == 0x6e {
                    ch = '\n';
                } else if esc == 0x72 {
                    ch = '\r';
                } else if esc == 0x74 {
                    ch = '\t';
                } else {
                    return Err(JsonError::new("invalid escape"));
                }
                let ghost prev = out@;
                push_char(&mut out, ch);
                proof {
                    match string_body(b, self.i as int) {
                        Some((rest, e)) => {
                            assert(prev + (seq![ch] + rest) == out@ + rest);
                        },
                        None => {},
                    }
                }
            } else if c < 0x20 || c == 0x7f {
                return Err(JsonError::new("control character in string"));
            } else {
                let ghost prev = out@;
                push_char(&mut out, c as char);
                proof {
                    match string_body(b, self.i as int) {
                        Some((rest, e)) => {
                            assert(prev + (seq![c as char] + rest) == out@ + rest);
                        },
                        None => {},
                    }
                }
            }
        }
    }

    /// Reads a number, keeping its text.
    pub fn parse_number(&mut self) -> (r: Result<String, JsonError>)
        requires
            old(self).i <= old(self).bytes@.len(),
        ensures
            final(self).bytes == old(self).bytes,
            final(self).i == number_end(old(self).bytes@, old(self).i as int),
            final(self).i <= final(self).bytes@.len(),
            r is Ok == number_ok(old(self).bytes@, old(self).i as int),
            r matches Ok(s) ==> s@ == byte_chars(old(self).bytes@.subrange(old(self).i as int, final(self).i as int)),
    {
        let ghost b = self.bytes@;
        let start = self.i;
        self.try_consume(0x2d);
        let p1 = self.i;
        self.consume_digits();
        let p2 = self.i;
        proof { lemma_digits_end(b, p1 as int); }
        let point = self.try_consume(0x2e);
        let mut frac_digits = false;
        if point {
            let q = self.i;
            self.consume_digits();
            proof { lemma_digits_end(b, q as int); }
            frac_digits = self.i > q;
        }
        let p3 = self.i;
        let mut exp_ok = true;
        match self.peek() {
            Some(x) => {
                if x == 0x65 || x == 0x45 {
                    self.i = self.i + 1;
                    match self.peek() {
                        Some(y) => {
                            if y == 0x2b || y == 0x2d {
                                self.i = self.i + 1;
                            }
                        },
                        None => {},
                    }
                    let q = self.i;
                    self.consume_digits();
                    proof { lemma_digits_end(b, q as int); }
                    exp_ok = self.i > q;
                }
            },
            None => {},
        }
        let end = self.i;
        if !((p2 > p1 || frac_digits) && exp_ok) {
            return Err(JsonError::new("invalid number literal"));
        }
        let mut out = String::new();
        let mut k = start;
        while k < end
            invariant
                start <= k <= end <= b.len(),
                b == self.bytes@,
                out@ == byte_chars(b.subrange(start as int, k as int)),
            decreases end - k,
        {
            push_char(&mut out, self.bytes[k] as char);
            k = k + 1;
            assert(byte_chars(b.subrange(start as int, k as int)) =~= byte_chars(b.subrange(start as int, k - 1)).push(b[k - 1] as char));
        }
        Ok(out)
    }
}

proof fn lemma_spells(b: Seq<u8>, j: int, word: Seq<char>, needle: Seq<u8>)
    requires
        0 <= j,
        word.len() == needle.len(),
        forall|k: int| 0 <= k < word.len() ==> word[k] == (needle[k] as char),
    ensures
        spells(b, j, word) <==> (j + needle.len() <= b.len() && b.subrange(j, j + needle.len()) == needle),
{
    if j + needle.len() <= b.len() {
        let w = b.subrange(j, j + needle.len());
        if byte_chars(w) == word {
            assert forall|k: int| 0 <= k < needle.len() implies w[k] == needle[k] by {
                assert(byte_chars(w)[k] == (w[k] as char));
                assert((w[k] as char) == (needle[k] as char));
            }
            assert(w =~= needle);
        }
        if w == needle {
            assert(byte_chars(w) =~= word);
        }
    }
}

proof fn lemma_items_push(items: Vec<JsonValue>, items2: Vec<JsonValue>, v: JsonValue)
    requires
        items2@ == items@.push(v),
    ensures
        items_model(items2, items2@.len()) == items_model(items, items@.len()).push(model(v)),
{
    lemma_items_model(items, items@.len());
    lemma_items_model(items2, items2@.len());
    assert(items_model(items2, items2@.len()) =~= items_model(items, items@.len()).push(model(v)));
}

impl<'a> Parser<'a> {
    /// Reads `null`.
    pub fn parse_null(&mut self) -> (r: Result<JsonValue, JsonError>)
        requires
            old(self).i <= old(self).bytes@.len(),
        ensures
            final(self).bytes == old(self).bytes,
            final(self).i <= final(self).bytes@.len(),
            r is Ok == spells(old(self).bytes@, old(self).i as int, "null"@),
            r is Ok ==> final(self).i == old(self).i + 4 && r == Ok::<JsonValue, JsonError>(JsonValue::Null),
    {
        let needle: [u8; 4] = [0x6e, 0x75, 0x6c, 0x6c];
        proof {
            reveal_strlit("null");
            lemma_spells(self.bytes@, self.i as int, "null"@, needle@);
        }
        match self.expect_bytes(&needle) {
            Ok(()) => Ok(JsonValue::Null),
            Err(e) => Err(e),
        }
    }

    /// Reads `true` or `false`.
    pub fn parse_bool(&mut self) -> (r: Result<JsonValue, JsonError>)
        requires
            old(self).i <= old(self).bytes@.len(),
        ensures
            final(self).bytes == old(self).bytes,
            final(self).i <= final(self).bytes@.len(),
            r is Ok <==> (spells(old(self).bytes@, old(self).i as int, "true"@) || spells(old(self).bytes@, old(self).i as int, "false"@)),
            spells(old(self).bytes@, old(self).i as int, "true"@) ==> r == Ok::<JsonValue, JsonError>(JsonValue::Bool(true)) && final(self).i == old(self).i + 4,
            !spells(old(self).bytes@, old(self).i as int, "true"@) && spells(old(self).bytes@, old(self).i as int, "false"@)
                ==> r == Ok::<JsonValue, JsonError>(JsonValue::Bool(false)) && final(self).i == old(self).i + 5,
    {
        let t: [u8; 4] = [0x74, 0x72, 0x75, 0x65];
        let f: [u8; 5] = [0x66, 0x61, 0x6c, 0x73, 0x65];
        proof {
            reveal_strlit("true");
            reveal_strlit("false");
            lemma_spells(self.bytes@, self.i as int, "true"@, t@);
            lemma_spells(self.bytes@, self.i as int, "false"@, f@);
        }
        if self.consume_bytes(&t) {
            Ok(JsonValue::Bool(true))
        } else if self.consume_bytes(&f) {
            Ok(JsonValue::Bool(false))
        } else {
            Err(JsonError::new("invalid boolean"))
        }
    }

    /// Reads an array.
    pub fn parse_array(&mut self) -> (r: Result<JsonValue, JsonError>)
        requires
            old(self).i <= old(self).bytes@.len(),
        ensures
            final(self).bytes == old(self).bytes,
            final(self).i <= final(self).bytes@.len(),
            r is Ok <==> (old(self).i < old(self).bytes@.len() && old(self).bytes@[old(self).i as int] == 0x5b
                && read_array(old(self).bytes@, old(self).i + 1) is Some),
            r matches Ok(v) ==> final(self).i > old(self).i && v is Array
                && read_array(old(self).bytes@, old(self).i + 1) == Some((model(v), final(self).i as int)),
        decreases old(self).bytes@.len() - old(self).i, 0int,
    {
        let ghost i0 = self.i as int;
        let ghost b = self.bytes@;
        match self.expect(0x5b) {
            Ok(()) => {},
            Err(e) => {
                return Err(e);
            },
        }
        self.skip_ws();
        let mut arr: Vec<JsonValue> = Vec::new();
        if self.try_consume(0x5d) {
            proof {
                lemma_items_model(arr, 0);
            }
            return Ok(JsonValue::Array(arr));
        }
        proof {
            lemma_items_model(arr, 0);
            assert(items_model(arr, 0) =~= Seq::<JsonModel>::empty());
        }
        loop
            invariant
                self.bytes == old(self).bytes,
                b == self.bytes@,
                i0 == old(self).i,
                i0 < self.i <= self.bytes@.len(),
                i0 < b.len() && b[i0] == 0x5b,
                read_array(b, i0 + 1) == read_items(b, self.i as int, items_model(arr, arr@.len())),
            decreases self.bytes@.len() - self.i,
        {
            let ghost pos = self.i as int;
            let ghost acc = items_model(arr, arr@.len());
            let v = match self.parse_value() {
                Ok(v) => v,
                Err(e) => {
                    return Err(e);
                },
            };
            let ghost e = self.i as int;
            let ghost mv = model(v);
            let ghost prev = arr;
            arr.push(v);
            proof {
                lemma_items_push(prev, arr, v);
            }
            self.skip_ws();
            if self.try_consume(0x5d) {
                return Ok(JsonValue::Array(arr));
            }
            match self.expect(0x2c) {
                Ok(()) => {},
                Err(e) => {
                    return Err(e);
                },
            }
        }
    }

    /// Reads an object; of two equal keys the later wins.
    pub fn parse_object(&mut self) -> (r: Result<JsonValue, JsonError>)
        requires
            old(self).i <= old(self).bytes@.len(),
        ensures
            final(self).bytes == old(self).bytes,
            final(self).i <= final(self).bytes@.len(),
            r is Ok <==> (old(self).i < old(self).bytes@.len() && old(self).bytes@[old(self).i as int] == 0x7b
                && read_object(old(self).bytes@, old(self).i + 1) is Some),
            r matches Ok(v) ==> final(self).i > old(self).i && starts_kind(v, 0x7b)
                && read_object(old(self).bytes@, old(self).i + 1) == Some((model(v), final(self).i as int)),
        decreases old(self).bytes@.len() - old(self).i, 0int,
    {
        let ghost i0 = self.i as int;
        let ghost b = self.bytes@;
        match self.expect(0x7b) {
            Ok(()) => {},
            Err(e) => {
                return Err(e);
            },
        }
        self.skip_ws();
        let mut map: Vec<(String, JsonValue)> = Vec::new();
        if self.try_consume(0x7d) {
            proof {
                lemma_entries_model(map, 0);
            }
            return Ok(JsonValue::Object(map));
        }
        proof {
            lemma_entries_model(map, 0);
            assert(entries_model(map, 0) =~= Seq::<(Seq<char>, JsonModel)>::empty());
        }
        loop
            invariant
                self.bytes == old(self).bytes,
                b == self.bytes@,
                i0 == old(self).i,
                i0 < self.i <= self.bytes@.len(),
                i0 < b.len() && b[i0] == 0x7b,
                keys_sorted(map@),
                read_object(b, i0 + 1) == read_entries(b, self.i as int, entries_model(map, map@.len())),
            decreases self.bytes@.len() - self.i,
        {
            let ghost pos = self.i as int;
            self.skip_ws();
            let key = match self.parse_string() {
                Ok(k) => k,
                Err(e) => {
                    return Err(e);
                },
            };
            self.skip_ws();
            match self.expect(0x3a) {
                Ok(()) => {},
                Err(e) => {
                    return Err(e);
                },
            }
            let value = match self.parse_value() {
                Ok(v) => v,
                Err(e) => {
                    return Err(e);
                },
            };
            insert_entry(&mut map, key, value);
            self.skip_ws();
            if self.try_consume(0x7d) {
                return Ok(JsonValue::Object(map));
            }
            match self.expect(0x2c) {
                Ok(()) => {},
                Err(e) => {
                    return Err(e);
                },
            }
        }
    }

    /// Reads one value after optional whitespace.
    pub fn parse_value(&mut self) -> (r: Result<JsonValue, JsonError>)
        requires
            old(self).i <= old(self).bytes@.len(),
        ensures
            final(self).bytes == old(self).bytes,
            final(self).i <= final(self).bytes@.len(),
            r is Ok <==> read_value(old(self).bytes@, old(self).i as int) is Some,
            r matches Ok(v) ==> read_value(old(self).bytes@, old(self).i as int) == Some((model(v), final(self).i as int)),
            r matches Ok(v) ==> final(self).i > old(self).i
                && ws_end(old(self).bytes@, old(self).i as int) < old(self).bytes@.len()
                && starts_kind(v, old(self).bytes@[ws_end(old(self).bytes@, old(self).i as int)]),
        decreases old(self).bytes@.len() - old(self).i, 1int,
    {
        self.skip_ws();
        let b = match self.peek() {
            Some(x) => x,
            None => {
                return Err(JsonError::new("unexpected end of JSON"));
            },
        };
        if b == 0x6e {
            self.parse_null()
        } else if b == 0x74 || b == 0x66 {
            self.parse_bool()
        } else if b == 0x22 {
            match self.parse_string() {
                Ok(s) => Ok(JsonValue::String(s)),
                Err(e) => Err(e),
            }
        } else if b == 0x5b {
            self.parse_array()
        } else if b == 0x7b {
            self.parse_object()
        } else if b == 0x2d || (0x30 <= b && b <= 0x39) {
            let ghost s0 = self.i as int;
            let r = self.parse_number();
            proof {
                lemma_number_end(self.bytes@, s0);
            }
            match r {
                Ok(s) => Ok(JsonValue::Number(s)),
                Err(e) => Err(e),
            }
        } else {
            Err(JsonError::new("unexpected token in JSON"))
        }
    }
}

/// Reads a whole JSON text: one value, with nothing but whitespace after it.
pub fn parse_json(input: &str) -> (r: Result<JsonValue, JsonError>)
    ensures
        r is Ok <==> read_json(input.spec_bytes()) is Some,
        r matches Ok(v) ==> read_json(input.spec_bytes()) == Some(model(v)),
        r matches Ok(v) ==> ws_end(input.spec_bytes(), 0) < input.spec_bytes().len()
            && starts_kind(v, input.spec_bytes()[ws_end(input.spec_bytes(), 0)]),
{
    let mut p = Parser { bytes: input.as_bytes(), i: 0 };
    let value = match p.parse_value() {
        Ok(v) => v,
        Err(e) => {
            return Err(e);
        },
    };
    p.skip_ws();
    if p.i != p.bytes.len() {
        return Err(JsonError::new("trailing characters in JSON"));
    }
    Ok(value)
}

impl JsonValue {
    pub fn as_str(&self) -> (r: Option<&str>)
        ensures
            r is Some <==> self is String,
            r matches Some(x) ==> self matches JsonValue::String(s) && x@ == s@,
    {
        match self {
            JsonValue::String(s) => Some(s.as_str()),
            _ => None,
        }
    }

    pub fn as_array(&self) -> (r: Option<&Vec<JsonValue>>)
        ensures
            r is Some <==> self is Array,
            r matches Some(x) ==> self matches JsonValue::Array(a) && *x == a,
    {
        match self {
            JsonValue::Array(v) => Some(v),
            _ => None,
        }
    }

    pub fn as_object(&self) -> (r: Option<&Vec<(String, JsonValue)>>)
        ensures
            r is Some <==> self is Object,
            r matches Some(x) ==> self matches JsonValue::Object(m) && *x == m,
    {
        match self {
            JsonValue::Object(m) => Some(m),
            _ => None,
        }
    }

    /// The value under `key` of an object; nothing for other values.
    pub fn get(&self, key: &str) -> (r: Option<&JsonValue>)
        ensures
            r is Some <==> (self matches JsonValue::Object(m) && entry_index(m@, key@, 0) >= 0),
            r matches Some(x) ==> self matches JsonValue::Object(m) && *x == m@[entry_index(m@, key@, 0)].1,
    {
        match self {
            JsonValue::Object(m) => {
                let k = String::from_str(key);
                let mut i: usize = 0;
                while i < m.len()
                    invariant
                        i <= m@.len(),
                        k@ == key@,
                        *self == JsonValue::Object(*m),
                        entry_index(m@, key@, 0) == entry_index(m@, key@, i as int),
                    decreases m@.len() - i,
                {
                    if m[i].0 == k {
                        assert(m@[i as int].0@ == key@);
                        return Some(&m[i].1);
                    }
                    i = i + 1;
                }
                None
            },
            _ => None,
        }
    }
}

/// The lowercase hexadecimal digit of `d`.
pub open spec fn hex_char(d: int) -> char {
    if d < 10 {
        choose|c: char| #[trigger] code_of(c) == 0x30 + d
    } else {
        choose|c: char| #[trigger] code_of(c) == 0x61 + d - 10
    }
}

/// A control character, Unicode category Cc.
pub open spec fn is_control(c: char) -> bool {
    c <= '\u{1f}' || ('\u{7f}' <= c && c <= '\u{9f}')
}

/// How one character is written inside a quoted string.
pub open spec fn escaped(c: char) -> Seq<char> {
    if c == '"' {
        seq!['\\', '"']
    } else if c == '\\' {
        seq!['\\', '\\']
    } else if c == '\n' {
        seq!['\\', 'n']
    } else if c == '\r' {
        seq!['\\', 'r']
    } else if c == '\t' {
        seq!['\\', 't']
    } else if is_control(c) {
        seq!['\\', 'u', '0', '0', hex_char(code_of(c) / 16), hex_char(code_of(c) % 16)]
    } else {
        seq![c]
    }
}

/// The characters of `s`, each escaped.
pub open spec fn escaped_all(s: Seq<char>) -> Seq<char>
    decreases s.len(),
{
    if s.len() == 0 {
        seq![]
    } else {
        escaped_all(s.drop_last()) + escaped(s.last())
    }
}

/// `s` as a quoted JSON string.
pub open spec fn quoted(s: Seq<char>) -> Seq<char> {
    seq!['"'] + escaped_all(s) + seq!['"']
}

pub(crate) fn hex_digit_char(d: u32) -> (r: char)
    requires
        d < 16,
    ensures
        r == hex_char(d as int),
{
    let c: char = if d < 10 { ((0x30 + d) as u8) as char } else { ((0x61 + d - 10) as u8) as char };
    proof {
        let w = if d < 10 { 0x30 + d } else { 0x61 + d - 10 };
        assert(code_of(c) == w);
        let x = choose|x: char| #[trigger] code_of(x) == w;
        assert(x == c);
    }
    c
}

fn code_point(c: char) -> (r: u32)
    ensures
        r as int == c as int,
{
    c as u32
}

/// `input` as a quoted JSON string, with quotes, backslashes and control
/// characters escaped.
pub fn quote(input: &str) -> (r: String)
    ensures
        r@ == quoted(input@),
{
    let cs = crate::text::chars_of(input);
    let mut out = String::from_str("\"");
    proof { reveal_strlit("\""); }
    let mut i: usize = 0;
    while i < cs.len()
        invariant
            i <= cs@.len(),
            out@ == seq!['"'] + escaped_all(cs@.subrange(0, i as int)),
        decreases cs@.len() - i,
    {
        let c = cs[i];
        let ghost prev = out@;
        if c == '"' {
            push_char(&mut out, '\\');
            push_char(&mut out, '"');
        } else if c == '\\' {
            push_char(&mut out, '\\');
            push_char(&mut out, '\\');
        } else if c == '\n' {
            push_char(&mut out, '\\');
            push_char(&mut out, 'n');
        } else if c == '\r' {
            push_char(&mut out, '\\');
            push_char(&mut out, 'r');
        } else if c == '\t' {
            push_char(&mut out, '\\');
            push_char(&mut out, 't');
        } else if c <= '\u{1f}' || ('\u{7f}' <= c && c <= '\u{9f}') {
            let code = code_point(c);
            assert(c as int <= 0x9f);
            push_char(&mut out, '\\');
            push_char(&mut out, 'u');
            push_char(&mut out, '0');
            push_char(&mut out, '0');
            push_char(&mut out, hex_digit_char(code / 16));
            push_char(&mut out, hex_digit_char(code % 16));
        } else {
            push_char(&mut out, c);
        }
        proof {
            let sub = cs@.subrange(0, i + 1);
            assert(sub.drop_last() == cs@.subrange(0, i as int));
            assert(sub.last() == c);
            assert(out@ =~= prev + escaped(c));
        }
        i = i + 1;
    }
    assert(cs@.subrange(0, cs@.len() as int) == cs@);
    push_char(&mut out, '"');
    assert(out@ =~= quoted(input@));
    out
}

/// The decimal digits of `n`.
pub open spec fn decimal(n: nat) -> Seq<char>
    decreases n,
{
    if n < 10 {
        seq![hex_char(n as int)]
    } else {
        decimal(n / 10) + seq![hex_char((n % 10) as int)]
    }
}

/// `n` in decimal.
pub fn decimal_string(n: usize) -> (r: String)
    ensures
        r@ == decimal(n as nat),
    decreases n,
{
    if n < 10 {
        let mut out = String::new();
        push_char(&mut out, hex_digit_char(n as u32));
        assert(out@ =~= decimal(n as nat));
        out
    } else {
        let mut out = decimal_string(n / 10);
        push_char(&mut out, hex_digit_char((n % 10) as u32));
        assert(out@ =~= decimal(n as nat));
        out
    }
}

/// `n` spaces.
pub open spec fn spaces(n: nat) -> Seq<char> {
    Seq::new(n, |i: int| ' ')
}

fn push_spaces(out: &mut String, n: usize)
    ensures
        final(out)@ == old(out)@ + spaces(n as nat),
{
    let mut k: usize = 0;
    while k < n
        invariant
            k <= n,
            out@ == old(out)@ + spaces(k as nat),
        decreases n - k,
    {
        push_char(out, ' ');
        k = k + 1;
        assert(out@ =~= old(out)@ + spaces(k as nat));
    }
}

/// How a scalar value prints; containers print over several lines.
pub open spec fn scalar_text(v: JsonValue) -> Seq<char> {
    match v {
        JsonValue::Null => "null"@,
        JsonValue::Bool(b) => if b { "true"@ } else { "false"@ },
        JsonValue::Number(n) => n@,
        JsonValue::String(s) => quoted(s@),
        JsonValue::Array(a) => "[]"@,
        JsonValue::Object(m) => "{}"@,
    }
}

/// The indentation of a container's items: two more, short of overflow.
pub open spec fn inner_indent(indent: nat) -> nat {
    if indent < usize::MAX - 2 {
        indent + 2
    } else {
        indent
    }
}

/// `v` printed at indentation `indent`: scalars inline, an empty container
/// as `[]` or `{}`, else one item per line, each indented two more, separated
/// by commas.
pub open spec fn pretty(v: JsonValue, indent: nat) -> Seq<char>
    decreases v, 0nat,
{
    match v {
        JsonValue::Array(items) => if items@.len() == 0 {
            "[]"@
        } else {
            "[\n"@ + pretty_items(items, inner_indent(indent), 0) + spaces(indent) + "]"@
        },
        JsonValue::Object(es) => if es@.len() == 0 {
            "{}"@
        } else {
            "{\n"@ + pretty_entries(es, inner_indent(indent), 0) + spaces(indent) + "}"@
        },
        _ => scalar_text(v),
    }
}

/// The lines of the items of an array from index `k` on.
pub open spec fn pretty_items(items: Vec<JsonValue>, indent: nat, k: nat) -> Seq<char>
    decreases items, items@.len() - k via pretty_items_decreases
{
    if k >= items@.len() {
        seq![]
    } else {
        spaces(indent) + pretty(items[k as int], indent) + (if k + 1 < items@.len() { ","@ } else { seq![] })
            + "\n"@ + pretty_items(items, indent, k + 1)
    }
}

/// The lines of the entries of an object from index `k` on.
pub open spec fn pretty_entries(es: Vec<(String, JsonValue)>, indent: nat, k: nat) -> Seq<char>
    decreases es, es@.len() - k via pretty_entries_decreases
{
    if k >= es@.len() {
        seq![]
    } else {
        spaces(indent) + quoted(es[k as int].0@) + ": "@ + pretty(es[k as int].1, indent) + (if k + 1 < es@.len() {
            ","@
        } else {
            seq![]
        }) + "\n"@ + pretty_entries(es, indent, k + 1)
    }
}

#[via_fn]
proof fn pretty_items_decreases(items: Vec<JsonValue>, indent: nat, k: nat) {
    if k < items@.len() {
        vstd::std_specs::vec::axiom_vec_index_decreases(items, k as int);
    }
}

#[via_fn]
proof fn pretty_entries_decreases(es: Vec<(String, JsonValue)>, indent: nat, k: nat) {
    if k < es@.len() {
        vstd::std_specs::vec::axiom_vec_index_decreases(es, k as int);
        assert(decreases_to!(es[k as int] => es[k as int].1));
    }
}

/// Appends `value` printed with two spaces of indentation per level,
/// starting at `indent`.
pub fn write_value(value: &JsonValue, indent: usize, out: &mut String)
    ensures
        final(out)@ == old(out)@ + pretty(*value, indent as nat),
    decreases value,
{
    let ghost o0 = out@;
    match value {
        JsonValue::Null => out.append("null"),
        JsonValue::Bool(b) => out.append(if *b { "true" } else { "false" }),
        JsonValue::Number(n) => out.append(n.as_str()),
        JsonValue::String(s) => out.append(quote(s.as_str()).as_str()),
        JsonValue::Array(arr) => {
            if arr.len() == 0 {
                out.append("[]");
                return;
            }
            out.append("[\n");
            let inner: usize = if indent < usize::MAX - 2 { indent + 2 } else { indent };
            let mut idx: usize = 0;
            while idx < arr.len()
                invariant
                    idx <= arr@.len(),
                    *value == JsonValue::Array(*arr),
                    inner as nat == inner_indent(indent as nat),
                    out@ + pretty_items(*arr, inner as nat, idx as nat) == o0 + "[\n"@ + pretty_items(*arr, inner as nat, 0),
                decreases arr@.len() - idx,
            {
                let ghost o1 = out@;
                push_spaces(out, inner);
                proof {
                    vstd::std_specs::vec::axiom_vec_index_decreases(*arr, idx as int);
                    assert(decreases_to!(*value => (*value)->Array_0));
                    assert(decreases_to!(*value => arr[idx as int]));
                }
                write_value(&arr[idx], inner, out);
                let sep: &str = if idx + 1 < arr.len() { "," } else { "" };
                out.append(sep);
                out.append("\n");
                proof {
                    reveal_strlit("");
                    let rest = pretty_items(*arr, inner as nat, (idx + 1) as nat);
                    let sepv: Seq<char> = if idx + 1 < arr@.len() { ","@ } else { seq![] };
                    assert(sep@ == sepv);
                    assert(pretty_items(*arr, inner as nat, idx as nat) == spaces(inner as nat) + pretty(arr[idx as int], inner as nat) + sepv + "\n"@ + rest);
                    assert(out@ == o1 + spaces(inner as nat) + pretty(arr[idx as int], inner as nat) + sepv + "\n"@);
                    assert(out@ + rest =~= o1 + pretty_items(*arr, inner as nat, idx as nat));
                }
                idx = idx + 1;
            }
            let ghost o4 = out@;
            push_spaces(out, indent);
            out.append("]");
            proof {
                assert(pretty_items(*arr, inner as nat, idx as nat) == Seq::<char>::empty());
                assert(o4 + Seq::<char>::empty() == o4);
                assert(out@ =~= o0 + pretty(*value, indent as nat));
            }
        },
        JsonValue::Object(map) => {
            if map.len() == 0 {
                out.append("{}");
                return;
            }
            out.append("{\n");
            let inner: usize = if indent < usize::MAX - 2 { indent + 2 } else { indent };
            let mut idx: usize = 0;
            while idx < map.len()
                invariant
                    idx <= map@.len(),
                    *value == JsonValue::Object(*map),
                    inner as nat == inner_indent(indent as nat),
                    out@ + pretty_entries(*map, inner as nat, idx as nat) == o0 + "{\n"@ + pretty_entries(*map, inner as nat, 0),
                decreases map@.len() - idx,
            {
                let ghost o1 = out@;
                push_spaces(out, inner);
                let q = quote(map[idx].0.as_str());
                out.append(q.as_str());
                out.append(": ");
                proof {
                    vstd::std_specs::vec::axiom_vec_index_decreases(*map, idx as int);
                    assert(decreases_to!(*value => (*value)->Object_0));
                    assert(decreases_to!(map[idx as int] => map[idx as int].1));
                    assert(decreases_to!(*value => map[idx as int].1));
                }
                write_value(&map[idx].1, inner, out);
                let sep: &str = if idx + 1 < map.len() { "," } else { "" };
                out.append(sep);
                out.append("\n");
                proof {
                    reveal_strlit("");
                    let rest = pretty_entries(*map, inner as nat, (idx + 1) as nat);
                    let sepv: Seq<char> = if idx + 1 < map@.len() { ","@ } else { seq![] };
                    assert(sep@ == sepv);
                    assert(pretty_entries(*map, inner as nat, idx as nat) == spaces(inner as nat) + quoted(map[idx as int].0@) + ": "@ + pretty(map[idx as int].1, inner as nat) + sepv + "\n"@ + rest);
                    assert(out@ == o1 + spaces(inner as nat) + q@ + ": "@ + pretty(map[idx as int].1, inner as nat) + sepv + "\n"@);
                    assert(out@ + rest =~= o1 + pretty_entries(*map, inner as nat, idx as nat));
                }
                idx = idx + 1;
            }
            let ghost o4 = out@;
            push_spaces(out, indent);
            out.append("}");
            proof {
                assert(pretty_entries(*map, inner as nat, idx as nat) == Seq::<char>::empty());
                assert(o4 + Seq::<char>::empty() == o4);
                assert(out@ =~= o0 + pretty(*value, indent as nat));
            }
        },
    }
}

/// `value` printed with two spaces of indentation per level.
pub fn to_pretty_json(value: &JsonValue) -> (r: String)
    ensures
        r@ == pretty(*value, 0),
{
    let mut out = String::new();
    write_value(value, 0, &mut out);
    assert(Seq::<char>::empty() + pretty(*value, 0) == pretty(*value, 0));
    out
}

/// `b` has the kind of `a`, with the same scalar content, and for a
/// container the same number of items and, for an object, the same keys.
pub open spec fn same_top(a: JsonValue, b: JsonValue) -> bool {
    match (a, b) {
        (JsonValue::Null, JsonValue::Null) => true,
        (JsonValue::Bool(x), JsonValue::Bool(y)) => x == y,
        (JsonValue::Number(x), JsonValue::Number(y)) => x@ == y@,
        (JsonValue::String(x), JsonValue::String(y)) => x@ == y@,
        (JsonValue::Array(x), JsonValue::Array(y)) => x@.len() == y@.len(),
        (JsonValue::Object(x), JsonValue::Object(y)) => x@.len() == y@.len() && forall|i: int|
            0 <= i < x@.len() ==> (#[trigger] x@[i]).0@ == y@[i].0@,
        _ => false,
    }
}

impl JsonValue {
    /// A copy of the value, all levels down.
    pub fn deep_copy(&self) -> (r: JsonValue)
        ensures
            same_top(*self, r),
            model(r) == model(*self),
            self is Object ==> r is Object && keys_sorted(self->Object_0@) ==> keys_sorted(r->Object_0@),
        decreases self,
    {
        match self {
            JsonValue::Null => JsonValue::Null,
            JsonValue::Bool(b) => JsonValue::Bool(*b),
            JsonValue::Number(n) => JsonValue::Number(n.clone()),
            JsonValue::String(s) => JsonValue::String(s.clone()),
            JsonValue::Array(items) => {
                let mut out: Vec<JsonValue> = Vec::new();
                let mut i: usize = 0;
                while i < items.len()
                    invariant
                        i <= items@.len(),
                        out@.len() == i,
                        *self == JsonValue::Array(*items),
                        forall|j: int| 0 <= j < i ==> model(#[trigger] out@[j]) == model(items@[j]),
                    decreases items@.len() - i,
                {
                    proof {
                        vstd::std_specs::vec::axiom_vec_index_decreases(*items, i as int);
                        assert(decreases_to!(*self => (*self)->Array_0));
                        assert(decreases_to!(*self => items[i as int]));
                    }
                    out.push(items[i].deep_copy());
                    i = i + 1;
                }
                proof {
                    lemma_items_model(out, out@.len());
                    lemma_items_model(*items, items@.len());
                    assert(items_model(out, out@.len()) =~= items_model(*items, items@.len()));
                }
                JsonValue::Array(out)
            },
            JsonValue::Object(entries) => {
                let mut out: Vec<(String, JsonValue)> = Vec::new();
                let mut i: usize = 0;
                while i < entries.len()
                    invariant
                        i <= entries@.len(),
                        out@.len() == i,
                        *self == JsonValue::Object(*entries),
                        forall|j: int| 0 <= j < i ==> (#[trigger] out@[j]).0@ == entries@[j].0@,
                        forall|j: int| 0 <= j < i ==> model((#[trigger] out@[j]).1) == model(entries@[j].1),
                    decreases entries@.len() - i,
                {
                    proof {
                        vstd::std_specs::vec::axiom_vec_index_decreases(*entries, i as int);
                        assert(decreases_to!(*self => (*self)->Object_0));
                        assert(decreases_to!(entries[i as int] => entries[i as int].1));
                        assert(decreases_to!(*self => entries[i as int].1));
                    }
                    let v = entries[i].1.deep_copy();
                    out.push((entries[i].0.clone(), v));
                    i = i + 1;
                }
                proof {
                    lemma_entries_model(out, out@.len());
                    lemma_entries_model(*entries, entries@.len());
                    assert(entries_model(out, out@.len()) =~= entries_model(*entries, entries@.len()));
                    if keys_sorted(entries@) {
                        assert forall|j: int| 0 <= j < out@.len() - 1 implies text_lt(#[trigger] out@[j].0@, out@[j + 1].0@) by {
                            assert(text_lt(entries@[j].0@, entries@[j + 1].0@));
                        }
                    }
                }
                JsonValue::Object(out)
            },
        }
    }
}


/// A JSON value as mathematics: lists as sequences, objects as their
/// entries in order.
pub enum JsonModel {
    Null,
    Bool(bool),
    Number(Seq<char>),
    Str(Seq<char>),
    Array(Seq<JsonModel>),
    Object(Seq<(Seq<char>, JsonModel)>),
}

/// The model of a value.
pub open spec fn model(v: JsonValue) -> JsonModel
    decreases v, 0nat,
{
    match v {
        JsonValue::Null => JsonModel::Null,
        JsonValue::Bool(b) => JsonModel::Bool(b),
        JsonValue::Number(n) => JsonModel::Number(n@),
        JsonValue::String(s) => JsonModel::Str(s@),
        JsonValue::Array(items) => JsonModel::Array(items_model(items, items@.len())),
        JsonValue::Object(es) => JsonModel::Object(entries_model(es, es@.len())),
    }
}

/// The models of the first `n` items.
pub open spec fn items_model(items: Vec<JsonValue>, n: nat) -> Seq<JsonModel>
    decreases items, n via items_model_decreases
{
    if n == 0 || n > items@.len() {
        seq![]
    } else {
        items_model(items, (n - 1) as nat).push(model(items[n - 1]))
    }
}

/// The models of the first `n` entries.
pub open spec fn entries_model(es: Vec<(String, JsonValue)>, n: nat) -> Seq<(Seq<char>, JsonModel)>
    decreases es, n via entries_model_decreases
{
    if n == 0 || n > es@.len() {
        seq![]
    } else {
        entries_model(es, (n - 1) as nat).push((es[n - 1].0@, model(es[n - 1].1)))
    }
}

#[via_fn]
proof fn items_model_decreases(items: Vec<JsonValue>, n: nat) {
    if n > 0 && n <= items@.len() {
        vstd::std_specs::vec::axiom_vec_index_decreases(items, n - 1);
    }
}

#[via_fn]
proof fn entries_model_decreases(es: Vec<(String, JsonValue)>, n: nat) {
    if n > 0 && n <= es@.len() {
        vstd::std_specs::vec::axiom_vec_index_decreases(es, n - 1);
        assert(decreases_to!(es[n - 1] => es[n - 1].1));
    }
}

pub proof fn lemma_items_model(items: Vec<JsonValue>, n: nat)
    requires
        n <= items@.len(),
    ensures
        items_model(items, n).len() == n,
        forall|i: int| 0 <= i < n ==> #[trigger] items_model(items, n)[i] == model(items@[i]),
    decreases n,
{
    if n > 0 {
        lemma_items_model(items, (n - 1) as nat);
    }
}

pub proof fn lemma_entries_model(es: Vec<(String, JsonValue)>, n: nat)
    requires
        n <= es@.len(),
    ensures
        entries_model(es, n).len() == n,
        forall|i: int| 0 <= i < n ==> #[trigger] entries_model(es, n)[i] == (es@[i].0@, model(es@[i].1)),
    decreases n,
{
    if n > 0 {
        lemma_entries_model(es, (n - 1) as nat);
    }
}


/// The index where `key` goes in entries sorted by key: past every entry
/// whose key sorts before it, from `i` on.
pub open spec fn insert_pos(es: Seq<(Seq<char>, JsonModel)>, key: Seq<char>, i: int) -> int
    decreases es.len() - i,
{
    if 0 <= i < es.len() && text_lt(es[i].0, key) {
        insert_pos(es, key, i + 1)
    } else {
        i
    }
}

/// Entries sorted by key with `key` set to `v`: an entry with that key is
/// replaced, else a new one goes in its sorted place.
pub open spec fn put_entry(es: Seq<(Seq<char>, JsonModel)>, key: Seq<char>, v: JsonModel) -> Seq<(Seq<char>, JsonModel)> {
    let p = insert_pos(es, key, 0);
    if 0 <= p < es.len() && es[p].0 == key {
        es.update(p, (key, v))
    } else {
        es.insert(p, (key, v))
    }
}

/// The bytes at `j` spell `word`.
pub open spec fn spells(b: Seq<u8>, j: int, word: Seq<char>) -> bool {
    0 <= j && j + word.len() <= b.len() && byte_chars(b.subrange(j, j + word.len())) == word
}

/// The value that the JSON text at `i` reads as, after whitespace, and
/// where it ends; nothing when the text there is malformed.
pub open spec fn read_value(b: Seq<u8>, i: int) -> Option<(JsonModel, int)>
    decreases b.len() - i, 0int,
{
    let j = ws_end(b, i);
    if i < 0 || i > b.len() || j < i || j >= b.len() {
        None
    } else if b[j] == 0x6e {
        if spells(b, j, "null"@) { Some((JsonModel::Null, j + 4)) } else { None }
    } else if b[j] == 0x74 || b[j] == 0x66 {
        if spells(b, j, "true"@) {
            Some((JsonModel::Bool(true), j + 4))
        } else if spells(b, j, "false"@) {
            Some((JsonModel::Bool(false), j + 5))
        } else {
            None
        }
    } else if b[j] == 0x22 {
        match string_body(b, j + 1) {
            Some((s, e)) => Some((JsonModel::Str(s), e)),
            None => None,
        }
    } else if b[j] == 0x5b {
        read_array(b, j + 1)
    } else if b[j] == 0x7b {
        read_object(b, j + 1)
    } else if b[j] == 0x2d || is_digit(b[j]) {
        if number_ok(b, j) {
            Some((JsonModel::Number(byte_chars(b.subrange(j, number_end(b, j)))), number_end(b, j)))
        } else {
            None
        }
    } else {
        None
    }
}

/// The array whose `[` ends just before `j`.
pub open spec fn read_array(b: Seq<u8>, j: int) -> Option<(JsonModel, int)>
    decreases b.len() - j, 2int,
{
    let k = ws_end(b, j);
    if j < 0 || j > b.len() || k < j || k > b.len() {
        None
    } else if k < b.len() && b[k] == 0x5d {
        Some((JsonModel::Array(seq![]), k + 1))
    } else {
        read_items(b, k, seq![])
    }
}

/// The rest of an array from its item at `k`, after the items `acc`.
pub open spec fn read_items(b: Seq<u8>, k: int, acc: Seq<JsonModel>) -> Option<(JsonModel, int)>
    decreases b.len() - k, 1int,
{
    if k < 0 || k > b.len() {
        None
    } else {
        match read_value(b, k) {
            None => None,
            Some((v, e)) => {
                let e2 = ws_end(b, e);
                if e2 < k || e2 >= b.len() {
                    None
                } else if b[e2] == 0x5d {
                    Some((JsonModel::Array(acc.push(v)), e2 + 1))
                } else if b[e2] == 0x2c {
                    read_items(b, e2 + 1, acc.push(v))
                } else {
                    None
                }
            },
        }
    }
}

/// The object whose `{` ends just before `j`.
pub open spec fn read_object(b: Seq<u8>, j: int) -> Option<(JsonModel, int)>
    decreases b.len() - j, 2int,
{
    let k = ws_end(b, j);
    if j < 0 || j > b.len() || k < j || k > b.len() {
        None
    } else if k < b.len() && b[k] == 0x7d {
        Some((JsonModel::Object(seq![]), k + 1))
    } else {
        read_entries(b, k, seq![])
    }
}

/// The rest of an object from its entry at `k`, after the entries `acc`.
pub open spec fn read_entries(b: Seq<u8>, k: int, acc: Seq<(Seq<char>, JsonModel)>) -> Option<(JsonModel, int)>
    decreases b.len() - k, 1int,
{
    let k2 = ws_end(b, k);
    if k < 0 || k > b.len() || k2 < k || k2 >= b.len() || b[k2] != 0x22 {
        None
    } else {
        match string_body(b, k2 + 1) {
            None => None,
            Some((key, e1)) => {
                let c = ws_end(b, e1);
                if c <= k || c >= b.len() || b[c] != 0x3a {
                    None
                } else {
                    match read_value(b, c + 1) {
                        None => None,
                        Some((v, e)) => {
                            let e2 = ws_end(b, e);
                            let acc2 = put_entry(acc, key, v);
                            if e2 < k || e2 >= b.len() {
                                None
                            } else if b[e2] == 0x7d {
                                Some((JsonModel::Object(acc2), e2 + 1))
                            } else if b[e2] == 0x2c {
                                read_entries(b, e2 + 1, acc2)
                            } else {
                                None
                            }
                        },
                    }
                }
            },
        }
    }
}

/// The value that a whole JSON text reads as: one value with nothing but
/// whitespace after it.
pub open spec fn read_json(b: Seq<u8>) -> Option<JsonModel> {
    match read_value(b, 0) {
        Some((v, e)) => if ws_end(b, e) == b.len() { Some(v) } else { None },
        None => None,
    }
}

} // verus!
