//! Character-level text helpers shared by the evaluation pipeline.
//!
//! Text is handled as sequences of Unicode scalar values; every helper states
//! its result over `Seq<char>`.
use vstd::prelude::*;
use vstd::string::StringExecFns;
use vstd::std_specs::iter::IteratorSpec;

verus! {

broadcast use vstd::string::group_string_axioms;

/// Unicode `White_Space`, the set that `char::is_whitespace` tests.
pub open spec fn is_ws(c: char) -> bool {
    ||| ('\u{9}' <= c && c <= '\u{d}')
    ||| c == ' '
    ||| c == '\u{85}'
    ||| c == '\u{a0}'
    ||| c == '\u{1680}'
    ||| ('\u{2000}' <= c && c <= '\u{200a}')
    ||| c == '\u{2028}'
    ||| c == '\u{2029}'
    ||| c == '\u{202f}'
    ||| c == '\u{205f}'
    ||| c == '\u{3000}'
}

/// `t` without its leading whitespace.
pub open spec fn trim_start(t: Seq<char>) -> Seq<char>
    decreases t.len(),
{
    if t.len() > 0 && is_ws(t[0]) {
        trim_start(t.drop_first())
    } else {
        t
    }
}

/// `t` without its trailing whitespace.
pub open spec fn trim_end(t: Seq<char>) -> Seq<char>
    decreases t.len(),
{
    if t.len() > 0 && is_ws(t.last()) {
        trim_end(t.drop_last())
    } else {
        t
    }
}

/// `t` without leading and trailing whitespace.
pub open spec fn trim(t: Seq<char>) -> Seq<char> {
    trim_end(trim_start(t))
}

/// `n` occurs in `t` starting at index `i`.
pub open spec fn occurs_at(t: Seq<char>, n: Seq<char>, i: int) -> bool {
    0 <= i && i + n.len() <= t.len() && t.subrange(i, i + n.len()) == n
}

/// `n` occurs somewhere in `t`.
pub open spec fn occurs(t: Seq<char>, n: Seq<char>) -> bool {
    exists|i: int| occurs_at(t, n, i)
}

/// `t` begins with `p`.
pub open spec fn starts(t: Seq<char>, p: Seq<char>) -> bool {
    occurs_at(t, p, 0)
}

/// `t` ends with `p`.
pub open spec fn ends(t: Seq<char>, p: Seq<char>) -> bool {
    occurs_at(t, p, t.len() - p.len())
}

/// The first index at or after `i` where `n` occurs in `t`, or -1.
pub open spec fn find_from(t: Seq<char>, n: Seq<char>, i: int) -> int
    decreases t.len() + 1 - i,
{
    if i < 0 || i + n.len() > t.len() {
        -1
    } else if occurs_at(t, n, i) {
        i
    } else {
        find_from(t, n, i + 1)
    }
}

/// The first index where `n` occurs in `t`, or -1.
pub open spec fn find(t: Seq<char>, n: Seq<char>) -> int {
    find_from(t, n, 0)
}

/// The last index below `i` where `n` occurs in `t`, or -1.
pub open spec fn rfind_below(t: Seq<char>, n: Seq<char>, i: int) -> int
    decreases i,
{
    if i <= 0 {
        -1
    } else if occurs_at(t, n, i - 1) {
        i - 1
    } else {
        rfind_below(t, n, i - 1)
    }
}

/// The last index where `n` occurs in `t`, or -1.
pub open spec fn rfind(t: Seq<char>, n: Seq<char>) -> int {
    rfind_below(t, n, t.len() - n.len() + 1)
}

/// Some marker of `ms` occurs in `t`.
pub open spec fn has_any(t: Seq<char>, ms: Seq<&str>) -> bool {
    exists|k: int| 0 <= k < ms.len() && occurs(t, ms[k]@)
}

/// The views of a list of strings.
pub open spec fn views(v: Seq<String>) -> Seq<Seq<char>> {
    v.map_values(|s: String| s@)
}

/// What the `Debug` formatting of a list of strings gives: the strings
/// quoted and escaped, between brackets and separated by `", "`.
pub uninterp spec fn debug_list_of(items: Seq<Seq<char>>) -> Seq<char>;

/// Relies on the `Debug` formatting of `Vec<String>`, which depends on the
/// strings alone.
#[verifier::external_body]
pub(crate) fn debug_strings(v: &Vec<String>) -> (r: String)
    ensures
        r@ == debug_list_of(views(v@)),
{
    format!("{:?}", v)
}

/// ASCII letters.
pub open spec fn is_ascii_alpha(c: char) -> bool {
    ('a' <= c && c <= 'z') || ('A' <= c && c <= 'Z')
}

pub open spec fn is_ascii_alnum(c: char) -> bool {
    is_ascii_alpha(c) || ('0' <= c && c <= '9')
}

/// What `str::to_lowercase` returns for the given characters.
pub uninterp spec fn lower_of(s: Seq<char>) -> Seq<char>;

/// Relies on `str::to_lowercase`: the Unicode lowercase mapping of the text,
/// which depends on the characters alone.
#[verifier::external_body]
pub(crate) fn lowercase(s: &str) -> (r: String)
    ensures
        r@ == lower_of(s@),
{
    s.to_lowercase()
}

/// Relies on `String::push`: appends one character at the end.
#[verifier::external_body]
pub(crate) fn push_char(s: &mut String, c: char)
    ensures
        final(s)@ == old(s)@.push(c),
{
    s.push(c);
}

/// The characters of `s`, in order.
pub fn chars_of(s: &str) -> (r: Vec<char>)
    ensures
        r@ == s@,
{
    let mut out: Vec<char> = Vec::new();
    let mut it = s.chars();
    loop
        invariant
            it.remaining() == s@.subrange(out@.len() as int, s@.len() as int),
            out@.len() <= s@.len(),
            out@ == s@.subrange(0, out@.len() as int),
        ensures
            out@ == s@,
        decreases s@.len() - out@.len(),
    {
        match it.next() {
            Some(c) => {
                out.push(c);
            },
            None => {
                break;
            },
        }
    }
    out
}

/// A `String` holding `v`'s characters.
pub fn string_of(v: &Vec<char>) -> (r: String)
    ensures
        r@ == v@,
{
    let mut out = String::new();
    let mut i: usize = 0;
    while i < v.len()
        invariant
            i <= v@.len(),
            out@ == v@.subrange(0, i as int),
        decreases v@.len() - i,
    {
        push_char(&mut out, v[i]);
        i = i + 1;
        assert(out@ == v@.subrange(0, i as int));
    }
    out
}

/// A `String` holding the characters `v[from..to]`.
pub fn string_of_range(v: &Vec<char>, from: usize, to: usize) -> (r: String)
    requires
        from <= to <= v@.len(),
    ensures
        r@ == v@.subrange(from as int, to as int),
{
    let mut out = String::new();
    let mut i: usize = from;
    while i < to
        invariant
            from <= i <= to <= v@.len(),
            out@ == v@.subrange(from as int, i as int),
        decreases to - i,
    {
        push_char(&mut out, v[i]);
        i = i + 1;
        assert(out@ == v@.subrange(from as int, i as int));
    }
    out
}

/// Whether `c` is Unicode whitespace.
pub fn is_whitespace(c: char) -> (r: bool)
    ensures
        r == is_ws(c),
{
    ('\u{9}' <= c && c <= '\u{d}') || c == ' ' || c == '\u{85}' || c == '\u{a0}' || c
        == '\u{1680}' || ('\u{2000}' <= c && c <= '\u{200a}') || c == '\u{2028}' || c
        == '\u{2029}' || c == '\u{202f}' || c == '\u{205f}' || c == '\u{3000}'
}

proof fn lemma_trim_start_range(t: Seq<char>, i: int)
    requires
        0 <= i <= t.len(),
        forall|j: int| 0 <= j < i ==> is_ws(t[j]),
    ensures
        trim_start(t) == trim_start(t.subrange(i, t.len() as int)),
    decreases i,
{
    if i > 0 {
        assert(is_ws(t[0]));
        assert(t.drop_first() == t.subrange(1, t.len() as int));
        assert forall|j: int| 0 <= j < i - 1 implies is_ws(t.drop_first()[j]) by {
            assert(is_ws(t[j + 1]));
        }
        lemma_trim_start_range(t.drop_first(), i - 1);
        assert(t.drop_first().subrange(i - 1, t.len() - 1) == t.subrange(i, t.len() as int));
    } else {
        assert(t.subrange(0, t.len() as int) == t);
    }
}

proof fn lemma_trim_end_range(t: Seq<char>, i: int)
    requires
        0 <= i <= t.len(),
        forall|j: int| i <= j < t.len() ==> is_ws(t[j]),
    ensures
        trim_end(t) == trim_end(t.subrange(0, i)),
    decreases t.len() - i,
{
    if i < t.len() {
        assert(is_ws(t.last()));
        assert(t.drop_last() == t.subrange(0, t.len() - 1));
        assert forall|j: int| i <= j < t.len() - 1 implies is_ws(t.drop_last()[j]) by {
            assert(is_ws(t[j]));
        }
        lemma_trim_end_range(t.drop_last(), i);
        assert(t.drop_last().subrange(0, i) == t.subrange(0, i));
    } else {
        assert(t.subrange(0, i) == t);
    }
}

/// The bounds `(a, b)` such that `t[a..b]` is `t` trimmed.
pub fn trim_bounds(t: &Vec<char>) -> (r: (usize, usize))
    ensures
        r.0 <= r.1 <= t@.len(),
        t@.subrange(r.0 as int, r.1 as int) == trim(t@),
{
    let mut a: usize = 0;
    while a < t.len() && is_whitespace(t[a])
        invariant
            a <= t@.len(),
            forall|j: int| 0 <= j < a ==> is_ws(t@[j]),
        decreases t@.len() - a,
    {
        a = a + 1;
    }
    proof {
        lemma_trim_start_range(t@, a as int);
    }
    let ghost s = t@.subrange(a as int, t@.len() as int);
    assert(trim_start(s) == s);
    let mut b: usize = t.len();
    while b > a && is_whitespace(t[b - 1])
        invariant
            a <= b <= t@.len(),
            forall|j: int| b <= j < t@.len() ==> is_ws(t@[j]),
        decreases b,
    {
        b = b - 1;
    }
    proof {
        lemma_trim_end_range(s, b - a);
        assert(s.subrange(0, b - a) == t@.subrange(a as int, b as int));
        if b > a {
            assert(!is_ws(t@.subrange(a as int, b as int).last()));
        }
    }
    (a, b)
}

/// `t` without trailing whitespace.
pub fn trim_end_vec(t: &Vec<char>) -> (r: Vec<char>)
    ensures
        r@ == trim_end(t@),
{
    let mut b: usize = t.len();
    while b > 0 && is_whitespace(t[b - 1])
        invariant
            b <= t@.len(),
            forall|j: int| b <= j < t@.len() ==> is_ws(t@[j]),
        decreases b,
    {
        b = b - 1;
    }
    proof {
        lemma_trim_end_range(t@, b as int);
        let u = t@.subrange(0, b as int);
        if b > 0 {
            assert(u.last() == t@[b - 1]);
        }
    }
    copy_range(t, 0, b)
}

/// `t` trimmed.
pub fn trim_vec(t: &Vec<char>) -> (r: Vec<char>)
    ensures
        r@ == trim(t@),
{
    let (a, b) = trim_bounds(t);
    copy_range(t, a, b)
}

/// `s` trimmed.
pub fn trim_str(s: &str) -> (r: String)
    ensures
        r@ == trim(s@),
{
    let v = chars_of(s);
    let (a, b) = trim_bounds(&v);
    string_of_range(&v, a, b)
}

/// The characters `v[from..to]`.
pub fn copy_range(v: &Vec<char>, from: usize, to: usize) -> (r: Vec<char>)
    requires
        from <= to <= v@.len(),
    ensures
        r@ == v@.subrange(from as int, to as int),
{
    let mut out: Vec<char> = Vec::new();
    let mut i: usize = from;
    while i < to
        invariant
            from <= i <= to <= v@.len(),
            out@ == v@.subrange(from as int, i as int),
        decreases to - i,
    {
        out.push(v[i]);
        i = i + 1;
        assert(out@ == v@.subrange(from as int, i as int));
    }
    out
}

/// Whether `n` occurs in `t` at index `i`.
pub fn matches_at(t: &Vec<char>, n: &Vec<char>, i: usize) -> (r: bool)
    ensures
        r == occurs_at(t@, n@, i as int),
{
    if n.len() > t.len() || i > t.len() - n.len() {
        return false;
    }
    let mut k: usize = 0;
    while k < n.len()
        invariant
            k <= n.len(),
            i + n.len() <= t.len(),
            forall|j: int| 0 <= j < k ==> t@[i + j] == n@[j],
        decreases n@.len() - k,
    {
        if t[i + k] != n[k] {
            assert(t@.subrange(i as int, i + n@.len())[k as int] != n@[k as int]);
            return false;
        }
        k = k + 1;
    }
    assert(t@.subrange(i as int, i + n@.len()) =~= n@);
    true
}

/// The first index where `n` occurs in `t`.
pub fn find_vec(t: &Vec<char>, n: &Vec<char>) -> (r: Option<usize>)
    ensures
        r matches Some(i) ==> find(t@, n@) == i && i + n.len() <= t.len(),
        r is None ==> find(t@, n@) == -1,
{
    proof {
        lemma_find_range(t@, n@, 0);
    }
    if n.len() > t.len() {
        return None;
    }
    let last = t.len() - n.len();
    let mut i: usize = 0;
    loop
        invariant
            last + n@.len() == t@.len(),
            i <= last,
            find_from(t@, n@, 0) == find_from(t@, n@, i as int),
        decreases last - i,
    {
        if matches_at(t, n, i) {
            return Some(i);
        }
        if i == last {
            assert(find_from(t@, n@, i + 1) == -1);
            return None;
        }
        i = i + 1;
    }
}

/// The last index where `n` occurs in `t`.
pub fn rfind_vec(t: &Vec<char>, n: &Vec<char>) -> (r: Option<usize>)
    ensures
        r matches Some(i) ==> rfind(t@, n@) == i && i + n@.len() <= t@.len(),
        r is None ==> rfind(t@, n@) == -1,
{
    if n.len() > t.len() {
        proof {
            reveal_with_fuel(rfind_below, 2);
        }
        return None;
    }
    let mut i: usize = t.len() - n.len();
    loop
        invariant
            i + n@.len() <= t@.len(),
            rfind(t@, n@) == rfind_below(t@, n@, i + 1),
        decreases i,
    {
        if matches_at(t, n, i) {
            return Some(i);
        }
        if i == 0 {
            assert(rfind_below(t@, n@, 0) == -1);
            return None;
        }
        i = i - 1;
    }
}

/// Whether `n` occurs in `t`.
pub fn contains_vec(t: &Vec<char>, n: &Vec<char>) -> (r: bool)
    ensures
        r == occurs(t@, n@),
{
    let r = find_vec(t, n);
    proof {
        lemma_find_has(t@, n@, 0);
    }
    r.is_some()
}

proof fn lemma_find_has(t: Seq<char>, n: Seq<char>, i: int)
    requires
        0 <= i,
        forall|j: int| 0 <= j < i ==> !occurs_at(t, n, j),
    ensures
        (find_from(t, n, i) >= 0) == occurs(t, n),
        find_from(t, n, i) >= 0 ==> occurs_at(t, n, find_from(t, n, i)),
    decreases t.len() + 1 - i,
{
    if i + n.len() > t.len() {
        assert forall|j: int| !occurs_at(t, n, j) by {
            if j >= i {
                assert(!(j + n.len() <= t.len()));
            }
        }
    } else if !occurs_at(t, n, i) {
        lemma_find_has(t, n, i + 1);
    }
}

/// A found index leaves room for the needle.
pub proof fn lemma_find_bounds(t: Seq<char>, n: Seq<char>)
    ensures
        find(t, n) >= 0 ==> occurs_at(t, n, find(t, n)),
        -1 <= find(t, n) <= t.len(),
{
    lemma_find_has(t, n, 0);
    lemma_find_range(t, n, 0);
}

proof fn lemma_find_range(t: Seq<char>, n: Seq<char>, i: int)
    requires
        0 <= i,
    ensures
        find_from(t, n, i) == -1 || (i <= find_from(t, n, i) && find_from(t, n, i) + n.len() <= t.len()),
    decreases t.len() + 1 - i,
{
    if i + n.len() <= t.len() && !occurs_at(t, n, i) {
        lemma_find_range(t, n, i + 1);
    }
}

/// Whether some marker of `ms` occurs in `t`.
pub fn contains_any(t: &Vec<char>, ms: &[&str]) -> (r: bool)
    ensures
        r == has_any(t@, ms@),
{
    let mut k: usize = 0;
    while k < ms.len()
        invariant
            k <= ms@.len(),
            forall|j: int| 0 <= j < k ==> !occurs(t@, #[trigger] ms@[j]@),
        decreases ms@.len() - k,
    {
        let m = chars_of(ms[k]);
        if contains_vec(t, &m) {
            return true;
        }
        k = k + 1;
    }
    false
}

/// Whether `t` begins with `p`.
pub fn starts_with_str(t: &Vec<char>, p: &str) -> (r: bool)
    ensures
        r == starts(t@, p@),
{
    let pv = chars_of(p);
    matches_at(t, &pv, 0)
}

/// The strings of `ss` joined with `sep` between neighbours.
pub open spec fn join_with(ss: Seq<Seq<char>>, sep: Seq<char>) -> Seq<char>
    decreases ss.len(),
{
    if ss.len() == 0 {
        seq![]
    } else if ss.len() == 1 {
        ss[0]
    } else {
        join_with(ss.drop_last(), sep) + sep + ss.last()
    }
}

/// The strings of `v` joined with `sep` between neighbours.
pub fn join_strings(v: &Vec<String>, sep: &str) -> (r: String)
    ensures
        r@ == join_with(views(v@), sep@),
{
    let mut out = String::new();
    let mut i: usize = 0;
    while i < v.len()
        invariant
            i <= v@.len(),
            out@ == join_with(views(v@).subrange(0, i as int), sep@),
        decreases v@.len() - i,
    {
        let ghost prev = views(v@).subrange(0, i as int);
        let ghost next = views(v@).subrange(0, i + 1);
        assert(next.drop_last() == prev);
        assert(next.last() == v@[i as int]@);
        if i > 0 {
            out.append(sep);
        }
        out.append(v[i].as_str());
        proof {
            if i == 0 {
                assert(out@ =~= next[0]);
            }
        }
        i = i + 1;
    }
    assert(views(v@).subrange(0, v@.len() as int) == views(v@));
    out
}

/// Whether `t` ends with the character `c`.
pub fn ends_with_char(t: &Vec<char>, c: char) -> (r: bool)
    ensures
        r == (t@.len() > 0 && t@.last() == c),
{
    t.len() > 0 && t[t.len() - 1] == c
}

} // verus!
