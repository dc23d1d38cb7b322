//! Character-sequence utilities: exact decoding of a `&str` into its
//! characters, lexicographic order by code point, and substring search.

use vstd::prelude::*;

verus! {

broadcast use vstd::string::group_string_axioms;

/// The Unicode lowercase mapping of a string, as `str::to_lowercase`
/// computes it.
pub uninterp spec fn lowercase(s: Seq<char>) -> Seq<char>;

/// Calls `str::to_lowercase`: the result is the lowercase mapping of `s`,
/// a function of `s` alone, and the empty string lowercases to the empty
/// string (the mapping is applied character by character). Which
/// characters the mapping yields (Unicode's tables) is left to the name
/// `lowercase`.
#[verifier::external_body]
pub(crate) fn to_lowercase(s: &str) -> (r: String)
    ensures
        r@ == lowercase(s@),
        s@.len() == 0 ==> r@.len() == 0,
{
    s.to_lowercase()
}

/// An ASCII character.
pub open spec fn is_ascii_char(c: char) -> bool {
    (c as int) < 128
}

/// Every character of `s` is ASCII.
pub open spec fn all_ascii(s: Seq<char>) -> bool {
    forall|i: int| 0 <= i < s.len() ==> is_ascii_char(#[trigger] s[i])
}

/// ASCII lowercasing of one character: `A`..`Z` become `a`..`z`, every
/// other character stays.
pub open spec fn ascii_lower_char(c: char) -> char {
    if 'A' <= c && c <= 'Z' {
        ((c as int) + 32) as char
    } else {
        c
    }
}

/// The lowercasing that `str::to_lowercase` performs: on ASCII text it is
/// the character-by-character ASCII lowercasing (Unicode's lowercase
/// mapping sends each ASCII letter to its ASCII lowercase and leaves the
/// other ASCII characters alone); on other text it is Unicode's mapping,
/// left to the name `lowercase`.
pub open spec fn text_lowercase(s: Seq<char>) -> Seq<char> {
    if all_ascii(s) {
        s.map_values(|c: char| ascii_lower_char(c))
    } else {
        lowercase(s)
    }
}

/// On ASCII text, lowercasing keeps the length, turns `A`..`Z` into
/// `a`..`z` and keeps every other character: nothing is cut, dropped or
/// reordered.
pub proof fn law_ascii_lowercase(s: Seq<char>)
    requires
        forall|i: int| 0 <= i < s.len() ==> (#[trigger] s[i] as int) < 128,
    ensures
        text_lowercase(s).len() == s.len(),
        forall|i: int|
            0 <= i < s.len() && 'A' <= #[trigger] s[i] && s[i] <= 'Z' ==> text_lowercase(s)[i] as int
                == s[i] as int + 32,
        forall|i: int|
            0 <= i < s.len() && !('A' <= #[trigger] s[i] && s[i] <= 'Z') ==> text_lowercase(s)[i]
                == s[i],
{
    assert(all_ascii(s));
}

/// An occurrence survives ASCII lowercasing: when `needle` occurs in `hay`
/// and both are ASCII, the lowercased needle occurs in the lowercased hay.
pub proof fn law_ascii_lowercase_keeps_occurrence(hay: Seq<char>, needle: Seq<char>)
    requires
        forall|i: int| 0 <= i < hay.len() ==> (#[trigger] hay[i] as int) < 128,
        forall|i: int| 0 <= i < needle.len() ==> (#[trigger] needle[i] as int) < 128,
        contains_chars(hay, needle),
    ensures
        contains_chars(text_lowercase(hay), text_lowercase(needle)),
{
    law_ascii_lowercase(hay);
    law_ascii_lowercase(needle);
    let p = choose|p: int| occurs_at(needle, hay, p);
    let lh = text_lowercase(hay);
    let ln = text_lowercase(needle);
    assert forall|k: int| 0 <= k < ln.len() implies lh.subrange(p, p + ln.len())[k] == ln[k] by {
        assert(hay.subrange(p, p + needle.len())[k] == needle[k]);
        assert(hay[p + k] == needle[k]);
        if 'A' <= hay[p + k] && hay[p + k] <= 'Z' {
            assert(lh[p + k] as int == ln[k] as int);
        }
    }
    assert(lh.subrange(p, p + ln.len()) =~= ln);
    assert(occurs_at(ln, lh, p));
}

/// The lowercased characters of `s`, as `str::to_lowercase` gives them;
/// ASCII text is lowercased here, other text by the standard library.
pub fn lowercase_chars(s: &str) -> (r: Vec<char>)
    ensures
        r@ == text_lowercase(s@),
{
    let c = chars_of(s);
    let n = c.len();
    let mut i: usize = 0;
    while i < n
        invariant
            n == c@.len(),
            c@ == s@,
            i <= n,
            forall|k: int| 0 <= k < i ==> is_ascii_char(#[trigger] c@[k]),
        decreases n - i,
    {
        if (c[i] as u32) >= 128 {
            proof {
                lemma_code_point(c@[i as int]);
            }
            let lowered = to_lowercase(s);
            return chars_of(lowered.as_str());
        }
        proof {
            lemma_code_point(c@[i as int]);
        }
        i = i + 1;
    }
    let mut out: Vec<char> = Vec::new();
    for j in 0..n
        invariant
            n == c@.len(),
            c@ == s@,
            all_ascii(s@),
            out@ == s@.take(j as int).map_values(|ch: char| ascii_lower_char(ch)),
    {
        let ch = c[j];
        let l = if 'A' <= ch && ch <= 'Z' {
            let b = ch as u8;
            proof {
                assert(is_ascii_char(s@[j as int]));
                lemma_ascii_byte(ch);
            }
            (b + 32) as char
        } else {
            ch
        };
        out.push(l);
        assert(out@ =~= s@.take(j + 1).map_values(|ch: char| ascii_lower_char(ch)));
    }
    assert(s@.take(n as int) =~= s@);
    out
}

/// An ASCII character's byte is its code point.
proof fn lemma_ascii_byte(c: char)
    requires
        (c as int) < 128,
    ensures
        (c as u8) as int == c as int,
        ((c as u8) + 32) as int == (c as int) + 32,
{
}

/// The characters of `s`, as a vector.
pub fn chars_of(s: &str) -> (v: Vec<char>)
    ensures
        v@ == s@,
{
    let mut v: Vec<char> = Vec::new();
    for c in it: s.chars()
        invariant
            it.seq() == s@,
            v@ == s@.take(it.index() as int),
    {
        v.push(c);
        assert(s@.take(it.index() + 1) =~= v@);
    }
    assert(v@ =~= s@);
    v
}


/// `a` comes strictly before `b` when both are compared from position `i`
/// on: lexicographic order by Unicode code point, a proper prefix first.
/// This is the order of `str`'s `Ord`, which compares UTF-8 bytes, since
/// UTF-8 encoding preserves code-point order.
pub open spec fn chars_less_from(a: Seq<char>, b: Seq<char>, i: int) -> bool
    decreases a.len() - i,
{
    if i < 0 || i >= a.len() {
        0 <= i < b.len()
    } else if i >= b.len() {
        false
    } else if a[i] != b[i] {
        (a[i] as u32) < (b[i] as u32)
    } else {
        chars_less_from(a, b, i + 1)
    }
}

/// Strict lexicographic order on character sequences.
pub open spec fn chars_less(a: Seq<char>, b: Seq<char>) -> bool {
    chars_less_from(a, b, 0)
}

/// A character's code point fits in a `u32` unchanged.
proof fn lemma_code_point(c: char)
    ensures
        (c as u32) as int == c as int,
{
}

/// No sequence comes before itself.
pub proof fn lemma_chars_less_irreflexive(a: Seq<char>, i: int)
    requires
        0 <= i,
    ensures
        !chars_less_from(a, a, i),
    decreases a.len() - i,
{
    if i < a.len() {
        lemma_chars_less_irreflexive(a, i + 1);
    }
}

/// The order is transitive.
pub proof fn lemma_chars_less_transitive(a: Seq<char>, b: Seq<char>, c: Seq<char>, i: int)
    requires
        0 <= i,
        chars_less_from(a, b, i),
        chars_less_from(b, c, i),
    ensures
        chars_less_from(a, c, i),
    decreases a.len() - i,
{
    if i < a.len() && i < b.len() && i < c.len() && a[i] == b[i] && b[i] == c[i] {
        lemma_chars_less_transitive(a, b, c, i + 1);
    }
}

/// The order is total: two sequences of which neither comes first agree
/// from position `i` on.
pub proof fn lemma_chars_less_total(a: Seq<char>, b: Seq<char>, i: int)
    requires
        0 <= i <= a.len(),
        i <= b.len(),
        !chars_less_from(a, b, i),
        !chars_less_from(b, a, i),
    ensures
        a.len() == b.len(),
        forall|j: int| i <= j < a.len() ==> a[j] == b[j],
    decreases a.len() - i,
{
    if i < a.len() && i < b.len() {
        if a[i] == b[i] {
            lemma_chars_less_total(a, b, i + 1);
        } else {
            assert((a[i] as int) != (b[i] as int));
            lemma_code_point(a[i]);
            lemma_code_point(b[i]);
        }
    }
}

/// Two sequences of which neither comes before the other are equal.
pub proof fn lemma_chars_less_antisymmetric(a: Seq<char>, b: Seq<char>)
    requires
        !chars_less(a, b),
        !chars_less(b, a),
    ensures
        a == b,
{
    lemma_chars_less_total(a, b, 0);
    assert(a =~= b);
}

/// Decides `chars_less(a@, b@)`.
pub fn chars_less_exec(a: &Vec<char>, b: &Vec<char>) -> (r: bool)
    ensures
        r == chars_less(a@, b@),
{
    let mut i: usize = 0;
    while i < a.len() && i < b.len()
        invariant
            i <= a.len(),
            i <= b.len(),
            chars_less(a@, b@) == chars_less_from(a@, b@, i as int),
        decreases a.len() - i,
    {
        if a[i] != b[i] {
            return (a[i] as u32) < (b[i] as u32);
        }
        i = i + 1;
    }
    i < b.len()
}

/// `needle` occurs in `hay` starting at position `i`.
pub open spec fn occurs_at(needle: Seq<char>, hay: Seq<char>, i: int) -> bool {
    0 <= i && i + needle.len() <= hay.len() && hay.subrange(i, i + needle.len()) == needle
}

/// `needle` occurs somewhere in `hay` (what `str::contains` with a `&str`
/// pattern decides).
pub open spec fn contains_chars(hay: Seq<char>, needle: Seq<char>) -> bool {
    exists|i: int| occurs_at(needle, hay, i)
}

/// Containment is transitive: a piece of a piece of `hay` is a piece of
/// `hay`.
pub proof fn lemma_contains_chars_transitive(hay: Seq<char>, mid: Seq<char>, needle: Seq<char>)
    requires
        contains_chars(hay, mid),
        contains_chars(mid, needle),
    ensures
        contains_chars(hay, needle),
{
    let j = choose|j: int| occurs_at(mid, hay, j);
    let i = choose|i: int| occurs_at(needle, mid, i);
    assert(hay.subrange(j, j + mid.len()) == mid);
    assert(mid.subrange(i, i + needle.len()) == needle);
    assert forall|k: int| 0 <= k < needle.len() implies hay.subrange(
        i + j,
        i + j + needle.len(),
    )[k] == needle[k] by {
        assert(needle[k] == mid.subrange(i, i + needle.len())[k]);
        assert(mid[i + k] == hay.subrange(j, j + mid.len())[i + k]);
    }
    assert(hay.subrange(i + j, i + j + needle.len()) =~= needle);
    assert(occurs_at(needle, hay, i + j));
}

/// Only the empty sequence occurs in the empty sequence.
pub proof fn lemma_contains_in_empty(hay: Seq<char>, needle: Seq<char>)
    requires
        hay.len() == 0,
        contains_chars(hay, needle),
    ensures
        needle.len() == 0,
{
    let i = choose|i: int| occurs_at(needle, hay, i);
}

/// Decides whether `needle` occurs at position `i` of `hay`.
fn occurs_at_exec(needle: &Vec<char>, hay: &Vec<char>, i: usize) -> (r: bool)
    requires
        i + needle.len() <= hay.len(),
    ensures
        r == occurs_at(needle@, hay@, i as int),
{
    let mut j: usize = 0;
    while j < needle.len()
        invariant
            j <= needle.len(),
            i + needle.len() <= hay.len(),
            forall|k: int| 0 <= k < j ==> hay@[i + k] == needle@[k],
        decreases needle.len() - j,
    {
        if hay[i + j] != needle[j] {
            assert(hay@.subrange(i as int, i + needle.len())[j as int] != needle@[j as int]);
            return false;
        }
        j = j + 1;
    }
    assert(hay@.subrange(i as int, i + needle.len()) =~= needle@);
    true
}

/// Decides whether `needle` occurs in `hay`.
pub fn contains_chars_exec(hay: &Vec<char>, needle: &Vec<char>) -> (r: bool)
    ensures
        r == contains_chars(hay@, needle@),
{
    if needle.len() > hay.len() {
        return false;
    }
    let last = hay.len() - needle.len();
    let mut i: usize = 0;
    while i <= last
        invariant
            last == hay.len() - needle.len(),
            needle.len() <= hay.len(),
            i <= last,
            forall|k: int| 0 <= k < i ==> !occurs_at(needle@, hay@, k),
        ensures
            forall|k: int| 0 <= k <= last ==> !occurs_at(needle@, hay@, k),
        decreases last - i,
    {
        if occurs_at_exec(needle, hay, i) {
            return true;
        }
        if i == last {
            break;
        }
        i = i + 1;
    }
    proof {
        assert forall|k: int| !occurs_at(needle@, hay@, k) by {
        }
    }
    false
}

} // verus!
