//! Properties of search that span several calls, stated over the answer
//! predicate that `search`'s contract establishes.

use vstd::prelude::*;
use crate::routes::{
    is_search_result, law_search_finds_text_matches, part_keys, part_matches, query_text,
    search_needle,
};
use crate::sort::{key_less, lemma_key_less_irreflexive, lemma_key_less_transitive};
use crate::store::{part_key, PartEntry};
use crate::text::{
    contains_chars, law_ascii_lowercase_keeps_occurrence, lemma_contains_chars_transitive,
    lemma_contains_in_empty, occurs_at, text_lowercase,
};

verus! {

/// Two strictly increasing key sequences with the same members are equal.
proof fn lemma_strictly_sorted_same_members(a: Seq<(Seq<char>, Seq<char>)>, b: Seq<(Seq<char>, Seq<char>)>)
    requires
        forall|i: int, j: int| 0 <= i < j < a.len() ==> key_less(#[trigger] a[i], #[trigger] a[j]),
        forall|i: int, j: int| 0 <= i < j < b.len() ==> key_less(#[trigger] b[i], #[trigger] b[j]),
        forall|k: (Seq<char>, Seq<char>)| a.contains(k) <==> b.contains(k),
    ensures
        a == b,
    decreases a.len() + b.len(),
{
    if a.len() == 0 {
        if b.len() > 0 {
            assert(b.contains(b[0]));
        }
        assert(a =~= b);
    } else if b.len() == 0 {
        assert(a.contains(a[0]));
    } else {
        assert(a.contains(a[0]));
        assert(b.contains(b[0]));
        let j = choose|j: int| 0 <= j < b.len() && b[j] == a[0];
        let i = choose|i: int| 0 <= i < a.len() && a[i] == b[0];
        if a[0] != b[0] {
            assert(j > 0 && i > 0);
            assert(key_less(b[0], b[j]));
            assert(key_less(a[0], a[i]));
            lemma_key_less_transitive(a[0], b[0], a[0]);
            lemma_key_less_irreflexive(a[0]);
        }
        let a1 = a.drop_first();
        let b1 = b.drop_first();
        assert forall|k: (Seq<char>, Seq<char>)| a1.contains(k) <==> b1.contains(k) by {
            if a1.contains(k) {
                let x = choose|x: int| 0 <= x < a1.len() && a1[x] == k;
                assert(key_less(a[0], a[x + 1]));
                lemma_key_less_irreflexive(a[0]);
                assert(a.contains(k));
                let y = choose|y: int| 0 <= y < b.len() && b[y] == k;
                assert(y != 0);
                assert(b1[y - 1] == k);
            }
            if b1.contains(k) {
                let x = choose|x: int| 0 <= x < b1.len() && b1[x] == k;
                assert(key_less(b[0], b[x + 1]));
                lemma_key_less_irreflexive(b[0]);
                assert(b.contains(k));
                let y = choose|y: int| 0 <= y < a.len() && a[y] == k;
                assert(y != 0);
                assert(a1[y - 1] == k);
            }
        }
        assert forall|x: int, y: int| 0 <= x < y < a1.len() implies key_less(
            #[trigger] a1[x],
            #[trigger] a1[y],
        ) by {
            assert(key_less(a[x + 1], a[y + 1]));
        }
        assert forall|x: int, y: int| 0 <= x < y < b1.len() implies key_less(
            #[trigger] b1[x],
            #[trigger] b1[y],
        ) by {
            assert(key_less(b[x + 1], b[y + 1]));
        }
        lemma_strictly_sorted_same_members(a1, b1);
        assert(a[0] == b[0]);
        assert(a =~= seq![a[0]] + a1);
        assert(b =~= seq![b[0]] + b1);
    }
}

/// A search answer is determined by the index and the needle: any two
/// answers for the same needle are the same list.
pub proof fn law_search_result_unique<P>(
    parts: Map<(Seq<char>, Seq<char>), PartEntry<P>>,
    needle: Seq<char>,
    r1: Seq<&PartEntry<P>>,
    r2: Seq<&PartEntry<P>>,
)
    requires
        is_search_result(parts, needle, r1),
        is_search_result(parts, needle, r2),
    ensures
        r1 == r2,
{
    let k1 = part_keys(r1);
    let k2 = part_keys(r2);
    assert forall|k: (Seq<char>, Seq<char>)| k1.contains(k) <==> k2.contains(k) by {
        if k1.contains(k) {
            let i = choose|i: int| 0 <= i < k1.len() && k1[i] == k;
            assert(parts.contains_key(part_key(*r1[i])));
            assert(part_matches(needle, parts[k]));
            let j = choose|j: int| 0 <= j < r2.len() && part_key(*r2[j]) == k;
            assert(k2[j] == k);
        }
        if k2.contains(k) {
            let i = choose|i: int| 0 <= i < k2.len() && k2[i] == k;
            assert(parts.contains_key(part_key(*r2[i])));
            assert(part_matches(needle, parts[k]));
            let j = choose|j: int| 0 <= j < r1.len() && part_key(*r1[j]) == k;
            assert(k1[j] == k);
        }
    }
    assert forall|i: int, j: int| 0 <= i < j < k1.len() implies key_less(#[trigger] k1[i], #[trigger] k1[j]) by {
        assert(key_less(part_key(*r1[i]), part_key(*r1[j])));
    }
    assert forall|i: int, j: int| 0 <= i < j < k2.len() implies key_less(#[trigger] k2[i], #[trigger] k2[j]) by {
        assert(key_less(part_key(*r2[i]), part_key(*r2[j])));
    }
    lemma_strictly_sorted_same_members(k1, k2);
    assert(r1.len() == k1.len() && r2.len() == k2.len());
    assert forall|i: int| 0 <= i < r1.len() implies r1[i] == r2[i] by {
        assert(k1[i] == k2[i]);
        assert(parts[part_key(*r1[i])] == *r1[i]);
        assert(parts[part_key(*r2[i])] == *r2[i]);
    }
    assert(r1 =~= r2);
}

/// Search is case-insensitive: two queries that lowercase alike get the
/// same list.
pub proof fn law_search_case_insensitive<P>(
    parts: Map<(Seq<char>, Seq<char>), PartEntry<P>>,
    q1: Option<&str>,
    q2: Option<&str>,
    r1: Seq<&PartEntry<P>>,
    r2: Seq<&PartEntry<P>>,
)
    requires
        text_lowercase(query_text(q1)) == text_lowercase(query_text(q2)),
        is_search_result(parts, search_needle(q1), r1),
        is_search_result(parts, search_needle(q2), r2),
    ensures
        r1 == r2,
{
    law_search_result_unique(parts, search_needle(q1), r1, r2);
}

/// A part that matches a needle matches every piece of that needle.
proof fn lemma_matches_piece<P>(long: Seq<char>, short: Seq<char>, e: PartEntry<P>)
    requires
        contains_chars(long, short),
        part_matches(long, e),
    ensures
        part_matches(short, e),
{
    if long.len() == 0 {
        lemma_contains_in_empty(long, short);
    } else if contains_chars(text_lowercase(e.mpn@), long) {
        lemma_contains_chars_transitive(text_lowercase(e.mpn@), long, short);
    } else {
        lemma_contains_chars_transitive(text_lowercase(e.manufacturer@), long, short);
    }
}

/// Search is monotone in the query: when the lowercased `q1` occurs in the
/// lowercased `q2`, every part found for `q2` is found for `q1` too. In
/// particular an absent or empty query finds every part.
pub proof fn law_search_monotone<P>(
    parts: Map<(Seq<char>, Seq<char>), PartEntry<P>>,
    q1: Option<&str>,
    q2: Option<&str>,
    r1: Seq<&PartEntry<P>>,
    r2: Seq<&PartEntry<P>>,
)
    requires
        contains_chars(search_needle(q2), search_needle(q1)),
        is_search_result(parts, search_needle(q1), r1),
        is_search_result(parts, search_needle(q2), r2),
    ensures
        forall|i: int| 0 <= i < r2.len() ==> r1.contains(#[trigger] r2[i]),
{
    assert forall|i: int| 0 <= i < r2.len() implies r1.contains(#[trigger] r2[i]) by {
        let k = part_key(*r2[i]);
        assert(parts.contains_key(k));
        lemma_matches_piece(search_needle(q2), search_needle(q1), parts[k]);
        let j = choose|j: int| 0 <= j < r1.len() && part_key(*r1[j]) == k;
        assert(parts[part_key(*r1[j])] == *r1[j]);
        assert(parts[part_key(*r2[i])] == *r2[i]);
        assert(*r1[j] == *r2[i]);
        assert(r1[j] == r2[i]);
    }
}

/// Searching for a part's own MPN (in any letter case that lowercases the
/// same) matches that part, so `search` returns it.
pub proof fn law_search_finds_own_mpn<P>(q: Option<&str>, entry: PartEntry<P>)
    requires
        text_lowercase(query_text(q)) == text_lowercase(entry.mpn@),
    ensures
        part_matches(search_needle(q), entry),
{
    let n = text_lowercase(entry.mpn@);
    assert(n.subrange(0, n.len() as int) =~= n);
    assert(occurs_at(n, n, 0));
    assert(contains_chars(n, n));
}

/// Searching for a part's own manufacturer (in any letter case that
/// lowercases the same) matches that part.
pub proof fn law_search_finds_own_manufacturer<P>(q: Option<&str>, entry: PartEntry<P>)
    requires
        text_lowercase(query_text(q)) == text_lowercase(entry.manufacturer@),
    ensures
        part_matches(search_needle(q), entry),
{
    let n = text_lowercase(entry.manufacturer@);
    assert(n.subrange(0, n.len() as int) =~= n);
    assert(occurs_at(n, n, 0));
    assert(contains_chars(n, n));
}

/// Search finds every part whose MPN contains the query as written, letter
/// case aside: for ASCII text, a query that occurs in a part's MPN (for
/// example "C6" in "ESP32-C6") puts that part in the answer.
pub proof fn law_search_finds_ascii_mpn_substring<P>(
    parts: Map<(Seq<char>, Seq<char>), PartEntry<P>>,
    q: Option<&str>,
    r: Seq<&PartEntry<P>>,
    k: (Seq<char>, Seq<char>),
)
    requires
        is_search_result(parts, search_needle(q), r),
        parts.contains_key(k),
        forall|i: int| 0 <= i < parts[k].mpn@.len() ==> (#[trigger] parts[k].mpn@[i] as int) < 128,
        forall|i: int| 0 <= i < query_text(q).len() ==> (#[trigger] query_text(q)[i] as int) < 128,
        contains_chars(parts[k].mpn@, query_text(q)),
    ensures
        part_keys(r).contains(k),
{
    law_ascii_lowercase_keeps_occurrence(parts[k].mpn@, query_text(q));
    law_search_finds_text_matches(parts, search_needle(q), r);
    assert(parts.dom().contains(k));
}

} // verus!
