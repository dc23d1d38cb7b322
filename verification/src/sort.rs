//! Sorting by a two-level character key: the order of `(String, String)`
//! tuples, and of single `String` ids (with an empty second level).

use vstd::prelude::*;
use crate::text::{
    chars_less, chars_less_exec, lemma_chars_less_antisymmetric, lemma_chars_less_irreflexive,
    lemma_chars_less_transitive,
};

verus! {

broadcast use vstd::seq_lib::group_to_multiset_ensures, vstd::multiset::group_multiset_axioms;

/// An item together with the key it is ordered by: first `major`, then
/// `minor` (lexicographically, as a tuple of two strings compares).
pub struct Keyed<T> {
    pub major: Vec<char>,
    pub minor: Vec<char>,
    pub item: T,
}

/// The key of a keyed item, as plain character sequences.
pub open spec fn key_of<T>(k: Keyed<T>) -> (Seq<char>, Seq<char>) {
    (k.major@, k.minor@)
}

/// Strict order on two-level keys: tuple order, each component
/// lexicographic.
pub open spec fn key_less(a: (Seq<char>, Seq<char>), b: (Seq<char>, Seq<char>)) -> bool {
    chars_less(a.0, b.0) || (a.0 == b.0 && chars_less(a.1, b.1))
}

/// `s` is in non-decreasing key order.
pub open spec fn sorted_by_key<T>(s: Seq<Keyed<T>>) -> bool {
    forall|i: int, j: int|
        0 <= i < j < s.len() ==> !key_less(#[trigger] key_of(s[j]), #[trigger] key_of(s[i]))
}

/// The key order is transitive.
pub proof fn lemma_key_less_transitive(
    a: (Seq<char>, Seq<char>),
    b: (Seq<char>, Seq<char>),
    c: (Seq<char>, Seq<char>),
)
    requires
        key_less(a, b),
        key_less(b, c),
    ensures
        key_less(a, c),
{
    if chars_less(a.0, b.0) && chars_less(b.0, c.0) {
        lemma_chars_less_transitive(a.0, b.0, c.0, 0);
    } else if chars_less(a.0, b.0) {
    } else if chars_less(b.0, c.0) {
    } else {
        lemma_chars_less_transitive(a.1, b.1, c.1, 0);
    }
}

/// No key comes before itself.
pub proof fn lemma_key_less_irreflexive(a: (Seq<char>, Seq<char>))
    ensures
        !key_less(a, a),
{
    lemma_chars_less_irreflexive(a.0, 0);
    lemma_chars_less_irreflexive(a.1, 0);
}

/// Two keys of which neither comes before the other are equal.
pub proof fn lemma_key_less_antisymmetric(a: (Seq<char>, Seq<char>), b: (Seq<char>, Seq<char>))
    requires
        !key_less(a, b),
        !key_less(b, a),
    ensures
        a == b,
{
    lemma_chars_less_antisymmetric(a.0, b.0);
    lemma_chars_less_antisymmetric(a.1, b.1);
}

/// An element of a sequence is an element of any sequence with the same
/// multiset of elements.
pub proof fn lemma_multiset_member<A>(s: Seq<A>, u: Seq<A>, t: int)
    requires
        s.to_multiset() == u.to_multiset(),
        0 <= t < s.len(),
    ensures
        exists|j: int| 0 <= j < u.len() && u[j] == s[t],
{
    assert(s.contains(s[t]));
    assert(s.to_multiset().count(s[t]) > 0);
    assert(u.to_multiset().count(s[t]) > 0);
    assert(u.contains(s[t]));
}

/// Mapping two sequences with the same multiset of elements through the
/// same function gives sequences with the same multiset of elements.
pub proof fn lemma_map_values_multiset<A, B>(s: Seq<A>, u: Seq<A>, f: spec_fn(A) -> B)
    requires
        s.to_multiset() == u.to_multiset(),
    ensures
        s.map_values(f).to_multiset() == u.map_values(f).to_multiset(),
    decreases s.len(),
{
    if s.len() == 0 {
        assert(s.to_multiset().len() == 0);
        assert(u.to_multiset().len() == u.len());
        assert(u.len() == 0);
        assert(s.map_values(f) =~= Seq::<B>::empty());
        assert(u.map_values(f) =~= Seq::<B>::empty());
    } else {
        let x = s.last();
        let s1 = s.drop_last();
        assert(s =~= s1.push(x));
        lemma_multiset_member(s, u, s.len() - 1);
        let j = choose|j: int| 0 <= j < u.len() && u[j] == x;
        let u1 = u.remove(j);
        assert(u1.to_multiset() == u.to_multiset().remove(x));
        assert(s1.to_multiset() =~= u1.to_multiset());
        lemma_map_values_multiset(s1, u1, f);
        assert(s.map_values(f) =~= s1.map_values(f).push(f(x)));
        assert(u.map_values(f) =~= u1.map_values(f).insert(j, f(x)));
    }
}

/// The items of keyed items, in order.
pub open spec fn items_of<T>(s: Seq<Keyed<T>>) -> Seq<T> {
    s.map_values(|k: Keyed<T>| k.item)
}

/// Takes the items out of keyed items, keeping their order.
pub fn into_items<T>(v: Vec<Keyed<T>>) -> (r: Vec<T>)
    ensures
        r@ == items_of(v@),
{
    let ghost orig = v@;
    let mut rest = v;
    let mut out: Vec<T> = Vec::new();
    while rest.len() > 0
        invariant
            out@.len() + rest@.len() == orig.len(),
            rest@ == orig.skip(out@.len() as int),
            out@ == items_of(orig).take(out@.len() as int),
        decreases rest.len(),
    {
        let k = rest.remove(0);
        out.push(k.item);
        assert(out@ =~= items_of(orig).take(out@.len() as int));
        assert(rest@ =~= orig.skip(out@.len() as int));
    }
    assert(out@ =~= items_of(orig));
    out
}

/// Decides `key_less` on the keys of two items.
fn key_less_exec<T>(a: &Keyed<T>, b: &Keyed<T>) -> (r: bool)
    ensures
        r == key_less(key_of(*a), key_of(*b)),
{
    if chars_less_exec(&a.major, &b.major) {
        true
    } else if chars_less_exec(&b.major, &a.major) {
        false
    } else {
        proof {
            lemma_chars_less_antisymmetric(a.major@, b.major@);
        }
        chars_less_exec(&a.minor, &b.minor)
    }
}

/// Sorts `items` by key. The result holds the same items (as a multiset)
/// in non-decreasing key order.
pub fn sort_by_keys<T>(items: Vec<Keyed<T>>) -> (r: Vec<Keyed<T>>)
    ensures
        sorted_by_key(r@),
        r@.to_multiset() == items@.to_multiset(),
{
    let ghost orig = items@;
    let mut rest = items;
    let mut out: Vec<Keyed<T>> = Vec::new();
    while rest.len() > 0
        invariant
            sorted_by_key(out@),
            out@.to_multiset().add(rest@.to_multiset()) == orig.to_multiset(),
        decreases rest.len(),
    {
        let ghost before = rest@;
        let x = rest.pop().unwrap();
        proof {
            assert(before =~= rest@.push(x));
        }
        let mut p: usize = 0;
        while p < out.len() && !key_less_exec(&x, &out[p])
            invariant
                p <= out.len(),
                forall|i: int| 0 <= i < p ==> !key_less(key_of(x), #[trigger] key_of(out@[i])),
            decreases out.len() - p,
        {
            p = p + 1;
        }
        let ghost old_out = out@;
        out.insert(p, x);
        proof {
            assert(out@ == old_out.insert(p as int, x));
            assert forall|i: int, j: int| 0 <= i < j < out@.len() implies !key_less(
                #[trigger] key_of(out@[j]),
                #[trigger] key_of(out@[i]),
            ) by {
                if j < p {
                    assert(out@[i] == old_out[i] && out@[j] == old_out[j]);
                } else if j == p {
                    assert(out@[i] == old_out[i]);
                } else if i == p {
                    assert(out@[j] == old_out[j - 1]);
                    assert(key_less(key_of(x), key_of(old_out[p as int])));
                    if key_less(key_of(old_out[j - 1]), key_of(x)) {
                        lemma_key_less_transitive(
                            key_of(old_out[j - 1]),
                            key_of(x),
                            key_of(old_out[p as int]),
                        );
                        if p < j - 1 {
                            assert(!key_less(key_of(old_out[j - 1]), key_of(old_out[p as int])));
                        } else {
                            lemma_key_less_irreflexive(key_of(old_out[p as int]));
                        }
                    }
                } else if i < p {
                    assert(out@[i] == old_out[i] && out@[j] == old_out[j - 1]);
                } else {
                    assert(out@[i] == old_out[i - 1] && out@[j] == old_out[j - 1]);
                }
            }
        }
    }
    out
}

} // verus!
