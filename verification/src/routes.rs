//! The queries behind the read-only HTTP routes: search, lookups, the
//! revisions of a part's device, artifact links, and the inputs and
//! decisions of effective-model construction.

use vstd::prelude::*;
use crate::keyed::{has_key, keyed_map, keys_unique, lemma_keyed_map_at, lemma_keyed_map_len};
use crate::error::{ApiError, Diagnostic};
use crate::sort::{
    into_items, items_of, key_less, key_of, lemma_key_less_antisymmetric, lemma_key_less_irreflexive,
    lemma_map_values_multiset, lemma_multiset_member, sort_by_keys, sorted_by_key, Keyed,
};
use crate::store::{
    device_not_found, package_not_found, part_key, part_key_fn, part_not_found, source_key_fn,
    DeviceEntry, PackageEntry, PartEntry, Revision, Store,
};
use crate::text::{
    chars_less, chars_of, contains_chars, contains_chars_exec, lowercase_chars, text_lowercase,
};

verus! {

broadcast use vstd::seq_lib::group_to_multiset_ensures, vstd::multiset::group_multiset_axioms;

/// The text of an optional query parameter; an absent one reads as empty.
pub open spec fn query_text(q: Option<&str>) -> Seq<char> {
    match q {
        Some(s) => s@,
        None => Seq::empty(),
    }
}

/// The needle a search looks for: the lowercased query.
pub open spec fn search_needle(q: Option<&str>) -> Seq<char> {
    text_lowercase(query_text(q))
}

/// A part matches a needle when the needle is empty, or occurs in the
/// lowercased MPN or in the lowercased manufacturer.
pub open spec fn part_matches<P>(needle: Seq<char>, e: PartEntry<P>) -> bool {
    ||| needle.len() == 0
    ||| contains_chars(text_lowercase(e.mpn@), needle)
    ||| contains_chars(text_lowercase(e.manufacturer@), needle)
}

fn part_matches_exec<P>(needle: &Vec<char>, e: &PartEntry<P>) -> (r: bool)
    ensures
        r == part_matches(needle@, *e),
{
    if needle.len() == 0 {
        return true;
    }
    let mpn = lowercase_chars(e.mpn.as_str());
    if contains_chars_exec(&mpn, needle) {
        return true;
    }
    let manufacturer = lowercase_chars(e.manufacturer.as_str());
    contains_chars_exec(&manufacturer, needle)
}

/// Substring search over manufacturer and MPN, case-insensitive: the
/// parts that match the lowercased query, each once, in strictly
/// increasing (manufacturer, MPN) order.
pub fn search<'a, P, D, K>(store: &'a Store<P, D, K>, q: Option<&str>) -> (r: Vec<&'a PartEntry<P>>)
    ensures
        is_search_result(store@.parts, search_needle(q), r@),
        query_text(q).len() == 0 ==> search_needle(q).len() == 0 && r@.len() == store@.parts.len(),
        forall|i: int|
            #![trigger r@[i]]
            0 <= i < r@.len() && search_needle(q).len() > 0 ==> contains_chars(
                text_lowercase(r@[i].mpn@),
                search_needle(q),
            ) || contains_chars(text_lowercase(r@[i].manufacturer@), search_needle(q)),
        forall|k: (Seq<char>, Seq<char>)|
            #![trigger part_keys(r@).contains(k)]
            #![trigger store@.parts.dom().contains(k)]
            store@.parts.contains_key(k) && (search_needle(q).len() == 0 || contains_chars(
                text_lowercase(store@.parts[k].mpn@),
                search_needle(q),
            ) || contains_chars(text_lowercase(store@.parts[k].manufacturer@), search_needle(q)))
                ==> part_keys(r@).contains(k),
{
    let raw: &str = match q {
        Some(s) => s,
        None => "",
    };
    proof {
        reveal_strlit("");
        assert(raw@ == query_text(q));
    }
    let needle = lowercase_chars(raw);
    let list = store.part_list();
    let n = list.len();
    let mut keyed: Vec<Keyed<usize>> = Vec::new();
    for i in 0..n
        invariant
            n == list@.len(),
            needle@ == search_needle(q),
            forall|j: int| 0 <= j < keyed@.len() ==> (#[trigger] keyed@[j]).item < i,
            forall|a: int, b: int|
                0 <= a < b < keyed@.len() ==> (#[trigger] keyed@[a]).item < (#[trigger] keyed@[b]).item,
            forall|j: int|
                0 <= j < keyed@.len() ==> {
                    &&& key_of(#[trigger] keyed@[j]) == part_key(list@[keyed@[j].item as int])
                    &&& part_matches(needle@, list@[keyed@[j].item as int])
                },
            forall|x: int|
                0 <= x < i && part_matches(needle@, #[trigger] list@[x]) ==> exists|j: int|
                    0 <= j < keyed@.len() && keyed@[j].item == x,
    {
        let e = &list[i];
        if part_matches_exec(&needle, e) {
            let ghost before = keyed@;
            keyed.push(Keyed { major: chars_of(e.manufacturer.as_str()), minor: chars_of(e.mpn.as_str()), item: i });
            proof {
                assert forall|x: int|
                    0 <= x < i + 1 && part_matches(needle@, #[trigger] list@[x]) implies exists|j: int|
                    0 <= j < keyed@.len() && keyed@[j].item == x by {
                    if x < i {
                        let j = choose|j: int| 0 <= j < before.len() && before[j].item == x;
                        assert(keyed@[j] == before[j]);
                    } else {
                        assert(keyed@[before.len() as int].item == x);
                    }
                }
            }
        }
    }
    let ghost unsorted = keyed@;
    proof {
        assert(unsorted.no_duplicates()) by {
            assert forall|a: int, b: int|
                0 <= a < unsorted.len() && 0 <= b < unsorted.len() && a != b implies unsorted[a]
                != unsorted[b] by {
                if a < b {
                    assert(unsorted[a].item < unsorted[b].item);
                } else {
                    assert(unsorted[b].item < unsorted[a].item);
                }
            }
        }
        unsorted.lemma_multiset_has_no_duplicates();
    }
    let sorted = sort_by_keys(keyed);
    proof {
        assert forall|x: Keyed<usize>| sorted@.to_multiset().contains(x) implies sorted@.to_multiset().count(x) == 1 by {
            assert(unsorted.to_multiset().contains(x));
        }
        sorted@.lemma_multiset_has_no_duplicates_conv();
        assert forall|t: int| 0 <= t < sorted@.len() implies (#[trigger] sorted@[t]).item < n by {
            lemma_multiset_member(sorted@, unsorted, t);
        }
    }
    let m = sorted.len();
    let mut out: Vec<&'a PartEntry<P>> = Vec::new();
    for j in 0..m
        invariant
            m == sorted@.len(),
            n == list@.len(),
            out@.len() == j,
            forall|t: int| 0 <= t < j ==> *out@[t] == list@[sorted@[t].item as int],
            forall|t: int| 0 <= t < m ==> (#[trigger] sorted@[t]).item < n,
    {
        out.push(&list[sorted[j].item]);
    }
    proof {
        lemma_search_result(list@, unsorted, sorted@, out@, search_needle(q));
        law_search_answers_match_text(store@.parts, search_needle(q), out@);
        law_search_finds_text_matches(store@.parts, search_needle(q), out@);
        if query_text(q).len() == 0 {
            lemma_keyed_map_len(list@, part_key_fn());
            lemma_full_result_len(store@.parts, out@);
        }
    }
    out
}

/// `r` is the answer to a search for `needle` over `parts`: the matching
/// parts, each as the index holds it, all of them, in strictly increasing
/// (manufacturer, MPN) order.
pub open spec fn is_search_result<P>(
    parts: Map<(Seq<char>, Seq<char>), PartEntry<P>>,
    needle: Seq<char>,
    r: Seq<&PartEntry<P>>,
) -> bool {
    &&& forall|i: int|
        0 <= i < r.len() ==> {
            &&& parts.contains_key(part_key(*#[trigger] r[i]))
            &&& parts[part_key(*r[i])] == *r[i]
            &&& part_matches(needle, *r[i])
        }
    &&& forall|k: (Seq<char>, Seq<char>)|
        #![trigger parts[k]]
        parts.contains_key(k) && part_matches(needle, parts[k]) ==> exists|i: int|
            0 <= i < r.len() && part_key(*r[i]) == k
    &&& forall|i: int, j: int|
        0 <= i < j < r.len() ==> key_less(part_key(*#[trigger] r[i]), part_key(*#[trigger] r[j]))
}

/// Every part in a search answer for a non-empty needle has the needle in
/// its lowercased MPN or in its lowercased manufacturer; no other field
/// (package, device) can make a part match.
pub proof fn law_search_answers_match_text<P>(
    parts: Map<(Seq<char>, Seq<char>), PartEntry<P>>,
    needle: Seq<char>,
    r: Seq<&PartEntry<P>>,
)
    requires
        is_search_result(parts, needle, r),
    ensures
        forall|i: int|
            #![trigger r[i]]
            0 <= i < r.len() && needle.len() > 0 ==> contains_chars(text_lowercase(r[i].mpn@), needle)
                || contains_chars(text_lowercase(r[i].manufacturer@), needle),
{
    assert forall|i: int|
        #![trigger r[i]]
        0 <= i < r.len() && needle.len() > 0 implies contains_chars(text_lowercase(r[i].mpn@), needle)
            || contains_chars(text_lowercase(r[i].manufacturer@), needle) by {
        assert(part_matches(needle, *r[i]));
    }
}

/// Every part whose lowercased MPN or lowercased manufacturer holds the
/// needle (every part, for an empty needle) is in a search answer.
pub proof fn law_search_finds_text_matches<P>(
    parts: Map<(Seq<char>, Seq<char>), PartEntry<P>>,
    needle: Seq<char>,
    r: Seq<&PartEntry<P>>,
)
    requires
        is_search_result(parts, needle, r),
    ensures
        forall|k: (Seq<char>, Seq<char>)|
            #![trigger part_keys(r).contains(k)]
            #![trigger parts.dom().contains(k)]
            parts.contains_key(k) && (needle.len() == 0 || contains_chars(
                text_lowercase(parts[k].mpn@),
                needle,
            ) || contains_chars(text_lowercase(parts[k].manufacturer@), needle))
                ==> part_keys(r).contains(k),
{
    assert forall|k: (Seq<char>, Seq<char>)|
        #![trigger part_keys(r).contains(k)]
        #![trigger parts.dom().contains(k)]
        parts.contains_key(k) && (needle.len() == 0 || contains_chars(
            text_lowercase(parts[k].mpn@),
            needle,
        ) || contains_chars(text_lowercase(parts[k].manufacturer@), needle))
            implies part_keys(r).contains(k) by {
        assert(part_matches(needle, parts[k]));
        let i = choose|i: int| 0 <= i < r.len() && part_key(*r[i]) == k;
        assert(part_keys(r)[i] == k);
    }
}

/// The keys of a sequence of parts.
pub open spec fn part_keys<P>(r: Seq<&PartEntry<P>>) -> Seq<(Seq<char>, Seq<char>)> {
    r.map_values(|e: &PartEntry<P>| part_key(*e))
}

/// A search answer in which every part matches lists the whole index.
proof fn lemma_full_result_len<P>(parts: Map<(Seq<char>, Seq<char>), PartEntry<P>>, r: Seq<&PartEntry<P>>)
    requires
        parts.dom().finite(),
        is_search_result(parts, Seq::empty(), r),
    ensures
        r.len() == parts.len(),
{
    let ks = part_keys(r);
    assert forall|i: int, j: int| 0 <= i < ks.len() && 0 <= j < ks.len() && i != j implies ks[i]
        != ks[j] by {
        if i < j {
            assert(key_less(part_key(*r[i]), part_key(*r[j])));
            lemma_key_less_irreflexive(ks[i]);
        } else {
            assert(key_less(part_key(*r[j]), part_key(*r[i])));
            lemma_key_less_irreflexive(ks[i]);
        }
    }
    assert(ks.no_duplicates());
    ks.unique_seq_to_set();
    assert forall|k: (Seq<char>, Seq<char>)| ks.to_set().contains(k) <==> parts.dom().contains(k) by {
        if ks.to_set().contains(k) {
            let i = choose|i: int| 0 <= i < ks.len() && ks[i] == k;
            assert(parts.contains_key(part_key(*r[i])));
        }
        if parts.dom().contains(k) {
            assert(part_matches(Seq::empty(), parts[k]));
            let i = choose|i: int| 0 <= i < r.len() && part_key(*r[i]) == k;
            assert(ks[i] == k);
            assert(ks.contains(k));
        }
    }
    assert(ks.to_set() =~= parts.dom());
}

/// The facts that tie the sorted keyed indices to the search result.
proof fn lemma_search_result<P>(
    list: Seq<PartEntry<P>>,
    unsorted: Seq<Keyed<usize>>,
    sorted: Seq<Keyed<usize>>,
    out: Seq<&PartEntry<P>>,
    needle: Seq<char>,
)
    requires
        keys_unique(list, part_key_fn()),
        sorted.to_multiset() == unsorted.to_multiset(),
        sorted_by_key(sorted),
        sorted.no_duplicates(),
        out.len() == sorted.len(),
        forall|t: int| 0 <= t < out.len() ==> *out[t] == list[sorted[t].item as int],
        forall|a: int, b: int|
            0 <= a < b < unsorted.len() ==> (#[trigger] unsorted[a]).item < (#[trigger] unsorted[b]).item,
        forall|j: int|
            0 <= j < unsorted.len() ==> {
                &&& (#[trigger] unsorted[j]).item < list.len()
                &&& key_of(unsorted[j]) == part_key(list[unsorted[j].item as int])
                &&& part_matches(needle, list[unsorted[j].item as int])
            },
        forall|x: int|
            0 <= x < list.len() && part_matches(needle, #[trigger] list[x]) ==> exists|j: int|
                0 <= j < unsorted.len() && unsorted[j].item == x,
    ensures
        forall|i: int|
            0 <= i < out.len() ==> {
                &&& keyed_map(list, part_key_fn()).contains_key(part_key(*#[trigger] out[i]))
                &&& keyed_map(list, part_key_fn())[part_key(*out[i])] == *out[i]
                &&& part_matches(needle, *out[i])
            },
        forall|k: (Seq<char>, Seq<char>)|
            #![trigger keyed_map(list, part_key_fn())[k]]
            keyed_map(list, part_key_fn()).contains_key(k) && part_matches(
                needle,
                keyed_map(list, part_key_fn())[k],
            ) ==> exists|i: int| 0 <= i < out.len() && part_key(*out[i]) == k,
        forall|i: int, j: int|
            0 <= i < j < out.len() ==> key_less(part_key(*#[trigger] out[i]), part_key(*#[trigger] out[j])),
{
    let map = keyed_map(list, part_key_fn());
    // Every sorted element is one of the unsorted ones.
    assert forall|t: int| 0 <= t < sorted.len() implies exists|j: int|
        0 <= j < unsorted.len() && unsorted[j] == #[trigger] sorted[t] by {
        lemma_multiset_member(sorted, unsorted, t);
    }
    assert forall|i: int| 0 <= i < out.len() implies {
        &&& map.contains_key(part_key(*#[trigger] out[i]))
        &&& map[part_key(*out[i])] == *out[i]
        &&& part_matches(needle, *out[i])
    } by {
        let j = choose|j: int| 0 <= j < unsorted.len() && unsorted[j] == sorted[i];
        assert(unsorted[j].item < list.len());
        lemma_keyed_map_at(list, part_key_fn(), sorted[i].item as int);
    }
    assert forall|k: (Seq<char>, Seq<char>)|
        #![trigger map[k]]
        map.contains_key(k) && part_matches(needle, map[k]) implies exists|i: int|
        0 <= i < out.len() && part_key(*out[i]) == k by {
        assert(has_key(list, part_key_fn(), k));
        let x = choose|x: int| 0 <= x < list.len() && (part_key_fn::<P>())(list[x]) == k;
        lemma_keyed_map_at(list, part_key_fn(), x);
        assert(part_matches(needle, list[x]));
        let j = choose|j: int| 0 <= j < unsorted.len() && unsorted[j].item == x;
        lemma_multiset_member(unsorted, sorted, j);
        let i = choose|i: int| 0 <= i < sorted.len() && sorted[i] == unsorted[j];
        assert(part_key(*out[i]) == k);
    }
    assert forall|i: int, j: int| 0 <= i < j < out.len() implies key_less(
        part_key(*#[trigger] out[i]),
        part_key(*#[trigger] out[j]),
    ) by {
        let a = choose|a: int| 0 <= a < unsorted.len() && unsorted[a] == sorted[i];
        let b = choose|b: int| 0 <= b < unsorted.len() && unsorted[b] == sorted[j];
        assert(!key_less(key_of(sorted[j]), key_of(sorted[i])));
        if !key_less(key_of(sorted[i]), key_of(sorted[j])) {
            lemma_key_less_antisymmetric(key_of(sorted[i]), key_of(sorted[j]));
            let xi = sorted[i].item as int;
            let xj = sorted[j].item as int;
            assert((part_key_fn::<P>())(list[xi]) == (part_key_fn::<P>())(list[xj]));
            assert(xi == xj);
            if a < b {
                assert(unsorted[a].item < unsorted[b].item);
            } else if b < a {
                assert(unsorted[b].item < unsorted[a].item);
            }
            assert(sorted[i] == sorted[j]);
        }
    }
}

/// A copy of a revision.
fn copy_revision(r: &Revision) -> (c: Revision)
    ensures
        c == *r,
{
    Revision { id: r.id.clone(), manufacturer_revision: r.manufacturer_revision.clone() }
}

/// `v` is in non-decreasing order of revision id.
pub open spec fn sorted_by_id(v: Seq<Revision>) -> bool {
    forall|i: int, j: int| 0 <= i < j < v.len() ==> !chars_less(#[trigger] v[j].id@, #[trigger] v[i].id@)
}

/// The revisions of a device, ordered by id.
pub fn sorted_revisions<D>(device: &DeviceEntry<D>) -> (r: Vec<Revision>)
    ensures
        sorted_by_id(r@),
        r@.to_multiset() == device.revisions@.to_multiset(),
{
    let revs = &device.revisions;
    let n = revs.len();
    let mut keyed: Vec<Keyed<Revision>> = Vec::new();
    for i in 0..n
        invariant
            n == revs@.len(),
            keyed@.len() == i,
            forall|j: int|
                0 <= j < i ==> (#[trigger] keyed@[j]).item == revs@[j] && key_of(keyed@[j]) == (
                    revs@[j].id@,
                    Seq::<char>::empty(),
                ),
    {
        keyed.push(Keyed { major: chars_of(revs[i].id.as_str()), minor: Vec::new(), item: copy_revision(&revs[i]) });
    }
    let ghost unsorted = keyed@;
    assert(items_of(unsorted) =~= revs@);
    let sorted = sort_by_keys(keyed);
    let ghost sorted_v = sorted@;
    let out = into_items(sorted);
    proof {
        lemma_map_values_multiset(sorted_v, unsorted, |k: Keyed<Revision>| k.item);
        assert forall|t: int| 0 <= t < sorted_v.len() implies key_of(#[trigger] sorted_v[t]) == (
            out@[t].id@,
            Seq::<char>::empty(),
        ) by {
            lemma_multiset_member(sorted_v, unsorted, t);
        }
        assert forall|i: int, j: int| 0 <= i < j < out@.len() implies !chars_less(
            #[trigger] out@[j].id@,
            #[trigger] out@[i].id@,
        ) by {
            assert(!key_less(key_of(sorted_v[j]), key_of(sorted_v[i])));
            assert(key_of(sorted_v[i]) == (out@[i].id@, Seq::<char>::empty()));
            assert(key_of(sorted_v[j]) == (out@[j].id@, Seq::<char>::empty()));
        }
    }
    out
}

/// The silicon revisions that the device of a part declares, ordered by
/// id. Fails with the part's, then the device's, not-found error.
pub fn part_revisions<P, D, K>(store: &Store<P, D, K>, manufacturer: &str, mpn: &str) -> (r: Result<
    Vec<Revision>,
    ApiError,
>)
    ensures
        !store@.parts.contains_key((manufacturer@, mpn@)) ==> (r matches Err(e) && part_not_found(
            e,
            manufacturer@,
            mpn@,
        )),
        store@.parts.contains_key((manufacturer@, mpn@)) ==> {
            let dev = store@.parts[(manufacturer@, mpn@)].device@;
            &&& !store@.devices.contains_key(dev) ==> (r matches Err(e) && device_not_found(e, dev))
            &&& store@.devices.contains_key(dev) ==> (r matches Ok(v) && sorted_by_id(v@)
                && v@.to_multiset() == store@.devices[dev].revisions@.to_multiset())
        },
{
    let part = match store.resolve_part(manufacturer, mpn) {
        Ok(p) => p,
        Err(e) => return Err(e),
    };
    let device = match store.resolve_device(part.device.as_str()) {
        Ok(d) => d,
        Err(e) => return Err(e),
    };
    Ok(sorted_revisions(device))
}

/// Links to the artifact kinds generated for a part.
#[derive(Debug)]
pub struct ArtifactLinks {
    pub kicad_symbol: String,
    pub kicad_footprint: String,
    pub step: String,
}

/// The path under which a part's artifacts are served.
pub open spec fn artifacts_base(manufacturer: Seq<char>, mpn: Seq<char>) -> Seq<char> {
    "/v1/parts/"@ + manufacturer + "/"@ + mpn + "/artifacts"@
}

/// Links to the KiCad symbol, KiCad footprint and STEP artifacts of a
/// part; fails when the part is not in the index.
pub fn artifact_links<P, D, K>(store: &Store<P, D, K>, manufacturer: &str, mpn: &str) -> (r: Result<
    ArtifactLinks,
    ApiError,
>)
    ensures
        !store@.parts.contains_key((manufacturer@, mpn@)) ==> (r matches Err(e) && part_not_found(
            e,
            manufacturer@,
            mpn@,
        )),
        store@.parts.contains_key((manufacturer@, mpn@)) ==> (r matches Ok(links) && {
            &&& links.kicad_symbol@ == artifacts_base(manufacturer@, mpn@) + "/kicad-symbol"@
            &&& links.kicad_footprint@ == artifacts_base(manufacturer@, mpn@) + "/kicad-footprint"@
            &&& links.step@ == artifacts_base(manufacturer@, mpn@) + "/step"@
        }),
{
    if let Err(e) = store.resolve_part(manufacturer, mpn) {
        return Err(e);
    }
    let mut base = String::from_str("/v1/parts/");
    base.append(manufacturer);
    base.append("/");
    base.append(mpn);
    base.append("/artifacts");
    let mut kicad_symbol = base.clone();
    kicad_symbol.append("/kicad-symbol");
    let mut kicad_footprint = base.clone();
    kicad_footprint.append("/kicad-footprint");
    let mut step = base;
    step.append("/step");
    Ok(ArtifactLinks { kicad_symbol, kicad_footprint, step })
}

/// A part together with its device and package.
#[derive(Debug)]
pub struct Triple<'a, P, D, K> {
    pub part: &'a PartEntry<P>,
    pub device: &'a DeviceEntry<D>,
    pub package: &'a PackageEntry<K>,
}

/// Resolves a part, then its device, then its package; the first that is
/// missing decides the error.
pub fn resolve_triple<'a, P, D, K>(store: &'a Store<P, D, K>, manufacturer: &str, mpn: &str) -> (r:
    Result<Triple<'a, P, D, K>, ApiError>)
    ensures
        !store@.parts.contains_key((manufacturer@, mpn@)) ==> (r matches Err(e) && part_not_found(
            e,
            manufacturer@,
            mpn@,
        )),
        store@.parts.contains_key((manufacturer@, mpn@)) ==> {
            let part = store@.parts[(manufacturer@, mpn@)];
            &&& !store@.devices.contains_key(part.device@) ==> (r matches Err(e) && device_not_found(
                e,
                part.device@,
            ))
            &&& store@.devices.contains_key(part.device@) && !store@.packages.contains_key(
                part.package@,
            ) ==> (r matches Err(e) && package_not_found(e, part.package@))
            &&& store@.devices.contains_key(part.device@) && store@.packages.contains_key(
                part.package@,
            ) ==> (r matches Ok(t) && *t.part == part && *t.device == store@.devices[part.device@]
                && *t.package == store@.packages[part.package@])
        },
{
    let part = match store.resolve_part(manufacturer, mpn) {
        Ok(p) => p,
        Err(e) => return Err(e),
    };
    let device = match store.resolve_device(part.device.as_str()) {
        Ok(d) => d,
        Err(e) => return Err(e),
    };
    let package = match store.resolve_package(part.package.as_str()) {
        Ok(k) => k,
        Err(e) => return Err(e),
    };
    Ok(Triple { part, device, package })
}

/// What effective-model construction starts from: the resolved triple and
/// the ids of all known sources.
#[derive(Debug)]
pub struct ModelInputs<'a, P, D, K> {
    pub triple: Triple<'a, P, D, K>,
    pub known_sources: Vec<String>,
}

/// Resolves the triple of a part and collects the known source ids, which
/// validation checks the part's citations against.
pub fn model_inputs<'a, P, D, K>(store: &'a Store<P, D, K>, manufacturer: &str, mpn: &str) -> (r:
    Result<ModelInputs<'a, P, D, K>, ApiError>)
    ensures
        !store@.parts.contains_key((manufacturer@, mpn@)) ==> (r matches Err(e) && part_not_found(
            e,
            manufacturer@,
            mpn@,
        )),
        store@.parts.contains_key((manufacturer@, mpn@)) ==> {
            let part = store@.parts[(manufacturer@, mpn@)];
            &&& !store@.devices.contains_key(part.device@) ==> (r matches Err(e) && device_not_found(
                e,
                part.device@,
            ))
            &&& store@.devices.contains_key(part.device@) && !store@.packages.contains_key(
                part.package@,
            ) ==> (r matches Err(e) && package_not_found(e, part.package@))
            &&& store@.devices.contains_key(part.device@) && store@.packages.contains_key(
                part.package@,
            ) ==> (r matches Ok(inputs) && {
                &&& *inputs.triple.part == part
                &&& *inputs.triple.device == store@.devices[part.device@]
                &&& *inputs.triple.package == store@.packages[part.package@]
                &&& keys_unique(inputs.known_sources@, source_key_fn())
                &&& keyed_map(inputs.known_sources@, source_key_fn()).dom() == store@.sources
            })
        },
{
    let triple = match resolve_triple(store, manufacturer, mpn) {
        Ok(t) => t,
        Err(e) => return Err(e),
    };
    let known_sources = store.source_ids();
    Ok(ModelInputs { triple, known_sources })
}

/// Validation blocks a request when it reports any diagnostic.
pub fn check_validation(diagnostics: Vec<Diagnostic>) -> (r: Result<(), ApiError>)
    ensures
        diagnostics@.len() == 0 ==> r is Ok,
        diagnostics@.len() > 0 ==> (r matches Err(ApiError::ValidationFailed(d)) && d == diagnostics),
{
    if diagnostics.len() == 0 {
        Ok(())
    } else {
        Err(ApiError::ValidationFailed(diagnostics))
    }
}

/// A failure of model construction or artifact generation, given by its
/// message, becomes a generation failure; a success passes through.
pub fn generation_result<M>(outcome: Result<M, String>) -> (r: Result<M, ApiError>)
    ensures
        outcome matches Ok(m) ==> (r matches Ok(v) && v == m),
        outcome matches Err(msg) ==> (r matches Err(ApiError::GenerationFailed(g)) && g == msg),
{
    match outcome {
        Ok(m) => Ok(m),
        Err(msg) => Err(ApiError::GenerationFailed(msg)),
    }
}

} // verus!
