//! What holds of every offering.

use crate::arrange::{arrange, lemma_arrange_contains, lemma_arrange_ordered};
use crate::arrange::{lemma_arrange_same_items, ordered, same_items};
use crate::ngx::feature::rank_lt;
use crate::ngx::grouping::{best_payload, better_payload, by_rank, by_text, newest_first};
use crate::ngx::grouping::{candidate_spec, group_spec, groups_spec, has_sidecar, payload_size};
use crate::ngx::grouping::{dirs_of, features_spec, mirrors_spec, namespaces_of, offer_spec};
use crate::ngx::grouping::{lemma_by_rank_strict, lemma_by_text_strict, lemma_newest_first_strict};
use crate::ngx::grouping::{of_feature, of_payload, of_version, payloads_of, version_ids_of};
use crate::ngx::grouping::versions_spec;
use crate::ngx::key::EntryModel;
use crate::ngx::payload::payload_rank_spec;
use crate::ngx::urls::{payload_url_spec, sidecar_url_spec};
use crate::ngx::version::version_spec;
use crate::order::{lemma_text_lt_irreflexive, lemma_text_lt_total, lemma_text_lt_transitive};
use vstd::prelude::*;

verus! {

/// An item is left by a filter if it is there and passes.
pub proof fn lemma_filter_has<A>(s: Seq<A>, p: spec_fn(A) -> bool, x: A)
    ensures
        s.filter(p).contains(x) <==> s.contains(x) && p(x),
{
    if s.filter(p).contains(x) {
        s.lemma_filter_contains_rev(p, x);
        let i = choose|i: int| 0 <= i < s.filter(p).len() && s.filter(p)[i] == x;
        s.lemma_filter_pred(p, i);
    }
    if s.contains(x) && p(x) {
        let i = choose|i: int| 0 <= i < s.len() && s[i] == x;
        s.lemma_filter_contains(p, i);
    }
}

/// Filtering sequences of the same items leaves the same items.
proof fn lemma_filter_same_items<A>(a: Seq<A>, b: Seq<A>, p: spec_fn(A) -> bool)
    requires
        same_items(a, b),
    ensures
        same_items(a.filter(p), b.filter(p)),
{
    assert forall|x: A| #[trigger] a.filter(p).contains(x) <==> b.filter(p).contains(x) by {
        lemma_filter_has(a, p, x);
        lemma_filter_has(b, p, x);
        assert(a.contains(x) <==> b.contains(x));
    }
}

/// Mapping sequences of the same items gives the same items.
proof fn lemma_map_same_items<A, B>(a: Seq<A>, b: Seq<A>, f: spec_fn(A) -> B)
    requires
        same_items(a, b),
    ensures
        same_items(a.map_values(f), b.map_values(f)),
{
    let x = a.map_values(f);
    let y = b.map_values(f);
    assert forall|v: B| #[trigger] x.contains(v) <==> y.contains(v) by {
        if x.contains(v) {
            let i = choose|i: int| 0 <= i < x.len() && x[i] == v;
            assert(a.contains(a[i]));
            assert(b.contains(a[i]));
            let j = choose|j: int| 0 <= j < b.len() && b[j] == a[i];
            assert(y[j] == v);
        }
        if y.contains(v) {
            let i = choose|i: int| 0 <= i < y.len() && y[i] == v;
            assert(b.contains(b[i]));
            assert(a.contains(b[i]));
            let j = choose|j: int| 0 <= j < a.len() && a[j] == b[i];
            assert(x[j] == v);
        }
    }
}

// ---------------------------------------------------------------------------
// The pieces
// ---------------------------------------------------------------------------

/// No payload entry is larger than the size of the payload, which is the size
/// of one of them, or zero where there is none.
proof fn lemma_payload_size(es: Seq<EntryModel>)
    ensures
        forall|i: int|
            0 <= i < es.len() && !(#[trigger] es[i]).is_sidecar ==> es[i].size <= payload_size(es),
        listed_size(es, payload_size(es)) || (sidecars_only(es) && payload_size(es) == 0),
    decreases es.len(),
{
    if es.len() > 0 {
        let front = es.drop_last();
        let n = es.len() - 1;
        lemma_payload_size(front);
        assert(es[n] == es.last());
        assert forall|i: int|
            0 <= i < es.len() && !(#[trigger] es[i]).is_sidecar implies es[i].size
            <= payload_size(es) by {
            if i < n {
                assert(front[i] == es[i]);
            }
        }
        if listed_size(front, payload_size(front)) {
            let k = choose|k: int|
                0 <= k < front.len() && !(#[trigger] front[k]).is_sidecar && front[k].size
                    == payload_size(front);
            assert(es[k] == front[k]);
            assert(listed_size(es, payload_size(es)));
        } else if !es[n].is_sidecar {
            assert(es[n].size == payload_size(es));
        } else {
            assert forall|i: int| 0 <= i < es.len() implies (#[trigger] es[i]).is_sidecar by {
                if i < n {
                    assert(front[i] == es[i]);
                }
            }
        }
    }
}

/// A payload entry has this size.
pub open spec fn listed_size(es: Seq<EntryModel>, size: u64) -> bool {
    exists|i: int| 0 <= i < es.len() && !(#[trigger] es[i]).is_sidecar && es[i].size == size
}

/// The entries are sidecars.
pub open spec fn sidecars_only(es: Seq<EntryModel>) -> bool {
    forall|i: int| 0 <= i < es.len() ==> (#[trigger] es[i]).is_sidecar
}

/// Among the same entries, in whatever order, a payload is no larger.
proof fn lemma_payload_size_same(a: Seq<EntryModel>, b: Seq<EntryModel>)
    requires
        same_items(a, b),
    ensures
        payload_size(a) <= payload_size(b),
{
    lemma_payload_size(a);
    lemma_payload_size(b);
    if listed_size(a, payload_size(a)) {
        let i = choose|i: int|
            0 <= i < a.len() && !(#[trigger] a[i]).is_sidecar && a[i].size == payload_size(a);
        assert(a.contains(a[i]));
        assert(b.contains(a[i]));
        let j = choose|j: int| 0 <= j < b.len() && b[j] == a[i];
        assert(!b[j].is_sidecar);
    }
}

/// The order by which payloads are preferred is transitive.
proof fn lemma_better_transitive(dir: Seq<char>, a: Seq<char>, b: Seq<char>, c: Seq<char>)
    requires
        better_payload(dir, a, b),
        better_payload(dir, b, c),
    ensures
        better_payload(dir, a, c),
{
    if payload_rank_spec(a, dir) == payload_rank_spec(b, dir) && payload_rank_spec(b, dir)
        == payload_rank_spec(c, dir) {
        lemma_text_lt_transitive(a, b, c);
    }
}

/// The best payload is one of them, and better than any other.
proof fn lemma_best(dir: Seq<char>, payloads: Seq<Seq<char>>)
    requires
        payloads.len() > 0,
    ensures
        payloads.contains(best_payload(dir, payloads)),
        forall|i: int|
            0 <= i < payloads.len() ==> #[trigger] payloads[i] == best_payload(dir, payloads)
                || better_payload(dir, best_payload(dir, payloads), payloads[i]),
    decreases payloads.len(),
{
    if payloads.len() == 1 {
        assert(payloads[0] == best_payload(dir, payloads));
    } else {
        let front = payloads.drop_last();
        lemma_best(dir, front);
        let old_best = best_payload(dir, front);
        let k = choose|k: int| 0 <= k < front.len() && front[k] == old_best;
        assert(payloads[k] == old_best);
        assert(payloads[payloads.len() - 1] == payloads.last());
        let best = best_payload(dir, payloads);
        assert forall|i: int| 0 <= i < payloads.len() implies #[trigger] payloads[i] == best
            || better_payload(dir, best, payloads[i]) by {
            if i < front.len() {
                assert(front[i] == payloads[i]);
                if best != old_best && payloads[i] != old_best {
                    lemma_better_transitive(dir, best, old_best, payloads[i]);
                }
            } else if best == old_best {
                lemma_text_lt_total(best, payloads.last());
            }
        }
    }
}

/// Of two payloads not both are better than the other.
proof fn lemma_better_one_way(dir: Seq<char>, a: Seq<char>, b: Seq<char>)
    ensures
        !(better_payload(dir, a, b) && better_payload(dir, b, a)),
{
    if better_payload(dir, a, b) && better_payload(dir, b, a) {
        lemma_text_lt_transitive(a, b, a);
        lemma_text_lt_irreflexive(a);
    }
}

/// The namespaces of a payload are listed, each of them.
proof fn lemma_mirrors_contains(es: Seq<EntryModel>, ns: Seq<char>)
    ensures
        mirrors_spec(es).contains(ns) <==> namespaces_of(es).contains(ns),
{
    let all = arrange(namespaces_of(es), by_text());
    let p = |ns: Seq<char>| has_sidecar(es, ns);
    let q = |ns: Seq<char>| !has_sidecar(es, ns);
    lemma_arrange_contains(namespaces_of(es), by_text(), ns);
    lemma_filter_has(all, p, ns);
    lemma_filter_has(all, q, ns);
    let a = all.filter(p);
    let b = all.filter(q);
    let m = mirrors_spec(es);
    assert(m == a + b);
    if m.contains(ns) {
        let i = choose|i: int| 0 <= i < m.len() && m[i] == ns;
        if i < a.len() {
            assert(a[i] == ns);
        } else {
            assert(b[i - a.len()] == ns);
        }
    }
    if a.contains(ns) {
        let i = choose|i: int| 0 <= i < a.len() && a[i] == ns;
        assert(m[i] == ns);
    }
    if b.contains(ns) {
        let i = choose|i: int| 0 <= i < b.len() && b[i] == ns;
        assert(m[a.len() + i] == ns);
    }
}

/// Filtering keeps the order.
proof fn lemma_filter_ordered<A>(
    s: Seq<A>,
    p: spec_fn(A) -> bool,
    lt: spec_fn(A, A) -> bool,
)
    requires
        ordered(s, lt),
    ensures
        ordered(s.filter(p), lt),
    decreases s.len(),
{
    reveal(Seq::filter);
    if s.len() > 0 {
        let front = s.drop_last();
        assert(ordered(front, lt)) by {
            assert forall|i: int, j: int| 0 <= i < j < front.len() implies lt(
                #[trigger] front[i],
                #[trigger] front[j],
            ) by {
                assert(lt(s[i], s[j]));
            }
        }
        lemma_filter_ordered(front, p, lt);
        let r = s.filter(p);
        let f = front.filter(p);
        assert forall|i: int, j: int| 0 <= i < j < r.len() implies lt(
            #[trigger] r[i],
            #[trigger] r[j],
        ) by {
            if j < f.len() {
                assert(r[i] == f[i] && r[j] == f[j]);
            } else {
                assert(r[i] == f[i]);
                assert(f.contains(f[i]));
                lemma_filter_has(front, p, f[i]);
                let k = choose|k: int| 0 <= k < front.len() && front[k] == f[i];
                assert(lt(s[k], s[s.len() - 1]));
            }
        }
    }
}

/// One namespace is listed before another: with a sidecar first, then by name.
pub open spec fn mirror_lt(es: Seq<EntryModel>, a: Seq<char>, b: Seq<char>) -> bool {
    if has_sidecar(es, a) == has_sidecar(es, b) {
        crate::order::text_lt(a, b)
    } else {
        has_sidecar(es, a)
    }
}

/// The namespaces of a payload are listed with a sidecar first, then by name.
proof fn lemma_mirrors_ordered(es: Seq<EntryModel>)
    ensures
        ordered(mirrors_spec(es), |a: Seq<char>, b: Seq<char>| mirror_lt(es, a, b)),
{
    let all = arrange(namespaces_of(es), by_text());
    let p = |ns: Seq<char>| has_sidecar(es, ns);
    let q = |ns: Seq<char>| !has_sidecar(es, ns);
    lemma_by_text_strict();
    lemma_arrange_ordered(namespaces_of(es), by_text());
    lemma_filter_ordered(all, p, by_text());
    lemma_filter_ordered(all, q, by_text());
    let a = all.filter(p);
    let b = all.filter(q);
    let m = mirrors_spec(es);
    let lt = |x: Seq<char>, y: Seq<char>| mirror_lt(es, x, y);
    let text = by_text();
    assert forall|i: int, j: int| 0 <= i < j < m.len() implies lt(
        #[trigger] m[i],
        #[trigger] m[j],
    ) by {
        if j < a.len() {
            assert(text(a[i], a[j]));
            all.lemma_filter_pred(p, i);
            all.lemma_filter_pred(p, j);
        } else if i >= a.len() {
            assert(text(b[i - a.len()], b[j - a.len()]));
            all.lemma_filter_pred(q, i - a.len());
            all.lemma_filter_pred(q, j - a.len());
        } else {
            all.lemma_filter_pred(p, i);
            all.lemma_filter_pred(q, j - a.len());
        }
    }
}

// ---------------------------------------------------------------------------
// Laws
// ---------------------------------------------------------------------------

/// The groups are listed by rank, each feature once; the features are those
/// of the entries; and no group is empty.
pub proof fn law_groups(raw: Seq<EntryModel>)
    ensures
        forall|i: int, j: int|
            0 <= i < j < groups_spec(raw).len() ==> rank_lt(
                (#[trigger] groups_spec(raw)[i]).dir,
                (#[trigger] groups_spec(raw)[j]).dir,
            ),
        forall|dir: Seq<char>|
            #[trigger] dirs_of(raw).contains(dir) <==> exists|i: int|
                0 <= i < groups_spec(raw).len() && (#[trigger] groups_spec(raw)[i]).dir == dir,
        forall|i: int|
            0 <= i < groups_spec(raw).len() ==> (#[trigger] groups_spec(raw)[i]).offers.len() > 0,
{
    let g = groups_spec(raw);
    let features = features_spec(raw);
    let lt = by_rank();
    lemma_by_rank_strict();
    lemma_arrange_ordered(dirs_of(raw), lt);
    assert forall|i: int, j: int| 0 <= i < j < g.len() implies rank_lt(
        (#[trigger] g[i]).dir,
        (#[trigger] g[j]).dir,
    ) by {
        assert(lt(features[i], features[j]));
    }
    assert forall|dir: Seq<char>| #[trigger] dirs_of(raw).contains(dir) <==> exists|i: int|
        0 <= i < g.len() && (#[trigger] g[i]).dir == dir by {
        lemma_arrange_contains(dirs_of(raw), lt, dir);
        if features.contains(dir) {
            let k = choose|k: int| 0 <= k < features.len() && features[k] == dir;
            assert(g[k].dir == dir);
        }
        if exists|i: int| 0 <= i < g.len() && (#[trigger] g[i]).dir == dir {
            let k = choose|k: int| 0 <= k < g.len() && (#[trigger] g[k]).dir == dir;
            assert(features[k] == dir);
        }
    }
    assert forall|i: int| 0 <= i < g.len() implies (#[trigger] g[i]).offers.len() > 0 by {
        let dir = features[i];
        assert(features.contains(dir));
        lemma_arrange_contains(dirs_of(raw), lt, dir);
        let k = choose|k: int| 0 <= k < dirs_of(raw).len() && dirs_of(raw)[k] == dir;
        let p = |e: EntryModel| e.dir == dir;
        raw.lemma_filter_contains(p, k);
        let es = of_feature(raw, dir);
        assert(es.contains(raw[k]));
        let m = choose|m: int| 0 <= m < es.len() && es[m] == raw[k];
        assert(version_ids_of(es)[m] == raw[k].version_id);
        assert(version_ids_of(es).contains(raw[k].version_id));
        lemma_arrange_contains(version_ids_of(es), newest_first(), raw[k].version_id);
        assert(versions_spec(es).contains(raw[k].version_id));
    }
}

/// In a group every version of the feature has one offer, newest first, under
/// its decoded version.
pub proof fn law_offers_newest_first(es: Seq<EntryModel>, dir: Seq<char>)
    ensures
        ({
            let offers = group_spec(es, dir).offers;
            &&& forall|i: int, j: int|
                0 <= i < j < offers.len() ==> (#[trigger] offers[i]).version_id > (
                #[trigger] offers[j]).version_id
            &&& forall|v: u32|
                #[trigger] version_ids_of(es).contains(v) <==> exists|i: int|
                    0 <= i < offers.len() && (#[trigger] offers[i]).version_id == v
            &&& forall|i: int|
                0 <= i < offers.len() ==> (#[trigger] offers[i]).version == version_spec(
                    offers[i].version_id,
                ) && offers[i].dir == dir
        }),
{
    let offers = group_spec(es, dir).offers;
    let versions = versions_spec(es);
    let lt = newest_first();
    lemma_newest_first_strict();
    lemma_arrange_ordered(version_ids_of(es), lt);
    assert forall|i: int, j: int| 0 <= i < j < offers.len() implies (
    #[trigger] offers[i]).version_id > (#[trigger] offers[j]).version_id by {
        assert(lt(versions[i], versions[j]));
    }
    assert forall|v: u32| #[trigger] version_ids_of(es).contains(v) <==> exists|i: int|
        0 <= i < offers.len() && (#[trigger] offers[i]).version_id == v by {
        lemma_arrange_contains(version_ids_of(es), lt, v);
        if versions.contains(v) {
            let k = choose|k: int| 0 <= k < versions.len() && versions[k] == v;
            assert(offers[k].version_id == v);
        }
        if exists|i: int| 0 <= i < offers.len() && (#[trigger] offers[i]).version_id == v {
            let k = choose|k: int| 0 <= k < offers.len() && (#[trigger] offers[k]).version_id == v;
            assert(versions[k] == v);
        }
    }
}

/// The payload of an offer is one that the entries have, and no other that
/// they have is preferred to it. The size is that of the payload: the largest
/// that an entry of it has, sidecars left out, and zero if there are sidecars only.
pub proof fn law_offer_payload(es: Seq<EntryModel>, dir: Seq<char>, version_id: u32)
    requires
        es.len() > 0,
    ensures
        ({
            let offer = offer_spec(es, dir, version_id);
            let package = of_payload(es, offer.payload);
            &&& payloads_of(es).contains(offer.payload)
            &&& forall|p: Seq<char>| #[trigger]
                payloads_of(es).contains(p) ==> !better_payload(dir, p, offer.payload)
            &&& forall|i: int|
                0 <= i < package.len() && !(#[trigger] package[i]).is_sidecar ==> package[i].size
                    <= offer.size
            &&& listed_size(package, offer.size) || (sidecars_only(package) && offer.size == 0)
        }),
{
    let offer = offer_spec(es, dir, version_id);
    let payloads = payloads_of(es);
    lemma_best(dir, payloads);
    assert forall|p: Seq<char>| #[trigger] payloads.contains(p) implies !better_payload(
        dir,
        p,
        offer.payload,
    ) by {
        let i = choose|i: int| 0 <= i < payloads.len() && payloads[i] == p;
        if p == offer.payload {
            lemma_text_lt_irreflexive(p);
        } else {
            lemma_better_one_way(dir, offer.payload, p);
        }
    }
    let package = of_payload(es, offer.payload);
    let k = choose|k: int| 0 <= k < payloads.len() && payloads[k] == offer.payload;
    let p = |e: EntryModel| e.payload == offer.payload;
    es.lemma_filter_contains(p, k);
    assert(package.contains(es[k]));
    lemma_payload_size(package);
}

/// An offer has a mirror for every namespace that has an entry of its payload,
/// the payload or its sidecar, and no other; those with a sha256 sidecar come
/// first; and every mirror that has one names it.
pub proof fn law_offer_mirrors(es: Seq<EntryModel>, dir: Seq<char>, version_id: u32)
    ensures
        ({
            let offer = offer_spec(es, dir, version_id);
            let package = of_payload(es, offer.payload);
            let mirrors = mirrors_spec(package);
            &&& same_items(mirrors, namespaces_of(package))
            &&& ordered(mirrors, |a: Seq<char>, b: Seq<char>| mirror_lt(package, a, b))
            &&& offer.candidates.len() == mirrors.len()
            &&& forall|i: int|
                0 <= i < mirrors.len() ==> {
                    let url = payload_url_spec(mirrors[i], dir, version_id, offer.payload);
                    &&& (#[trigger] offer.candidates[i]).url == url
                    &&& offer.candidates[i].sha256_url == (if has_sidecar(package, mirrors[i]) {
                        Some(sidecar_url_spec(url))
                    } else {
                        None
                    })
                }
            &&& forall|i: int, j: int|
                0 <= i < j < offer.candidates.len() && (
                #[trigger] offer.candidates[j]).sha256_url is Some ==> (
                #[trigger] offer.candidates[i]).sha256_url is Some
        }),
{
    let offer = offer_spec(es, dir, version_id);
    let package = of_payload(es, offer.payload);
    let mirrors = mirrors_spec(package);
    assert forall|ns: Seq<char>| #[trigger] mirrors.contains(ns) <==> namespaces_of(
        package,
    ).contains(ns) by {
        lemma_mirrors_contains(package, ns);
    }
    lemma_mirrors_ordered(package);
    let lt = |a: Seq<char>, b: Seq<char>| mirror_lt(package, a, b);
    assert forall|i: int, j: int|
        0 <= i < j < offer.candidates.len() && (
        #[trigger] offer.candidates[j]).sha256_url is Some implies (
    #[trigger] offer.candidates[i]).sha256_url is Some by {
        assert(lt(mirrors[i], mirrors[j]));
    }
}

/// Sequences of the same entries make the same offer of a version.
proof fn lemma_offer_same(
    a: Seq<EntryModel>,
    b: Seq<EntryModel>,
    dir: Seq<char>,
    version_id: u32,
)
    requires
        same_items(a, b),
        a.len() > 0,
    ensures
        offer_spec(a, dir, version_id) == offer_spec(b, dir, version_id),
{
    assert(a.contains(a[0]));
    assert(b.contains(a[0]));
    let fp = |e: EntryModel| e.payload;
    lemma_map_same_items(a, b, fp);
    let pa = payloads_of(a);
    let pb = payloads_of(b);
    lemma_best(dir, pa);
    lemma_best(dir, pb);
    let x = best_payload(dir, pa);
    let y = best_payload(dir, pb);
    assert(x == y) by {
        assert(pb.contains(x));
        assert(pa.contains(y));
        let i = choose|i: int| 0 <= i < pb.len() && pb[i] == x;
        let j = choose|j: int| 0 <= j < pa.len() && pa[j] == y;
        lemma_better_one_way(dir, x, y);
    }
    let p = |e: EntryModel| e.payload == x;
    lemma_filter_same_items(a, b, p);
    let ka = of_payload(a, x);
    let kb = of_payload(b, x);
    assert(same_items(ka, kb));
    lemma_payload_size_same(ka, kb);
    lemma_payload_size_same(kb, ka);
    let fns = |e: EntryModel| e.ns;
    lemma_map_same_items(ka, kb, fns);
    lemma_by_text_strict();
    lemma_arrange_same_items(namespaces_of(ka), namespaces_of(kb), by_text());
    assert forall|ns: Seq<char>| has_sidecar(ka, ns) == has_sidecar(kb, ns) by {
        if has_sidecar(ka, ns) {
            let i = choose|i: int|
                0 <= i < ka.len() && (#[trigger] ka[i]).ns == ns && ka[i].is_sidecar;
            assert(ka.contains(ka[i]));
            assert(kb.contains(ka[i]));
            let j = choose|j: int| 0 <= j < kb.len() && kb[j] == ka[i];
            assert(kb[j].ns == ns);
        }
        if has_sidecar(kb, ns) {
            let i = choose|i: int|
                0 <= i < kb.len() && (#[trigger] kb[i]).ns == ns && kb[i].is_sidecar;
            assert(kb.contains(kb[i]));
            assert(ka.contains(kb[i]));
            let j = choose|j: int| 0 <= j < ka.len() && ka[j] == kb[i];
            assert(ka[j].ns == ns);
        }
    }
    assert((|ns: Seq<char>| has_sidecar(ka, ns)) =~= (|ns: Seq<char>| has_sidecar(kb, ns)));
    assert((|ns: Seq<char>| !has_sidecar(ka, ns)) =~= (|ns: Seq<char>| !has_sidecar(kb, ns)));
    assert(mirrors_spec(ka) == mirrors_spec(kb));
    assert forall|ns: Seq<char>|
        #[trigger] candidate_spec(ka, ns, dir, version_id, x) == candidate_spec(
            kb,
            ns,
            dir,
            version_id,
            x,
        ) by {
        assert(has_sidecar(ka, ns) == has_sidecar(kb, ns));
    }
    assert(offer_spec(a, dir, version_id).candidates =~= offer_spec(
        b,
        dir,
        version_id,
    ).candidates);
}

/// Sequences of the same entries make the same group of a feature.
proof fn lemma_group_same(a: Seq<EntryModel>, b: Seq<EntryModel>, dir: Seq<char>)
    requires
        same_items(a, b),
    ensures
        group_spec(a, dir) == group_spec(b, dir),
{
    let f = |e: EntryModel| e.version_id;
    lemma_map_same_items(a, b, f);
    lemma_newest_first_strict();
    lemma_arrange_same_items(version_ids_of(a), version_ids_of(b), newest_first());
    let versions = versions_spec(a);
    assert(versions == versions_spec(b));
    assert forall|i: int| 0 <= i < versions.len() implies group_spec(a, dir).offers[i]
        == group_spec(b, dir).offers[i] by {
        let v = versions[i];
        let p = |e: EntryModel| e.version_id == v;
        lemma_filter_same_items(a, b, p);
        assert(versions.contains(v));
        lemma_arrange_contains(version_ids_of(a), newest_first(), v);
        let k = choose|k: int| 0 <= k < version_ids_of(a).len() && version_ids_of(a)[k] == v;
        a.lemma_filter_contains(p, k);
        assert(of_version(a, v).contains(a[k]));
        lemma_offer_same(of_version(a, v), of_version(b, v), dir, v);
    }
    assert(group_spec(a, dir).offers =~= group_spec(b, dir).offers);
}

/// The offering does not depend on the order of the entries, nor on how often
/// an entry is listed.
pub proof fn law_offering_independent_of_order(a: Seq<EntryModel>, b: Seq<EntryModel>)
    requires
        same_items(a, b),
    ensures
        groups_spec(a) == groups_spec(b),
{
    let f = |e: EntryModel| e.dir;
    lemma_map_same_items(a, b, f);
    lemma_by_rank_strict();
    lemma_arrange_same_items(dirs_of(a), dirs_of(b), by_rank());
    let features = features_spec(a);
    assert(features == features_spec(b));
    assert forall|i: int| 0 <= i < features.len() implies groups_spec(a)[i] == groups_spec(
        b,
    )[i] by {
        let dir = features[i];
        let p = |e: EntryModel| e.dir == dir;
        lemma_filter_same_items(a, b, p);
        lemma_group_same(of_feature(a, dir), of_feature(b, dir), dir);
    }
    assert(groups_spec(a) =~= groups_spec(b));
}

} // verus!
