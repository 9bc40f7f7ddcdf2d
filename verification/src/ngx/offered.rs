//! What is offered, entry by entry.

use crate::ngx::feature::rank_lt;
use crate::ngx::grouping::{dirs_of, group_spec, groups_spec, has_sidecar, mirrors_spec};
use crate::ngx::grouping::{namespaces_of, of_feature, of_payload, of_version, offer_spec};
use crate::ngx::grouping::{payloads_of, version_ids_of, versions_spec};
use crate::ngx::key::EntryModel;
use crate::ngx::offering::{law_groups, law_offer_mirrors, law_offer_payload};
use crate::ngx::offering::{law_offers_newest_first, lemma_filter_has, listed_size, mirror_lt};
use crate::ngx::payload::payload_rank_spec;
use crate::ngx::urls::payload_url_spec;
use crate::ngx::version::version_spec;
use crate::order::{lemma_text_lt_total, text_lt};
use vstd::prelude::*;

verus! {

/// The entry is of that feature, version and payload: the payload itself, or its sidecar.
pub open spec fn entry_for(e: EntryModel, dir: Seq<char>, v: u32, payload: Seq<char>) -> bool {
    e.dir == dir && e.version_id == v && e.payload == payload
}

/// The entries hold one of that namespace for the payload.
pub open spec fn mirrored(
    raw: Seq<EntryModel>,
    dir: Seq<char>,
    v: u32,
    payload: Seq<char>,
    ns: Seq<char>,
) -> bool {
    exists|i: int|
        0 <= i < raw.len() && entry_for(#[trigger] raw[i], dir, v, payload) && raw[i].ns == ns
}

/// The entries hold a sidecar of that namespace for the payload.
pub open spec fn summed(
    raw: Seq<EntryModel>,
    dir: Seq<char>,
    v: u32,
    payload: Seq<char>,
    ns: Seq<char>,
) -> bool {
    exists|i: int|
        0 <= i < raw.len() && entry_for(#[trigger] raw[i], dir, v, payload) && raw[i].ns == ns
            && raw[i].is_sidecar
}

/// What the filters of the grouping leave is the entries of the payload.
proof fn lemma_package(
    raw: Seq<EntryModel>,
    dir: Seq<char>,
    v: u32,
    payload: Seq<char>,
    e: EntryModel,
)
    ensures
        of_version(of_feature(raw, dir), v).contains(e) <==> raw.contains(e) && e.dir == dir
            && e.version_id == v,
        of_payload(of_version(of_feature(raw, dir), v), payload).contains(e) <==> raw.contains(e)
            && entry_for(e, dir, v, payload),
{
    let es = of_feature(raw, dir);
    let vs = of_version(es, v);
    lemma_filter_has(raw, |x: EntryModel| x.dir == dir, e);
    lemma_filter_has(es, |x: EntryModel| x.version_id == v, e);
    lemma_filter_has(vs, |x: EntryModel| x.payload == payload, e);
}

/// An offer, entry by entry. Its payload is that of an entry of its feature and
/// version, and of all these payloads the one of the greatest rank, and of
/// these the first by name. Its size is the greatest that an entry of the
/// payload has, sidecars left out. Its mirrors are the namespaces that have an
/// entry of the payload, each once, those with a sidecar before those without,
/// and by name; each has the address of the payload there, and that of the
/// sidecar where there is one.
pub proof fn law_offer(raw: Seq<EntryModel>, g: int, o: int) -> (nss: Seq<Seq<char>>)
    requires
        0 <= g < groups_spec(raw).len(),
        0 <= o < groups_spec(raw)[g].offers.len(),
    ensures
        ({
            let dir = groups_spec(raw)[g].dir;
            let offer = groups_spec(raw)[g].offers[o];
            let v = offer.version_id;
            let p = offer.payload;
            &&& offer.dir == dir
            &&& offer.version == version_spec(v)
            &&& exists|i: int| 0 <= i < raw.len() && entry_for(#[trigger] raw[i], dir, v, p)
            &&& forall|i: int|
                0 <= i < raw.len() && (#[trigger] raw[i]).dir == dir && raw[i].version_id == v ==> {
                    let q = raw[i].payload;
                    ||| q == p
                    ||| payload_rank_spec(q, dir) < payload_rank_spec(p, dir)
                    ||| payload_rank_spec(q, dir) == payload_rank_spec(p, dir) && text_lt(p, q)
                }
            &&& forall|i: int|
                0 <= i < raw.len() && entry_for(#[trigger] raw[i], dir, v, p) && !raw[i].is_sidecar
                    ==> raw[i].size <= offer.size
            &&& offer.size == 0 || exists|i: int|
                0 <= i < raw.len() && entry_for(#[trigger] raw[i], dir, v, p) && !raw[i].is_sidecar
                    && raw[i].size == offer.size
            &&& offer.candidates.len() == nss.len()
            &&& forall|ns: Seq<char>| #[trigger] nss.contains(ns) <==> mirrored(raw, dir, v, p, ns)
            &&& forall|i: int|
                0 <= i < nss.len() ==> {
                    let url = payload_url_spec(nss[i], dir, v, p);
                    &&& (#[trigger] offer.candidates[i]).url == url
                    &&& offer.candidates[i].sha256_url == (if summed(raw, dir, v, p, nss[i]) {
                        Some(url + ".sha256"@)
                    } else {
                        None
                    })
                }
            &&& forall|i: int, j: int|
                0 <= i < j < nss.len() ==> {
                    let a = summed(raw, dir, v, p, #[trigger] nss[i]);
                    let b = summed(raw, dir, v, p, #[trigger] nss[j]);
                    (a && !b) || (a == b && text_lt(nss[i], nss[j]))
                }
        }),
{
    let dir = groups_spec(raw)[g].dir;
    let es = of_feature(raw, dir);
    assert(groups_spec(raw)[g] == group_spec(es, dir));
    let v = versions_spec(es)[o];
    let vs = of_version(es, v);
    let offer = groups_spec(raw)[g].offers[o];
    assert(offer == offer_spec(vs, dir, v));
    law_offers_newest_first(es, dir);
    assert(version_ids_of(es).contains(v));
    let j0 = choose|j: int| 0 <= j < version_ids_of(es).len() && version_ids_of(es)[j] == v;
    lemma_filter_has(es, |x: EntryModel| x.version_id == v, es[j0]);
    assert(es.contains(es[j0]));
    assert(vs.contains(es[j0]));
    law_offer_payload(vs, dir, v);
    law_offer_mirrors(vs, dir, v);
    let p = offer.payload;
    let package = of_payload(vs, p);
    let nss = mirrors_spec(package);
    // the payload
    let k = choose|k: int| 0 <= k < payloads_of(vs).len() && payloads_of(vs)[k] == p;
    let first = vs[k];
    assert(vs.contains(first));
    lemma_package(raw, dir, v, p, first);
    let i0 = choose|i: int| 0 <= i < raw.len() && raw[i] == first;
    assert(entry_for(raw[i0], dir, v, p));
    assert forall|i: int|
        0 <= i < raw.len() && (#[trigger] raw[i]).dir == dir && raw[i].version_id == v implies {
        let q = raw[i].payload;
        ||| q == p
        ||| payload_rank_spec(q, dir) < payload_rank_spec(p, dir)
        ||| payload_rank_spec(q, dir) == payload_rank_spec(p, dir) && text_lt(p, q)
    } by {
        let q = raw[i].payload;
        assert(raw.contains(raw[i]));
        lemma_package(raw, dir, v, p, raw[i]);
        let n = choose|n: int| 0 <= n < vs.len() && vs[n] == raw[i];
        assert(payloads_of(vs)[n] == q);
        assert(payloads_of(vs).contains(q));
        lemma_text_lt_total(p, q);
    }
    // the size
    assert forall|i: int|
        0 <= i < raw.len() && entry_for(#[trigger] raw[i], dir, v, p)
            && !raw[i].is_sidecar implies raw[i].size <= offer.size by {
        assert(raw.contains(raw[i]));
        lemma_package(raw, dir, v, p, raw[i]);
        let n = choose|n: int| 0 <= n < package.len() && package[n] == raw[i];
        assert(!package[n].is_sidecar);
    }
    if listed_size(package, offer.size) {
        let n = choose|n: int|
            0 <= n < package.len() && !(#[trigger] package[n]).is_sidecar && package[n].size
                == offer.size;
        assert(package.contains(package[n]));
        lemma_package(raw, dir, v, p, package[n]);
        let i = choose|i: int| 0 <= i < raw.len() && raw[i] == package[n];
        assert(entry_for(raw[i], dir, v, p));
    }
    // the mirrors
    assert forall|ns: Seq<char>| has_sidecar(package, ns) == summed(raw, dir, v, p, ns) by {
        if has_sidecar(package, ns) {
            let n = choose|n: int|
                0 <= n < package.len() && (#[trigger] package[n]).ns == ns && package[n].is_sidecar;
            assert(package.contains(package[n]));
            lemma_package(raw, dir, v, p, package[n]);
            let i = choose|i: int| 0 <= i < raw.len() && raw[i] == package[n];
            assert(entry_for(raw[i], dir, v, p));
        }
        if summed(raw, dir, v, p, ns) {
            let i = choose|i: int|
                0 <= i < raw.len() && entry_for(#[trigger] raw[i], dir, v, p) && raw[i].ns == ns
                    && raw[i].is_sidecar;
            assert(raw.contains(raw[i]));
            lemma_package(raw, dir, v, p, raw[i]);
            let n = choose|n: int| 0 <= n < package.len() && package[n] == raw[i];
            assert(package[n].ns == ns);
        }
    }
    assert forall|ns: Seq<char>| #[trigger] nss.contains(ns) <==> mirrored(raw, dir, v, p, ns) by {
        assert(nss.contains(ns) <==> namespaces_of(package).contains(ns));
        if namespaces_of(package).contains(ns) {
            let n = choose|n: int|
                0 <= n < namespaces_of(package).len() && namespaces_of(package)[n] == ns;
            assert(package.contains(package[n]));
            lemma_package(raw, dir, v, p, package[n]);
            let i = choose|i: int| 0 <= i < raw.len() && raw[i] == package[n];
            assert(entry_for(raw[i], dir, v, p));
        }
        if mirrored(raw, dir, v, p, ns) {
            let i = choose|i: int|
                0 <= i < raw.len() && entry_for(#[trigger] raw[i], dir, v, p) && raw[i].ns == ns;
            assert(raw.contains(raw[i]));
            lemma_package(raw, dir, v, p, raw[i]);
            let n = choose|n: int| 0 <= n < package.len() && package[n] == raw[i];
            assert(namespaces_of(package)[n] == ns);
        }
    }
    let lt = |a: Seq<char>, b: Seq<char>| mirror_lt(package, a, b);
    assert forall|i: int, j: int| 0 <= i < j < nss.len() implies {
        let a = summed(raw, dir, v, p, #[trigger] nss[i]);
        let b = summed(raw, dir, v, p, #[trigger] nss[j]);
        (a && !b) || (a == b && text_lt(nss[i], nss[j]))
    } by {
        assert(lt(nss[i], nss[j]));
        assert(has_sidecar(package, nss[i]) == summed(raw, dir, v, p, nss[i]));
        assert(has_sidecar(package, nss[j]) == summed(raw, dir, v, p, nss[j]));
    }
    assert forall|i: int| 0 <= i < nss.len() implies {
        let url = payload_url_spec(nss[i], dir, v, p);
        &&& (#[trigger] offer.candidates[i]).url == url
        &&& offer.candidates[i].sha256_url == (if summed(raw, dir, v, p, nss[i]) {
            Some(url + ".sha256"@)
        } else {
            None
        })
    } by {
        assert(has_sidecar(package, nss[i]) == summed(raw, dir, v, p, nss[i]));
    }
    nss
}

/// The entries hold one of the feature and version.
pub open spec fn has_version(raw: Seq<EntryModel>, dir: Seq<char>, v: u32) -> bool {
    exists|i: int| 0 <= i < raw.len() && (#[trigger] raw[i]).dir == dir && raw[i].version_id == v
}

/// What is offered, as a whole: one group for every feature of which there is
/// an entry, by rank, and in it one offer for every version of which there is
/// an entry, newest first; and no other.
pub proof fn law_offered(raw: Seq<EntryModel>)
    ensures
        forall|g: int, h: int|
            0 <= g < h < groups_spec(raw).len() ==> rank_lt(
                (#[trigger] groups_spec(raw)[g]).dir,
                (#[trigger] groups_spec(raw)[h]).dir,
            ),
        forall|g: int, o: int, q: int|
            0 <= g < groups_spec(raw).len() && 0 <= o < q < groups_spec(raw)[g].offers.len() ==> (
            #[trigger] groups_spec(raw)[g].offers[o]).version_id > (
            #[trigger] groups_spec(raw)[g].offers[q]).version_id,
        forall|dir: Seq<char>, v: u32|
            (#[trigger] has_version(raw, dir, v)) <==> offers_version(raw, dir, v),
{
    law_groups(raw);
    let groups = groups_spec(raw);
    assert forall|g: int, o: int, q: int|
        0 <= g < groups.len() && 0 <= o < q < groups[g].offers.len() implies (
    #[trigger] groups[g].offers[o]).version_id > (#[trigger] groups[g].offers[q]).version_id by {
        law_offers_newest_first(of_feature(raw, groups[g].dir), groups[g].dir);
    }
    assert forall|dir: Seq<char>, v: u32| (#[trigger] has_version(raw, dir, v))
        <==> offers_version(raw, dir, v) by {
        let es = of_feature(raw, dir);
        law_offers_newest_first(es, dir);
        if has_version(raw, dir, v) {
            let i = choose|i: int|
                0 <= i < raw.len() && (#[trigger] raw[i]).dir == dir && raw[i].version_id == v;
            assert(dirs_of(raw)[i] == dir);
            assert(dirs_of(raw).contains(dir));
            let g = choose|g: int| 0 <= g < groups.len() && (#[trigger] groups[g]).dir == dir;
            assert(groups[g] == group_spec(es, dir));
            assert(raw.contains(raw[i]));
            lemma_filter_has(raw, |x: EntryModel| x.dir == dir, raw[i]);
            let n = choose|n: int| 0 <= n < es.len() && es[n] == raw[i];
            assert(version_ids_of(es)[n] == v);
            assert(version_ids_of(es).contains(v));
            let o = choose|o: int|
                0 <= o < groups[g].offers.len() && (#[trigger] groups[g].offers[o]).version_id == v;
            assert(groups[g].offers[o].version_id == v);
        }
        if offers_version(raw, dir, v) {
            let (g, o) = choose|g: int, o: int|
                0 <= g < groups.len() && groups[g].dir == dir && 0 <= o < groups[g].offers.len()
                    && (#[trigger] groups[g].offers[o]).version_id == v;
            assert(groups[g] == group_spec(es, dir));
            assert(version_ids_of(es).contains(v));
            let n = choose|n: int| 0 <= n < version_ids_of(es).len() && version_ids_of(es)[n] == v;
            assert(es.contains(es[n]));
            lemma_filter_has(raw, |x: EntryModel| x.dir == dir, es[n]);
            let i = choose|i: int| 0 <= i < raw.len() && raw[i] == es[n];
            assert(raw[i].dir == dir && raw[i].version_id == v);
        }
    }
}

/// A group of the feature offers the version.
pub open spec fn offers_version(raw: Seq<EntryModel>, dir: Seq<char>, v: u32) -> bool {
    exists|g: int, o: int|
        0 <= g < groups_spec(raw).len() && groups_spec(raw)[g].dir == dir && 0 <= o
            < groups_spec(raw)[g].offers.len() && (
        #[trigger] groups_spec(raw)[g].offers[o]).version_id == v
}

} // verus!
