//! From the objects of the bucket to the offers.

use crate::arrange::{arrange, insert_by, lemma_insert_passes, strict_order};
use crate::ngx::feature::{lemma_rank_irreflexive, lemma_rank_total, lemma_rank_transitive};
use crate::ngx::feature::{rank_lt, Feature};
use crate::ngx::key::{models, EntryModel, RawEntry};
use crate::ngx::offer::{candidate_models, group_models, offer_models};
use crate::ngx::offer::{Candidate, CandidateModel, Group, GroupModel, Offer, OfferModel};
use crate::ngx::payload::{payload_rank, payload_rank_spec};
use crate::ngx::urls::{payload_url, payload_url_spec, sidecar_url, sidecar_url_spec};
use crate::ngx::version::{decode_version, version_spec};
use crate::order::{lemma_text_lt_irreflexive, lemma_text_lt_total, lemma_text_lt_transitive};
use crate::order::{text_before, text_lt};
use crate::text::{copy_text, same_text, views};
use vstd::prelude::*;

verus! {

// ---------------------------------------------------------------------------
// Orders
// ---------------------------------------------------------------------------

/// The listing order of feature directories.
pub open spec fn by_rank() -> spec_fn(Seq<char>, Seq<char>) -> bool {
    |a: Seq<char>, b: Seq<char>| rank_lt(a, b)
}

/// The order of texts.
pub open spec fn by_text() -> spec_fn(Seq<char>, Seq<char>) -> bool {
    |a: Seq<char>, b: Seq<char>| text_lt(a, b)
}

/// Newest version first.
pub open spec fn newest_first() -> spec_fn(u32, u32) -> bool {
    |a: u32, b: u32| a > b
}

/// The listing order is strict.
pub proof fn lemma_by_rank_strict()
    ensures
        strict_order(by_rank()),
{
    let lt = by_rank();
    assert forall|a: Seq<char>| !(#[trigger] lt(a, a)) by {
        lemma_rank_irreflexive(a);
    }
    assert forall|a: Seq<char>, b: Seq<char>, c: Seq<char>|
        #[trigger] lt(a, b) && #[trigger] lt(b, c) implies lt(a, c) by {
        lemma_rank_transitive(a, b, c);
    }
    assert forall|a: Seq<char>, b: Seq<char>| a == b || #[trigger] lt(a, b) || lt(b, a) by {
        lemma_rank_total(a, b);
    }
}

/// The order of texts is strict.
pub proof fn lemma_by_text_strict()
    ensures
        strict_order(by_text()),
{
    let lt = by_text();
    assert forall|a: Seq<char>| !(#[trigger] lt(a, a)) by {
        lemma_text_lt_irreflexive(a);
    }
    assert forall|a: Seq<char>, b: Seq<char>, c: Seq<char>|
        #[trigger] lt(a, b) && #[trigger] lt(b, c) implies lt(a, c) by {
        lemma_text_lt_transitive(a, b, c);
    }
    assert forall|a: Seq<char>, b: Seq<char>| a == b || #[trigger] lt(a, b) || lt(b, a) by {
        lemma_text_lt_total(a, b);
    }
}

/// Newest first is strict.
pub proof fn lemma_newest_first_strict()
    ensures
        strict_order(newest_first()),
{
}

// ---------------------------------------------------------------------------
// What is offered
// ---------------------------------------------------------------------------

/// The entries of a feature.
pub open spec fn of_feature(es: Seq<EntryModel>, dir: Seq<char>) -> Seq<EntryModel> {
    es.filter(|e: EntryModel| e.dir == dir)
}

/// The entries of a version.
pub open spec fn of_version(es: Seq<EntryModel>, version_id: u32) -> Seq<EntryModel> {
    es.filter(|e: EntryModel| e.version_id == version_id)
}

/// The entries of a payload.
pub open spec fn of_payload(es: Seq<EntryModel>, payload: Seq<char>) -> Seq<EntryModel> {
    es.filter(|e: EntryModel| e.payload == payload)
}

/// The feature directories of the entries.
pub open spec fn dirs_of(es: Seq<EntryModel>) -> Seq<Seq<char>> {
    es.map_values(|e: EntryModel| e.dir)
}

/// The version ids of the entries.
pub open spec fn version_ids_of(es: Seq<EntryModel>) -> Seq<u32> {
    es.map_values(|e: EntryModel| e.version_id)
}

/// The payloads of the entries.
pub open spec fn payloads_of(es: Seq<EntryModel>) -> Seq<Seq<char>> {
    es.map_values(|e: EntryModel| e.payload)
}

/// The namespaces of the entries.
pub open spec fn namespaces_of(es: Seq<EntryModel>) -> Seq<Seq<char>> {
    es.map_values(|e: EntryModel| e.ns)
}

/// The features of the entries, each once, in listing order.
pub open spec fn features_spec(es: Seq<EntryModel>) -> Seq<Seq<char>> {
    arrange(dirs_of(es), by_rank())
}

/// The versions of the entries, each once, newest first.
pub open spec fn versions_spec(es: Seq<EntryModel>) -> Seq<u32> {
    arrange(version_ids_of(es), newest_first())
}

/// Payload `a` stands for a version better than `b`: by its rank, and among
/// those of the same rank by its name.
pub open spec fn better_payload(dir: Seq<char>, a: Seq<char>, b: Seq<char>) -> bool {
    let ra = payload_rank_spec(a, dir);
    let rb = payload_rank_spec(b, dir);
    ra > rb || (ra == rb && text_lt(a, b))
}

/// The best of the payloads.
pub open spec fn best_payload(dir: Seq<char>, payloads: Seq<Seq<char>>) -> Seq<char>
    decreases payloads.len(),
{
    if payloads.len() <= 1 {
        payloads[0]
    } else {
        let best = best_payload(dir, payloads.drop_last());
        if better_payload(dir, payloads.last(), best) {
            payloads.last()
        } else {
            best
        }
    }
}

/// The size of a payload: the largest among its entries, where sidecars do
/// not count; zero if there are sidecars only.
pub open spec fn payload_size(es: Seq<EntryModel>) -> u64
    decreases es.len(),
{
    if es.len() == 0 {
        0
    } else {
        let m = payload_size(es.drop_last());
        if !es.last().is_sidecar && es.last().size > m {
            es.last().size
        } else {
            m
        }
    }
}

/// The namespace publishes a sha256 sidecar.
pub open spec fn has_sidecar(es: Seq<EntryModel>, ns: Seq<char>) -> bool {
    exists|i: int| 0 <= i < es.len() && (#[trigger] es[i]).ns == ns && es[i].is_sidecar
}

/// The namespaces of a payload: those with a sidecar first, then the others,
/// both by name.
pub open spec fn mirrors_spec(es: Seq<EntryModel>) -> Seq<Seq<char>> {
    let all = arrange(namespaces_of(es), by_text());
    all.filter(|ns: Seq<char>| has_sidecar(es, ns)) + all.filter(
        |ns: Seq<char>| !has_sidecar(es, ns),
    )
}

/// The mirror of a payload in a namespace.
pub open spec fn candidate_spec(
    es: Seq<EntryModel>,
    ns: Seq<char>,
    dir: Seq<char>,
    version_id: u32,
    payload: Seq<char>,
) -> CandidateModel {
    let url = payload_url_spec(ns, dir, version_id, payload);
    CandidateModel {
        url,
        sha256_url: if has_sidecar(es, ns) {
            Some(sidecar_url_spec(url))
        } else {
            None
        },
    }
}

/// The offer that the entries of a version make: its best payload, from all
/// the namespaces that have an entry of it.
pub open spec fn offer_spec(es: Seq<EntryModel>, dir: Seq<char>, version_id: u32) -> OfferModel {
    let payload = best_payload(dir, payloads_of(es));
    let package = of_payload(es, payload);
    OfferModel {
        dir,
        version_id,
        version: version_spec(version_id),
        payload,
        size: payload_size(package),
        candidates: mirrors_spec(package).map_values(
            |ns: Seq<char>| candidate_spec(package, ns, dir, version_id, payload),
        ),
    }
}

/// The group that the entries of a feature make: one offer for each version.
pub open spec fn group_spec(es: Seq<EntryModel>, dir: Seq<char>) -> GroupModel {
    GroupModel {
        dir,
        offers: versions_spec(es).map_values(|v: u32| offer_spec(of_version(es, v), dir, v)),
    }
}

/// What the entries offer: one group for each feature.
pub open spec fn groups_spec(raw: Seq<EntryModel>) -> Seq<GroupModel> {
    features_spec(raw).map_values(|dir: Seq<char>| group_spec(of_feature(raw, dir), dir))
}

// ---------------------------------------------------------------------------
// Collecting
// ---------------------------------------------------------------------------

/// What borrowed entries are.
pub open spec fn borrowed(v: Seq<&RawEntry>) -> Seq<EntryModel> {
    v.map_values(|e: &RawEntry| e@)
}

/// Filtering one item more.
pub proof fn lemma_filter_next<A>(s: Seq<A>, p: spec_fn(A) -> bool, i: int)
    requires
        0 <= i < s.len(),
    ensures
        s.take(i + 1).filter(p) == (if p(s[i]) {
            s.take(i).filter(p).push(s[i])
        } else {
            s.take(i).filter(p)
        }),
{
    reveal(Seq::filter);
    assert(s.take(i + 1).drop_last() =~= s.take(i));
}

/// Nothing is left of nothing.
pub proof fn lemma_filter_none<A>(s: Seq<A>, p: spec_fn(A) -> bool)
    ensures
        s.take(0).filter(p) == Seq::<A>::empty(),
        s.take(s.len() as int) == s,
{
    reveal(Seq::filter);
    assert(s.take(0) =~= Seq::<A>::empty());
    assert(s.take(s.len() as int) =~= s);
}

/// All the entries.
fn borrow_all<'a>(raw: &'a Vec<RawEntry>) -> (r: Vec<&'a RawEntry>)
    ensures
        borrowed(r@) == models(raw@),
{
    let mut out: Vec<&'a RawEntry> = Vec::new();
    let mut i: usize = 0;
    while i < raw.len()
        invariant
            i <= raw@.len(),
            out@.len() == i,
            forall|j: int| 0 <= j < i ==> *(#[trigger] out@[j]) == raw@[j],
        decreases raw@.len() - i,
    {
        out.push(&raw[i]);
        i = i + 1;
    }
    assert(borrowed(out@) =~= models(raw@));
    out
}

/// The entries of a feature.
fn pick_feature<'a>(es: &Vec<&'a RawEntry>, feature: &Feature) -> (r: Vec<&'a RawEntry>)
    ensures
        borrowed(r@) == of_feature(borrowed(es@), feature@),
{
    let ghost all = borrowed(es@);
    let ghost p = |e: EntryModel| e.dir == feature@;
    let mut out: Vec<&'a RawEntry> = Vec::new();
    let mut i: usize = 0;
    proof {
        lemma_filter_none(all, p);
    }
    assert(borrowed(out@) =~= all.take(0).filter(p));
    while i < es.len()
        invariant
            i <= es@.len(),
            all == borrowed(es@),
            p == (|e: EntryModel| e.dir == feature@),
            borrowed(out@) == all.take(i as int).filter(p),
        decreases es@.len() - i,
    {
        let ghost before = borrowed(out@);
        proof {
            lemma_filter_next(all, p, i as int);
        }
        let e = es[i];
        if e.feature.same(feature) {
            out.push(e);
            assert(borrowed(out@) =~= before.push(e@));
        }
        i = i + 1;
    }
    proof {
        lemma_filter_none(all, p);
    }
    out
}

/// The entries of a version.
fn pick_version<'a>(es: &Vec<&'a RawEntry>, version_id: u32) -> (r: Vec<&'a RawEntry>)
    ensures
        borrowed(r@) == of_version(borrowed(es@), version_id),
{
    let ghost all = borrowed(es@);
    let ghost p = |e: EntryModel| e.version_id == version_id;
    let mut out: Vec<&'a RawEntry> = Vec::new();
    let mut i: usize = 0;
    proof {
        lemma_filter_none(all, p);
    }
    assert(borrowed(out@) =~= all.take(0).filter(p));
    while i < es.len()
        invariant
            i <= es@.len(),
            all == borrowed(es@),
            p == (|e: EntryModel| e.version_id == version_id),
            borrowed(out@) == all.take(i as int).filter(p),
        decreases es@.len() - i,
    {
        let ghost before = borrowed(out@);
        proof {
            lemma_filter_next(all, p, i as int);
        }
        let e = es[i];
        if e.version_id == version_id {
            out.push(e);
            assert(borrowed(out@) =~= before.push(e@));
        }
        i = i + 1;
    }
    proof {
        lemma_filter_none(all, p);
    }
    out
}

/// The entries of a payload.
fn pick_payload<'a>(es: &Vec<&'a RawEntry>, payload: &str) -> (r: Vec<&'a RawEntry>)
    ensures
        borrowed(r@) == of_payload(borrowed(es@), payload@),
{
    let ghost all = borrowed(es@);
    let ghost p = |e: EntryModel| e.payload == payload@;
    let mut out: Vec<&'a RawEntry> = Vec::new();
    let mut i: usize = 0;
    proof {
        lemma_filter_none(all, p);
    }
    assert(borrowed(out@) =~= all.take(0).filter(p));
    while i < es.len()
        invariant
            i <= es@.len(),
            all == borrowed(es@),
            p == (|e: EntryModel| e.payload == payload@),
            borrowed(out@) == all.take(i as int).filter(p),
        decreases es@.len() - i,
    {
        let ghost before = borrowed(out@);
        proof {
            lemma_filter_next(all, p, i as int);
        }
        let e = es[i];
        if same_text(e.payload.as_str(), payload) {
            out.push(e);
            assert(borrowed(out@) =~= before.push(e@));
        }
        i = i + 1;
    }
    proof {
        lemma_filter_none(all, p);
    }
    out
}

/// The directories of a list of features.
pub open spec fn feature_dirs(v: Seq<Feature>) -> Seq<Seq<char>> {
    v.map_values(|f: Feature| f@)
}

/// Puts a feature at its place in the list, unless it is there already.
fn insert_feature(v: &mut Vec<Feature>, x: Feature)
    ensures
        feature_dirs(final(v)@) == insert_by(feature_dirs(old(v)@), x@, by_rank()),
{
    let ghost s = feature_dirs(v@);
    let ghost lt = by_rank();
    let mut i: usize = 0;
    while i < v.len() && !v[i].same(&x) && v[i].ranks_before(&x)
        invariant
            i <= v@.len(),
            s == feature_dirs(v@),
            lt == by_rank(),
            forall|j: int| 0 <= j < i ==> s[j] != x@ && lt(#[trigger] s[j], x@),
        decreases v@.len() - i,
    {
        assert(s[i as int] == v@[i as int]@);
        i = i + 1;
    }
    proof {
        lemma_insert_passes(s, x@, lt, i as int);
    }
    let ghost rest = s.skip(i as int);
    if i < v.len() && v[i].same(&x) {
        assert(rest[0] == v@[i as int]@);
        assert(s.take(i as int) + rest =~= s);
    } else {
        if i < v.len() {
            assert(rest[0] == v@[i as int]@);
        }
        let ghost d = x@;
        v.insert(i, x);
        assert(insert_by(rest, d, lt) =~= seq![d] + rest);
        assert(feature_dirs(v@) =~= s.take(i as int) + (seq![d] + rest));
    }
}

/// Puts a text at its place in the list, unless it is there already.
pub fn insert_text(v: &mut Vec<String>, x: String)
    ensures
        views(final(v)@) == insert_by(views(old(v)@), x@, by_text()),
{
    let ghost s = views(v@);
    let ghost lt = by_text();
    let mut i: usize = 0;
    while i < v.len() && !same_text(v[i].as_str(), x.as_str()) && text_before(
        v[i].as_str(),
        x.as_str(),
    )
        invariant
            i <= v@.len(),
            s == views(v@),
            lt == by_text(),
            forall|j: int| 0 <= j < i ==> s[j] != x@ && lt(#[trigger] s[j], x@),
        decreases v@.len() - i,
    {
        assert(s[i as int] == v@[i as int]@);
        i = i + 1;
    }
    proof {
        lemma_insert_passes(s, x@, lt, i as int);
    }
    let ghost rest = s.skip(i as int);
    if i < v.len() && same_text(v[i].as_str(), x.as_str()) {
        assert(rest[0] == v@[i as int]@);
        assert(s.take(i as int) + rest =~= s);
    } else {
        if i < v.len() {
            assert(rest[0] == v@[i as int]@);
        }
        let ghost d = x@;
        v.insert(i, x);
        assert(insert_by(rest, d, lt) =~= seq![d] + rest);
        assert(views(v@) =~= s.take(i as int) + (seq![d] + rest));
    }
}

/// Puts a version at its place in the list, unless it is there already.
fn insert_version(v: &mut Vec<u32>, x: u32)
    ensures
        final(v)@ == insert_by(old(v)@, x, newest_first()),
{
    let ghost s = v@;
    let ghost lt = newest_first();
    let mut i: usize = 0;
    while i < v.len() && v[i] > x
        invariant
            i <= v@.len(),
            s == v@,
            lt == newest_first(),
            forall|j: int| 0 <= j < i ==> s[j] != x && lt(#[trigger] s[j], x),
        decreases v@.len() - i,
    {
        i = i + 1;
    }
    proof {
        lemma_insert_passes(s, x, lt, i as int);
    }
    let ghost rest = s.skip(i as int);
    if i < v.len() && v[i] == x {
        assert(s.take(i as int) + rest =~= s);
    } else {
        v.insert(i, x);
        assert(insert_by(rest, x, lt) =~= seq![x] + rest);
        assert(v@ =~= s.take(i as int) + (seq![x] + rest));
    }
}

/// The features of the entries, each once, in listing order.
fn features_among(es: &Vec<&RawEntry>) -> (r: Vec<Feature>)
    ensures
        feature_dirs(r@) == features_spec(borrowed(es@)),
{
    let ghost items = dirs_of(borrowed(es@));
    let mut out: Vec<Feature> = Vec::new();
    let mut i: usize = 0;
    assert(feature_dirs(out@) =~= arrange(items.take(0), by_rank()));
    while i < es.len()
        invariant
            i <= es@.len(),
            items == dirs_of(borrowed(es@)),
            feature_dirs(out@) == arrange(items.take(i as int), by_rank()),
        decreases es@.len() - i,
    {
        assert(items.take(i + 1).drop_last() =~= items.take(i as int));
        assert(items.take(i + 1).last() == es@[i as int].feature@);
        insert_feature(&mut out, es[i].feature.clone());
        i = i + 1;
    }
    assert(items.take(i as int) =~= items);
    out
}

/// The features of the entries, each once, in listing order.
pub fn features_of(raw: &Vec<RawEntry>) -> (r: Vec<Feature>)
    ensures
        feature_dirs(r@) == features_spec(models(raw@)),
{
    let es = borrow_all(raw);
    features_among(&es)
}

/// The versions of the entries, each once, newest first.
fn versions_among(es: &Vec<&RawEntry>) -> (r: Vec<u32>)
    ensures
        r@ == versions_spec(borrowed(es@)),
{
    let ghost items = version_ids_of(borrowed(es@));
    let mut out: Vec<u32> = Vec::new();
    let mut i: usize = 0;
    assert(out@ =~= arrange(items.take(0), newest_first()));
    while i < es.len()
        invariant
            i <= es@.len(),
            items == version_ids_of(borrowed(es@)),
            out@ == arrange(items.take(i as int), newest_first()),
        decreases es@.len() - i,
    {
        assert(items.take(i + 1).drop_last() =~= items.take(i as int));
        assert(items.take(i + 1).last() == es@[i as int].version_id);
        insert_version(&mut out, es[i].version_id);
        i = i + 1;
    }
    assert(items.take(i as int) =~= items);
    out
}

/// The namespaces of the entries, each once, by name.
fn namespaces_among(es: &Vec<&RawEntry>) -> (r: Vec<String>)
    ensures
        views(r@) == arrange(namespaces_of(borrowed(es@)), by_text()),
{
    let ghost items = namespaces_of(borrowed(es@));
    let mut out: Vec<String> = Vec::new();
    let mut i: usize = 0;
    assert(views(out@) =~= arrange(items.take(0), by_text()));
    while i < es.len()
        invariant
            i <= es@.len(),
            items == namespaces_of(borrowed(es@)),
            views(out@) == arrange(items.take(i as int), by_text()),
        decreases es@.len() - i,
    {
        assert(items.take(i + 1).drop_last() =~= items.take(i as int));
        assert(items.take(i + 1).last() == es@[i as int].ns@);
        insert_text(&mut out, copy_text(es[i].ns.as_str()));
        i = i + 1;
    }
    assert(items.take(i as int) =~= items);
    out
}

/// The best payload of the entries.
fn best_among(es: &Vec<&RawEntry>, feature: &Feature) -> (r: String)
    requires
        es@.len() > 0,
    ensures
        r@ == best_payload(feature@, payloads_of(borrowed(es@))),
{
    let ghost items = payloads_of(borrowed(es@));
    let mut best: usize = 0;
    let mut i: usize = 1;
    assert(items.take(1)[0] == es@[0].payload@);
    while i < es.len()
        invariant
            1 <= i <= es@.len(),
            best < i,
            items == payloads_of(borrowed(es@)),
            es@[best as int].payload@ == best_payload(feature@, items.take(i as int)),
        decreases es@.len() - i,
    {
        assert(items.take(i + 1).drop_last() =~= items.take(i as int));
        assert(items.take(i + 1).last() == es@[i as int].payload@);
        let a = es[i].payload.as_str();
        let b = es[best].payload.as_str();
        let ra = payload_rank(a, feature);
        let rb = payload_rank(b, feature);
        if ra > rb || (ra == rb && text_before(a, b)) {
            best = i;
        }
        i = i + 1;
    }
    assert(items.take(i as int) =~= items);
    copy_text(es[best].payload.as_str())
}

/// The size of the payload of which these are the entries.
fn size_among(es: &Vec<&RawEntry>) -> (r: u64)
    ensures
        r == payload_size(borrowed(es@)),
{
    let ghost all = borrowed(es@);
    let mut m: u64 = 0;
    let mut i: usize = 0;
    while i < es.len()
        invariant
            i <= es@.len(),
            all == borrowed(es@),
            m == payload_size(all.take(i as int)),
        decreases es@.len() - i,
    {
        assert(all.take(i + 1).drop_last() =~= all.take(i as int));
        assert(all.take(i + 1).last() == es@[i as int]@);
        if !es[i].is_sidecar && es[i].size > m {
            m = es[i].size;
        }
        i = i + 1;
    }
    assert(all.take(i as int) =~= all);
    m
}

/// Whether the namespace publishes a sidecar.
fn sidecar_in(es: &Vec<&RawEntry>, ns: &str) -> (r: bool)
    ensures
        r == has_sidecar(borrowed(es@), ns@),
{
    let ghost all = borrowed(es@);
    let mut i: usize = 0;
    while i < es.len()
        invariant
            i <= es@.len(),
            all == borrowed(es@),
            forall|j: int| 0 <= j < i ==> !((#[trigger] all[j]).ns == ns@ && all[j].is_sidecar),
        decreases es@.len() - i,
    {
        assert(all[i as int] == es@[i as int]@);
        if es[i].is_sidecar && same_text(es[i].ns.as_str(), ns) {
            return true;
        }
        i = i + 1;
    }
    false
}

/// The mirrors of a payload, those with a sidecar first.
fn mirrors_among(
    es: &Vec<&RawEntry>,
    feature: &Feature,
    version_id: u32,
    payload: &str,
) -> (r: Vec<Candidate>)
    ensures
        candidate_models(r@) == mirrors_spec(borrowed(es@)).map_values(
            |ns: Seq<char>|
                candidate_spec(borrowed(es@), ns, feature@, version_id, payload@),
        ),
{
    let ghost all = borrowed(es@);
    let names = namespaces_among(es);
    let ghost order = views(names@);
    let ghost p = |ns: Seq<char>| has_sidecar(all, ns);
    let ghost q = |ns: Seq<char>| !has_sidecar(all, ns);
    let ghost f = |ns: Seq<char>| candidate_spec(all, ns, feature@, version_id, payload@);
    let mut with: Vec<Candidate> = Vec::new();
    let mut without: Vec<Candidate> = Vec::new();
    let mut i: usize = 0;
    proof {
        lemma_filter_none(order, p);
        lemma_filter_none(order, q);
    }
    assert(candidate_models(with@) =~= order.take(0).filter(p).map_values(f));
    assert(candidate_models(without@) =~= order.take(0).filter(q).map_values(f));
    while i < names.len()
        invariant
            i <= names@.len(),
            order == views(names@),
            all == borrowed(es@),
            p == (|ns: Seq<char>| has_sidecar(all, ns)),
            q == (|ns: Seq<char>| !has_sidecar(all, ns)),
            f == (|ns: Seq<char>| candidate_spec(all, ns, feature@, version_id, payload@)),
            candidate_models(with@) == order.take(i as int).filter(p).map_values(f),
            candidate_models(without@) == order.take(i as int).filter(q).map_values(f),
        decreases names@.len() - i,
    {
        let ghost had_with = candidate_models(with@);
        let ghost had_without = candidate_models(without@);
        let ghost front_p = order.take(i as int).filter(p);
        let ghost front_q = order.take(i as int).filter(q);
        proof {
            lemma_filter_next(order, p, i as int);
            lemma_filter_next(order, q, i as int);
        }
        let ns = names[i].as_str();
        assert(ns@ == order[i as int]);
        let url = payload_url(ns, feature.dir(), version_id, payload);
        if sidecar_in(es, ns) {
            let sha = sidecar_url(url.as_str());
            let c = Candidate { url, sha256_url: Some(sha) };
            assert(c@ == f(ns@));
            with.push(c);
            assert(candidate_models(with@) =~= had_with.push(c@));
            assert(had_with.push(f(ns@)) =~= front_p.push(ns@).map_values(f));
        } else {
            let c = Candidate { url, sha256_url: None };
            assert(c@ == f(ns@));
            without.push(c);
            assert(candidate_models(without@) =~= had_without.push(c@));
            assert(had_without.push(f(ns@)) =~= front_q.push(ns@).map_values(f));
        }
        i = i + 1;
    }
    proof {
        lemma_filter_none(order, p);
        lemma_filter_none(order, q);
    }
    let ghost a = candidate_models(with@);
    let ghost b = candidate_models(without@);
    with.append(&mut without);
    assert(candidate_models(with@) =~= a + b);
    assert(a + b =~= mirrors_spec(all).map_values(f));
    with
}

/// The offer that the entries of a version make.
fn offer_among(es: &Vec<&RawEntry>, feature: &Feature, version_id: u32) -> (r: Offer)
    requires
        es@.len() > 0,
    ensures
        r@ == offer_spec(borrowed(es@), feature@, version_id),
{
    let payload = best_among(es, feature);
    let package = pick_payload(es, payload.as_str());
    let candidates = mirrors_among(&package, feature, version_id, payload.as_str());
    let size = size_among(&package);
    Offer {
        feature: feature.clone(),
        version_id,
        version: decode_version(version_id),
        payload,
        size,
        candidates,
    }
}

/// A version that is listed has entries.
proof fn lemma_version_has_entries(es: Seq<EntryModel>, v: u32)
    requires
        versions_spec(es).contains(v),
    ensures
        of_version(es, v).len() > 0,
{
    let ids = version_ids_of(es);
    crate::arrange::lemma_arrange_contains(ids, newest_first(), v);
    let k = choose|k: int| 0 <= k < ids.len() && ids[k] == v;
    let p = |e: EntryModel| e.version_id == v;
    assert(es[k].version_id == v);
    es.lemma_filter_contains(p, k);
    assert(of_version(es, v).contains(es[k]));
}

/// The group that the entries of a feature make.
fn group_among(es: &Vec<&RawEntry>, feature: &Feature) -> (r: Group)
    ensures
        r@ == group_spec(borrowed(es@), feature@),
{
    let ghost all = borrowed(es@);
    let versions = versions_among(es);
    let mut offers: Vec<Offer> = Vec::new();
    let mut i: usize = 0;
    while i < versions.len()
        invariant
            i <= versions@.len(),
            all == borrowed(es@),
            versions@ == versions_spec(all),
            offers@.len() == i,
            forall|j: int|
                0 <= j < i ==> (#[trigger] offers@[j])@ == offer_spec(
                    of_version(all, versions@[j]),
                    feature@,
                    versions@[j],
                ),
        decreases versions@.len() - i,
    {
        let v = versions[i];
        proof {
            assert(versions@.contains(versions@[i as int]));
            lemma_version_has_entries(all, v);
        }
        let own = pick_version(es, v);
        assert(borrowed(own@).len() == own@.len());
        offers.push(offer_among(&own, feature, v));
        i = i + 1;
    }
    let ghost expected = group_spec(all, feature@);
    assert(offer_models(offers@) =~= expected.offers);
    Group { feature: feature.clone(), offers }
}

/// What the entries offer: one group for each feature, in listing order, with
/// one offer for each version, newest first.
///
/// Legacy per-app-id duplicates of a version are collapsed: the canonical
/// universal payload is preferred, but a non-canonical one is kept if no
/// canonical variant exists.
pub fn group_offers(raw: &Vec<RawEntry>) -> (r: Vec<Group>)
    ensures
        group_models(r@) == groups_spec(models(raw@)),
{
    let es = borrow_all(raw);
    let ghost all = models(raw@);
    let features = features_among(&es);
    let mut groups: Vec<Group> = Vec::new();
    let mut i: usize = 0;
    while i < features.len()
        invariant
            i <= features@.len(),
            all == borrowed(es@),
            feature_dirs(features@) == features_spec(all),
            groups@.len() == i,
            forall|j: int|
                0 <= j < i ==> (#[trigger] groups@[j])@ == group_spec(
                    of_feature(all, features@[j]@),
                    features@[j]@,
                ),
        decreases features@.len() - i,
    {
        let own = pick_feature(&es, &features[i]);
        groups.push(group_among(&own, &features[i]));
        i = i + 1;
    }
    assert forall|j: int| 0 <= j < groups@.len() implies group_models(groups@)[j] == groups_spec(
        all,
    )[j] by {
        assert(groups@[j]@ == group_spec(of_feature(all, features@[j]@), features@[j]@));
        assert(feature_dirs(features@)[j] == features@[j]@);
    }
    assert(group_models(groups@) =~= groups_spec(all));
    groups
}

} // verus!
