//! What holds of every check of the server.

use crate::ngx::config::{config_spec, PinModel};
use crate::ngx::fetch::{config_line, config_step, entries_sound, fetch_sound, fetch_wf};
use crate::ngx::fetch::{found_step, head_step, listing_step, within};
use crate::ngx::fetch::{page_step, request_spec, settle, settle_staged, start_spec};
use crate::ngx::fetch::{probed, FetchModel, ListingReplyModel, PhaseModel, RequestModel, MAX_PAGES};
use crate::ngx::fetch::{PIN_FOUND, STAGED_FOUND};
use crate::ngx::grouping::{dirs_of, features_spec, group_spec, groups_spec, of_feature};
use crate::ngx::grouping::{of_version, offer_spec, payloads_of, version_ids_of};
use crate::ngx::key::EntryModel;
use crate::ngx::listing::{page_spec, xml_document, PageModel};
use crate::ngx::offering::{law_groups, law_offer_payload, law_offers_newest_first};
use crate::ngx::probe::{everywhere, latest_spec, pin_probes_spec, probe_address};
use crate::ngx::probe::{probe_entries_spec, probe_entry, staged_ids_spec, staged_of};
use crate::ngx::probe::{staged_of_all, staged_spec, unknown_everywhere, ProbeModel};
use crate::ngx::scan::{entries_of, law_namespaces, namespaces_spec};
use crate::ngx::urls::{list_url_spec, payload_url_spec, sidecar_url_spec, LIST_ARGS, NGX_HOST};
use vstd::prelude::*;

verus! {

/// An answer to a request.
pub enum AnswerModel {
    Listing(ListingReplyModel),
    Config(Option<Seq<char>>),
    Head(Option<u64>),
}

/// The answer is one to the request that the state calls for.
pub open spec fn answers(m: FetchModel, a: AnswerModel) -> bool {
    match request_spec(m) {
        RequestModel::Listing(url) => a is Listing,
        RequestModel::Config(url) => a is Config,
        RequestModel::Head(url, staged) => a is Head,
        RequestModel::Nothing => false,
    }
}

/// The state that follows an answer.
pub open spec fn step(m: FetchModel, a: AnswerModel) -> FetchModel {
    match a {
        AnswerModel::Listing(reply) => listing_step(m, reply),
        AnswerModel::Config(body) => config_step(m, body),
        AnswerModel::Head(size) => head_step(m, size),
    }
}

// ---------------------------------------------------------------------------
// The check ends
// ---------------------------------------------------------------------------

/// What is left to do, in order of weight: parts of the check, pages or
/// namespaces, probes, and requests of a probe.
pub open spec fn work_left(m: FetchModel) -> (int, int, int, int) {
    match m.phase {
        PhaseModel::Listing { page, token } => (3, MAX_PAGES - page, 0, 0),
        PhaseModel::Config { ns } => (2, 2 * (m.namespaces.len() - ns) + 1, 0, 0),
        PhaseModel::Pins { ns, probes, at, size } => (
            2,
            2 * (m.namespaces.len() - ns),
            probes.len() - at,
            if size is Some {
                0
            } else {
                1
            },
        ),
        PhaseModel::Staged { probes, at, size } => (
            1,
            0,
            probes.len() - at,
            if size is Some {
                0
            } else {
                1
            },
        ),
        PhaseModel::Done(r) => (0, 0, 0, 0),
    }
}

/// Less is left.
pub open spec fn less(a: (int, int, int, int), b: (int, int, int, int)) -> bool {
    ||| a.0 < b.0
    ||| a.0 == b.0 && a.1 < b.1
    ||| a.0 == b.0 && a.1 == b.1 && a.2 < b.2
    ||| a.0 == b.0 && a.1 == b.1 && a.2 == b.2 && a.3 < b.3
}

/// Nothing less than nothing is ever left, and every answer to the request
/// that a state calls for leaves less to do: a check ends, whatever the server
/// answers. An answer to anything else changes nothing.
pub proof fn law_check_ends(m: FetchModel, a: AnswerModel)
    requires
        fetch_wf(m),
    ensures
        fetch_wf(step(m, a)),
        work_left(m).0 >= 0,
        work_left(m).1 >= 0,
        work_left(m).2 >= 0,
        work_left(m).3 >= 0,
        answers(m, a) ==> less(work_left(step(m, a)), work_left(m)),
        !answers(m, a) ==> step(m, a) == m,
{
    if answers(m, a) {
        match a {
            AnswerModel::Listing(reply) => match reply {
                ListingReplyModel::Body(body) => match xml_document(body) {
                    Ok(nodes) => {
                        lemma_page_wf(m, page_spec(nodes));
                    },
                    Err(e) => {},
                },
                _ => {},
            },
            AnswerModel::Config(body) => {},
            AnswerModel::Head(size) => {},
        }
    }
}

/// A page leads to a proper state, with less left to do.
proof fn lemma_page_wf(m: FetchModel, page: PageModel)
    requires
        fetch_wf(m),
        m.phase is Listing,
    ensures
        fetch_wf(page_step(m, page)),
        less(work_left(page_step(m, page)), work_left(m)),
{
    let raw = entries_of(m.objects + page.objects);
    law_namespaces(raw);
    if raw.len() > 0 {
        assert(namespaces_spec(raw).contains(raw[0].ns));
    }
}

// ---------------------------------------------------------------------------
// Requests
// ---------------------------------------------------------------------------

/// Every request goes to the server: an address of the listing, or one under
/// the models of a namespace.
pub proof fn law_requests_go_to_server(m: FetchModel)
    requires
        fetch_wf(m),
    ensures
        match request_spec(m) {
            RequestModel::Listing(url) => (NGX_HOST@ + "/"@ + LIST_ARGS@).is_prefix_of(url),
            RequestModel::Config(url) => (NGX_HOST@ + "/"@).is_prefix_of(url),
            RequestModel::Head(url, staged) => (NGX_HOST@ + "/"@).is_prefix_of(url),
            RequestModel::Nothing => m.phase is Done,
        },
{
    match m.phase {
        PhaseModel::Listing { page, token } => {
            let url = list_url_spec(token);
            let first = NGX_HOST@ + "/"@ + LIST_ARGS@;
            assert(url.take(first.len() as int) =~= first);
        },
        PhaseModel::Config { ns } => {
            let url = request_spec(m)->Config_0;
            let host = NGX_HOST@ + "/"@;
            assert(url.take(host.len() as int) =~= host);
        },
        PhaseModel::Pins { ns, probes, at, size } => {
            let url = probe_address(probes[at], size is Some);
            let host = NGX_HOST@ + "/"@;
            assert(url.take(host.len() as int) =~= host);
        },
        PhaseModel::Staged { probes, at, size } => {
            let url = probe_address(probes[at], size is Some);
            let host = NGX_HOST@ + "/"@;
            assert(url.take(host.len() as int) =~= host);
        },
        PhaseModel::Done(r) => {},
    }
}

// ---------------------------------------------------------------------------
// What the outcome is made of
// ---------------------------------------------------------------------------

/// What pins name is named in their namespace.
proof fn lemma_pin_probes_ns(ns: Seq<char>, pins: Seq<PinModel>)
    ensures
        forall|i: int|
            0 <= i < pin_probes_spec(ns, pins).len() ==> (#[trigger] pin_probes_spec(
                ns,
                pins,
            )[i]).ns == ns,
    decreases pins.len(),
{
    if pins.len() > 0 {
        lemma_pin_probes_ns(ns, pins.drop_last());
        let before = pin_probes_spec(ns, pins.drop_last());
        let probes = pin_probes_spec(ns, pins);
        assert forall|i: int| 0 <= i < probes.len() implies (#[trigger] probes[i]).ns == ns by {
            if i < before.len() {
                assert(probes[i] == before[i]);
            }
        }
    }
}

/// What the pins of a namespace name is asked for in the namespaces.
pub proof fn lemma_pin_probes_within(namespaces: Seq<Seq<char>>, ns: int, pins: Seq<PinModel>)
    requires
        0 <= ns < namespaces.len(),
    ensures
        within(pin_probes_spec(namespaces[ns], pins), namespaces),
{
    let probes = pin_probes_spec(namespaces[ns], pins);
    lemma_pin_probes_ns(namespaces[ns], pins);
    assert forall|i: int| 0 <= i < probes.len() implies namespaces.contains(
        (#[trigger] probes[i]).ns,
    ) by {
        assert(probes[i].ns == namespaces[ns]);
    }
}

/// Staged builds are asked for in the namespaces.
proof fn lemma_unknown_within(
    es: Seq<EntryModel>,
    namespaces: Seq<Seq<char>>,
    dir: Seq<char>,
    ids: Seq<u32>,
)
    ensures
        within(unknown_everywhere(es, namespaces, dir, ids), namespaces),
    decreases ids.len(),
{
    if ids.len() > 0 {
        lemma_unknown_within(es, namespaces, dir, ids.drop_last());
        let before = unknown_everywhere(es, namespaces, dir, ids.drop_last());
        let more = everywhere(namespaces, dir, ids.last());
        assert forall|i: int| 0 <= i < (before + more).len() implies namespaces.contains(
            (#[trigger] (before + more)[i]).ns,
        ) by {
            if i < before.len() {
                assert((before + more)[i] == before[i]);
            } else {
                assert((before + more)[i].ns == namespaces[i - before.len()]);
            }
        }
    }
}

/// Staged builds of all features are asked for in the namespaces.
proof fn lemma_staged_within(
    es: Seq<EntryModel>,
    namespaces: Seq<Seq<char>>,
    dirs: Seq<Seq<char>>,
)
    ensures
        within(staged_of_all(es, namespaces, dirs), namespaces),
    decreases dirs.len(),
{
    if dirs.len() > 0 {
        lemma_staged_within(es, namespaces, dirs.drop_last());
        let before = staged_of_all(es, namespaces, dirs.drop_last());
        let more = staged_of(es, namespaces, dirs.last());
        match latest_spec(es, dirs.last()) {
            Some(v) => {
                lemma_unknown_within(
                    es,
                    namespaces,
                    dirs.last(),
                    staged_ids_spec(v),
                );
            },
            None => {},
        }
        assert forall|i: int| 0 <= i < (before + more).len() implies namespaces.contains(
            (#[trigger] (before + more)[i]).ns,
        ) by {
            if i < before.len() {
                assert((before + more)[i] == before[i]);
            } else {
                assert((before + more)[i] == more[i - before.len()]);
            }
        }
    }
}

/// The staged builds are asked for in the namespaces.
pub proof fn lemma_staged_probes_within(es: Seq<EntryModel>, namespaces: Seq<Seq<char>>)
    ensures
        within(staged_spec(es, namespaces), namespaces),
{
    lemma_staged_within(es, namespaces, features_spec(es));
}

/// Where there are entries, there are namespaces.
pub proof fn lemma_some_namespace(m: FetchModel)
    requires
        entries_sound(m),
    ensures
        m.namespaces.len() > 0,
{
    let listed = entries_of(m.objects);
    law_namespaces(listed);
    assert(namespaces_spec(listed).contains(listed[0].ns));
}

/// Settling keeps what holds.
proof fn lemma_settle_staged_sound(m: FetchModel, probes: Seq<ProbeModel>, at: int)
    requires
        entries_sound(m),
        within(probes, m.namespaces),
    ensures
        fetch_sound(settle_staged(m, probes, at)),
{
}

/// Settling keeps what holds.
proof fn lemma_settle_sound(m: FetchModel)
    requires
        m.phase is Pins,
        entries_sound(m),
        within(m.phase->Pins_probes, m.namespaces),
    ensures
        fetch_sound(settle(m)),
{
    lemma_staged_probes_within(m.raw, m.namespaces);
    lemma_settle_staged_sound(m, staged_spec(m.raw, m.namespaces), 0);
}

/// What a probe finds can be found by probing.
pub proof fn lemma_found_sound(
    m: FetchModel,
    intro: Seq<char>,
    p: ProbeModel,
    size: u64,
    sidecar: bool,
)
    requires
        entries_sound(m),
        m.namespaces.contains(p.ns),
    ensures
        entries_sound(found_step(m, intro, p, size, sidecar)),
{
    let more = probe_entries_spec(p, size, sidecar);
    let n = found_step(m, intro, p, size, sidecar);
    let listed = entries_of(m.objects);
    assert(n.raw == m.raw + more);
    assert(n.raw.take(listed.len() as int) =~= m.raw.take(listed.len() as int));
    assert forall|i: int| listed.len() <= i < n.raw.len() implies probed(
        #[trigger] n.raw[i],
        n.namespaces,
    ) by {
        if i < m.raw.len() {
            assert(n.raw[i] == m.raw[i]);
        } else {
            assert(n.raw[i] == more[i - m.raw.len()]);
        }
    }
}

/// At every time of a check, from its beginning on: the entries are those of
/// the listing and, behind them, universal payloads that probing found in the
/// namespaces of the listing; and what is offered in the end is what these
/// entries offer.
pub proof fn law_check_sound(m: FetchModel, a: AnswerModel)
    requires
        fetch_wf(m),
        fetch_sound(m),
    ensures
        fetch_sound(start_spec()),
        fetch_sound(step(m, a)),
{
    match a {
        AnswerModel::Listing(reply) => {
            if m.phase is Listing {
                match reply {
                    ListingReplyModel::Body(body) => match xml_document(body) {
                        Ok(nodes) => {
                            let page = page_spec(nodes);
                            let objects = m.objects + page.objects;
                            assert(entries_of(objects).take(entries_of(objects).len() as int)
                                =~= entries_of(objects));
                        },
                        Err(e) => {},
                    },
                    _ => {},
                }
            }
        },
        AnswerModel::Config(body) => {
            if m.phase is Config {
                let ns = m.phase->Config_ns;
                let pins = match body {
                    Some(text) => config_spec(text),
                    None => seq![],
                };
                let probes = pin_probes_spec(m.namespaces[ns], pins);
                lemma_pin_probes_within(m.namespaces, ns, pins);
                let n = FetchModel {
                    phase: PhaseModel::Pins { ns, probes, at: 0, size: None },
                    log: if pins.len() == 0 {
                        m.log
                    } else {
                        m.log.push(config_line(m.namespaces[ns], pins.len()))
                    },
                    ..m
                };
                lemma_settle_sound(n);
            }
        },
        AnswerModel::Head(reply) => match m.phase {
            PhaseModel::Pins { ns, probes, at, size } => {
                assert(m.namespaces.contains(probes[at].ns));
                match (size, reply) {
                    (None, Some(_)) => {},
                    (None, None) => {
                        lemma_settle_sound(
                            FetchModel {
                                phase: PhaseModel::Pins { ns, probes, at: at + 1, size: None },
                                ..m
                            },
                        );
                    },
                    (Some(n), _) => {
                        lemma_found_sound(m, PIN_FOUND@, probes[at], n, reply is Some);
                        lemma_settle_sound(
                            FetchModel {
                                phase: PhaseModel::Pins { ns, probes, at: at + 1, size: None },
                                ..found_step(m, PIN_FOUND@, probes[at], n, reply is Some)
                            },
                        );
                    },
                }
            },
            PhaseModel::Staged { probes, at, size } => {
                assert(m.namespaces.contains(probes[at].ns));
                match (size, reply) {
                    (None, Some(_)) => {},
                    (None, None) => {
                        lemma_settle_staged_sound(m, probes, at + 1);
                    },
                    (Some(n), _) => {
                        lemma_found_sound(m, STAGED_FOUND@, probes[at], n, reply is Some);
                        lemma_settle_staged_sound(
                            found_step(m, STAGED_FOUND@, probes[at], n, reply is Some),
                            probes,
                            at + 1,
                        );
                    },
                }
            },
            _ => {},
        },
    }
}

/// Every version of which an entry was found, in the listing or by probing,
/// is offered in the end, in the group of its feature.
pub proof fn law_found_is_offered(m: FetchModel, e: EntryModel)
    requires
        fetch_sound(m),
        m.phase matches PhaseModel::Done(Ok(_)),
        m.raw.contains(e),
    ensures
        ({
            let groups = m.phase->Done_0->Ok_0;
            exists|g: int, o: int|
                0 <= g < groups.len() && groups[g].dir == e.dir && 0 <= o < groups[g].offers.len()
                    && (#[trigger] groups[g].offers[o]).version_id == e.version_id
        }),
{
    let groups = groups_spec(m.raw);
    let k = choose|k: int| 0 <= k < m.raw.len() && m.raw[k] == e;
    law_groups(m.raw);
    assert(dirs_of(m.raw)[k] == e.dir);
    assert(dirs_of(m.raw).contains(e.dir));
    let g = choose|g: int| 0 <= g < groups.len() && (#[trigger] groups[g]).dir == e.dir;
    let es = of_feature(m.raw, e.dir);
    law_offers_newest_first(es, e.dir);
    let p = |x: EntryModel| x.dir == e.dir;
    m.raw.lemma_filter_contains(p, k);
    assert(es.contains(e));
    let j = choose|j: int| 0 <= j < es.len() && es[j] == e;
    assert(version_ids_of(es)[j] == e.version_id);
    assert(version_ids_of(es).contains(e.version_id));
    assert(groups[g] == group_spec(es, e.dir));
    let o = choose|o: int|
        0 <= o < groups[g].offers.len() && (#[trigger] groups[g].offers[o]).version_id
            == e.version_id;
    assert(groups[g].offers[o].version_id == e.version_id);
}

/// Every version of which the listing shows a payload or a sidecar is offered
/// in the end, in the group of its feature.
pub proof fn law_listed_is_offered(m: FetchModel, e: EntryModel)
    requires
        fetch_sound(m),
        m.phase matches PhaseModel::Done(Ok(_)),
        entries_of(m.objects).contains(e),
    ensures
        ({
            let groups = m.phase->Done_0->Ok_0;
            exists|g: int, o: int|
                0 <= g < groups.len() && groups[g].dir == e.dir && 0 <= o < groups[g].offers.len()
                    && (#[trigger] groups[g].offers[o]).version_id == e.version_id
        }),
{
    let listed = entries_of(m.objects);
    let k = choose|k: int| 0 <= k < listed.len() && listed[k] == e;
    assert(m.raw.take(listed.len() as int)[k] == m.raw[k]);
    assert(m.raw[k] == e);
    law_found_is_offered(m, e);
}

/// Every payload that is offered in the end is one of which an entry was
/// found, of the same feature and version, in the listing or by probing.
pub proof fn law_offered_was_found(m: FetchModel, g: int, o: int)
    requires
        fetch_sound(m),
        m.phase matches PhaseModel::Done(Ok(_)),
        0 <= g < (m.phase->Done_0->Ok_0).len(),
        0 <= o < (m.phase->Done_0->Ok_0)[g].offers.len(),
    ensures
        ({
            let offer = (m.phase->Done_0->Ok_0)[g].offers[o];
            exists|i: int|
                0 <= i < m.raw.len() && (#[trigger] m.raw[i]).dir == offer.dir
                    && m.raw[i].version_id == offer.version_id && m.raw[i].payload
                    == offer.payload
        }),
{
    let groups = groups_spec(m.raw);
    let dir = groups[g].dir;
    let es = of_feature(m.raw, dir);
    assert(groups[g] == group_spec(es, dir));
    law_offers_newest_first(es, dir);
    let offer = groups[g].offers[o];
    let v = offer.version_id;
    let of_dir = |x: EntryModel| x.dir == dir;
    let of_id = |x: EntryModel| x.version_id == v;
    let vs = of_version(es, v);
    assert(offer == offer_spec(vs, dir, v));
    assert(version_ids_of(es).contains(v));
    let j = choose|j: int| 0 <= j < version_ids_of(es).len() && version_ids_of(es)[j] == v;
    es.lemma_filter_contains(of_id, j);
    assert(vs.contains(es[j]));
    law_offer_payload(vs, dir, v);
    let k = choose|k: int| 0 <= k < payloads_of(vs).len() && payloads_of(vs)[k] == offer.payload;
    let e = vs[k];
    es.lemma_filter_pred(of_id, k);
    assert(vs.contains(e));
    es.lemma_filter_contains_rev(of_id, e);
    let n = choose|n: int| 0 <= n < es.len() && es[n] == e;
    m.raw.lemma_filter_pred(of_dir, n);
    assert(es.contains(e));
    m.raw.lemma_filter_contains_rev(of_dir, e);
    let i = choose|i: int| 0 <= i < m.raw.len() && m.raw[i] == e;
    assert(m.raw[i].dir == dir);
}

/// Nothing is lost on the way: what was listed, found and reported stays so,
/// and once they are known, the namespaces stay the same.
pub proof fn law_nothing_is_lost(m: FetchModel, a: AnswerModel)
    requires
        fetch_wf(m),
        fetch_sound(m),
    ensures
        m.objects.is_prefix_of(step(m, a).objects),
        m.raw.is_prefix_of(step(m, a).raw),
        m.log.is_prefix_of(step(m, a).log),
        !(m.phase is Listing) ==> step(m, a).namespaces == m.namespaces,
{
    let n = step(m, a);
    match a {
        AnswerModel::Listing(reply) => {
            if m.phase is Listing {
                assert(m.raw =~= seq![]);
            }
        },
        _ => {},
    }
    assert(n.objects.take(m.objects.len() as int) =~= m.objects);
    assert(n.raw.take(m.raw.len() as int) =~= m.raw);
    assert(n.log.take(m.log.len() as int) =~= m.log);
}

// ---------------------------------------------------------------------------
// Whole checks
// ---------------------------------------------------------------------------

/// The state of a check behind the given answers, from its beginning on.
pub open spec fn run(given: Seq<AnswerModel>) -> FetchModel
    decreases given.len(),
{
    if given.len() == 0 {
        start_spec()
    } else {
        step(run(given.drop_last()), given.last())
    }
}

/// The address of the object that an entry stands for.
pub open spec fn entry_address(e: EntryModel) -> Seq<char> {
    let url = payload_url_spec(e.ns, e.dir, e.version_id, e.payload);
    if e.is_sidecar {
        sidecar_url_spec(url)
    } else {
        url
    }
}

/// In state `m` the object of the entry is asked for by a HEAD request, and
/// the answer `a` is that it is there. Of a payload, it gives the size.
pub open spec fn confirms(m: FetchModel, a: AnswerModel, e: EntryModel) -> bool {
    &&& request_spec(m) matches RequestModel::Head(url, staged) && url == entry_address(e)
    &&& a matches AnswerModel::Head(Some(n)) && (e.is_sidecar || n == e.size)
}

/// One of the answers confirms the entry.
#[verifier::opaque]
pub open spec fn confirmed(given: Seq<AnswerModel>, e: EntryModel) -> bool {
    exists|k: int|
        0 <= k < given.len() && confirms(run(given.take(k)), #[trigger] given[k], e)
}

/// The entries that the listing does not show are confirmed; so is the payload
/// whose sidecar is to be asked for.
pub open spec fn all_confirmed(given: Seq<AnswerModel>) -> bool {
    let m = run(given);
    &&& forall|i: int|
        entries_of(m.objects).len() <= i < m.raw.len() ==> confirmed(given, #[trigger] m.raw[i])
    &&& match m.phase {
        PhaseModel::Pins { ns, probes, at, size } => size is Some ==> confirmed(
            given,
            probe_entry(probes[at], false, size->0),
        ),
        PhaseModel::Staged { probes, at, size } => size is Some ==> confirmed(
            given,
            probe_entry(probes[at], false, size->0),
        ),
        _ => true,
    }
}

/// What is confirmed stays so with one answer more.
proof fn lemma_confirmed_stays(given: Seq<AnswerModel>, e: EntryModel)
    requires
        given.len() > 0,
        confirmed(given.drop_last(), e),
    ensures
        confirmed(given, e),
{
    reveal(confirmed);
    let front = given.drop_last();
    let k = choose|k: int|
        0 <= k < front.len() && confirms(run(front.take(k)), #[trigger] front[k], e);
    assert(front.take(k) =~= given.take(k));
    assert(given[k] == front[k]);
}

/// The last answer confirms what it confirms.
proof fn lemma_confirmed_last(given: Seq<AnswerModel>, e: EntryModel)
    requires
        given.len() > 0,
        confirms(run(given.drop_last()), given.last(), e),
    ensures
        confirmed(given, e),
{
    reveal(confirmed);
    let k = given.len() - 1;
    assert(given.take(k) =~= given.drop_last());
    assert(given[k] == given.last());
}

/// A probe that found something adds confirmed entries.
proof fn lemma_found_confirmed(
    given: Seq<AnswerModel>,
    m: FetchModel,
    intro: Seq<char>,
    p: ProbeModel,
    size: u64,
    reply: Option<u64>,
)
    requires
        forall|i: int|
            entries_of(m.objects).len() <= i < m.raw.len() ==> confirmed(given, #[trigger] m.raw[i]),
        confirmed(given, probe_entry(p, false, size)),
        reply is Some ==> confirmed(given, probe_entry(p, true, 0)),
    ensures
        ({
            let n = found_step(m, intro, p, size, reply is Some);
            forall|i: int|
                entries_of(n.objects).len() <= i < n.raw.len() ==> confirmed(
                    given,
                    #[trigger] n.raw[i],
                )
        }),
{
    let n = found_step(m, intro, p, size, reply is Some);
    assert forall|i: int| entries_of(n.objects).len() <= i < n.raw.len() implies confirmed(
        given,
        #[trigger] n.raw[i],
    ) by {
        if i < m.raw.len() {
            assert(n.raw[i] == m.raw[i]);
        } else {
            assert(n.raw[i] == probe_entries_spec(p, size, reply is Some)[i - m.raw.len()]);
        }
    }
}

/// Of every check, whatever was answered: its state is a proper and sound one,
/// and every entry that the listing does not show was confirmed by the server:
/// its object was asked for by a HEAD request, and the answer was that it is
/// there, of the size of the entry.
pub proof fn law_unlisted_is_confirmed(given: Seq<AnswerModel>)
    ensures
        fetch_wf(run(given)),
        fetch_sound(run(given)),
        all_confirmed(given),
    decreases given.len(),
{
    if given.len() == 0 {
        law_check_sound(start_spec(), AnswerModel::Head(None));
        assert(entries_of(start_spec().objects).len() == 0);
    } else {
        let front = given.drop_last();
        let a = given.last();
        let m = run(front);
        let n = run(given);
        law_unlisted_is_confirmed(front);
        law_check_ends(m, a);
        law_check_sound(m, a);
        assert forall|i: int| entries_of(m.objects).len() <= i < m.raw.len() implies confirmed(
            given,
            #[trigger] m.raw[i],
        ) by {
            lemma_confirmed_stays(given, m.raw[i]);
        }
        match a {
            AnswerModel::Listing(reply) => {
                if m.phase is Listing {
                    lemma_listing_kept(m, reply);
                }
                lemma_pending_stays(given);
            },
            AnswerModel::Config(body) => {
                lemma_pending_stays(given);
            },
            AnswerModel::Head(reply) => match m.phase {
                PhaseModel::Pins { ns, probes, at, size } => match (size, reply) {
                    (None, Some(s)) => {
                        lemma_confirmed_last(given, probe_entry(probes[at], false, s));
                    },
                    (None, None) => {},
                    (Some(s), _) => {
                        lemma_pending_stays(given);
                        if reply is Some {
                            lemma_confirmed_last(given, probe_entry(probes[at], true, 0));
                        }
                        lemma_found_confirmed(given, m, PIN_FOUND@, probes[at], s, reply);
                    },
                },
                PhaseModel::Staged { probes, at, size } => match (size, reply) {
                    (None, Some(s)) => {
                        lemma_confirmed_last(given, probe_entry(probes[at], false, s));
                    },
                    (None, None) => {},
                    (Some(s), _) => {
                        lemma_pending_stays(given);
                        if reply is Some {
                            lemma_confirmed_last(given, probe_entry(probes[at], true, 0));
                        }
                        lemma_found_confirmed(given, m, STAGED_FOUND@, probes[at], s, reply);
                    },
                },
                _ => {},
            },
        }
    }
}

/// A payload whose sidecar is to be asked for stays confirmed with one answer more.
proof fn lemma_pending_stays(given: Seq<AnswerModel>)
    requires
        given.len() > 0,
        all_confirmed(given.drop_last()),
    ensures
        match run(given.drop_last()).phase {
            PhaseModel::Pins { ns, probes, at, size } => size is Some ==> confirmed(
                given,
                probe_entry(probes[at], false, size->0),
            ),
            PhaseModel::Staged { probes, at, size } => size is Some ==> confirmed(
                given,
                probe_entry(probes[at], false, size->0),
            ),
            _ => true,
        },
{
    match run(given.drop_last()).phase {
        PhaseModel::Pins { ns, probes, at, size } => {
            if size is Some {
                lemma_confirmed_stays(given, probe_entry(probes[at], false, size->0));
            }
        },
        PhaseModel::Staged { probes, at, size } => {
            if size is Some {
                lemma_confirmed_stays(given, probe_entry(probes[at], false, size->0));
            }
        },
        _ => {},
    }
}

/// While the listing is read, no entries stand behind those that it shows.
proof fn lemma_listing_kept(m: FetchModel, reply: ListingReplyModel)
    requires
        m.phase is Listing,
        fetch_sound(m),
    ensures
        listing_step(m, reply).raw.len() <= entries_of(listing_step(m, reply).objects).len(),
        !(listing_step(m, reply).phase is Pins),
        !(listing_step(m, reply).phase is Staged),
{
}

} // verus!
