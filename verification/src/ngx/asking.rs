//! What every check asks the server for.

use crate::ngx::config::{config_spec, PinModel};
use crate::ngx::fetch::{config_line, fetch_wf, found_step, request_spec, settle};
use crate::ngx::fetch::{settle_staged, FetchModel, PhaseModel, RequestModel};
use crate::ngx::fetch::{PIN_FOUND, STAGED_FOUND};
use crate::ngx::fetching::{answers, law_check_ends, law_unlisted_is_confirmed, run};
use crate::ngx::fetching::AnswerModel;
use crate::ngx::key::EntryModel;
use crate::ngx::probe::{greatest_version, latest_spec, law_latest_is_greatest, law_pins_asked};
use crate::ngx::probe::{law_probe, law_staged_asked, law_staged_builds};
use crate::ngx::probe::{pin_probes_spec, probe_address, staged_spec, ProbeModel};
use crate::ngx::scan::{entries_of, law_namespaces, namespaces_spec};
use crate::ngx::urls::{config_url_spec, payload_url_spec};
use crate::ngx::version::pack_semver_spec;
use vstd::prelude::*;

verus! {

/// The request that the check makes behind the first `k` of the answers.
pub open spec fn asked(given: Seq<AnswerModel>, k: int) -> RequestModel {
    request_spec(run(given.take(k)))
}

/// The answer `k` is what the server has to say to the request for the
/// configuration of the namespace.
pub open spec fn configured(given: Seq<AnswerModel>, ns: Seq<char>, k: int) -> bool {
    &&& 0 <= k < given.len()
    &&& asked(given, k) == RequestModel::Config(config_url_spec(ns))
    &&& given[k] is Config
}

/// Behind the answer `from`, the object is asked for by a HEAD request, and
/// that is answered.
pub open spec fn headed(
    given: Seq<AnswerModel>,
    from: int,
    url: Seq<char>,
    staged: bool,
) -> bool {
    exists|k: int|
        from < k < given.len() && given[k] is Head && #[trigger] asked(given, k)
            == RequestModel::Head(url, staged)
}

/// Whether a request is one for a staged build.
pub open spec fn for_staged(r: RequestModel) -> bool {
    r matches RequestModel::Head(url, staged) && staged
}

// ---------------------------------------------------------------------------
// How far a check has come
// ---------------------------------------------------------------------------

/// What the answer to the request for a configuration pins.
spec fn pinned(a: AnswerModel, ns: Seq<char>) -> Seq<ProbeModel> {
    match a {
        AnswerModel::Config(Some(text)) => pin_probes_spec(ns, config_spec(text)),
        _ => seq![],
    }
}

/// The first probes are asked for behind the answer `from`.
#[verifier::opaque]
spec fn all_headed(
    given: Seq<AnswerModel>,
    from: int,
    probes: Seq<ProbeModel>,
    n: int,
    staged: bool,
) -> bool {
    forall|j: int|
        0 <= j < n && j < probes.len() ==> headed(
            given,
            from,
            probe_address(#[trigger] probes[j], false),
            staged,
        )
}

/// The configuration was asked for in answer `k`, and the first of its pins
/// behind it.
spec fn pins_headed(given: Seq<AnswerModel>, ns: Seq<char>, k: int, n: int) -> bool {
    configured(given, ns, k) && all_headed(given, k, pinned(given[k], ns), n, false)
}

/// The namespace has been dealt with.
#[verifier::opaque]
spec fn dealt_with(given: Seq<AnswerModel>, ns: Seq<char>) -> bool {
    exists|k: int| pins_headed(given, ns, k, pinned(#[trigger] given[k], ns).len() as int)
}

/// The first namespaces have been dealt with.
#[verifier::opaque]
spec fn all_dealt_with(given: Seq<AnswerModel>, nss: Seq<Seq<char>>, n: int) -> bool {
    forall|i: int| 0 <= i < n && i < nss.len() ==> dealt_with(given, #[trigger] nss[i])
}

/// No staged build was asked for yet.
#[verifier::opaque]
spec fn none_staged(given: Seq<AnswerModel>) -> bool {
    forall|k: int| 0 <= k < given.len() ==> !for_staged(#[trigger] asked(given, k))
}

/// From the answer `from` on the check asks for staged builds, and not before.
#[verifier::opaque]
spec fn staged_from(given: Seq<AnswerModel>, from: int) -> bool {
    &&& 0 <= from <= given.len()
    &&& forall|k: int| 0 <= k < from ==> !for_staged(#[trigger] asked(given, k))
    &&& forall|k: int|
        from <= k < given.len() ==> for_staged(#[trigger] asked(given, k)) || asked(given, k)
            is Nothing
}

/// The staged builds that follow from what was found until then.
spec fn staged_at(given: Seq<AnswerModel>, from: int, nss: Seq<Seq<char>>) -> Seq<ProbeModel> {
    staged_spec(run(given.take(from)).raw, nss)
}

/// How many of the probes have been asked for.
spec fn probes_asked(at: int, size: Option<u64>) -> int {
    if size is Some {
        at + 1
    } else {
        at
    }
}

/// How far a check has come.
spec fn come(given: Seq<AnswerModel>, m: FetchModel) -> bool {
    match m.phase {
        PhaseModel::Listing { page, token } => none_staged(given),
        PhaseModel::Config { ns } => none_staged(given) && all_dealt_with(
            given,
            m.namespaces,
            ns,
        ),
        PhaseModel::Pins { ns, probes, at, size } => {
            &&& none_staged(given)
            &&& all_dealt_with(given, m.namespaces, ns)
            &&& exists|k: int|
                pins_headed(given, m.namespaces[ns], k, probes_asked(at, size)) && probes == pinned(
                    #[trigger] given[k],
                    m.namespaces[ns],
                )
        },
        PhaseModel::Staged { probes, at, size } => {
            &&& all_dealt_with(given, m.namespaces, m.namespaces.len() as int)
            &&& exists|from: int| #[trigger]
                staged_from(given, from) && probes == staged_at(given, from, m.namespaces)
                    && all_headed(given, from - 1, probes, probes_asked(at, size), true)
        },
        PhaseModel::Done(Ok(groups)) => {
            &&& all_dealt_with(given, m.namespaces, m.namespaces.len() as int)
            &&& exists|from: int| #[trigger]
                staged_from(given, from) && all_headed(
                    given,
                    from - 1,
                    staged_at(given, from, m.namespaces),
                    staged_at(given, from, m.namespaces).len() as int,
                    true,
                )
        },
        PhaseModel::Done(Err(e)) => true,
    }
}

// ---------------------------------------------------------------------------
// One answer more
// ---------------------------------------------------------------------------

/// One answer more leaves the requests before it as they were.
proof fn lemma_asked(given: Seq<AnswerModel>, k: int)
    requires
        0 <= k < given.len(),
    ensures
        asked(given, k) == asked(given.drop_last(), k),
        given.take(k) == given.drop_last().take(k),
        k == given.len() - 1 ==> asked(given, k) == request_spec(run(given.drop_last())),
{
    let front = given.drop_last();
    assert(given.take(k) =~= front.take(k));
    if k == given.len() - 1 {
        assert(front.take(k) =~= front);
    }
}

/// What was asked for stays so with one answer more.
proof fn lemma_headed_stays(given: Seq<AnswerModel>, from: int, url: Seq<char>, staged: bool)
    requires
        given.len() > 0,
        from >= -1,
        headed(given.drop_last(), from, url, staged),
    ensures
        headed(given, from, url, staged),
{
    let front = given.drop_last();
    let k = choose|k: int|
        from < k < front.len() && front[k] is Head && #[trigger] asked(front, k)
            == RequestModel::Head(url, staged);
    lemma_asked(given, k);
    assert(given[k] == front[k]);
    assert(asked(given, k) == RequestModel::Head(url, staged));
}

/// Probes that were asked for stay so with one answer more.
proof fn lemma_all_headed_stays(
    given: Seq<AnswerModel>,
    from: int,
    probes: Seq<ProbeModel>,
    n: int,
    staged: bool,
)
    requires
        given.len() > 0,
        from >= -1,
        all_headed(given.drop_last(), from, probes, n, staged),
    ensures
        all_headed(given, from, probes, n, staged),
{
    reveal(all_headed);
    assert forall|j: int| 0 <= j < n && j < probes.len() implies headed(
        given,
        from,
        probe_address(#[trigger] probes[j], false),
        staged,
    ) by {
        lemma_headed_stays(given, from, probe_address(probes[j], false), staged);
    }
}

/// The probe `n` is asked for with the last answer.
proof fn lemma_all_headed_more(
    given: Seq<AnswerModel>,
    from: int,
    probes: Seq<ProbeModel>,
    n: int,
    staged: bool,
)
    requires
        given.len() > 0,
        -1 <= from < given.len() - 1,
        0 <= n < probes.len(),
        all_headed(given, from, probes, n, staged),
        given.last() is Head,
        request_spec(run(given.drop_last())) == RequestModel::Head(
            probe_address(probes[n], false),
            staged,
        ),
    ensures
        all_headed(given, from, probes, n + 1, staged),
{
    reveal(all_headed);
    let k = given.len() - 1;
    lemma_asked(given, k);
    assert(given[k] is Head);
    assert(asked(given, k) == RequestModel::Head(probe_address(probes[n], false), staged));
    assert forall|j: int| 0 <= j < n + 1 && j < probes.len() implies headed(
        given,
        from,
        probe_address(#[trigger] probes[j], false),
        staged,
    ) by {
        if j == n {
            assert(headed(given, from, probe_address(probes[n], false), staged));
        }
    }
}

/// Pins that were asked for stay so with one answer more.
proof fn lemma_pins_headed_stays(given: Seq<AnswerModel>, ns: Seq<char>, k: int, n: int)
    requires
        given.len() > 0,
        pins_headed(given.drop_last(), ns, k, n),
    ensures
        pins_headed(given, ns, k, n),
        given[k] == given.drop_last()[k],
{
    lemma_asked(given, k);
    assert(given[k] == given.drop_last()[k]);
    lemma_all_headed_stays(given, k, pinned(given[k], ns), n, false);
}

/// Namespaces that have been dealt with stay so with one answer more.
proof fn lemma_dealt_with_stays(given: Seq<AnswerModel>, nss: Seq<Seq<char>>, n: int)
    requires
        given.len() > 0,
        all_dealt_with(given.drop_last(), nss, n),
    ensures
        all_dealt_with(given, nss, n),
{
    reveal(all_dealt_with);
    assert forall|i: int| 0 <= i < n && i < nss.len() implies dealt_with(
        given,
        #[trigger] nss[i],
    ) by {
        reveal(dealt_with);
        let front = given.drop_last();
        let ns = nss[i];
        assert(dealt_with(front, ns));
        let k = choose|k: int|
            pins_headed(front, ns, k, pinned(#[trigger] front[k], ns).len() as int);
        lemma_pins_headed_stays(given, ns, k, pinned(front[k], ns).len() as int);
        assert(pins_headed(given, ns, k, pinned(given[k], ns).len() as int));
    }
}

/// One namespace more has been dealt with.
proof fn lemma_dealt_with_more(given: Seq<AnswerModel>, nss: Seq<Seq<char>>, n: int, k: int)
    requires
        0 <= n < nss.len(),
        all_dealt_with(given, nss, n),
        pins_headed(given, nss[n], k, pinned(given[k], nss[n]).len() as int),
    ensures
        all_dealt_with(given, nss, n + 1),
{
    assert(dealt_with(given, nss[n])) by {
        reveal(dealt_with);
        assert(pins_headed(given, nss[n], k, pinned(given[k], nss[n]).len() as int));
    }
    reveal(all_dealt_with);
    assert forall|i: int| 0 <= i < n + 1 && i < nss.len() implies dealt_with(
        given,
        #[trigger] nss[i],
    ) by {
        if i < n {
            assert(dealt_with(given, nss[i]));
        }
    }
}

/// With a request for something else, still no staged build was asked for.
proof fn lemma_none_staged(given: Seq<AnswerModel>)
    requires
        given.len() > 0,
        none_staged(given.drop_last()),
        !for_staged(request_spec(run(given.drop_last()))),
    ensures
        none_staged(given),
        staged_from(given, given.len() as int),
{
    reveal(none_staged);
    reveal(staged_from);
    assert forall|k: int| 0 <= k < given.len() implies !for_staged(#[trigger] asked(given, k)) by {
        lemma_asked(given, k);
    }
}

/// Where the staged builds begin stays so with one answer more.
proof fn lemma_staged_stays(given: Seq<AnswerModel>, from: int, nss: Seq<Seq<char>>)
    requires
        given.len() > 0,
        staged_from(given.drop_last(), from),
        for_staged(request_spec(run(given.drop_last()))) || request_spec(
            run(given.drop_last()),
        ) is Nothing,
    ensures
        staged_from(given, from),
        staged_at(given, from, nss) == staged_at(given.drop_last(), from, nss),
        0 <= from < given.len(),
{
    let front = given.drop_last();
    let last = given.len() - 1;
    assert(0 <= from <= last) by {
        reveal(staged_from);
    }
    lemma_asked(given, last);
    lemma_asked(given, from);
    assert forall|k: int| 0 <= k < from implies !for_staged(#[trigger] asked(given, k)) by {
        reveal(staged_from);
        lemma_asked(given, k);
        assert(!for_staged(asked(front, k)));
    }
    assert forall|k: int| from <= k < given.len() implies for_staged(#[trigger] asked(given, k))
        || asked(given, k) is Nothing by {
        if k < last {
            reveal(staged_from);
            lemma_asked(given, k);
            assert(for_staged(asked(front, k)) || asked(front, k) is Nothing);
        }
    }
    assert(staged_from(given, from)) by {
        reveal(staged_from);
    }
}

/// Where the probes of a namespace may be used up.
proof fn lemma_settled(given: Seq<AnswerModel>, m: FetchModel, k: int)
    requires
        given.len() > 0,
        run(given) == settle(m),
        m.phase matches PhaseModel::Pins { ns, probes, at, size } && size is None && 0 <= ns
            < m.namespaces.len() && 0 <= at <= probes.len() && pins_headed(
            given,
            m.namespaces[ns],
            k,
            at,
        ) && probes == pinned(given[k], m.namespaces[ns]) && all_dealt_with(
            given,
            m.namespaces,
            ns,
        ),
        none_staged(given),
        staged_from(given, given.len() as int),
    ensures
        come(given, run(given)),
{
    let ns = m.phase->Pins_ns;
    let probes = m.phase->Pins_probes;
    let at = m.phase->Pins_at;
    if at < probes.len() {
        assert(pins_headed(given, m.namespaces[ns], k, probes_asked(at, None)) && probes == pinned(
            given[k],
            m.namespaces[ns],
        ));
    } else {
        lemma_dealt_with_more(given, m.namespaces, ns, k);
        if ns + 1 < m.namespaces.len() {
        } else {
            let from = given.len() as int;
            let staged = staged_spec(m.raw, m.namespaces);
            assert(given.take(from) =~= given);
            assert(run(given).raw == m.raw);
            assert(staged_at(given, from, m.namespaces) == staged);
            assert(all_headed(given, from - 1, staged, 0, true)) by {
                reveal(all_headed);
            }
            lemma_settled_staged(given, m, staged, 0, from);
        }
    }
}

/// Where the staged builds may be used up.
proof fn lemma_settled_staged(
    given: Seq<AnswerModel>,
    m: FetchModel,
    probes: Seq<ProbeModel>,
    at: int,
    from: int,
)
    requires
        run(given) == settle_staged(m, probes, at),
        0 <= at <= probes.len(),
        all_dealt_with(given, m.namespaces, m.namespaces.len() as int),
        staged_from(given, from),
        probes == staged_at(given, from, m.namespaces),
        all_headed(given, from - 1, probes, at, true),
    ensures
        come(given, run(given)),
{
    let n = run(given);
    if at < probes.len() {
        assert(probes_asked(at, None) == at);
        assert(n.phase == PhaseModel::Staged { probes, at, size: None });
        assert(staged_from(given, from) && probes == staged_at(given, from, n.namespaces)
            && all_headed(given, from - 1, probes, probes_asked(at, None), true));
    } else {
        assert(at == probes.len());
        assert(staged_from(given, from) && all_headed(
            given,
            from - 1,
            staged_at(given, from, n.namespaces),
            staged_at(given, from, n.namespaces).len() as int,
            true,
        ));
    }
}

/// An answer that changes nothing.
proof fn lemma_unchanged(given: Seq<AnswerModel>)
    requires
        given.len() > 0,
        come(given.drop_last(), run(given.drop_last())),
        run(given) == run(given.drop_last()),
    ensures
        come(given, run(given)),
{
    let front = given.drop_last();
    let m = run(front);
    match m.phase {
        PhaseModel::Listing { page, token } => {
            lemma_none_staged(given);
        },
        PhaseModel::Config { ns } => {
            lemma_none_staged(given);
            lemma_dealt_with_stays(given, m.namespaces, ns);
        },
        PhaseModel::Pins { ns, probes, at, size } => {
            lemma_none_staged(given);
            lemma_dealt_with_stays(given, m.namespaces, ns);
            let name = m.namespaces[ns];
            let k = choose|k: int|
                pins_headed(front, name, k, probes_asked(at, size)) && probes == pinned(
                    #[trigger] front[k],
                    name,
                );
            lemma_pins_headed_stays(given, name, k, probes_asked(at, size));
            assert(pins_headed(given, name, k, probes_asked(at, size)) && probes == pinned(
                given[k],
                name,
            ));
        },
        PhaseModel::Staged { probes, at, size } => {
            lemma_dealt_with_stays(given, m.namespaces, m.namespaces.len() as int);
            let from = choose|from: int| #[trigger]
                staged_from(front, from) && probes == staged_at(front, from, m.namespaces)
                    && all_headed(front, from - 1, probes, probes_asked(at, size), true);
            lemma_staged_stays(given, from, m.namespaces);
            lemma_all_headed_stays(given, from - 1, probes, probes_asked(at, size), true);
            assert(staged_from(given, from));
        },
        PhaseModel::Done(Ok(groups)) => {
            lemma_dealt_with_stays(given, m.namespaces, m.namespaces.len() as int);
            let from = choose|from: int| #[trigger]
                staged_from(front, from) && all_headed(
                    front,
                    from - 1,
                    staged_at(front, from, m.namespaces),
                    staged_at(front, from, m.namespaces).len() as int,
                    true,
                );
            lemma_staged_stays(given, from, m.namespaces);
            let staged = staged_at(front, from, m.namespaces);
            lemma_all_headed_stays(given, from - 1, staged, staged.len() as int, true);
            assert(staged_from(given, from));
        },
        PhaseModel::Done(Err(e)) => {},
    }
}

/// The answer to the request for a configuration.
proof fn lemma_config_answered(given: Seq<AnswerModel>)
    requires
        given.len() > 0,
        fetch_wf(run(given.drop_last())),
        come(given.drop_last(), run(given.drop_last())),
        run(given.drop_last()).phase is Config,
        given.last() is Config,
    ensures
        come(given, run(given)),
{
    let front = given.drop_last();
    let m = run(front);
    let ns = m.phase->Config_ns;
    let name = m.namespaces[ns];
    let k = given.len() - 1;
    lemma_none_staged(given);
    lemma_dealt_with_stays(given, m.namespaces, ns);
    lemma_asked(given, k);
    let probes = pinned(given[k], name);
    assert(configured(given, name, k));
    assert(all_headed(given, k, probes, 0, false)) by {
        reveal(all_headed);
    }
    let body = given.last()->Config_0;
    let pins = match body {
        Some(text) => config_spec(text),
        None => seq![],
    };
    assert(probes =~= pin_probes_spec(name, pins));
    let n = FetchModel {
        phase: PhaseModel::Pins { ns, probes, at: 0, size: None },
        log: if pins.len() == 0 {
            m.log
        } else {
            m.log.push(config_line(name, pins.len()))
        },
        ..m
    };
    assert(run(given) == settle(n));
    lemma_settled(given, n, k);
}

/// The answer to a HEAD request for what is pinned.
proof fn lemma_pin_answered(given: Seq<AnswerModel>)
    requires
        given.len() > 0,
        fetch_wf(run(given.drop_last())),
        come(given.drop_last(), run(given.drop_last())),
        run(given.drop_last()).phase is Pins,
        given.last() is Head,
    ensures
        come(given, run(given)),
{
    let front = given.drop_last();
    let m = run(front);
    let ns = m.phase->Pins_ns;
    let probes = m.phase->Pins_probes;
    let at = m.phase->Pins_at;
    let size = m.phase->Pins_size;
    let name = m.namespaces[ns];
    let reply = given.last()->Head_0;
    lemma_none_staged(given);
    lemma_dealt_with_stays(given, m.namespaces, ns);
    let k = choose|k: int|
        pins_headed(front, name, k, probes_asked(at, size)) && probes == pinned(
            #[trigger] front[k],
            name,
        );
    lemma_pins_headed_stays(given, name, k, probes_asked(at, size));
    if size is None {
        lemma_all_headed_more(given, k, probes, at, false);
    }
    assert(pins_headed(given, name, k, at + 1));
    match (size, reply) {
        (None, Some(s)) => {
            assert(pins_headed(given, name, k, probes_asked(at, reply)) && probes == pinned(
                given[k],
                name,
            ));
        },
        (None, None) => {
            lemma_settled(
                given,
                FetchModel {
                    phase: PhaseModel::Pins { ns, probes, at: at + 1, size: None },
                    ..m
                },
                k,
            );
        },
        (Some(s), _) => {
            lemma_settled(
                given,
                FetchModel {
                    phase: PhaseModel::Pins { ns, probes, at: at + 1, size: None },
                    ..found_step(m, PIN_FOUND@, probes[at], s, reply is Some)
                },
                k,
            );
        },
    }
}

/// The answer to a HEAD request for a staged build.
proof fn lemma_staged_answered(given: Seq<AnswerModel>)
    requires
        given.len() > 0,
        fetch_wf(run(given.drop_last())),
        come(given.drop_last(), run(given.drop_last())),
        run(given.drop_last()).phase is Staged,
        given.last() is Head,
    ensures
        come(given, run(given)),
{
    let front = given.drop_last();
    let m = run(front);
    let probes = m.phase->Staged_probes;
    let at = m.phase->Staged_at;
    let size = m.phase->Staged_size;
    let reply = given.last()->Head_0;
    let all = m.namespaces.len() as int;
    lemma_dealt_with_stays(given, m.namespaces, all);
    let from = choose|from: int| #[trigger]
        staged_from(front, from) && probes == staged_at(front, from, m.namespaces) && all_headed(
            front,
            from - 1,
            probes,
            probes_asked(at, size),
            true,
        );
    lemma_staged_stays(given, from, m.namespaces);
    lemma_all_headed_stays(given, from - 1, probes, probes_asked(at, size), true);
    if size is None {
        lemma_all_headed_more(given, from - 1, probes, at, true);
    }
    match (size, reply) {
        (None, Some(s)) => {
            assert(staged_from(given, from));
        },
        (None, None) => {
            lemma_settled_staged(given, m, probes, at + 1, from);
        },
        (Some(s), _) => {
            lemma_settled_staged(
                given,
                found_step(m, STAGED_FOUND@, probes[at], s, reply is Some),
                probes,
                at + 1,
                from,
            );
        },
    }
}

/// Every check has come as far as its state says.
proof fn lemma_come(given: Seq<AnswerModel>)
    ensures
        come(given, run(given)),
    decreases given.len(),
{
    if given.len() == 0 {
        reveal(none_staged);
    } else {
        let front = given.drop_last();
        let m = run(front);
        let a = given.last();
        lemma_come(front);
        law_unlisted_is_confirmed(front);
        law_check_ends(m, a);
        if !answers(m, a) {
            lemma_unchanged(given);
        } else if m.phase is Listing {
            lemma_none_staged(given);
            reveal(all_dealt_with);
        } else if m.phase is Config {
            lemma_config_answered(given);
        } else if m.phase is Pins {
            lemma_pin_answered(given);
        } else {
            lemma_staged_answered(given);
        }
    }
}

// ---------------------------------------------------------------------------
// Laws
// ---------------------------------------------------------------------------

/// The configuration pins the version of the feature, for the application that
/// the feature goes by.
pub open spec fn pins_version(pins: Seq<PinModel>, dir: Seq<char>, v: u32) -> bool {
    exists|i: int|
        0 <= i < pins.len() && (#[trigger] pins[i]).dir == dir && pins[i].app_id == (
        if "sl_sdk"@.is_prefix_of(dir) {
            "E658703"@
        } else {
            "E658700"@
        }) && pack_semver_spec(pins[i].version) == Some(v)
}

/// The name of the universal payload of a feature.
pub open spec fn universal(dir: Seq<char>) -> Seq<char> {
    if "sl_sdk"@.is_prefix_of(dir) {
        "160_E658703.zip"@
    } else {
        "160_E658700.bin"@
    }
}

/// In every check that ends well, the configuration of every namespace of the
/// listing is asked for; and behind the answer to that, everything that it
/// pins is asked for in that namespace.
pub proof fn law_every_config_asked(given: Seq<AnswerModel>, i: int)
    requires
        run(given).phase matches PhaseModel::Done(Ok(_)),
        0 <= i < entries_of(run(given).objects).len(),
    ensures
        ({
            let ns = entries_of(run(given).objects)[i].ns;
            exists|k: int| #[trigger]
                configured(given, ns, k) && (given[k] matches AnswerModel::Config(Some(text))
                    ==> forall|dir: Seq<char>, v: u32| #[trigger]
                    pins_version(config_spec(text), dir, v) ==> headed(
                        given,
                        k,
                        payload_url_spec(ns, dir, v, universal(dir)),
                        false,
                    ))
        }),
{
    let m = run(given);
    let listed = entries_of(m.objects);
    let ns = listed[i].ns;
    lemma_come(given);
    law_unlisted_is_confirmed(given);
    law_namespaces(listed);
    assert(namespaces_spec(listed).contains(ns));
    let n = choose|n: int| 0 <= n < m.namespaces.len() && m.namespaces[n] == ns;
    reveal(all_dealt_with);
    reveal(dealt_with);
    reveal(all_headed);
    assert(dealt_with(given, m.namespaces[n]));
    let k = choose|k: int| pins_headed(given, ns, k, pinned(#[trigger] given[k], ns).len() as int);
    assert(configured(given, ns, k));
    if let AnswerModel::Config(Some(text)) = given[k] {
        let pins = config_spec(text);
        let probes = pinned(given[k], ns);
        assert forall|dir: Seq<char>, v: u32| #[trigger] pins_version(pins, dir, v) implies headed(
            given,
            k,
            payload_url_spec(ns, dir, v, universal(dir)),
            false,
        ) by {
            let p = ProbeModel { ns, dir, version_id: v };
            law_pins_asked(ns, pins, p);
            law_probe(p, 0);
            assert(probes.contains(p));
            let j = choose|j: int| 0 <= j < probes.len() && probes[j] == p;
            assert(headed(given, k, probe_address(probes[j], false), false));
        }
    }
}

/// In every check that ends well, some answers lead to a state that asks for
/// the configuration of the namespace, for each of the namespaces.
pub proof fn law_every_namespace_asked(given: Seq<AnswerModel>, i: int)
    requires
        run(given).phase matches PhaseModel::Done(Ok(_)),
        0 <= i < run(given).namespaces.len(),
    ensures
        exists|k: int|
            0 <= k < given.len() && #[trigger] asked(given, k) == RequestModel::Config(
                config_url_spec(run(given).namespaces[i]),
            ),
{
    let m = run(given);
    let listed = entries_of(m.objects);
    law_unlisted_is_confirmed(given);
    law_namespaces(listed);
    assert(namespaces_spec(listed).contains(m.namespaces[i]));
    let e = choose|e: int| 0 <= e < listed.len() && (#[trigger] listed[e]).ns == m.namespaces[i];
    law_every_config_asked(given, e);
    let k = choose|k: int| #[trigger] configured(given, listed[e].ns, k);
    assert(asked(given, k) == RequestModel::Config(config_url_spec(m.namespaces[i])));
}

/// The builds 0 and 128 of the next three minor versions behind the greatest
/// one of the feature, of which there is no payload.
pub open spec fn next_build(es: Seq<EntryModel>, dir: Seq<char>, v: u32, id: u32) -> bool {
    &&& greatest_version(es, dir, v)
    &&& id / 65536 == v / 65536
    &&& (v / 256) % 256 < (id / 256) % 256 <= (v / 256) % 256 + 3
    &&& id % 256 == 0 || id % 256 == 128
    &&& forall|i: int|
        0 <= i < es.len() && (#[trigger] es[i]).dir == dir && es[i].version_id == id
            ==> es[i].is_sidecar
}

/// In every check that ends well, there is a point from which on the check
/// asks for staged builds and for nothing else, and before which it asks for
/// none. From there on, every build that may follow the greatest version of a
/// feature at that point is asked for, in every namespace of the listing.
pub proof fn law_every_staged_asked(given: Seq<AnswerModel>) -> (from: int)
    requires
        run(given).phase matches PhaseModel::Done(Ok(_)),
    ensures
        0 <= from <= given.len(),
        forall|k: int| 0 <= k < from ==> !for_staged(#[trigger] asked(given, k)),
        forall|k: int|
            from <= k < given.len() ==> for_staged(#[trigger] asked(given, k)) || asked(given, k)
                is Nothing,
        forall|dir: Seq<char>, v: u32, id: u32, i: int|
            #![trigger
                next_build(run(given.take(from)).raw, dir, v, id),
                entries_of(run(given).objects)[i]
            ]
            next_build(run(given.take(from)).raw, dir, v, id) && 0 <= i < entries_of(
                run(given).objects,
            ).len() ==> headed(
                given,
                from - 1,
                payload_url_spec(entries_of(run(given).objects)[i].ns, dir, id, universal(dir)),
                true,
            ),
{
    let m = run(given);
    let listed = entries_of(m.objects);
    lemma_come(given);
    law_unlisted_is_confirmed(given);
    let from = choose|from: int| #[trigger]
        staged_from(given, from) && all_headed(
            given,
            from - 1,
            staged_at(given, from, m.namespaces),
            staged_at(given, from, m.namespaces).len() as int,
            true,
        );
    reveal(staged_from);
    reveal(all_headed);
    let staged = staged_at(given, from, m.namespaces);
    let es = run(given.take(from)).raw;
    assert forall|dir: Seq<char>, v: u32, id: u32, i: int|
        #![trigger next_build(es, dir, v, id), listed[i]]
        next_build(es, dir, v, id) && 0 <= i < listed.len() implies headed(
        given,
        from - 1,
        payload_url_spec(listed[i].ns, dir, id, universal(dir)),
        true,
    ) by {
        let p = ProbeModel { ns: listed[i].ns, dir, version_id: id };
        law_probe(p, 0);
        law_namespaces(listed);
        assert(m.namespaces.contains(p.ns));
        law_staged_asked(es, m.namespaces, p, v);
        let j = choose|j: int| 0 <= j < staged.len() && staged[j] == p;
        assert(headed(given, from - 1, probe_address(staged[j], false), true));
    }
    from
}

/// The address is that of a universal payload, or of its sidecar.
pub open spec fn payload_or_sidecar(url: Seq<char>, ns: Seq<char>, dir: Seq<char>, v: u32) -> bool {
    ||| url == payload_url_spec(ns, dir, v, universal(dir))
    ||| url == payload_url_spec(ns, dir, v, universal(dir)) + ".sha256"@
}

/// Whatever a check asks for by a HEAD request, other than a staged build, is
/// pinned in the namespace where it is asked for: by the configuration that
/// came before.
pub proof fn law_only_pins_asked(given: Seq<AnswerModel>, url: Seq<char>)
    requires
        request_spec(run(given)) == RequestModel::Head(url, false),
    ensures
        exists|ns: Seq<char>, k: int, dir: Seq<char>, v: u32|
            #![trigger configured(given, ns, k), payload_or_sidecar(url, ns, dir, v)]
            configured(given, ns, k) && payload_or_sidecar(url, ns, dir, v) && (
            given[k] matches AnswerModel::Config(Some(text)) && pins_version(
                config_spec(text),
                dir,
                v,
            )),
{
    let m = run(given);
    lemma_come(given);
    law_unlisted_is_confirmed(given);
    let ns = m.phase->Pins_ns;
    let probes = m.phase->Pins_probes;
    let at = m.phase->Pins_at;
    let size = m.phase->Pins_size;
    let name = m.namespaces[ns];
    let k = choose|k: int|
        pins_headed(given, name, k, probes_asked(at, size)) && probes == pinned(
            #[trigger] given[k],
            name,
        );
    let p = probes[at];
    law_probe(p, 0);
    assert(probes.contains(p));
    match given[k] {
        AnswerModel::Config(Some(text)) => {
            law_pins_asked(name, config_spec(text), p);
            assert(pins_version(config_spec(text), p.dir, p.version_id));
        },
        _ => {},
    }
    assert(configured(given, name, k));
    assert(payload_or_sidecar(url, name, p.dir, p.version_id));
}

/// Whatever a check asks for as a staged build is one that may follow the
/// greatest version of its feature, as far as it was known when the first
/// staged build was asked for.
pub proof fn law_only_staged_asked(given: Seq<AnswerModel>, url: Seq<char>) -> (r: (
    int,
    ProbeModel,
    u32,
))
    requires
        request_spec(run(given)) == RequestModel::Head(url, true),
    ensures
        0 <= r.0 <= given.len(),
        forall|k: int| 0 <= k < r.0 ==> !for_staged(#[trigger] asked(given, k)),
        forall|k: int|
            r.0 <= k < given.len() ==> for_staged(#[trigger] asked(given, k)) || asked(given, k)
                is Nothing,
        run(given).namespaces.contains(r.1.ns),
        payload_or_sidecar(url, r.1.ns, r.1.dir, r.1.version_id),
        next_build(run(given.take(r.0)).raw, r.1.dir, r.2, r.1.version_id),
{
    let m = run(given);
    lemma_come(given);
    law_unlisted_is_confirmed(given);
    let probes = m.phase->Staged_probes;
    let at = m.phase->Staged_at;
    let size = m.phase->Staged_size;
    let from = choose|from: int| #[trigger]
        staged_from(given, from) && probes == staged_at(given, from, m.namespaces) && all_headed(
            given,
            from - 1,
            probes,
            probes_asked(at, size),
            true,
        );
    reveal(staged_from);
    let es = run(given.take(from)).raw;
    let p = probes[at];
    law_probe(p, 0);
    assert(probes.contains(p));
    let v = latest_spec(es, p.dir);
    law_latest_is_greatest(es, p.dir);
    law_staged_builds(es, m.namespaces, p);
    law_staged_asked(es, m.namespaces, p, v->0);
    (from, p, v->0)
}

/// The configurations that a check asks for are those of the namespaces of the
/// listing.
pub proof fn law_only_configs_asked(given: Seq<AnswerModel>, url: Seq<char>)
    requires
        request_spec(run(given)) == RequestModel::Config(url),
    ensures
        exists|i: int|
            0 <= i < entries_of(run(given).objects).len() && url == config_url_spec(
                (#[trigger] entries_of(run(given).objects)[i]).ns,
            ),
{
    let m = run(given);
    law_unlisted_is_confirmed(given);
    law_namespaces(entries_of(m.objects));
    let ns = m.namespaces[m.phase->Config_ns];
    assert(namespaces_spec(entries_of(m.objects)).contains(ns));
}

} // verus!
