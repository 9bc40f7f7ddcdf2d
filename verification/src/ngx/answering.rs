//! What a single answer of the server does to a check.

use crate::ngx::asking::universal;
use crate::ngx::config::config_spec;
use crate::ngx::error::FetchErrorModel;
use crate::ngx::feature::title_of;
use crate::ngx::fetch::{fetch_sound, fetch_wf, request_spec, start_spec, FetchModel};
use crate::ngx::fetch::{ListingReplyModel, PhaseModel, RequestModel};
use crate::ngx::fetching::{law_unlisted_is_confirmed, run, step, AnswerModel};
use crate::ngx::grouping::groups_spec;
use crate::ngx::key::EntryModel;
use crate::ngx::listing::{page_spec, xml_document};
use crate::ngx::probe::{law_probe, ProbeModel};
use crate::ngx::scan::{entries_of, law_namespaces, namespaces_spec, others_line_spec, others_of};
use crate::ngx::urls::{config_url_spec, list_url_spec, payload_url_spec};
use crate::ngx::version::version_spec;
use crate::number::decimal;
use crate::text::join_spec;
use vstd::prelude::*;

verus! {

// ---------------------------------------------------------------------------
// The listing
// ---------------------------------------------------------------------------

/// A check begins with the first page of the listing, and with nothing found.
pub proof fn law_check_starts()
    ensures
        request_spec(start_spec()) == RequestModel::Listing(
            list_url_spec(Seq::<char>::empty()),
        ),
        start_spec().phase matches PhaseModel::Listing { page, token } && page == 1,
        start_spec().objects.len() == 0,
        start_spec().raw.len() == 0,
        start_spec().log == seq![
            "querying https://ngx.download.nvidia.com (S3 bucket listing)..."@,
        ],
{
    reveal_strlit("querying ");
    reveal_strlit("https://ngx.download.nvidia.com");
    reveal_strlit(" (S3 bucket listing)...");
    reveal_strlit("querying https://ngx.download.nvidia.com (S3 bucket listing)...");
    assert("querying "@ + "https://ngx.download.nvidia.com"@ + " (S3 bucket listing)..."@
        =~= "querying https://ngx.download.nvidia.com (S3 bucket listing)..."@);
}

/// A listing that cannot be had, or is no XML, ends the check with the error
/// that says so, and leaves everything else as it was.
pub proof fn law_listing_failed(m: FetchModel, text: Seq<char>)
    requires
        m.phase is Listing,
    ensures
        step(m, AnswerModel::Listing(ListingReplyModel::RequestFailed(text))) == (FetchModel {
            phase: PhaseModel::Done(Err(FetchErrorModel::Request(text))),
            ..m
        }),
        step(m, AnswerModel::Listing(ListingReplyModel::ReadFailed(text))) == (FetchModel {
            phase: PhaseModel::Done(Err(FetchErrorModel::Read(text))),
            ..m
        }),
        xml_document(text) matches Err(e) ==> step(
            m,
            AnswerModel::Listing(ListingReplyModel::Body(text)),
        ) == (FetchModel { phase: PhaseModel::Done(Err(FetchErrorModel::Parse(e))), ..m }),
{
}

/// A page of the listing adds its objects and a line to the report. With a
/// token, the next page is asked for with it, up to the hundredth page; behind
/// that one the check ends with an error.
pub proof fn law_page_with_more(m: FetchModel, body: Seq<char>)
    requires
        m.phase is Listing,
        m.phase->Listing_page <= 100,
        xml_document(body) is Ok,
        page_spec(xml_document(body)->Ok_0).token.len() > 0,
    ensures
        ({
            let page = page_spec(xml_document(body)->Ok_0);
            let no = m.phase->Listing_page;
            let n = step(m, AnswerModel::Listing(ListingReplyModel::Body(body)));
            let objects = m.objects + page.objects;
            &&& n.objects == objects && n.raw == m.raw && n.namespaces == m.namespaces
            &&& n.log == m.log.push(
                "listing page "@ + decimal(no as nat) + ": "@ + decimal(page.objects.len())
                    + " objects (total "@ + decimal(objects.len()) + ")"@,
            )
            &&& no < 100 ==> n.phase == (PhaseModel::Listing { page: no + 1, token: page.token })
                && request_spec(n) == RequestModel::Listing(list_url_spec(page.token))
            &&& no == 100 ==> n.phase == PhaseModel::Done(Err(FetchErrorModel::TooManyPages))
        }),
{
}

/// The page without a token is the last. The entries are then those of all
/// objects. If there are none, the check ends with an error; else their
/// namespaces are known, each once, and the configuration of the first of them
/// is asked for.
pub proof fn law_last_page(m: FetchModel, body: Seq<char>)
    requires
        m.phase is Listing,
        m.phase->Listing_page <= 100,
        xml_document(body) is Ok,
        page_spec(xml_document(body)->Ok_0).token.len() == 0,
        fetch_sound(m),
    ensures
        ({
            let page = page_spec(xml_document(body)->Ok_0);
            let n = step(m, AnswerModel::Listing(ListingReplyModel::Body(body)));
            let objects = m.objects + page.objects;
            let listed = m.log.push(
                "listing page "@ + decimal(m.phase->Listing_page as nat) + ": "@ + decimal(
                    page.objects.len(),
                ) + " objects (total "@ + decimal(objects.len()) + ")"@,
            ).push(
                "scanning "@ + decimal(objects.len())
                    + " objects for DLSS / Streamline packages..."@,
            );
            &&& n.objects == objects
            &&& n.raw == entries_of(objects)
            &&& n.raw.len() == 0 ==> n.log == listed && n.phase == PhaseModel::Done(
                Err(FetchErrorModel::NothingFound),
            )
            &&& n.raw.len() > 0 ==> {
                &&& n.namespaces.no_duplicates()
                &&& n.namespaces[0] == n.raw[0].ns
                &&& forall|ns: Seq<char>|
                    #[trigger] n.namespaces.contains(ns) <==> exists|i: int|
                        0 <= i < n.raw.len() && (#[trigger] n.raw[i]).ns == ns
                &&& request_spec(n) == RequestModel::Config(config_url_spec(n.raw[0].ns))
                &&& n.log == (if others_of(objects).len() == 0 {
                    listed
                } else {
                    listed.push(others_line_spec(others_of(objects)))
                }).push("discovered namespaces: "@ + join_spec(n.namespaces, ", "@))
            }
        }),
{
    let page = page_spec(xml_document(body)->Ok_0);
    let raw = entries_of(m.objects + page.objects);
    law_namespaces(raw);
    if raw.len() > 0 {
        lemma_first_namespace(raw);
    } else {
        assert(m.raw =~= raw);
    }
}

/// The first namespace is that of the first entry.
proof fn lemma_first_namespace(es: Seq<EntryModel>)
    requires
        es.len() > 0,
    ensures
        namespaces_spec(es).len() > 0,
        namespaces_spec(es)[0] == es[0].ns,
    decreases es.len(),
{
    if es.len() > 1 {
        lemma_first_namespace(es.drop_last());
    } else {
        assert(namespaces_spec(es.drop_last()) =~= seq![]);
    }
}

// ---------------------------------------------------------------------------
// Configurations
// ---------------------------------------------------------------------------

/// A configuration adds a line to the report, if it pins anything, and finds
/// nothing by itself.
pub proof fn law_config_reported(m: FetchModel, body: Option<Seq<char>>)
    requires
        fetch_wf(m),
        m.phase is Config,
    ensures
        ({
            let n = step(m, AnswerModel::Config(body));
            let ns = m.namespaces[m.phase->Config_ns];
            &&& n.raw == m.raw && n.objects == m.objects && n.namespaces == m.namespaces
            &&& n.log == (match body {
                Some(text) => if config_spec(text).len() > 0 {
                    m.log.push(
                        "read server config from "@ + ns + " ("@ + decimal(config_spec(text).len())
                            + " pins)"@,
                    )
                } else {
                    m.log
                },
                None => m.log,
            })
        }),
{
}

// ---------------------------------------------------------------------------
// Probes
// ---------------------------------------------------------------------------

/// The probe that a check is at, whether it is for a staged build, and the
/// size of its payload, if that was found.
pub open spec fn probing(m: FetchModel, p: ProbeModel, staged: bool, size: Option<u64>) -> bool {
    match m.phase {
        PhaseModel::Pins { ns, probes, at, size: s } => !staged && p == probes[at] && size == s,
        PhaseModel::Staged { probes, at, size: s } => staged && p == probes[at] && size == s,
        _ => false,
    }
}

/// A probe asks for the payload first. If that is not there, nothing is found
/// or reported. If it is, its sidecar is asked for next, and the size is kept
/// until then.
pub proof fn law_payload_answered(m: FetchModel, p: ProbeModel, staged: bool, reply: Option<u64>)
    requires
        fetch_wf(m),
        probing(m, p, staged, None),
    ensures
        ({
            let n = step(m, AnswerModel::Head(reply));
            let url = payload_url_spec(p.ns, p.dir, p.version_id, universal(p.dir));
            &&& request_spec(m) == RequestModel::Head(url, staged)
            &&& n.raw == m.raw && n.log == m.log && n.objects == m.objects && n.namespaces
                == m.namespaces
            &&& reply is Some ==> probing(n, p, staged, reply) && request_spec(n)
                == RequestModel::Head(url + ".sha256"@, staged)
        }),
{
    law_probe(p, 0);
}

/// Once its sidecar has been asked for, the payload of a probe is found, of
/// the size that was kept; and the sidecar, if that is there. The report says
/// so.
pub proof fn law_sidecar_answered(
    m: FetchModel,
    p: ProbeModel,
    staged: bool,
    size: u64,
    reply: Option<u64>,
)
    requires
        fetch_wf(m),
        probing(m, p, staged, Some(size)),
    ensures
        ({
            let n = step(m, AnswerModel::Head(reply));
            let found = EntryModel {
                ns: p.ns,
                dir: p.dir,
                version_id: p.version_id,
                payload: universal(p.dir),
                is_sidecar: false,
                size,
            };
            let intro = if staged {
                "probe found staged "@
            } else {
                "config pin verified: "@
            };
            &&& n.raw == (if reply is Some {
                m.raw.push(found).push(EntryModel { is_sidecar: true, size: 0, ..found })
            } else {
                m.raw.push(found)
            })
            &&& n.log == m.log.push(
                intro + title_of(p.dir) + " "@ + version_spec(p.version_id) + " on "@ + p.ns,
            )
            &&& n.objects == m.objects && n.namespaces == m.namespaces
        }),
{
    law_probe(p, size);
    let n = step(m, AnswerModel::Head(reply));
    let found = EntryModel {
        ns: p.ns,
        dir: p.dir,
        version_id: p.version_id,
        payload: universal(p.dir),
        is_sidecar: false,
        size,
    };
    let sidecar = EntryModel { is_sidecar: true, size: 0, ..found };
    assert(m.raw + seq![found] =~= m.raw.push(found));
    assert(m.raw + seq![found, sidecar] =~= m.raw.push(found).push(sidecar));
}

// ---------------------------------------------------------------------------
// The outcome
// ---------------------------------------------------------------------------

/// What a check that ends well comes to is what all entries offer: those of
/// the listing, and behind them what probing found.
pub proof fn law_outcome(given: Seq<AnswerModel>)
    requires
        run(given).phase matches PhaseModel::Done(Ok(_)),
    ensures
        run(given).phase->Done_0->Ok_0 == groups_spec(run(given).raw),
        entries_of(run(given).objects).is_prefix_of(run(given).raw),
{
    law_unlisted_is_confirmed(given);
}

/// Only the listing can make a check fail: once it is there, no answer to a
/// request for a configuration or an object does, not even that it cannot be
/// had.
pub proof fn law_only_listing_fails(m: FetchModel, a: AnswerModel)
    requires
        fetch_wf(m),
        !(m.phase is Listing),
        !(m.phase is Done),
    ensures
        !(step(m, a).phase is Listing),
        !(step(m, a).phase matches PhaseModel::Done(Err(_))),
{
}

/// A check that is over asks for nothing, and one that is not asks for
/// something. No answer changes what it came to.
pub proof fn law_over(m: FetchModel, a: AnswerModel)
    ensures
        m.phase is Done <==> request_spec(m) is Nothing,
        m.phase is Done ==> step(m, a) == m,
{
}

} // verus!
