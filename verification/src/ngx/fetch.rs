//! Checking the server: what to ask for, and what the answers amount to.
//!
//! A check is a sequence of requests. `Fetch` says which request comes next,
//! and takes the answer to it. The caller sends the requests.

use crate::ngx::config::{config_spec, parse_server_config, pin_models, ConfigPin};
use crate::ngx::error::{FetchError, FetchErrorModel};
use crate::ngx::feature::{canonical_payload_of, title_of};
use crate::ngx::fetching::{lemma_found_sound, lemma_pin_probes_within, lemma_some_namespace};
use crate::ngx::fetching::lemma_staged_probes_within;
use crate::ngx::grouping::{group_offers, groups_spec};
use crate::ngx::key::{models, EntryModel, RawEntry};
use crate::ngx::listing::{object_models, page_spec, parse_listing, xml_document};
use crate::ngx::listing::{ListingPage, PageModel};
use crate::ngx::offer::{group_models, Group, GroupModel};
use crate::ngx::probe::{pin_probes, pin_probes_spec, probe_address, probe_entries_spec};
use crate::ngx::probe::{probe_models, staged_probes, staged_spec, Probe, ProbeModel};
use crate::ngx::scan::{entries_of, law_namespaces, namespaces_in, namespaces_spec, others_line};
use crate::ngx::scan::{others_line_spec, others_of, scan_objects};
use crate::ngx::urls::{config_url, config_url_spec, list_url, list_url_spec, NGX_HOST};
use crate::ngx::version::{decode_version, version_spec};
use crate::number::{decimal, push_decimal};
use crate::text::{copy_text, join, join_spec, views};
use vstd::prelude::*;

verus! {

/// The most pages that are asked for.
pub const MAX_PAGES: u32 = 100;

// ---------------------------------------------------------------------------
// States
// ---------------------------------------------------------------------------

/// How far a check is.
pub enum PhaseModel {
    /// The page of the listing that `token` continues is to be asked for.
    Listing { page: int, token: Seq<char> },
    /// The configuration of a namespace is to be asked for.
    Config { ns: int },
    /// What a namespace pins is to be asked for, from the probe `at` on. With
    /// a size, the payload of that probe is there, and its sidecar comes next.
    Pins { ns: int, probes: Seq<ProbeModel>, at: int, size: Option<u64> },
    /// Staged builds are to be asked for, in the same way.
    Staged { probes: Seq<ProbeModel>, at: int, size: Option<u64> },
    /// The check is over.
    Done(Result<Seq<GroupModel>, FetchErrorModel>),
}

/// The state of a check.
pub struct FetchModel {
    pub phase: PhaseModel,
    /// The objects listed so far.
    pub objects: Seq<(Seq<char>, u64)>,
    /// The entries found so far.
    pub raw: Seq<EntryModel>,
    pub namespaces: Seq<Seq<char>>,
    /// The report so far.
    pub log: Seq<Seq<char>>,
}

/// A state that a check can be in.
pub open spec fn fetch_wf(m: FetchModel) -> bool {
    match m.phase {
        PhaseModel::Listing { page, token } => 1 <= page <= MAX_PAGES,
        PhaseModel::Config { ns } => 0 <= ns < m.namespaces.len(),
        PhaseModel::Pins { ns, probes, at, size } => 0 <= ns < m.namespaces.len() && 0 <= at
            < probes.len(),
        PhaseModel::Staged { probes, at, size } => 0 <= at < probes.len(),
        PhaseModel::Done(r) => true,
    }
}

/// An entry that probing can find: the universal payload of a feature, or its
/// sidecar, in one of the namespaces.
pub open spec fn probed(e: EntryModel, namespaces: Seq<Seq<char>>) -> bool {
    e.payload == canonical_payload_of(e.dir) && namespaces.contains(e.ns)
}

/// The probes ask in the namespaces only.
pub open spec fn within(probes: Seq<ProbeModel>, namespaces: Seq<Seq<char>>) -> bool {
    forall|i: int| 0 <= i < probes.len() ==> namespaces.contains((#[trigger] probes[i]).ns)
}

/// The entries are those of the listing, and behind them what probing found.
pub open spec fn entries_sound(m: FetchModel) -> bool {
    let listed = entries_of(m.objects);
    &&& listed.len() > 0
    &&& m.namespaces == namespaces_spec(listed)
    &&& listed.is_prefix_of(m.raw)
    &&& forall|i: int|
        listed.len() <= i < m.raw.len() ==> probed(#[trigger] m.raw[i], m.namespaces)
}

/// What holds of a check at every time.
pub open spec fn fetch_sound(m: FetchModel) -> bool {
    match m.phase {
        PhaseModel::Listing { page, token } => m.raw.len() == 0 && m.namespaces.len() == 0,
        PhaseModel::Config { ns } => entries_sound(m),
        PhaseModel::Pins { ns, probes, at, size } => entries_sound(m) && within(
            probes,
            m.namespaces,
        ),
        PhaseModel::Staged { probes, at, size } => entries_sound(m) && within(probes, m.namespaces),
        PhaseModel::Done(Ok(groups)) => entries_sound(m) && groups == groups_spec(m.raw),
        PhaseModel::Done(Err(e)) => e is NothingFound ==> entries_of(m.objects).len() == 0,
    }
}

/// How far a check is.
#[derive(Debug)]
enum Phase {
    Listing { page: u32, token: String },
    Config { ns: usize },
    Pins { ns: usize, probes: Vec<Probe>, at: usize, size: Option<u64> },
    Staged { probes: Vec<Probe>, at: usize, size: Option<u64> },
    Done(Result<Vec<Group>, FetchError>),
}

impl View for Phase {
    type V = PhaseModel;

    closed spec fn view(&self) -> PhaseModel {
        match self {
            Phase::Listing { page, token } => PhaseModel::Listing {
                page: *page as int,
                token: token@,
            },
            Phase::Config { ns } => PhaseModel::Config { ns: *ns as int },
            Phase::Pins { ns, probes, at, size } => PhaseModel::Pins {
                ns: *ns as int,
                probes: probe_models(probes@),
                at: *at as int,
                size: *size,
            },
            Phase::Staged { probes, at, size } => PhaseModel::Staged {
                probes: probe_models(probes@),
                at: *at as int,
                size: *size,
            },
            Phase::Done(Ok(groups)) => PhaseModel::Done(Ok(group_models(groups@))),
            Phase::Done(Err(e)) => PhaseModel::Done(Err(e@)),
        }
    }
}

/// A check of the server.
#[derive(Debug)]
pub struct Fetch {
    phase: Phase,
    objects: Vec<(String, u64)>,
    raw: Vec<RawEntry>,
    namespaces: Vec<String>,
    log: Vec<String>,
}

impl View for Fetch {
    type V = FetchModel;

    closed spec fn view(&self) -> FetchModel {
        FetchModel {
            phase: self.phase@,
            objects: object_models(self.objects@),
            raw: models(self.raw@),
            namespaces: views(self.namespaces@),
            log: views(self.log@),
        }
    }
}

// ---------------------------------------------------------------------------
// Requests and answers
// ---------------------------------------------------------------------------

/// What is to be asked for next.
pub enum RequestModel {
    Listing(Seq<char>),
    Config(Seq<char>),
    Head(Seq<char>, bool),
    Nothing,
}

/// What is to be asked for next.
#[derive(Debug)]
pub enum Request {
    /// GET this page of the listing.
    Listing(String),
    /// GET this configuration.
    Config(String),
    /// HEAD this object; whether it is for a staged build.
    Head(String, bool),
    /// The check is over.
    Nothing,
}

impl View for Request {
    type V = RequestModel;

    open spec fn view(&self) -> RequestModel {
        match self {
            Request::Listing(url) => RequestModel::Listing(url@),
            Request::Config(url) => RequestModel::Config(url@),
            Request::Head(url, staged) => RequestModel::Head(url@, *staged),
            Request::Nothing => RequestModel::Nothing,
        }
    }
}

/// The request that a state calls for.
pub open spec fn request_spec(m: FetchModel) -> RequestModel {
    match m.phase {
        PhaseModel::Listing { page, token } => RequestModel::Listing(list_url_spec(token)),
        PhaseModel::Config { ns } => RequestModel::Config(config_url_spec(m.namespaces[ns])),
        PhaseModel::Pins { ns, probes, at, size } => RequestModel::Head(
            probe_address(probes[at], size is Some),
            false,
        ),
        PhaseModel::Staged { probes, at, size } => RequestModel::Head(
            probe_address(probes[at], size is Some),
            true,
        ),
        PhaseModel::Done(r) => RequestModel::Nothing,
    }
}

/// What came of the request for a page of the listing.
pub enum ListingReplyModel {
    Body(Seq<char>),
    RequestFailed(Seq<char>),
    ReadFailed(Seq<char>),
}

/// What came of the request for a page of the listing.
#[derive(Debug)]
pub enum ListingReply {
    Body(String),
    RequestFailed(String),
    ReadFailed(String),
}

impl View for ListingReply {
    type V = ListingReplyModel;

    open spec fn view(&self) -> ListingReplyModel {
        match self {
            ListingReply::Body(t) => ListingReplyModel::Body(t@),
            ListingReply::RequestFailed(e) => ListingReplyModel::RequestFailed(e@),
            ListingReply::ReadFailed(e) => ListingReplyModel::ReadFailed(e@),
        }
    }
}

// ---------------------------------------------------------------------------
// The report
// ---------------------------------------------------------------------------

/// The report with which a check begins.
pub open spec fn query_line() -> Seq<char> {
    "querying "@ + NGX_HOST@ + " (S3 bucket listing)..."@
}

/// The report on a page of the listing.
pub open spec fn page_line(page: int, n: nat, total: nat) -> Seq<char> {
    "listing page "@ + decimal(page as nat) + ": "@ + decimal(n) + " objects (total "@ + decimal(
        total,
    ) + ")"@
}

/// The report on the whole listing.
pub open spec fn scan_line(n: nat) -> Seq<char> {
    "scanning "@ + decimal(n) + " objects for DLSS / Streamline packages..."@
}

/// The report on the namespaces.
pub open spec fn namespaces_line(namespaces: Seq<Seq<char>>) -> Seq<char> {
    "discovered namespaces: "@ + join_spec(namespaces, ", "@)
}

/// The report on the configuration of a namespace.
pub open spec fn config_line(ns: Seq<char>, n: nat) -> Seq<char> {
    "read server config from "@ + ns + " ("@ + decimal(n) + " pins)"@
}

/// The report on a probe that found something.
pub open spec fn found_line(intro: Seq<char>, p: ProbeModel) -> Seq<char> {
    intro + title_of(p.dir) + " "@ + version_spec(p.version_id) + " on "@ + p.ns
}

/// What introduces the report on a pinned version.
pub const PIN_FOUND: &'static str = "config pin verified: ";

/// What introduces the report on a staged build.
pub const STAGED_FOUND: &'static str = "probe found staged ";

/// Writes the report on a page of the listing.
fn write_page_line(page: u32, n: usize, total: usize) -> (r: String)
    ensures
        r@ == page_line(page as int, n as nat, total as nat),
{
    let mut out = copy_text("listing page ");
    push_decimal(&mut out, page as u64);
    out.append(": ");
    push_decimal(&mut out, n as u64);
    out.append(" objects (total ");
    push_decimal(&mut out, total as u64);
    out.append(")");
    out
}

/// Writes the report on the whole listing.
fn write_scan_line(n: usize) -> (r: String)
    ensures
        r@ == scan_line(n as nat),
{
    let mut out = copy_text("scanning ");
    push_decimal(&mut out, n as u64);
    out.append(" objects for DLSS / Streamline packages...");
    out
}

/// Writes the report on the namespaces.
fn write_namespaces_line(namespaces: &Vec<String>) -> (r: String)
    ensures
        r@ == namespaces_line(views(namespaces@)),
{
    let mut out = copy_text("discovered namespaces: ");
    out.append(join(namespaces, ", ").as_str());
    out
}

/// Writes the report on the configuration of a namespace.
fn write_config_line(ns: &str, n: usize) -> (r: String)
    ensures
        r@ == config_line(ns@, n as nat),
{
    let mut out = copy_text("read server config from ");
    out.append(ns);
    out.append(" (");
    push_decimal(&mut out, n as u64);
    out.append(" pins)");
    out
}

/// Writes the report on a probe that found something.
fn write_found_line(intro: &str, p: &Probe) -> (r: String)
    ensures
        r@ == found_line(intro@, p@),
{
    let mut out = copy_text(intro);
    out.append(p.feature.title().as_str());
    out.append(" ");
    out.append(decode_version(p.version_id).as_str());
    out.append(" on ");
    out.append(p.ns.as_str());
    out
}

// ---------------------------------------------------------------------------
// Steps
// ---------------------------------------------------------------------------

/// The state in which a check begins.
pub open spec fn start_spec() -> FetchModel {
    FetchModel {
        phase: PhaseModel::Listing { page: 1, token: seq![] },
        objects: seq![],
        raw: seq![],
        namespaces: seq![],
        log: seq![query_line()],
    }
}

/// A check that ends with an error.
pub open spec fn fail_spec(m: FetchModel, e: FetchErrorModel) -> FetchModel {
    FetchModel { phase: PhaseModel::Done(Err(e)), ..m }
}

/// What follows once the whole listing is there.
pub open spec fn scan_step(m: FetchModel) -> FetchModel {
    let raw = entries_of(m.objects);
    let others = others_of(m.objects);
    let scanned = m.log.push(scan_line(m.objects.len()));
    if raw.len() == 0 {
        fail_spec(FetchModel { log: scanned, ..m }, FetchErrorModel::NothingFound)
    } else {
        let noted = if others.len() == 0 {
            scanned
        } else {
            scanned.push(others_line_spec(others))
        };
        let namespaces = namespaces_spec(raw);
        FetchModel {
            phase: PhaseModel::Config { ns: 0 },
            objects: m.objects,
            raw,
            namespaces,
            log: noted.push(namespaces_line(namespaces)),
        }
    }
}

/// What follows a page of the listing.
pub open spec fn page_step(m: FetchModel, page: PageModel) -> FetchModel {
    match m.phase {
        PhaseModel::Listing { page: no, token } => {
            let objects = m.objects + page.objects;
            let listed = FetchModel {
                objects,
                log: m.log.push(page_line(no, page.objects.len(), objects.len())),
                ..m
            };
            if page.token.len() == 0 {
                scan_step(listed)
            } else if no >= MAX_PAGES {
                fail_spec(listed, FetchErrorModel::TooManyPages)
            } else {
                FetchModel {
                    phase: PhaseModel::Listing { page: no + 1, token: page.token },
                    ..listed
                }
            }
        },
        _ => m,
    }
}

/// What follows the answer to the request for a page of the listing.
pub open spec fn listing_step(m: FetchModel, reply: ListingReplyModel) -> FetchModel {
    if m.phase is Listing {
        match reply {
            ListingReplyModel::Body(body) => match xml_document(body) {
                Ok(nodes) => page_step(m, page_spec(nodes)),
                Err(e) => fail_spec(m, FetchErrorModel::Parse(e)),
            },
            ListingReplyModel::RequestFailed(e) => fail_spec(m, FetchErrorModel::Request(e)),
            ListingReplyModel::ReadFailed(e) => fail_spec(m, FetchErrorModel::Read(e)),
        }
    } else {
        m
    }
}

/// A state in which no probe may be left, made one in which something is to
/// be asked for, or nothing at all any more.
pub open spec fn settle(m: FetchModel) -> FetchModel {
    match m.phase {
        PhaseModel::Pins { ns, probes, at, size } => if at < probes.len() {
            m
        } else if ns + 1 < m.namespaces.len() {
            FetchModel { phase: PhaseModel::Config { ns: ns + 1 }, ..m }
        } else {
            settle_staged(m, staged_spec(m.raw, m.namespaces), 0)
        },
        PhaseModel::Staged { probes, at, size } => settle_staged(m, probes, at),
        _ => m,
    }
}

/// What follows where staged builds are to be asked for from `at` on.
pub open spec fn settle_staged(m: FetchModel, probes: Seq<ProbeModel>, at: int) -> FetchModel {
    if at < probes.len() {
        FetchModel { phase: PhaseModel::Staged { probes, at, size: None }, ..m }
    } else {
        FetchModel { phase: PhaseModel::Done(Ok(groups_spec(m.raw))), ..m }
    }
}

/// What follows the configuration of a namespace, or the failure to get it.
pub open spec fn config_step(m: FetchModel, body: Option<Seq<char>>) -> FetchModel {
    match m.phase {
        PhaseModel::Config { ns } => {
            let pins = match body {
                Some(text) => config_spec(text),
                None => seq![],
            };
            settle(
                FetchModel {
                    phase: PhaseModel::Pins {
                        ns,
                        probes: pin_probes_spec(m.namespaces[ns], pins),
                        at: 0,
                        size: None,
                    },
                    log: if pins.len() == 0 {
                        m.log
                    } else {
                        m.log.push(config_line(m.namespaces[ns], pins.len()))
                    },
                    ..m
                },
            )
        },
        _ => m,
    }
}

/// The state with the entries that a probe found.
pub open spec fn found_step(
    m: FetchModel,
    intro: Seq<char>,
    p: ProbeModel,
    size: u64,
    sidecar: bool,
) -> FetchModel {
    FetchModel {
        raw: m.raw + probe_entries_spec(p, size, sidecar),
        log: m.log.push(found_line(intro, p)),
        ..m
    }
}

/// What follows the answer to a HEAD request: the size of the object, if it is there.
pub open spec fn head_step(m: FetchModel, reply: Option<u64>) -> FetchModel {
    match m.phase {
        PhaseModel::Pins { ns, probes, at, size } => match (size, reply) {
            (None, Some(_)) => FetchModel {
                phase: PhaseModel::Pins { ns, probes, at, size: reply },
                ..m
            },
            (None, None) => settle(
                FetchModel {
                    phase: PhaseModel::Pins { ns, probes, at: at + 1, size: None },
                    ..m
                },
            ),
            (Some(n), _) => settle(
                FetchModel {
                    phase: PhaseModel::Pins { ns, probes, at: at + 1, size: None },
                    ..found_step(m, PIN_FOUND@, probes[at], n, reply is Some)
                },
            ),
        },
        PhaseModel::Staged { probes, at, size } => match (size, reply) {
            (None, Some(_)) => FetchModel {
                phase: PhaseModel::Staged { probes, at, size: reply },
                ..m
            },
            (None, None) => settle_staged(m, probes, at + 1),
            (Some(n), _) => settle_staged(
                found_step(m, STAGED_FOUND@, probes[at], n, reply is Some),
                probes,
                at + 1,
            ),
        },
        _ => m,
    }
}

/// Adds a line to a report.
fn add_line(log: Vec<String>, line: String) -> (r: Vec<String>)
    ensures
        views(r@) == views(log@).push(line@),
{
    let mut out = log;
    let ghost before = views(out@);
    let ghost text = line@;
    out.push(line);
    assert(views(out@) =~= before.push(text));
    out
}

/// Begins a check of the server: what it offers, by feature, is the outcome.
pub fn fetch_offers() -> (r: Fetch)
    ensures
        r@ == start_spec(),
        fetch_wf(r@),
        fetch_sound(r@),
{
    let mut line = copy_text("querying ");
    line.append(NGX_HOST);
    line.append(" (S3 bucket listing)...");
    let log = add_line(Vec::new(), line);
    assert(views(log@) =~= seq![query_line()]);
    let f = Fetch {
        phase: Phase::Listing { page: 1, token: String::new() },
        objects: Vec::new(),
        raw: Vec::new(),
        namespaces: Vec::new(),
        log,
    };
    assert(f@.objects =~= seq![]);
    assert(f@.raw =~= seq![]);
    assert(f@.namespaces =~= seq![]);
    assert(f.phase@->token =~= seq![]);
    f
}

impl Fetch {
    #[verifier::type_invariant]
    spec fn wf(self) -> bool {
        fetch_wf(self@) && fetch_sound(self@)
    }

    /// What is to be asked for next.
    pub fn request(&self) -> (r: Request)
        ensures
            r@ == request_spec(self@),
    {
        proof {
            use_type_invariant(self);
        }
        match &self.phase {
            Phase::Listing { page, token } => Request::Listing(list_url(token.as_str())),
            Phase::Config { ns } => {
                let i: usize = *ns;
                assert(views(self.namespaces@)[i as int] == self.namespaces@[i as int]@);
                Request::Config(config_url(self.namespaces[i].as_str()))
            },
            Phase::Pins { ns, probes, at, size } => {
                let i: usize = *at;
                assert(probe_models(probes@)[i as int] == probes@[i as int]@);
                Request::Head(probes[i].address(size.is_some()), false)
            },
            Phase::Staged { probes, at, size } => {
                let i: usize = *at;
                assert(probe_models(probes@)[i as int] == probes@[i as int]@);
                Request::Head(probes[i].address(size.is_some()), true)
            },
            Phase::Done(r) => Request::Nothing,
        }
    }

    /// Ends with an error.
    fn fail(self, e: FetchError) -> (r: Fetch)
        requires
            !(e is NothingFound),
        ensures
            r@ == fail_spec(self@, e@),
            fetch_wf(r@),
            fetch_sound(r@),
    {
        Fetch { phase: Phase::Done(Err(e)), ..self }
    }

    /// Goes on once the whole listing is there.
    fn scan(self) -> (r: Fetch)
        ensures
            r@ == scan_step(self@),
            fetch_wf(r@),
            fetch_sound(r@),
    {
        let n: usize = self.objects.len();
        assert(object_models(self.objects@).len() == n);
        let scanned = add_line(self.log, write_scan_line(n));
        let (raw, others) = scan_objects(&self.objects);
        assert(models(raw@).len() == raw@.len());
        assert(views(others@).len() == others@.len());
        if raw.len() == 0 {
            return Fetch { phase: Phase::Done(Err(FetchError::NothingFound)), log: scanned, ..self };
        }
        let noted = if others.len() == 0 {
            scanned
        } else {
            add_line(scanned, others_line(&others))
        };
        let namespaces = namespaces_in(&raw);
        proof {
            law_namespaces(models(raw@));
            let first = models(raw@)[0].ns;
            assert(namespaces_spec(models(raw@)).contains(first));
            assert(models(raw@).take(raw@.len() as int) =~= models(raw@));
        }
        let log = add_line(noted, write_namespaces_line(&namespaces));
        Fetch { phase: Phase::Config { ns: 0 }, objects: self.objects, raw, namespaces, log }
    }

    /// Takes a page of the listing.
    pub fn take_page(self, page: ListingPage) -> (r: Fetch)
        ensures
            r@ == page_step(self@, page@),
            fetch_wf(r@),
            fetch_sound(r@),
    {
        proof {
            use_type_invariant(&self);
        }
        let no: u32 = match &self.phase {
            Phase::Listing { page: no, token } => *no,
            _ => {
                return self;
            },
        };
        let ghost before = self@;
        let n: usize = page.objects.len();
        assert(object_models(page.objects@).len() == n);
        let mut objects = self.objects;
        let mut more = page.objects;
        objects.append(&mut more);
        assert(object_models(objects@) =~= before.objects + page@.objects);
        let total: usize = objects.len();
        let log = add_line(self.log, write_page_line(no, n, total));
        let listed = Fetch {
            phase: self.phase,
            objects,
            raw: self.raw,
            namespaces: self.namespaces,
            log,
        };
        if page.token.as_str().is_empty() {
            listed.scan()
        } else if no >= MAX_PAGES {
            listed.fail(FetchError::TooManyPages)
        } else {
            Fetch { phase: Phase::Listing { page: no + 1, token: page.token }, ..listed }
        }
    }

    /// Takes what came of the request for a page of the listing.
    pub fn on_listing(self, reply: ListingReply) -> (r: Fetch)
        ensures
            r@ == listing_step(self@, reply@),
            fetch_wf(r@),
            fetch_sound(r@),
    {
        proof {
            use_type_invariant(&self);
        }
        match &self.phase {
            Phase::Listing { page, token } => {},
            _ => {
                return self;
            },
        }
        match reply {
            ListingReply::Body(body) => match parse_listing(body.as_str()) {
                Ok(page) => self.take_page(page),
                Err(e) => self.fail(FetchError::Parse(e)),
            },
            ListingReply::RequestFailed(e) => self.fail(FetchError::Request(e)),
            ListingReply::ReadFailed(e) => self.fail(FetchError::Read(e)),
        }
    }

    /// Goes on with the staged builds, from `at` on.
    fn go_on_staged(self, probes: Vec<Probe>, at: usize) -> (r: Fetch)
        requires
            at <= probes@.len(),
            entries_sound(self@),
            within(probe_models(probes@), self@.namespaces),
        ensures
            r@ == settle_staged(self@, probe_models(probes@), at as int),
            fetch_wf(r@),
            fetch_sound(r@),
    {
        assert(probe_models(probes@).len() == probes@.len());
        if at < probes.len() {
            Fetch { phase: Phase::Staged { probes, at, size: None }, ..self }
        } else {
            let groups = group_offers(&self.raw);
            Fetch { phase: Phase::Done(Ok(groups)), ..self }
        }
    }

    /// Goes on with what a namespace pins, from `at` on.
    fn go_on_pins(self, ns: usize, probes: Vec<Probe>, at: usize) -> (r: Fetch)
        requires
            ns < self@.namespaces.len(),
            at <= probes@.len(),
            entries_sound(self@),
            within(probe_models(probes@), self@.namespaces),
        ensures
            r@ == settle(
                (FetchModel {
                    phase: PhaseModel::Pins {
                        ns: ns as int,
                        probes: probe_models(probes@),
                        at: at as int,
                        size: None,
                    },
                    ..self@
                }),
            ),
            fetch_wf(r@),
            fetch_sound(r@),
    {
        assert(probe_models(probes@).len() == probes@.len());
        assert(views(self.namespaces@).len() == self.namespaces@.len());
        if at < probes.len() {
            Fetch { phase: Phase::Pins { ns, probes, at, size: None }, ..self }
        } else if ns < self.namespaces.len() - 1 {
            Fetch { phase: Phase::Config { ns: ns + 1 }, ..self }
        } else {
            let staged = staged_probes(&self.raw, &self.namespaces);
            proof {
                lemma_staged_probes_within(self@.raw, self@.namespaces);
            }
            self.go_on_staged(staged, 0)
        }
    }

    /// Takes the entries that a probe found.
    fn found(self, intro: &str, p: &Probe, size: u64, sidecar: bool) -> (r: Fetch)
        requires
            self@.phase is Config,
            self@.namespaces.contains(p@.ns),
        ensures
            r@ == found_step(self@, intro@, p@, size, sidecar),
            entries_sound(r@),
    {
        proof {
            use_type_invariant(&self);
            lemma_found_sound(self@, intro@, p@, size, sidecar);
        }
        let ghost before = self@;
        let log = add_line(self.log, write_found_line(intro, p));
        let mut raw = self.raw;
        let mut more = p.probe_entries(size, sidecar);
        raw.append(&mut more);
        assert(models(raw@) =~= before.raw + probe_entries_spec(p@, size, sidecar));
        Fetch {
            phase: self.phase,
            objects: self.objects,
            raw,
            namespaces: self.namespaces,
            log,
        }
    }

    /// Takes the configuration of a namespace, if it could be had.
    pub fn on_config(self, body: Option<&str>) -> (r: Fetch)
        ensures
            r@ == config_step(
                self@,
                match body {
                    Some(t) => Some(t@),
                    None => None,
                },
            ),
            fetch_wf(r@),
            fetch_sound(r@),
    {
        proof {
            use_type_invariant(&self);
        }
        let ns: usize = match &self.phase {
            Phase::Config { ns } => *ns,
            _ => {
                return self;
            },
        };
        let pins: Vec<ConfigPin> = match body {
            Some(text) => parse_server_config(text),
            None => Vec::new(),
        };
        let ghost what = match body {
            Some(t) => config_spec(t@),
            None => seq![],
        };
        assert(pin_models(pins@) =~= what);
        assert(what.len() == pins@.len());
        assert(views(self.namespaces@)[ns as int] == self.namespaces@[ns as int]@);
        let probes = pin_probes(self.namespaces[ns].as_str(), &pins);
        proof {
            lemma_pin_probes_within(self@.namespaces, ns as int, what);
        }
        if pins.len() == 0 {
            self.go_on_pins(ns, probes, 0)
        } else {
            let line = write_config_line(self.namespaces[ns].as_str(), pins.len());
            let noted = Fetch {
                phase: self.phase,
                objects: self.objects,
                raw: self.raw,
                namespaces: self.namespaces,
                log: add_line(self.log, line),
            };
            noted.go_on_pins(ns, probes, 0)
        }
    }

    /// Takes the answer to a HEAD request: the size of the object, if it is there.
    pub fn on_head(self, reply: Option<u64>) -> (r: Fetch)
        ensures
            r@ == head_step(self@, reply),
            fetch_wf(r@),
            fetch_sound(r@),
    {
        proof {
            use_type_invariant(&self);
            if !(self@.phase is Listing) && !(self@.phase is Done) {
                lemma_some_namespace(self@);
            }
        }
        let Fetch { phase, objects, raw, namespaces, log } = self;
        match phase {
            Phase::Pins { ns, probes, at, size } => {
                assert(probe_models(probes@)[at as int] == probes@[at as int]@);
                assert(at < probes.len());
                // The phase of `rest` stands only until the next one is known.
                let rest = Fetch { phase: Phase::Config { ns }, objects, raw, namespaces, log };
                match (size, reply) {
                    (None, Some(_)) => Fetch {
                        phase: Phase::Pins { ns, probes, at, size: reply },
                        ..rest
                    },
                    (None, None) => rest.go_on_pins(ns, probes, at + 1),
                    (Some(n), _) => {
                        let noted = rest.found(PIN_FOUND, &probes[at], n, reply.is_some());
                        noted.go_on_pins(ns, probes, at + 1)
                    },
                }
            },
            Phase::Staged { probes, at, size } => {
                assert(probe_models(probes@)[at as int] == probes@[at as int]@);
                assert(at < probes.len());
                // The phase of `rest` stands only until the next one is known.
                let rest = Fetch { phase: Phase::Config { ns: 0 }, objects, raw, namespaces, log };
                match (size, reply) {
                    (None, Some(_)) => Fetch {
                        phase: Phase::Staged { probes, at, size: reply },
                        ..rest
                    },
                    (None, None) => rest.go_on_staged(probes, at + 1),
                    (Some(n), _) => {
                        let noted = rest.found(STAGED_FOUND, &probes[at], n, reply.is_some());
                        noted.go_on_staged(probes, at + 1)
                    },
                }
            },
            _ => Fetch { phase, objects, raw, namespaces, log },
        }
    }

    /// The report so far.
    pub fn log(&self) -> (r: &Vec<String>)
        ensures
            views(r@) == self@.log,
    {
        &self.log
    }

    /// What the check came to, if it is over. What is offered is what the
    /// entries offer, which are those of the listing and, behind them, what
    /// probing found.
    pub fn outcome(self) -> (r: Option<Result<Vec<Group>, FetchError>>)
        ensures
            match r {
                Some(Ok(groups)) => self@.phase == PhaseModel::Done(Ok(group_models(groups@)))
                    && group_models(groups@) == groups_spec(self@.raw) && entries_sound(self@),
                Some(Err(e)) => self@.phase == PhaseModel::Done(Err(e@)),
                None => !(self@.phase is Done),
            },
    {
        proof {
            use_type_invariant(&self);
        }
        match self.phase {
            Phase::Done(r) => Some(r),
            _ => None,
        }
    }
}

} // verus!
