//! The application.

use crate::gui::event::{ev_models, hms_spec, now_hms, Ev, EvModel};
use crate::gui::job::{job_start, job_wf, Job};
use crate::gui::rows::{borrowed_offers, checked_of, checked_offers, fresh_group};
use crate::gui::rows::{fresh_groups, group_ui_models, newest_checked, newest_of};
use crate::gui::rows::{offers_total, sizes, total_size, GroupUi, GroupUiModel, RowModel};
use crate::ngx::offer::{group_models, offer_models, text_in, Group, GroupModel, Offer};
use crate::ngx::urls::NGX_HOST;
use crate::ngx::version::{decode_version, version_spec};
use crate::number::{decimal, push_decimal, push_wide_decimal};
use crate::size::{human_size, human_size_spec};
use crate::text::{chars_of, copy_text, text_of, trim, trim_slashes, trim_slashes_spec, trim_spec};
use vstd::prelude::*;

verus! {

/// The most lines that the report may hold.
pub const LOG_MAX: usize = 500;

/// The number of lines that leave the report when it is full.
pub const LOG_DROP: usize = 100;

/// The state of the application.
pub struct AppModel {
    pub checking: bool,
    pub downloading: bool,
    pub status: Seq<char>,
    pub last_check: Option<Seq<char>>,
    pub groups: Seq<GroupUiModel>,
    pub log: Seq<(Option<bool>, Seq<char>)>,
    pub sub: Seq<char>,
    pub auto_name: bool,
    pub prog_done: u64,
    pub prog_total: u64,
    pub prog_label: Seq<char>,
    pub done_dir: Option<Seq<char>>,
}

/// The application.
#[derive(Debug)]
pub struct DlssApp {
    pub checking: bool,
    pub downloading: bool,
    pub status: String,
    pub last_check: Option<String>,
    pub groups: Vec<GroupUi>,
    /// Whether it went well, if it can be said, and the text.
    pub log: Vec<(Option<bool>, String)>,
    pub sub: String,
    pub auto_name: bool,
    pub prog_done: u64,
    pub prog_total: u64,
    pub prog_label: String,
    pub done_dir: Option<String>,
}

/// What the lines of a report are.
pub open spec fn line_models(v: Seq<(Option<bool>, String)>) -> Seq<(Option<bool>, Seq<char>)> {
    v.map_values(|l: (Option<bool>, String)| (l.0, l.1@))
}

impl View for DlssApp {
    type V = AppModel;

    open spec fn view(&self) -> AppModel {
        AppModel {
            checking: self.checking,
            downloading: self.downloading,
            status: self.status@,
            last_check: text_in(self.last_check),
            groups: group_ui_models(self.groups@),
            log: line_models(self.log@),
            sub: self.sub@,
            auto_name: self.auto_name,
            prog_done: self.prog_done,
            prog_total: self.prog_total,
            prog_label: self.prog_label@,
            done_dir: text_in(self.done_dir),
        }
    }
}

// ---------------------------------------------------------------------------
// What it does
// ---------------------------------------------------------------------------

/// The application at its start.
pub open spec fn app_start() -> AppModel {
    AppModel {
        checking: false,
        downloading: false,
        status: "Not checked yet. Click \"Check NGX servers\"."@,
        last_check: None,
        groups: seq![],
        log: seq![],
        sub: seq![],
        auto_name: true,
        prog_done: 0,
        prog_total: 0,
        prog_label: seq![],
        done_dir: None,
    }
}

/// It is at work.
pub open spec fn busy(m: AppModel) -> bool {
    m.checking || m.downloading
}

/// A report with one line more; where that makes it too long, the oldest
/// lines leave it.
pub open spec fn logged(
    log: Seq<(Option<bool>, Seq<char>)>,
    ok: Option<bool>,
    text: Seq<char>,
) -> Seq<(Option<bool>, Seq<char>)> {
    let more = log.push((ok, text));
    if more.len() > LOG_MAX {
        more.skip(LOG_DROP as int)
    } else {
        more
    }
}

/// What the button for a check does: nothing while the application is at work.
pub open spec fn check_spec(m: AppModel) -> AppModel {
    if busy(m) {
        m
    } else {
        AppModel {
            checking: true,
            groups: seq![],
            done_dir: None,
            status: "Checking NVIDIA NGX servers..."@,
            log: logged(m.log, None, "Checking "@ + NGX_HOST@ + " ..."@),
            ..m
        }
    }
}

/// The size of what is selected.
pub open spec fn selected_bytes(m: AppModel) -> nat {
    sizes(checked_of(m.groups))
}

/// The name of the folder by version: the newest DLSS version that is
/// selected, or else the newest Streamline version.
pub open spec fn auto_name_spec(m: AppModel) -> Seq<char> {
    match (newest_of(m.groups, false), newest_of(m.groups, true)) {
        (Some(v), _) => version_spec(v),
        (None, Some(v)) => version_spec(v),
        (None, None) => seq![],
    }
}

/// The name of the folder: that by version, or what was entered, without
/// white space round it and then without slashes round it.
pub open spec fn sub_spec(m: AppModel) -> Seq<char> {
    if m.auto_name {
        auto_name_spec(m)
    } else {
        trim_slashes_spec(trim_spec(m.sub))
    }
}

/// A download can begin.
pub open spec fn can_download_spec(m: AppModel) -> bool {
    !busy(m) && checked_of(m.groups).len() > 0 && sub_spec(m).len() > 0
}

/// The report with which a download begins.
pub open spec fn download_line(n: nat, total: nat, dest: Seq<char>) -> Seq<char> {
    "Downloading "@ + decimal(n) + " package(s) ("@ + human_size_spec(total) + ") into "@ + dest
}

/// A download of what is selected begins where something is selected and the
/// application is not at work.
pub open spec fn starts_download(m: AppModel) -> bool {
    checked_of(m.groups).len() > 0 && !busy(m)
}

/// The application once a download has begun.
pub open spec fn download_spec(m: AppModel, dest: Seq<char>) -> AppModel {
    if starts_download(m) {
        AppModel {
            downloading: true,
            prog_total: selected_bytes(m) as u64,
            prog_done: 0,
            prog_label: seq![],
            done_dir: None,
            log: logged(
                m.log,
                None,
                download_line(checked_of(m.groups).len(), selected_bytes(m), dest),
            ),
            ..m
        }
    } else {
        m
    }
}

/// The application before a download begins by the button: the name of the
/// folder by version is kept as if it had been entered.
pub open spec fn named(m: AppModel) -> AppModel {
    if m.auto_name {
        AppModel { sub: auto_name_spec(m), ..m }
    } else {
        m
    }
}

/// The status behind a check that went well.
pub open spec fn check_line(groups: Seq<GroupModel>) -> Seq<char> {
    "Server check ok: "@ + decimal(offers_total(groups)) + " versions across "@ + decimal(
        groups.len(),
    ) + " features ("@ + decimal(groups.len()) + " newest pre-selected)."@
}

/// With a new status, which is reported too.
pub open spec fn with_status(m: AppModel, ok: Option<bool>, status: Seq<char>) -> AppModel {
    AppModel { status, log: logged(m.log, ok, status), ..m }
}

/// What a report of a worker does, at time `now`.
pub open spec fn event_spec(m: AppModel, ev: EvModel, now: nat) -> AppModel {
    match ev {
        EvModel::Log(text) => AppModel { log: logged(m.log, None, text), ..m },
        EvModel::CheckDone(Ok(groups)) => with_status(
            AppModel {
                checking: false,
                last_check: Some(hms_spec(now)),
                groups: fresh_groups(groups),
                ..m
            },
            None,
            check_line(groups),
        ),
        EvModel::CheckDone(Err(e)) => with_status(
            AppModel { checking: false, last_check: Some(hms_spec(now)), ..m },
            Some(false),
            "Check failed: "@ + e,
        ),
        EvModel::Prog { done, total, label } => AppModel {
            prog_done: done,
            prog_total: total,
            prog_label: label,
            ..m
        },
        EvModel::Item(Ok(text)) => AppModel { log: logged(m.log, Some(true), text), ..m },
        EvModel::Item(Err(text)) => AppModel { log: logged(m.log, Some(false), text), ..m },
        EvModel::Done(Ok(path)) => with_status(
            AppModel { downloading: false, done_dir: Some(path), ..m },
            Some(true),
            "Done. Files are in "@ + path,
        ),
        EvModel::Done(Err(e)) => with_status(
            AppModel { downloading: false, ..m },
            Some(false),
            "Download failed: "@ + e,
        ),
    }
}

/// What reports of the workers do, one after another.
pub open spec fn events_spec(m: AppModel, evs: Seq<EvModel>, now: nat) -> AppModel
    decreases evs.len(),
{
    if evs.len() == 0 {
        m
    } else {
        event_spec(events_spec(m, evs.drop_last(), now), evs.last(), now)
    }
}

/// The groups with one row checked, or not.
pub open spec fn with_check(groups: Seq<GroupUiModel>, g: int, r: int, checked: bool) -> Seq<
    GroupUiModel,
> {
    groups.update(
        g,
        GroupUiModel {
            dir: groups[g].dir,
            rows: groups[g].rows.update(
                r,
                RowModel { offer: groups[g].rows[r].offer, checked },
            ),
        },
    )
}

/// What the check box of a row does: the folder of an earlier download is forgotten.
pub open spec fn box_spec(m: AppModel, g: int, r: int, checked: bool) -> AppModel {
    AppModel { groups: with_check(m.groups, g, r, checked), done_dir: None, ..m }
}

/// Why no download can begin, where the application is not at work.
pub open spec fn why_not_spec(m: AppModel) -> Option<Seq<char>> {
    if busy(m) || can_download_spec(m) {
        None
    } else if checked_of(m.groups).len() == 0 {
        Some("Nothing selected"@)
    } else {
        Some("Empty subfolder name"@)
    }
}

/// Copies of borrowed offers.
fn own_all(offers: &Vec<&Offer>) -> (r: Vec<Offer>)
    ensures
        offer_models(r@) == borrowed_offers(offers@),
{
    let mut out: Vec<Offer> = Vec::new();
    let mut i: usize = 0;
    while i < offers.len()
        invariant
            i <= offers@.len(),
            out@.len() == i,
            forall|j: int| 0 <= j < i ==> (#[trigger] out@[j])@ == offers@[j]@,
        decreases offers@.len() - i,
    {
        out.push(offers[i].clone());
        i = i + 1;
    }
    assert(offer_models(out@) =~= borrowed_offers(offers@));
    out
}

/// Writes the status behind a check that went well.
fn write_check_line(groups: &Vec<Group>) -> (r: String)
    ensures
        r@ == check_line(group_models(groups@)),
{
    let ghost all = group_models(groups@);
    let mut total: u128 = 0;
    let mut i: usize = 0;
    assert(all.take(0) =~= seq![]);
    while i < groups.len()
        invariant
            i <= groups@.len(),
            all == group_models(groups@),
            total == offers_total(all.take(i as int)),
            total <= i * 0xFFFF_FFFF_FFFF_FFFF,
        decreases groups@.len() - i,
    {
        assert(all.take(i + 1).drop_last() =~= all.take(i as int));
        assert(all.take(i + 1).last() == groups@[i as int]@);
        assert(groups@[i as int]@.offers.len() == groups@[i as int].offers@.len());
        total = total + groups[i].offers.len() as u128;
        i = i + 1;
    }
    assert(all.take(all.len() as int) =~= all);
    let mut out = copy_text("Server check ok: ");
    push_wide_decimal(&mut out, total);
    out.append(" versions across ");
    push_decimal(&mut out, groups.len() as u64);
    out.append(" features (");
    push_decimal(&mut out, groups.len() as u64);
    out.append(" newest pre-selected).");
    out
}

/// The groups on display for an offering.
fn display(groups: &Vec<Group>) -> (r: Vec<GroupUi>)
    ensures
        group_ui_models(r@) == fresh_groups(group_models(groups@)),
{
    let ghost fresh = fresh_groups(group_models(groups@));
    let mut out: Vec<GroupUi> = Vec::new();
    let mut i: usize = 0;
    while i < groups.len()
        invariant
            i <= groups@.len(),
            out@.len() == i,
            fresh == fresh_groups(group_models(groups@)),
            forall|j: int| 0 <= j < i ==> (#[trigger] out@[j])@ == fresh[j],
        decreases groups@.len() - i,
    {
        assert(group_models(groups@)[i as int] == groups@[i as int]@);
        out.push(fresh_group(&groups[i]));
        i = i + 1;
    }
    assert(group_ui_models(out@) =~= fresh);
    out
}

impl DlssApp {
    /// The application at its start.
    pub fn new() -> (r: DlssApp)
        ensures
            r@ == app_start(),
    {
        let r = DlssApp {
            checking: false,
            downloading: false,
            status: copy_text("Not checked yet. Click \"Check NGX servers\"."),
            last_check: None,
            groups: Vec::new(),
            log: Vec::new(),
            sub: String::new(),
            auto_name: true,
            prog_done: 0,
            prog_total: 0,
            prog_label: String::new(),
            done_dir: None,
        };
        assert(r@.groups =~= seq![]);
        assert(r@.log =~= seq![]);
        assert(r@.sub =~= seq![]);
        assert(r@.prog_label =~= seq![]);
        r
    }

    /// Adds a line to the report.
    pub fn push_log(&mut self, ok: Option<bool>, text: String)
        ensures
            final(self)@ == (AppModel { log: logged(old(self)@.log, ok, text@), ..old(self)@ }),
    {
        let ghost before = self@.log;
        let ghost line = (ok, text@);
        self.log.push((ok, text));
        assert(line_models(self.log@) =~= before.push(line));
        if self.log.len() > LOG_MAX {
            let rest = self.log.split_off(LOG_DROP);
            self.log = rest;
            assert(line_models(self.log@) =~= before.push(line).skip(LOG_DROP as int));
        }
    }

    /// Whether it is at work.
    pub fn is_busy(&self) -> (r: bool)
        ensures
            r == busy(self@),
    {
        self.checking || self.downloading
    }

    /// The button for a check. Says whether a check is to begin.
    pub fn spawn_check(&mut self) -> (r: bool)
        ensures
            final(self)@ == check_spec(old(self)@),
            r == !busy(old(self)@),
    {
        if self.checking || self.downloading {
            return false;
        }
        self.checking = true;
        self.groups = Vec::new();
        assert(group_ui_models(self.groups@) =~= seq![]);
        self.done_dir = None;
        self.status = copy_text("Checking NVIDIA NGX servers...");
        let mut line = copy_text("Checking ");
        line.append(NGX_HOST);
        line.append(" ...");
        self.push_log(None, line);
        true
    }

    /// Whether the size of what is selected is a number that `selection` can give.
    pub fn selection_fits(&self) -> (r: bool)
        ensures
            r == (selected_bytes(self@) <= u64::MAX),
    {
        let offers = checked_offers(&self.groups);
        total_size(&offers) <= u64::MAX as u128
    }

    /// (selected count, total bytes)
    pub fn selection(&self) -> (r: (usize, u64))
        requires
            selected_bytes(self@) <= u64::MAX,
        ensures
            r.0 == checked_of(self@.groups).len(),
            r.1 == selected_bytes(self@),
    {
        let offers = checked_offers(&self.groups);
        assert(borrowed_offers(offers@).len() == offers@.len());
        (offers.len(), total_size(&offers) as u64)
    }

    /// The name of the folder by version.
    pub fn auto_folder_name(&self) -> (r: String)
        ensures
            r@ == auto_name_spec(self@),
    {
        match newest_checked(&self.groups, false) {
            Some(v) => decode_version(v),
            None => match newest_checked(&self.groups, true) {
                Some(v) => decode_version(v),
                None => {
                    let none = String::new();
                    assert(none@ =~= seq![]);
                    none
                },
            },
        }
    }

    /// The name of the folder.
    pub fn effective_sub(&self) -> (r: String)
        ensures
            r@ == sub_spec(self@),
    {
        if self.auto_name {
            self.auto_folder_name()
        } else {
            let cs = chars_of(self.sub.as_str());
            text_of(trim_slashes(trim(cs.as_slice())))
        }
    }

    /// Whether a download can begin.
    pub fn can_download(&self) -> (r: bool)
        ensures
            r == can_download_spec(self@),
    {
        let offers = checked_offers(&self.groups);
        assert(borrowed_offers(offers@).len() == offers@.len());
        let sub = self.effective_sub();
        !self.is_busy() && offers.len() > 0 && !sub.as_str().is_empty()
    }

    /// Why no download can begin, where the application is not at work.
    pub fn why_not(&self) -> (r: Option<&'static str>)
        ensures
            match r {
                Some(t) => !busy(self@) && !can_download_spec(self@) && t@ == (if checked_of(
                    self@.groups,
                ).len() == 0 {
                    "Nothing selected"@
                } else {
                    "Empty subfolder name"@
                }),
                None => busy(self@) || can_download_spec(self@),
            },
            r is Some <==> why_not_spec(self@) is Some,
            r matches Some(t) ==> why_not_spec(self@) == Some(t@),
    {
        if self.is_busy() || self.can_download() {
            return None;
        }
        let offers = checked_offers(&self.groups);
        assert(borrowed_offers(offers@).len() == offers@.len());
        if offers.len() == 0 {
            Some("Nothing selected")
        } else {
            Some("Empty subfolder name")
        }
    }

    /// Begins a download of what is selected into `dest`. Gives the job, if
    /// there is one to do.
    pub fn spawn_download(&mut self, dest: &str) -> (r: Option<Job>)
        requires
            starts_download(old(self)@) ==> selected_bytes(old(self)@) <= u64::MAX,
        ensures
            final(self)@ == download_spec(old(self)@, dest@),
            match r {
                Some(job) => starts_download(old(self)@) && job_wf(job@) && job@ == job_start(
                    checked_of(old(self)@.groups),
                    dest@,
                ),
                None => !starts_download(old(self)@),
            },
    {
        let offers = checked_offers(&self.groups);
        assert(borrowed_offers(offers@).len() == offers@.len());
        if offers.len() == 0 || self.downloading || self.checking {
            return None;
        }
        let n: usize = offers.len();
        let total: u64 = total_size(&offers) as u64;
        let jobs = own_all(&offers);
        self.downloading = true;
        self.prog_total = total;
        self.prog_done = 0;
        self.prog_label = String::new();
        assert(self.prog_label@ =~= seq![]);
        self.done_dir = None;
        let mut line = copy_text("Downloading ");
        push_decimal(&mut line, n as u64);
        line.append(" package(s) (");
        line.append(human_size(total).as_str());
        line.append(") into ");
        line.append(dest);
        self.push_log(None, line);
        Some(Job::new(jobs, dest, total))
    }

    /// The button for a download. Gives the job, if there is one to do.
    pub fn press_download(&mut self, dest: &str) -> (r: Option<Job>)
        requires
            starts_download(old(self)@) ==> selected_bytes(old(self)@) <= u64::MAX,
        ensures
            final(self)@ == download_spec(named(old(self)@), dest@),
            match r {
                Some(job) => starts_download(old(self)@) && job_wf(job@) && job@ == job_start(
                    checked_of(old(self)@.groups),
                    dest@,
                ),
                None => !starts_download(old(self)@),
            },
    {
        if self.auto_name {
            self.sub = self.auto_folder_name();
        }
        self.spawn_download(dest)
    }

    /// Takes a report of a worker, at time `now`, in seconds into the epoch.
    pub fn take_event(&mut self, ev: &Ev, now: u64)
        ensures
            final(self)@ == event_spec(old(self)@, ev@, now as nat),
    {
        match ev {
            Ev::Log(text) => {
                self.push_log(None, copy_text(text.as_str()));
            },
            Ev::CheckDone(Ok(groups)) => {
                self.checking = false;
                self.last_check = Some(now_hms(now));
                self.groups = display(groups);
                let line = write_check_line(groups);
                self.status = copy_text(line.as_str());
                self.push_log(None, line);
            },
            Ev::CheckDone(Err(e)) => {
                self.checking = false;
                self.last_check = Some(now_hms(now));
                let mut line = copy_text("Check failed: ");
                line.append(e.as_str());
                self.status = copy_text(line.as_str());
                self.push_log(Some(false), line);
            },
            Ev::Prog { done, total, label } => {
                self.prog_done = *done;
                self.prog_total = *total;
                self.prog_label = copy_text(label.as_str());
            },
            Ev::Item(Ok(text)) => {
                self.push_log(Some(true), copy_text(text.as_str()));
            },
            Ev::Item(Err(text)) => {
                self.push_log(Some(false), copy_text(text.as_str()));
            },
            Ev::Done(Ok(path)) => {
                self.downloading = false;
                self.done_dir = Some(copy_text(path.as_str()));
                let mut line = copy_text("Done. Files are in ");
                line.append(path.as_str());
                self.status = copy_text(line.as_str());
                self.push_log(Some(true), line);
            },
            Ev::Done(Err(e)) => {
                self.downloading = false;
                let mut line = copy_text("Download failed: ");
                line.append(e.as_str());
                self.status = copy_text(line.as_str());
                self.push_log(Some(false), line);
            },
        }
    }

    /// Takes reports of the workers, at time `now`, in seconds into the epoch.
    pub fn drain_events(&mut self, events: &Vec<Ev>, now: u64)
        ensures
            final(self)@ == events_spec(old(self)@, ev_models(events@), now as nat),
    {
        let ghost all = ev_models(events@);
        let mut i: usize = 0;
        assert(all.take(0) =~= seq![]);
        while i < events.len()
            invariant
                i <= events@.len(),
                all == ev_models(events@),
                self@ == events_spec(old(self)@, all.take(i as int), now as nat),
            decreases events@.len() - i,
        {
            assert(all.take(i + 1).drop_last() =~= all.take(i as int));
            assert(all.take(i + 1).last() == events@[i as int]@);
            self.take_event(&events[i], now);
            i = i + 1;
        }
        assert(all.take(all.len() as int) =~= all);
    }

    /// The check box of a row: the folder of an earlier download is forgotten.
    pub fn set_checked(&mut self, group: usize, row: usize, checked: bool)
        requires
            group < old(self)@.groups.len(),
            row < old(self)@.groups[group as int].rows.len(),
        ensures
            final(self)@ == (AppModel {
                groups: with_check(old(self)@.groups, group as int, row as int, checked),
                done_dir: None,
                ..old(self)@
            }),
            final(self)@ == box_spec(old(self)@, group as int, row as int, checked),
    {
        let ghost before = self@.groups;
        assert(before[group as int] == self.groups@[group as int]@);
        assert(before[group as int].rows[row as int] == self.groups@[group as int].rows@[row as int]@);
        self.groups[group].rows[row].checked = checked;
        self.done_dir = None;
        assert(self@.groups[group as int].rows =~= with_check(
            before,
            group as int,
            row as int,
            checked,
        )[group as int].rows);
        assert(self@.groups =~= with_check(before, group as int, row as int, checked));
    }
}

} // verus!
