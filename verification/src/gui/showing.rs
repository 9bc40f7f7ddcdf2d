//! What the texts on display and the reports say.

use crate::gui::app::{app_start, box_spec, check_spec, download_spec, event_spec, logged};
use crate::gui::app::{selected_bytes, sub_spec, why_not_spec, AppModel};
use crate::gui::event::EvModel;
use crate::gui::job::{item_spec, item_step, job_start, progress_spec, JobModel};
use crate::gui::labels::{check_button_spec, download_button_spec, empty_text_spec};
use crate::gui::labels::{last_check_spec, progress_text_spec, selection_text_spec};
use crate::gui::rows::{button_spec, checked_of, hint_spec, offers_total, pad_left, pad_right};
use crate::gui::rows::{press_spec, row_text_spec, sizes, spaces, GroupUiModel};
use crate::gui::selecting::{checked_at, checked_rows, law_selected_rows};
use crate::ngx::feature::{law_consumer_names, title_of};
use crate::ngx::offer::{tag_spec, GroupModel, OfferModel};
use crate::number::decimal;
use crate::size::human_size_spec;
use crate::text::join_spec;
use vstd::prelude::*;

verus! {

// ---------------------------------------------------------------------------
// The report
// ---------------------------------------------------------------------------

/// A line is added behind the others. Up to five hundred lines stay; one more,
/// and the hundred oldest leave.
pub proof fn law_report(
    log: Seq<(Option<bool>, Seq<char>)>,
    ok: Option<bool>,
    text: Seq<char>,
)
    ensures
        log.len() < 500 ==> logged(log, ok, text) == log.push((ok, text)),
        log.len() >= 500 ==> logged(log, ok, text) == log.skip(100).push((ok, text)),
{
    if log.len() >= 500 {
        assert(log.push((ok, text)).skip(100) =~= log.skip(100).push((ok, text)));
    }
}

/// At its start the application is not at work, and shows nothing; the folder
/// is named by version.
pub proof fn law_app_starts()
    ensures
        ({
            let m = app_start();
            &&& !m.checking && !m.downloading && m.auto_name
            &&& m.status == "Not checked yet. Click \"Check NGX servers\"."@
            &&& m.last_check is None && m.done_dir is None
            &&& m.groups.len() == 0 && m.log.len() == 0 && m.sub.len() == 0
            &&& m.prog_done == 0 && m.prog_total == 0 && m.prog_label.len() == 0
        }),
{
}

/// What is shown and reported when a check begins, and when it went well.
pub proof fn law_check_reports(m: AppModel, groups: Seq<GroupModel>, now: nat)
    ensures
        !m.checking && !m.downloading ==> check_spec(m).status
            == "Checking NVIDIA NGX servers..."@ && check_spec(m).log == logged(
            m.log,
            None,
            "Checking https://ngx.download.nvidia.com ..."@,
        ),
        ({
            let n = event_spec(m, EvModel::CheckDone(Ok(groups)), now);
            &&& n.status == "Server check ok: "@ + decimal(offers_total(groups))
                + " versions across "@ + decimal(groups.len()) + " features ("@ + decimal(
                groups.len(),
            ) + " newest pre-selected)."@
            &&& n.log == logged(m.log, None, n.status)
        }),
{
    reveal_strlit("Checking ");
    reveal_strlit("https://ngx.download.nvidia.com");
    reveal_strlit(" ...");
    reveal_strlit("Checking https://ngx.download.nvidia.com ...");
    assert("Checking "@ + "https://ngx.download.nvidia.com"@ + " ..."@
        =~= "Checking https://ngx.download.nvidia.com ..."@);
}

/// The report with which a download begins: how many rows are checked, the
/// size of their offers, and the folder.
pub proof fn law_download_reports(m: AppModel, dest: Seq<char>) -> (at: Seq<(int, int)>)
    requires
        !m.checking,
        !m.downloading,
        exists|p: (int, int)| #[trigger] checked_at(m.groups, p),
    ensures
        checked_rows(m.groups, at),
        download_spec(m, dest).log == logged(
            m.log,
            None,
            "Downloading "@ + decimal(at.len()) + " package(s) ("@ + human_size_spec(
                selected_bytes(m),
            ) + ") into "@ + dest,
        ),
{
    let at = law_selected_rows(m.groups);
    let p = choose|p: (int, int)| #[trigger] checked_at(m.groups, p);
    assert(at.contains(p));
    at
}

/// What the other reports add to the log, line by line.
pub proof fn law_lines(m: AppModel, text: Seq<char>, now: nat)
    ensures
        event_spec(m, EvModel::Log(text), now).log == logged(m.log, None, text),
        event_spec(m, EvModel::Item(Ok(text)), now).log == logged(m.log, Some(true), text),
        event_spec(m, EvModel::Item(Err(text)), now).log == logged(m.log, Some(false), text),
        event_spec(m, EvModel::CheckDone(Err(text)), now).log == logged(
            m.log,
            Some(false),
            "Check failed: "@ + text,
        ),
        event_spec(m, EvModel::Done(Ok(text)), now).log == logged(
            m.log,
            Some(true),
            "Done. Files are in "@ + text,
        ),
        event_spec(m, EvModel::Done(Err(text)), now).log == logged(
            m.log,
            Some(false),
            "Download failed: "@ + text,
        ),
{
}

// ---------------------------------------------------------------------------
// Jobs
// ---------------------------------------------------------------------------

/// What a job reports: its progress counts what succeeded before and what has
/// come of the offer at hand, out of the size of all offers; and at the end of
/// an offer its files, or why it failed.
pub proof fn law_job_reports(m: JobModel, done: u64, files: Seq<Seq<char>>, e: Seq<char>)
    requires
        0 <= m.at < m.offers.len(),
        m.overall + done <= u64::MAX,
    ensures
        ({
            let o = m.offers[m.at];
            let label = title_of(o.dir) + " "@ + o.version;
            &&& progress_spec(m, done) matches EvModel::Prog { done: d, total, label: l } && d
                == m.overall + done && total == m.total && l == label
            &&& item_spec(o, Ok(files)) == EvModel::Item(
                Ok(
                    "✓ "@ + label + " "@ + human_size_spec(o.size as nat) + ": "@ + join_spec(
                        files,
                        ", "@,
                    ),
                ),
            )
            &&& item_spec(o, Err(e)) == EvModel::Item(Err("✗ "@ + label + " failed: "@ + e))
        }),
{
}

/// A job begins with the first offer and nothing done; an offer that failed
/// adds nothing to what is done, and the next one follows all the same.
pub proof fn law_job_goes_on(m: JobModel, offers: Seq<OfferModel>, dest: Seq<char>)
    requires
        sizes(offers) <= u64::MAX,
    ensures
        ({
            let s = job_start(offers, dest);
            &&& s.offers == offers && s.dest == dest && s.total == sizes(offers)
            &&& s.at == 0 && s.overall == 0 && s.successes == 0
        }),
        item_step(m, false) == (JobModel { at: m.at + 1, ..m }),
        item_step(m, true).at == m.at + 1,
        item_step(m, true).successes == m.successes + 1,
        item_step(m, true).offers == m.offers,
        item_step(m, true).dest == m.dest,
        item_step(m, true).total == m.total,
{
}

// ---------------------------------------------------------------------------
// Rows and buttons
// ---------------------------------------------------------------------------

/// Spaces are what a text is filled up with: as many as are missing.
proof fn lemma_spaces(n: int)
    ensures
        spaces(n).len() == (if n <= 0 {
            0
        } else {
            n
        }),
        forall|i: int| 0 <= i < spaces(n).len() ==> #[trigger] spaces(n)[i] == ' ',
    decreases n,
{
    if n > 0 {
        lemma_spaces(n - 1);
    }
}

/// A text is filled up with spaces, in front or behind, to the width; one
/// that is as long as that stays as it is.
pub proof fn law_padding(s: Seq<char>, width: int)
    ensures
        s.len() >= width ==> pad_left(s, width) == s && pad_right(s, width) == s,
        s.len() < width ==> {
            let n = width - s.len();
            &&& pad_left(s, width).len() == width && pad_right(s, width).len() == width
            &&& pad_left(s, width).skip(n) == s && pad_right(s, width).take(s.len() as int) == s
            &&& forall|i: int| 0 <= i < n ==> #[trigger] pad_left(s, width)[i] == ' '
            &&& forall|i: int| s.len() <= i < width ==> #[trigger] pad_right(s, width)[i] == ' '
        },
{
    let n = width - s.len();
    lemma_spaces(n);
    if s.len() >= width {
        assert(pad_left(s, width) =~= s);
        assert(pad_right(s, width) =~= s);
    } else {
        assert(pad_left(s, width).skip(n) =~= s);
        assert(pad_right(s, width).take(s.len() as int) =~= s);
    }
}

/// What a row says of its offer: version, tag and size, each at its width, the
/// number of mirrors, at least one, and whether the first of them has a
/// sidecar.
pub proof fn law_row_text(o: OfferModel)
    ensures
        row_text_spec(o) == "v"@ + pad_left(o.version, 9) + pad_right(
            tag_spec(o.payload, o.dir),
            14,
        ) + " "@ + pad_left(human_size_spec(o.size as nat), 8) + "   "@ + decimal(
            if o.candidates.len() == 0 {
                1
            } else {
                o.candidates.len()
            },
        ) + " mirror(s), sha256 "@ + (if o.candidates.len() > 0
            && o.candidates[0].sha256_url is Some {
            "✓"@
        } else {
            "—"@
        }),
{
}

/// What stands beside the title of a feature: the name of the file that it
/// becomes, and for Streamline some of the files.
pub proof fn law_hints(dir: Seq<char>)
    ensures
        !"sl_sdk"@.is_prefix_of(dir) ==> hint_spec(dir) == "→ nvngx_"@ + dir + ".dll"@,
        "sl_sdk"@.is_prefix_of(dir) ==> hint_spec(dir)
            == "→ sl.common.dll, sl.dlss.dll, sl.dlss_g.dll, sl.reflex.dll, …"@,
{
    law_consumer_names(dir);
    reveal_strlit("→ ");
    reveal_strlit("nvngx_");
    reveal_strlit("→ nvngx_");
    reveal_strlit("sl.common.dll, sl.dlss.dll, sl.dlss_g.dll, sl.reflex.dll, …");
    reveal_strlit("→ sl.common.dll, sl.dlss.dll, sl.dlss_g.dll, sl.reflex.dll, …");
    if "sl_sdk"@.is_prefix_of(dir) {
        assert(hint_spec(dir) =~= "→ sl.common.dll, sl.dlss.dll, sl.dlss_g.dll, sl.reflex.dll, …"@);
    } else {
        assert(hint_spec(dir) =~= "→ nvngx_"@ + dir + ".dll"@);
    }
}

/// What the button for a download says: the size of what is checked, or that
/// the download is under way; and what stands beside the progress bar.
pub proof fn law_button_texts(m: AppModel)
    ensures
        m.downloading ==> download_button_spec(m) == "Downloading…"@,
        !m.downloading ==> download_button_spec(m) == "Download selected ("@ + human_size_spec(
            sizes(checked_of(m.groups)),
        ) + ")"@,
        progress_text_spec(m) == human_size_spec(m.prog_done as nat) + " / "@ + human_size_spec(
            m.prog_total as nat,
        ) + " — "@ + m.prog_label,
{
}

/// What is shown where there is little to show, and when the last check was.
pub proof fn law_other_texts(m: AppModel)
    ensures
        m.checking ==> check_button_spec(m) == "Checking…"@ && empty_text_spec(m)
            == "Fetching package list from NVIDIA NGX servers…"@,
        !m.checking ==> check_button_spec(m) == "Check NGX servers"@ && empty_text_spec(m)
            == "Press \"Check NGX servers\" to list available DLSS / Streamline packages."@,
        m.last_check is None ==> last_check_spec(m) is None,
        m.last_check matches Some(t) ==> last_check_spec(m) == Some("last check: "@ + t),
{
}

/// The number of checked rows is shown if there are any, and why no download
/// can begin if nothing is at work: nothing is checked, or else the folder has
/// no name.
pub proof fn law_selection_texts(m: AppModel) -> (at: Seq<(int, int)>)
    ensures
        checked_rows(m.groups, at),
        at.len() == 0 ==> selection_text_spec(m) is None,
        at.len() > 0 ==> selection_text_spec(m) == Some(
            decimal(at.len()) + " package(s) selected"@,
        ),
        m.checking || m.downloading ==> why_not_spec(m) is None,
        !m.checking && !m.downloading ==> why_not_spec(m) == (if at.len() == 0 {
            Some("Nothing selected"@)
        } else if sub_spec(m).len() == 0 {
            Some("Empty subfolder name"@)
        } else {
            None
        }),
{
    law_selected_rows(m.groups)
}

/// The button of a group checks its first row where none is checked, and else
/// clears that check; no other row changes. Its label says which of the two.
pub proof fn law_group_pressed(g: GroupUiModel)
    ensures
        ({
            let none = forall|i: int| 0 <= i < g.rows.len() ==> !(#[trigger] g.rows[i]).checked;
            let after = press_spec(g);
            &&& after.dir == g.dir && after.rows.len() == g.rows.len()
            &&& forall|i: int|
                0 <= i < g.rows.len() ==> (#[trigger] after.rows[i]).offer == g.rows[i].offer
                    && after.rows[i].checked == (if i == 0 {
                    none
                } else {
                    g.rows[i].checked
                })
            &&& button_spec(g) == (if none {
                "latest"@
            } else {
                "clear"@
            })
        }),
{
}

/// The check box of a row sets its check, forgets the folder of an earlier
/// download, and changes nothing else.
pub proof fn law_box_pressed(m: AppModel, g: int, r: int, checked: bool)
    requires
        0 <= g < m.groups.len(),
        0 <= r < m.groups[g].rows.len(),
    ensures
        ({
            let n = box_spec(m, g, r, checked);
            &&& n == (AppModel { groups: n.groups, done_dir: None, ..m })
            &&& n.groups.len() == m.groups.len()
            &&& n.groups[g].rows[r].checked == checked
            &&& forall|i: int, j: int|
                0 <= i < m.groups.len() && 0 <= j < m.groups[i].rows.len() && (i, j) != (g, r) ==> (
                #[trigger] n.groups[i].rows[j]) == m.groups[i].rows[j]
        }),
{
}

} // verus!
