use dlssdl::gui::event::now_hms;
use dlssdl::gui::{DlssApp, Ev, GroupUi, RowUi};
use dlssdl::ngx::{decode_version, pack_semver, Candidate, Feature, Group, Offer};

fn offer(dir: &str, version: &str, size: u64) -> Offer {
    let id = pack_semver(version).unwrap();
    Offer {
        feature: Feature::from_dir(dir).unwrap(),
        version_id: id,
        version: decode_version(id),
        payload: "160_E658700.bin".to_string(),
        size,
        candidates: vec![Candidate { url: "u".to_string(), sha256_url: Some("s".to_string()) }],
    }
}

fn groups() -> Vec<Group> {
    vec![
        Group {
            feature: Feature::from_dir("dlss").unwrap(),
            offers: vec![offer("dlss", "310.9.0", 1024), offer("dlss", "310.5.2", 512)],
        },
        Group {
            feature: Feature::from_dir("sl_sdk_0").unwrap(),
            offers: vec![offer("sl_sdk_0", "400.1.0", 100)],
        },
    ]
}

fn checked() -> DlssApp {
    let mut app = DlssApp::new();
    app.drain_events(&vec![Ev::CheckDone(Ok(groups()))], 3661);
    app
}

#[test]
fn at_the_start() {
    let app = DlssApp::new();
    assert!(!app.is_busy());
    assert_eq!(app.status, "Not checked yet. Click \"Check NGX servers\".");
    assert_eq!(app.last_check_text(), None);
    assert_eq!(app.check_button(), "Check NGX servers");
    assert_eq!(app.download_button(), "Download selected (0 B)");
    assert_eq!(app.selection(), (0, 0));
    assert_eq!(app.selection_text(), None);
    assert_eq!(app.effective_sub(), "");
    assert_eq!(app.why_not(), Some("Nothing selected"));
    assert!(app.auto_name && app.log.is_empty() && app.groups.is_empty() && app.done_dir.is_none());
    assert_eq!(
        app.empty_text(),
        "Press \"Check NGX servers\" to list available DLSS / Streamline packages."
    );
}

#[test]
fn a_check() {
    let mut app = checked();
    app.done_dir = Some("d".to_string());
    assert!(app.spawn_check());
    assert!(app.checking && app.groups.is_empty() && app.done_dir.is_none());
    assert_eq!(app.status, "Checking NVIDIA NGX servers...");
    assert_eq!(app.log.last().unwrap(), &(None, "Checking https://ngx.download.nvidia.com ...".to_string()));
    assert_eq!(app.check_button(), "Checking…");
    assert_eq!(app.empty_text(), "Fetching package list from NVIDIA NGX servers…");
    assert_eq!(app.why_not(), None);
    let lines = app.log.len();
    assert!(!app.spawn_check());
    assert!(app.spawn_download("x").is_none());
    assert_eq!(app.log.len(), lines);
    app.drain_events(&vec![Ev::Log("m".to_string()), Ev::CheckDone(Err("no route".to_string()))], 86399);
    assert!(!app.checking);
    assert_eq!(app.status, "Check failed: no route");
    assert_eq!(app.log[lines], (None, "m".to_string()));
    assert_eq!(app.log[lines + 1], (Some(false), "Check failed: no route".to_string()));
    assert_eq!(app.last_check_text().as_deref(), Some("last check: 23:59:59 UTC"));
}

#[test]
fn newest_is_selected_after_a_check() {
    let app = checked();
    assert_eq!(
        app.status,
        "Server check ok: 3 versions across 2 features (2 newest pre-selected)."
    );
    assert_eq!(app.log, [(None, app.status.clone())]);
    assert_eq!(app.last_check.as_deref(), Some("01:01:01 UTC"));
    let marks: Vec<Vec<bool>> = app.groups.iter().map(|g| g.rows.iter().map(|r| r.checked).collect()).collect();
    assert_eq!(marks, [vec![true, false], vec![true]]);
    assert!(app.selection_fits());
    assert_eq!(app.selection(), (2, 1124));
    assert_eq!(app.selection_text().as_deref(), Some("2 package(s) selected"));
    assert_eq!(app.download_button(), "Download selected (1.1 KB)");
    assert!(app.can_download());
    assert_eq!(app.why_not(), None);
}

#[test]
fn name_of_the_folder() {
    let mut app = checked();
    assert_eq!(app.auto_folder_name(), "310.9.0");
    app.set_checked(0, 0, false);
    app.set_checked(0, 1, true);
    assert_eq!(app.auto_folder_name(), "310.5.2");
    app.set_checked(0, 1, false);
    assert_eq!(app.auto_folder_name(), "400.1.0");
    assert_eq!(app.effective_sub(), "400.1.0");
    app.auto_name = false;
    app.sub = "  /\\a/b\\ /\t".to_string();
    assert_eq!(app.effective_sub(), "a/b\\ ");
    app.sub = " // ".to_string();
    assert_eq!(app.effective_sub(), "");
    assert!(!app.can_download());
    assert_eq!(app.why_not(), Some("Empty subfolder name"));
}

#[test]
fn check_boxes() {
    let mut app = checked();
    app.done_dir = Some("d".to_string());
    app.set_checked(0, 1, true);
    assert!(app.groups[0].rows[1].checked && app.groups[0].rows[0].checked);
    assert!(app.done_dir.is_none());
    let g: &mut GroupUi = &mut app.groups[0];
    assert_eq!(g.button(), "clear");
    g.press();
    assert!(!g.rows[0].checked && g.rows[1].checked);
    g.rows[1].checked = false;
    assert_eq!(g.button(), "latest");
    g.press();
    assert!(g.rows[0].checked && !g.rows[1].checked);
    g.latest_checked_mut(false);
    assert!(!g.any());
    assert_eq!(g.hint(), "→ nvngx_dlss.dll");
    assert_eq!(
        app.groups[1].hint(),
        "→ sl.common.dll, sl.dlss.dll, sl.dlss_g.dll, sl.reflex.dll, …"
    );
    let mut empty = GroupUi { feature: Feature::from_dir("dlss").unwrap(), rows: vec![] };
    empty.press();
    assert!(empty.rows.is_empty());
}

#[test]
fn text_of_a_row() {
    let mut row = RowUi { offer: offer("dlss", "310.9.0", 74_208_880), checked: false };
    assert_eq!(
        row.text(),
        format!("v{:>9}{:<14} {:>8}   {} mirror(s), sha256 {}", "310.9.0", "", "70.8 MB", 1, "✓")
    );
    row.offer.payload = "1B0_865EFBC.bin".to_string();
    row.offer.version = "65535.255.255".to_string();
    row.offer.size = 1048575;
    row.offer.candidates.push(Candidate { url: "v".to_string(), sha256_url: None });
    row.offer.candidates[0].sha256_url = None;
    assert_eq!(
        row.text(),
        format!("v{:>9}{:<14} {:>8}   {} mirror(s), sha256 {}", "65535.255.255", " [1B0/app_865EFBC]", "1024.0 KB", 2, "—")
    );
    row.offer.candidates.clear();
    assert_eq!(row.mirrors(), 1);
    assert!(!row.sidecar());
}

#[test]
fn a_download() {
    let mut app = checked();
    let mut job = app.press_download("base/310.9.0").unwrap();
    assert_eq!(app.sub, "310.9.0");
    assert!(app.downloading);
    assert_eq!((app.prog_done, app.prog_total), (0, 1124));
    assert_eq!(
        app.log.last().unwrap(),
        &(None, "Downloading 2 package(s) (1.1 KB) into base/310.9.0".to_string())
    );
    assert_eq!(app.download_button(), "Downloading…");
    assert!(app.spawn_download("y").is_none());

    let mut events = Vec::new();
    assert_eq!(job.current().unwrap().version, "310.9.0");
    events.push(job.progress(0));
    events.push(job.progress(1000));
    let (next, ev) = job.finish(Ok(vec!["nvngx_dlss.dll".to_string()]));
    job = next;
    events.push(ev);
    assert_eq!(job.overall(), 1024);
    assert_eq!(job.current().unwrap().version, "400.1.0");
    events.push(job.progress(50));
    let (next, ev) = job.finish(Err("HTTP 404".to_string()));
    job = next;
    events.push(ev);
    assert!(job.current().is_none());
    assert_eq!(job.overall(), 1024);
    app.drain_events(&events, 0);
    assert_eq!((app.prog_done, app.prog_total), (1074, 1124));
    assert_eq!(app.prog_label, "Streamline SDK 400.1.0");
    assert_eq!(app.progress_text(), "1.0 KB / 1.1 KB — Streamline SDK 400.1.0");
    let n = app.log.len();
    assert_eq!(app.log[n - 2], (Some(true), "✓ DLSS Super Resolution 310.9.0 1.0 KB: nvngx_dlss.dll".to_string()));
    assert_eq!(app.log[n - 1], (Some(false), "✗ Streamline SDK 400.1.0 failed: HTTP 404".to_string()));
    app.drain_events(&vec![job.end()], 0);
    assert!(!app.downloading);
    assert_eq!(app.done_dir.as_deref(), Some("base/310.9.0"));
    assert_eq!(app.status, "Done. Files are in base/310.9.0");
    assert_eq!(app.log.last().unwrap(), &(Some(true), app.status.clone()));
}

#[test]
fn a_download_that_fails() {
    let mut app = checked();
    app.auto_name = false;
    app.sub = "mine".to_string();
    app.set_checked(1, 0, false);
    let job = app.press_download("base/mine").unwrap();
    assert_eq!(app.sub, "mine");
    let (job, ev) = job.finish(Err("x".to_string()));
    app.drain_events(&vec![ev, job.end()], 0);
    assert_eq!(app.status, "Download failed: all downloads failed");
    assert_eq!(app.log.last().unwrap(), &(Some(false), app.status.clone()));
    assert!(!app.downloading && app.done_dir.is_none());
}

#[test]
fn a_selection_that_is_too_large() {
    let mut app = checked();
    app.groups[0].rows[0].offer.size = u64::MAX;
    assert!(!app.selection_fits());
    app.set_checked(1, 0, false);
    assert!(app.selection_fits());
    assert_eq!(app.selection(), (1, u64::MAX));
}

#[test]
fn the_report_is_not_too_long() {
    let mut app = DlssApp::new();
    for i in 0..500 {
        app.push_log(None, format!("{i}"));
    }
    assert_eq!(app.log.len(), 500);
    app.push_log(Some(true), "500".to_string());
    assert_eq!(app.log.len(), 401);
    assert_eq!(app.log[0].1, "100");
    assert_eq!(app.log[400], (Some(true), "500".to_string()));
}

#[test]
fn time_of_day() {
    assert_eq!(now_hms(0), "00:00:00 UTC");
    assert_eq!(now_hms(86399), "23:59:59 UTC");
    assert_eq!(now_hms(1_700_000_000), "22:13:20 UTC");
    assert_eq!(now_hms(u64::MAX), "07:00:15 UTC");
}
