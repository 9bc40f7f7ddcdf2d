use dlssdl::ngx::archive::{
    archive_line, gather, member_target, plan_members, sort_texts, unpack, MemberPlan,
};
use dlssdl::ngx::digest::{check_digest, parse_sidecar, sha256_hex};
use dlssdl::ngx::download::{check_part, Action, Download};
use dlssdl::ngx::error::DownloadError;
use dlssdl::ngx::{download_offer, Candidate, Feature, Offer};
use std::io::Write;

const ABC: &str = "ba7816bf8f01cfea414140de5dae2223b00361a396177a9cb410ff61f20015ad";

fn offer(dir: &str, size: u64, mirrors: &[(&str, bool)]) -> Offer {
    Offer {
        feature: Feature::from_dir(dir).unwrap(),
        version_id: 1,
        version: "0.0.1".to_string(),
        payload: "160_E658700.bin".to_string(),
        size,
        candidates: mirrors
            .iter()
            .map(|(url, sidecar)| Candidate {
                url: url.to_string(),
                sha256_url: if *sidecar { Some(format!("{url}.sha256")) } else { None },
            })
            .collect(),
    }
}

fn failure(d: Download) -> String {
    d.outcome().unwrap().unwrap_err().message()
}

#[test]
fn digests() {
    assert_eq!(sha256_hex(b"abc"), ABC);
    assert_eq!(sha256_hex(b""), "e3b0c44298fc1c149afbf4c8996fb92427ae41e4649b934ca495991b7852b855");
}

#[test]
fn sidecars() {
    assert_eq!(parse_sidecar(ABC).unwrap(), ABC);
    assert_eq!(parse_sidecar(&format!("{}  file.bin\n", ABC.to_uppercase())).unwrap(), ABC);
    for bad in ["", "x", &ABC[1..], &format!("{ABC}0"), &format!(" {ABC}")] {
        assert_eq!(parse_sidecar(bad).unwrap_err().message(), "sha256 sidecar has unexpected format");
    }
    assert!(check_digest(ABC, ABC).is_ok());
    assert_eq!(
        check_digest("aa", "bb").unwrap_err().message(),
        "sha256 mismatch (expected aa, got bb)"
    );
}

#[test]
fn parts_against_their_sidecars() {
    assert!(check_part(Ok(format!("{ABC}\n")), Ok(b"abc".to_vec())).is_ok());
    let wrong = check_part(Ok(ABC.to_string()), Ok(b"abd".to_vec())).unwrap_err();
    assert_eq!(
        wrong.message(),
        format!("sha256 mismatch (expected {ABC}, got {})", sha256_hex(b"abd"))
    );
    let unreadable = check_part(Ok(ABC.to_string()), Err("gone".to_string())).unwrap_err();
    assert_eq!(unreadable.message(), "gone");
    // The sidecar is looked at first.
    let format = check_part(Ok("?".to_string()), Err("gone".to_string())).unwrap_err();
    assert!(matches!(format, DownloadError::SidecarFormat));
    let fetch = check_part(Err(DownloadError::SidecarFetch("refused".to_string())), Ok(vec![])).unwrap_err();
    assert_eq!(fetch.message(), "sha256 sidecar fetch failed: refused");
}

#[test]
fn messages() {
    assert_eq!(DownloadError::Http(404).message(), "HTTP 404");
    assert_eq!(DownloadError::SidecarRead("x".to_string()).message(), "sha256 sidecar read failed: x");
    assert_eq!(DownloadError::BadArchive("x".to_string()).message(), "parsing Streamline zip archive: x");
    assert_eq!(DownloadError::BadMember("x".to_string()).message(), "reading zip member: x");
    assert_eq!(DownloadError::NoDll.message(), "no .dll members found in Streamline archive");
    assert_eq!(DownloadError::Other("x".to_string()).message(), "x");
}

#[test]
fn download_with_sidecar() {
    let d = download_offer(&offer("dlss", 99, &[("u", true)]));
    assert!(matches!(d.action(), Action::Receive(u) if u == "u"));
    // The size does not matter where there is a sidecar.
    let d = d.on_payload(Ok(3));
    assert!(matches!(d.action(), Action::FetchSidecar(u) if u == "u.sha256"));
    let d = d.on_sidecar(Ok(ABC.to_string()), Ok(b"abc".to_vec()));
    assert!(matches!(d.action(), Action::Rename(n) if n == "nvngx_dlss.dll"));
    let d = d.on_renamed(Ok(()));
    assert!(matches!(d.action(), Action::Nothing));
    assert!(d.log().is_empty());
    assert_eq!(d.outcome().unwrap().unwrap(), ["nvngx_dlss.dll"]);
}

#[test]
fn download_without_sidecar() {
    let d = download_offer(&offer("dlssnr", 99, &[("u", false)])).on_payload(Ok(98));
    assert_eq!(failure(d), "truncated download (98/99 bytes, no sidecar to verify)");
    let d = download_offer(&offer("dlssnr", 99, &[("u", false)])).on_payload(Ok(99));
    assert!(matches!(d.action(), Action::Rename(n) if n == "nvngx_dlssnr.dll"));
    // Of an unknown size, anything will do.
    let d = download_offer(&offer("dlssnr", 0, &[("u", false)])).on_payload(Ok(98));
    let d = d.on_renamed(Err("renaming to nvngx_dlssnr.dll: denied".to_string()));
    assert_eq!(failure(d), "renaming to nvngx_dlssnr.dll: denied");
}

#[test]
fn mirrors_in_turn() {
    let mut d = download_offer(&offer("dlss", 3, &[("a", true), ("b", true), ("c", false)]));
    d = d.on_payload(Err(DownloadError::Http(503)));
    assert!(matches!(d.action(), Action::Receive(u) if u == "b"));
    d = d.on_payload(Ok(3)).on_sidecar(Ok(ABC.to_string()), Ok(b"xyz".to_vec()));
    assert!(matches!(d.action(), Action::Receive(u) if u == "c"));
    assert_eq!(d.log(), &["trying next mirror...", "trying next mirror..."]);
    d = d.on_payload(Ok(2));
    assert_eq!(failure(d), "truncated download (2/3 bytes, no sidecar to verify)");
    let none = download_offer(&offer("dlss", 3, &[]));
    assert!(matches!(none.action(), Action::Nothing));
    assert_eq!(failure(none), "no mirrors available");
}

#[test]
fn results_out_of_turn_change_nothing() {
    let d = download_offer(&offer("dlss", 3, &[("a", true)]));
    let before = format!("{d:?}");
    let d = d.on_verdict(Ok(())).on_renamed(Ok(())).on_installed(Ok(vec![]));
    assert_eq!(format!("{d:?}"), before);
    assert!(d.outcome().is_none());
    let s = download_offer(&offer("sl_sdk_0", 0, &[("a", false)])).on_payload(Ok(1));
    let before = format!("{s:?}");
    assert_eq!(format!("{:?}", s.on_renamed(Ok(()))), before);
}

// ---------------------------------------------------------------------------
// Archives
// ---------------------------------------------------------------------------

fn archive(members: &[(&str, &[u8])], method: zip::CompressionMethod) -> Vec<u8> {
    let mut w = zip::ZipWriter::new(std::io::Cursor::new(Vec::new()));
    let options = zip::write::SimpleFileOptions::default().compression_method(method);
    for (name, data) in members {
        if name.ends_with('/') {
            w.add_directory(*name, options).unwrap();
        } else {
            w.start_file(*name, options).unwrap();
            w.write_all(data).unwrap();
        }
    }
    w.finish().unwrap().into_inner()
}

#[test]
fn members_that_are_installed() {
    assert_eq!(member_target("sl.common.dll").as_deref(), Some("sl.common.dll"));
    assert_eq!(member_target("bin/x64/sl.dlss.DLL").as_deref(), Some("sl.dlss.DLL"));
    assert_eq!(member_target("bin\\sl.dlss.dll").as_deref(), Some("sl.dlss.dll"));
    assert_eq!(member_target("a/b\\c/.dll").as_deref(), Some(".dll"));
    assert_eq!(member_target("x.dll/"), None);
    assert_eq!(member_target("x.dll\\"), None);
    assert_eq!(member_target("x.dll/readme.txt"), None);
    assert_eq!(member_target("dll"), None);
    assert_eq!(member_target(""), None);
}

#[test]
fn unpacking() {
    let text: Vec<u8> = b"0123456789".repeat(1000);
    let bytes = archive(
        &[
            ("bin/", b""),
            ("bin/sl.dlss.dll", &text),
            ("license.txt", b"free"),
            ("sl.common.dll", b"common"),
            ("again/sl.common.dll", b"other"),
        ],
        zip::CompressionMethod::Deflated,
    );
    assert!(bytes.len() < text.len());
    let u = unpack(&bytes);
    assert!(u.failure.is_none());
    assert_eq!(u.files.len(), 3);
    assert_eq!(u.files[0], ("sl.dlss.dll".to_string(), text));
    assert_eq!(u.files[1], ("sl.common.dll".to_string(), b"common".to_vec()));
    assert_eq!(u.files[2], ("sl.common.dll".to_string(), b"other".to_vec()));
    let names = u.installed().unwrap();
    assert_eq!(names, ["sl.common.dll", "sl.common.dll", "sl.dlss.dll"]);

    let d = download_offer(&offer("sl_sdk_0", 0, &[("a", false)])).on_payload(Ok(1));
    assert!(matches!(d.action(), Action::Unpack));
    let d = d.on_installed(Ok(names));
    assert_eq!(d.log(), &["  archive contained: sl.common.dll, sl.common.dll, sl.dlss.dll"]);
    assert_eq!(d.outcome().unwrap().unwrap().len(), 3);
}

#[test]
fn archives_that_cannot_be_installed() {
    let e = unpack(b"no archive").installed().unwrap_err().message();
    assert!(e.starts_with("parsing Streamline zip archive: invalid Zip archive"), "{e}");
    let bytes = archive(&[("readme.txt", b"x")], zip::CompressionMethod::Stored);
    assert_eq!(
        unpack(&bytes).installed().unwrap_err().message(),
        "no .dll members found in Streamline archive"
    );
    let d = download_offer(&offer("sl_sdk_0", 0, &[("a", false), ("b", false)])).on_payload(Ok(1));
    let d = d.on_installed(unpack(&bytes).installed());
    assert!(matches!(d.action(), Action::Receive(u) if u == "b"));
}

#[test]
fn damaged_members() {
    let good = archive(&[("a.dll", b"first"), ("b.dll", b"second")], zip::CompressionMethod::Stored);
    // Content that does not match its checksum.
    let mut bytes = good.clone();
    let at = bytes.windows(6).position(|w| w == b"second").unwrap();
    bytes[at] = b'S';
    let u = unpack(&bytes);
    // What was copied before the failure is left.
    assert_eq!(u.files.len(), 2);
    assert_eq!(u.files[0], ("a.dll".to_string(), b"first".to_vec()));
    assert_eq!(u.files[1], ("b.dll".to_string(), b"Second".to_vec()));
    assert_eq!(u.installed().unwrap_err().message(), "Invalid checksum");
    // A member whose header is damaged.
    let mut bytes = good.clone();
    let at = bytes.windows(5).position(|w| w == b"b.dll").unwrap() - 30;
    bytes[at] = 0;
    let u = unpack(&bytes);
    assert_eq!(u.files, [("a.dll".to_string(), b"first".to_vec())]);
    assert!(u.installed().unwrap_err().message().starts_with("reading zip member: invalid Zip archive"));
}

#[test]
fn planned_members() {
    let members = vec![
        Ok("a.dll".to_string()),
        Ok("b.txt".to_string()),
        Ok("d/c.dll".to_string()),
        Err("broken".to_string()),
        Ok("e.dll".to_string()),
    ];
    let plan = plan_members(&members);
    assert_eq!(plan.wanted, [(0, "a.dll".to_string()), (2, "c.dll".to_string())]);
    assert_eq!(plan.broken.as_deref(), Some("broken"));
    let u = gather(plan, vec![(vec![1], None), (vec![2], None)]);
    assert_eq!(u.files.len(), 2);
    assert_eq!(u.installed().unwrap_err().message(), "reading zip member: broken");
    let plan = MemberPlan { wanted: vec![(0, "a.dll".to_string()), (1, "b.dll".to_string())], broken: None };
    let u = gather(plan, vec![(vec![1], None), (vec![2, 3], Some("cut".to_string()))]);
    assert_eq!(u.files, [("a.dll".to_string(), vec![1]), ("b.dll".to_string(), vec![2, 3])]);
    assert_eq!(u.installed().unwrap_err().message(), "cut");
}

#[test]
fn names_in_order() {
    let v: Vec<String> = ["b", "a", "B", "b", ""].iter().map(|s| s.to_string()).collect();
    let mut want = v.clone();
    want.sort();
    assert_eq!(sort_texts(&v), want);
    assert_eq!(archive_line(&want), "  archive contained: , B, a, b, b");
}
