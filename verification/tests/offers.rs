use dlssdl::ngx::grouping::{features_of, group_offers};
use dlssdl::ngx::key::{parse_key, RawEntry};
use dlssdl::ngx::probe::{head_size, pin_probes, staged_ids, staged_probes};
use dlssdl::ngx::config::parse_server_config;
use dlssdl::ngx::scan::{namespaces_in, others_line, scan_objects};
use dlssdl::ngx::{decode_version, pack_semver};

fn entry(ns: &str, dir: &str, id: u32, name: &str, size: u64) -> RawEntry {
    let key = format!("{ns}org/nvidia/team/ngx/models/{dir}/versions/{id}/files/{name}");
    parse_key(&key, size).unwrap()
}

fn id(version: &str) -> u32 {
    pack_semver(version).unwrap()
}

fn sample() -> Vec<RawEntry> {
    vec![
        entry("b/", "sl_sdk_0", id("2.12.128"), "160_E658703.zip", 7),
        entry("b/", "dlss", id("310.5.2"), "160_E658700.bin", 50),
        entry("a/", "dlss", id("310.5.2"), "160_E658700.bin", 40),
        entry("b/", "dlss", id("310.5.2"), "160_E658700.bin.sha256", 65),
        entry("c/", "dlss", id("310.5.2"), "160_865EFBC.bin", 900),
        entry("a/", "dlss", id("310.7.128"), "1B0_E658700.bin", 3),
        entry("a/", "dlss", id("310.7.128"), "170_E658700.bin", 4),
        entry("a/", "dlssnr", id("1.0.0"), "160_E658700.bin", 5),
        entry("a/", "dlssd", id("2.1.201"), "160_865EFBC.bin.sha256", 65),
    ]
}

#[test]
fn offers_by_feature() {
    let groups = group_offers(&sample());
    let dirs: Vec<&str> = groups.iter().map(|g| g.feature.dir()).collect();
    assert_eq!(dirs, ["dlss", "dlssd", "sl_sdk_0", "dlssnr"]);
    let dlss = &groups[0].offers;
    let versions: Vec<&str> = dlss.iter().map(|o| o.version.as_str()).collect();
    assert_eq!(versions, ["310.7.128", "310.5.2"]);
    // Of the same rank, the name decides.
    assert_eq!(dlss[0].payload, "170_E658700.bin");
    // The universal payload is preferred.
    assert_eq!(dlss[1].payload, "160_E658700.bin");
    assert_eq!(dlss[1].version_id, 20317442);
    // The size is the largest that a namespace gives for the payload.
    assert_eq!(dlss[1].size, 50);
    // Of a payload of which only the sidecar is listed, no size is known.
    assert_eq!(groups[1].offers[0].size, 0);
    assert_eq!(groups[2].offers[0].size, 7);
}

#[test]
fn mirrors_with_sidecar_first() {
    let groups = group_offers(&sample());
    let c = &groups[0].offers[1].candidates;
    let url = |ns: &str| {
        format!("https://ngx.download.nvidia.com/{ns}org/nvidia/team/ngx/models/dlss/versions/20317442/files/160_E658700.bin")
    };
    assert_eq!(c.len(), 2);
    assert_eq!(c[0].url, url("b/"));
    assert_eq!(c[0].sha256_url.as_deref(), Some(format!("{}.sha256", url("b/")).as_str()));
    assert_eq!(c[1].url, url("a/"));
    assert_eq!(c[1].sha256_url, None);
}

#[test]
fn order_of_entries_does_not_matter() {
    let a = group_offers(&sample());
    let mut entries = sample();
    entries.reverse();
    entries.extend(sample());
    let b = group_offers(&entries);
    assert_eq!(format!("{a:?}"), format!("{b:?}"));
    assert_eq!(features_of(&entries).len(), 4);
    assert!(group_offers(&vec![]).is_empty());
}

#[test]
fn clones_are_alike() {
    let a = group_offers(&sample());
    let b: Vec<_> = a.iter().map(|g| g.clone()).collect();
    assert_eq!(format!("{a:?}"), format!("{b:?}"));
}

#[test]
fn scanning_objects() {
    let m = "x/org/nvidia/team/ngx/models/";
    let objects = vec![
        (format!("{m}nvbcast/versions/1/files/a.zip"), 1),
        (format!("{m}dlss/versions/1/files/160_E658700.bin"), 2),
        (format!("{m}dlisp/versions/1/files/a.zip"), 3),
        (format!("{m}nvbcast/versions/2/files/a.zip"), 4),
        (format!("{m}nvbcast/"), 0),
        (format!("{m}config/versions/2/files/f.txt"), 5),
        (format!("{m}dlss/versions/1/files/junk.dll"), 6),
        ("y/readme.txt".to_string(), 7),
    ];
    let (raw, others) = scan_objects(&objects);
    assert_eq!(raw.len(), 1);
    assert_eq!(raw[0].size, 2);
    assert_eq!(others, ["nvbcast", "dlisp", "nvbcast", "dlss"]);
    assert_eq!(
        others_line(&others),
        "ignoring unrelated NGX feature dirs: dlisp (1), dlss (1), nvbcast (2)"
    );
    assert_eq!(namespaces_in(&sample()), ["b/", "a/", "c/"]);
}

#[test]
fn answers_to_head_requests() {
    assert_eq!(head_size(200, Some("123")), Some(123));
    assert_eq!(head_size(200, Some("x")), Some(0));
    assert_eq!(head_size(200, None), Some(0));
    assert_eq!(head_size(204, Some("123")), None);
    assert_eq!(head_size(404, None), None);
}

#[test]
fn pinned_versions() {
    let pins = parse_server_config(
        "[dlss]\napp_865EFBC = 2.1.201\napp_E658700 = 310.9.0\n[sl_sdk_0]\napp_E658700 = 1.0.0\napp_E658703 = 2.14.0\n[dlssd]\napp_E658700 = soon\n",
    );
    let probes = pin_probes("ns/", &pins);
    assert_eq!(probes.len(), 2);
    assert_eq!(probes[0].feature.dir(), "dlss");
    assert_eq!(probes[0].version_id, 20318464);
    assert_eq!(
        probes[0].address(false),
        "https://ngx.download.nvidia.com/ns/org/nvidia/team/ngx/models/dlss/versions/20318464/files/160_E658700.bin"
    );
    assert_eq!(probes[0].address(true), format!("{}.sha256", probes[0].address(false)));
    assert_eq!(probes[1].feature.dir(), "sl_sdk_0");
    assert_eq!(probes[1].ns, "ns/");
    let found = probes[1].probe_entries(9, true);
    assert_eq!(found.len(), 2);
    assert_eq!(found[0].payload, "160_E658703.zip");
    assert_eq!((found[0].is_sidecar, found[0].size), (false, 9));
    assert_eq!((found[1].is_sidecar, found[1].size), (true, 0));
    assert_eq!(probes[1].probe_entries(9, false).len(), 1);
}

#[test]
fn staged_versions() {
    let next: Vec<String> = staged_ids(id("310.5.2")).into_iter().map(decode_version).collect();
    assert_eq!(next, ["310.6.0", "310.6.128", "310.7.0", "310.7.128", "310.8.0", "310.8.128"]);
    let last: Vec<String> = staged_ids(id("3.254.9")).into_iter().map(decode_version).collect();
    assert_eq!(last, ["3.255.0", "3.255.128"]);
    assert!(staged_ids(id("3.255.0")).is_empty());
}

#[test]
fn staged_versions_that_are_known_are_left_out() {
    let raw = vec![
        entry("a/", "sl_sdk_0", id("2.1.0"), "160_E658703.zip", 1),
        entry("b/", "dlss", id("3.252.0"), "160_E658700.bin", 1),
        entry("b/", "dlss", id("3.253.0"), "160_E658700.bin.sha256", 1),
    ];
    let namespaces = vec!["a/".to_string(), "b/".to_string()];
    let probes = staged_probes(&raw, &namespaces);
    let asked: Vec<String> = probes
        .iter()
        .map(|p| format!("{}{} {}", p.ns, p.feature.dir(), decode_version(p.version_id)))
        .collect();
    assert_eq!(asked.len(), 8 + 12);
    assert_eq!(asked[0], "a/dlss 3.254.0");
    assert_eq!(asked[1], "b/dlss 3.254.0");
    assert_eq!(asked[2], "a/dlss 3.254.128");
    assert_eq!(asked[7], "b/dlss 3.255.128");
    assert_eq!(asked[8], "a/sl_sdk_0 2.2.0");
    assert_eq!(asked[19], "b/sl_sdk_0 2.4.128");
}

#[test]
fn staged_versions_of_a_feature_with_gaps() {
    let raw = vec![
        entry("a/", "dlss", id("1.0.0"), "160_E658700.bin", 1),
        entry("a/", "dlss", id("1.1.128"), "160_E658700.bin", 1),
        entry("a/", "dlss", id("0.9.0"), "160_E658700.bin", 1),
    ];
    let probes = staged_probes(&raw, &vec!["a/".to_string()]);
    let asked: Vec<String> = probes.iter().map(|p| decode_version(p.version_id)).collect();
    assert_eq!(asked, ["1.2.0", "1.2.128", "1.3.0", "1.3.128", "1.4.0", "1.4.128"]);
}
