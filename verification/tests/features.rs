use dlssdl::ngx::config::parse_server_config;
use dlssdl::ngx::key::{other_dir, parse_key};
use dlssdl::ngx::payload::{is_bin_payload, is_hex, is_zip_payload, payload_rank, split_payload};
use dlssdl::ngx::urls::{config_url, list_url, payload_url, sidecar_url, url_encode};
use dlssdl::ngx::{decode_version, pack_semver, Candidate, Feature, Offer, NGX_HOST};

fn feature(dir: &str) -> Feature {
    Feature::from_dir(dir).unwrap()
}

fn offer(dir: &str, payload: &str) -> Offer {
    Offer {
        feature: feature(dir),
        version_id: 20318464,
        version: "310.9.0".to_string(),
        payload: payload.to_string(),
        size: 1,
        candidates: Vec::<Candidate>::new(),
    }
}

#[test]
fn supported_directories() {
    for dir in ["dlss", "dlssd", "dlssg", "dlss_x", "sl_sdk_0", "sl_sdk", "sl_sdk_override"] {
        assert_eq!(feature(dir).dir(), dir);
    }
    for dir in ["", "dls", "xdlss", "sl_sd", "dlssoverride", "DLSS", "dlss_override_1"] {
        assert!(Feature::from_dir(dir).is_none());
    }
    assert!(feature("sl_sdk_1").is_streamline());
    assert!(!feature("dlss").is_streamline());
    assert_eq!(feature("dlssd").title(), "DLSS Ray Reconstruction");
    assert_eq!(feature("dlssg").title(), "DLSS Frame Generation");
    assert_eq!(feature("sl_sdk_0").title(), "Streamline SDK");
    assert_eq!(feature("sl_sdk_1").title(), "sl_sdk_1");
    assert_eq!(feature("sl_sdk_0").canonical_payload(), "160_E658703.zip");
    assert_eq!(feature("sl_sdk_0").payload_ext(), "zip");
}

#[test]
fn rank_of_features() {
    let dirs = ["dlss", "dlssd", "dlssg", "sl_sdk_0", "dlssa", "dlssnr", "sl_sdk_1"];
    for (i, a) in dirs.iter().enumerate() {
        for (j, b) in dirs.iter().enumerate() {
            assert_eq!(feature(a).ranks_before(&feature(b)), i < j);
            assert_eq!(feature(a).rank() < feature(b).rank(), i < j);
            assert_eq!(feature(a).same(&feature(b)), i == j);
        }
    }
    assert_eq!(feature("dlssg").rank(), (2, String::new()));
    assert_eq!(feature("dlssnr").rank(), (4, "dlssnr".to_string()));
}

#[test]
fn versions_and_ids() {
    for id in [0, 1, 255, 256, 65535, 65536, 20317442, u32::MAX] {
        assert_eq!(pack_semver(&decode_version(id)), Some(id));
    }
    assert_eq!(decode_version(u32::MAX), "65535.255.255");
    assert_eq!(pack_semver(" 310 . 9 . 0 "), Some(20318464));
    assert_eq!(pack_semver("310"), Some(20316160));
    assert_eq!(pack_semver("310.9.0.77.x"), Some(20318464));
    assert_eq!(pack_semver("+1.+2.+3"), Some(66051));
    assert_eq!(pack_semver(""), None);
    assert_eq!(pack_semver("1..3"), None);
    assert_eq!(pack_semver("1.2.x"), None);
    assert_eq!(pack_semver("4294967296.0.0"), None);
    // Parts that are too large run into one another, and out at the top.
    assert_eq!(pack_semver("65537.0.0"), Some(65536));
    assert_eq!(pack_semver("0.256.0"), Some(65536));
    assert_eq!(pack_semver("0.0.256"), Some(256));
}

#[test]
fn payload_names() {
    assert_eq!(split_payload("160_E658700.bin"), ("160".to_string(), "E658700".to_string()));
    assert_eq!(split_payload("1B0_E658703.zip"), ("1B0".to_string(), "E658703".to_string()));
    assert_eq!(split_payload("a_b_c.dll"), ("a".to_string(), "b_c.dll".to_string()));
    assert_eq!(split_payload("none"), ("none".to_string(), String::new()));
    assert_eq!(split_payload("x.zip.bin"), ("x.zip".to_string(), String::new()));
    assert!(is_hex("09afAF"));
    assert!(!is_hex(""));
    assert!(!is_hex("g"));
    assert!(is_bin_payload("160_e658700.bin"));
    assert!(!is_bin_payload("160_.bin"));
    assert!(!is_bin_payload("160.bin"));
    assert!(!is_bin_payload("1_2_3.bin"));
    assert!(!is_bin_payload("1_2.BIN"));
    assert!(is_zip_payload("0_0.zip"));
    assert!(!is_zip_payload("0_0.bin"));
}

#[test]
fn payload_ranks() {
    let f = feature("dlss");
    assert_eq!(payload_rank("160_E658700.bin", &f), 3);
    assert_eq!(payload_rank("1B0_e658700.bin", &f), 2);
    assert_eq!(payload_rank("160_865EFBC.bin", &f), 1);
    assert_eq!(payload_rank("170_865EFBC.bin", &f), 0);
    assert_eq!(payload_rank("160_E658703.zip", &feature("sl_sdk_0")), 3);
    assert_eq!(payload_rank("160_E658700.zip", &feature("sl_sdk_0")), 1);
}

#[test]
fn tags() {
    assert_eq!(offer("dlss", "160_E658700.bin").tag(), "");
    assert_eq!(offer("dlss", "1b0_E658700.bin").tag(), " [1B0]");
    assert_eq!(offer("dlss", "160_865efbc.bin").tag(), " [app_865EFBC]");
    assert_eq!(offer("dlss", "170_865EFBC.bin").tag(), " [170/app_865EFBC]");
    assert_eq!(offer("sl_sdk_0", "160_E658703.zip").tag(), "");
}

#[test]
fn keys_and_their_parts() {
    let key = "a/b/org/nvidia/team/ngx/models/dlssnr/versions/+7/files/1a_2B.bin.sha256";
    let e = parse_key(key, 65).unwrap();
    assert_eq!(e.ns, "a/b/");
    assert_eq!(e.feature.dir(), "dlssnr");
    assert_eq!(e.version_id, 7);
    assert_eq!(e.payload, "1a_2B.bin");
    assert!(e.is_sidecar);
    assert_eq!(e.size, 65);

    let base = "x/org/nvidia/team/ngx/models/dlss/";
    for rest in [
        "",
        "versions",
        "version/1/files/1_2.bin",
        "versions/4294967296/files/1_2.bin",
        "versions/-1/files/1_2.bin",
        "versions/1/file/1_2.bin",
        "versions/1/files",
        "versions/1/files/1_2.bin/",
        "versions/1/files/1_2.bin.sha256.sha256",
        "versions/1/files/1_2.zip",
    ] {
        assert!(parse_key(&format!("{base}{rest}"), 1).is_none(), "{rest}");
    }
    // The first marker counts.
    let twice = "org/nvidia/team/ngx/models/org/nvidia/team/ngx/models/dlss/versions/1/files/1_2.bin";
    assert!(parse_key(twice, 1).is_none());
}

#[test]
fn other_directories() {
    let m = "x/org/nvidia/team/ngx/models/";
    assert_eq!(other_dir(&format!("{m}nvbcast/versions/1/files/a.zip")).as_deref(), Some("nvbcast"));
    assert_eq!(other_dir(&format!("{m}nvbcast")).as_deref(), Some("nvbcast"));
    assert_eq!(other_dir(&format!("{m}nvbcast/")), None);
    assert_eq!(other_dir(&format!("{m}config/versions/2/files/f.txt")), None);
    assert_eq!(other_dir(&format!("{m}/x")), None);
    assert_eq!(other_dir("unrelated/key.txt"), None);
}

#[test]
fn addresses() {
    assert_eq!(NGX_HOST, "https://ngx.download.nvidia.com");
    assert_eq!(list_url(""), "https://ngx.download.nvidia.com/?list-type=2&max-keys=1000");
    assert_eq!(
        list_url("a/b=="),
        "https://ngx.download.nvidia.com/?list-type=2&max-keys=1000&continuation-token=a%2Fb%3D%3D"
    );
    assert_eq!(
        config_url("ns/"),
        "https://ngx.download.nvidia.com/ns/org/nvidia/team/ngx/models/config/versions/2/files/nvngx_server_config.txt"
    );
    let url = payload_url("ns/", "dlss", 20318464, "160_E658700.bin");
    assert_eq!(
        url,
        "https://ngx.download.nvidia.com/ns/org/nvidia/team/ngx/models/dlss/versions/20318464/files/160_E658700.bin"
    );
    assert_eq!(sidecar_url(&url), format!("{url}.sha256"));
}

#[test]
fn percent_encoding() {
    assert_eq!(url_encode("AZaz09-_.~"), "AZaz09-_.~");
    assert_eq!(url_encode(" +/%\n"), "%20%2B%2F%25%0A");
    assert_eq!(url_encode("ä✓"), "%C3%A4%E2%9C%93");
}

#[test]
fn configuration_text() {
    let text = "app_E658700 = 1.0.0\r\n[DLSS]\r\n  app_ e658700x = 2.0 = 3 \r\nother = 4\nno sign\n[nvbcast]\napp_1 = 1\n[]\n[sl_sdk_0]\napp_E658703=5";
    let pins = parse_server_config(text);
    assert_eq!(pins.len(), 2);
    assert_eq!(pins[0].feature.dir(), "dlss");
    assert_eq!(pins[0].app_id, "E658700X");
    assert_eq!(pins[0].version, "2.0 = 3");
    assert_eq!(pins[1].feature.dir(), "sl_sdk_0");
    assert_eq!(pins[1].app_id, "E658703");
    assert_eq!(pins[1].version, "5");
    assert!(parse_server_config("").is_empty());
}
