use dlssdl::ngx::config::parse_server_config;
use dlssdl::ngx::key::parse_key;
use dlssdl::ngx::{decode_version, human_size, pack_semver, Feature};

#[test]
fn version_decode() {
    assert_eq!(decode_version(20317442), "310.5.2");
    assert_eq!(decode_version(20317696), "310.6.0");
    assert_eq!(decode_version(20318080), "310.7.128");
    assert_eq!(decode_version(133888), "2.11.0");
    assert_eq!(decode_version(134272), "2.12.128");
}

#[test]
fn key_parsing() {
    let e = parse_key(
        "d6e9b45e-d4f6-4a84-a460-bf61decae3e8/org/nvidia/team/ngx/models/dlssd/versions/20317442/files/160_E658700.bin",
        59922544,
    )
    .unwrap();
    assert_eq!(e.feature, Feature::from_dir("dlssd").unwrap());
    assert_eq!(e.version_id, 20317442);
    assert_eq!(e.payload, "160_E658700.bin");
    assert!(!e.is_sidecar);
    assert_eq!(e.size, 59922544);

    // future arch prefixes must not be missed
    let b = parse_key(
        "x/org/nvidia/team/ngx/models/dlssg/versions/20319000/files/1B0_E658700.bin",
        1,
    )
    .unwrap();
    assert_eq!(b.payload, "1B0_E658700.bin");

    // wrong payload types / junk names are rejected
    assert!(parse_key(
        "x/org/nvidia/team/ngx/models/dlss/versions/1/files/160_E658700.zip",
        1
    )
    .is_none());
    assert!(parse_key(
        "x/org/nvidia/team/ngx/models/sl_sdk_0/versions/1/files/160_E658703_err.zip",
        1
    )
    .is_none());
    assert!(parse_key(
        "x/org/nvidia/team/ngx/models/dlss/versions/131529/files/nvngx_dlss-gaida.dll",
        1
    )
    .is_none());

    let s = parse_key(
        "3e933c08-ea30-45ae-93d1-5114edf9c3b9/org/nvidia/team/ngx/models/sl_sdk_0/versions/134272/files/160_E658703.zip.sha256",
        65,
    )
    .unwrap();
    assert_eq!(s.feature, Feature::from_dir("sl_sdk_0").unwrap());
    assert!(s.is_sidecar);

    assert!(parse_key(
        "x/org/nvidia/team/ngx/models/nvbcast/versions/1793/files/160_E658703.zip",
        1
    )
    .is_none());
    assert!(parse_key(
        "x/org/nvidia/team/ngx/models/dlss/versions/20318080/files/160_E658700.bin.sha256",
        1
    )
    .unwrap()
    .is_sidecar);
    assert!(parse_key("unrelated/key.txt", 1).is_none());
}

#[test]
fn server_config_parsing() {
    let cfg = "[dlisp]\napp_E658703 = 310.0.0\n[dlss]\napp_865EFBC = 2.1.201\napp_E658700 = 310.9.0\n[dlssd]\napp_E658700 = 310.9.0\n[dlssg]\napp_E658700 = 310.9.0\n";
    let pins = parse_server_config(cfg);
    let e658700: Vec<_> = pins.iter().filter(|p| p.app_id == "E658700").collect();
    assert_eq!(e658700.len(), 3);
    assert!(e658700.iter().all(|p| p.version == "310.9.0"));
    assert!(pins.iter().any(|p| p.feature.dir() == "dlssd"));
    assert!(pins.iter().any(|p| p.feature.dir() == "dlssg"));
    assert!(pins.iter().any(|p| p.feature.dir() == "dlss"));
}

#[test]
fn feature_dir_generalization() {
    // Any future DLSS-family feature dir is accepted, and the consumer
    // name follows the nvngx_<dir>.dll convention automatically.
    let nr = Feature::from_dir("dlssnr").unwrap();
    assert_eq!(nr.consumer_name().as_deref(), Some("nvngx_dlssnr.dll"));
    assert_eq!(nr.canonical_payload(), "160_E658700.bin");
    assert_eq!(nr.title(), "dlssnr");
    assert_eq!(Feature::from_dir("dlss").unwrap().title(), "DLSS Super Resolution");
    // Non-feature dirs stay rejected.
    assert!(Feature::from_dir("dlss_override").is_none());
    assert!(Feature::from_dir("dlisp").is_none());
    assert!(Feature::from_dir("nvbcast").is_none());
    assert_eq!(Feature::from_dir("sl_sdk_0").unwrap().consumer_name(), None);
}

#[test]
fn semver_packing() {
    assert_eq!(pack_semver("310.9.0"), Some(20318464));
    assert_eq!(pack_semver("310.7.128"), Some(20318080));
    assert_eq!(pack_semver("2.14.0"), Some(134656));
    assert_eq!(pack_semver("310.5"), Some(20317440));
    assert_eq!(pack_semver("x.y.z"), None);
}

#[test]
fn human_size_fmt() {
    assert_eq!(human_size(512), "512 B");
    assert_eq!(human_size(74_208_880), "70.8 MB");
}
