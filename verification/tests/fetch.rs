use dlssdl::ngx::error::FetchError;
use dlssdl::ngx::fetch::{Fetch, ListingReply, Request};
use dlssdl::ngx::listing::{child_text, parse_listing, read_page, read_size, XmlNode};
use dlssdl::ngx::{fetch_offers, Group};

const MARK: &str = "org/nvidia/team/ngx/models/";

fn listing(keys: &[(&str, &str)], token: &str) -> String {
    let mut out = String::from("<?xml version=\"1.0\" encoding=\"UTF-8\"?><ListBucketResult xmlns=\"http://s3.amazonaws.com/doc/2006-03-01/\">");
    if !token.is_empty() {
        out.push_str(&format!("<NextContinuationToken>{token}</NextContinuationToken>"));
    }
    for (key, size) in keys {
        out.push_str(&format!("<Contents><Key>{key}</Key><Size>{size}</Size></Contents>"));
    }
    out.push_str("</ListBucketResult>");
    out
}

fn message(f: Fetch) -> String {
    f.outcome().unwrap().unwrap_err().message()
}

fn groups(f: Fetch) -> Vec<Group> {
    f.outcome().unwrap().unwrap()
}

#[test]
fn page_of_a_listing() {
    let body = listing(&[("a &amp; b", "12"), ("", "1"), ("c", "many")], "t0k/en");
    let page = parse_listing(&body).unwrap();
    assert_eq!(page.objects, [("a & b".to_string(), 12), ("c".to_string(), 0)]);
    assert_eq!(page.token, "t0k/en");
    let last = parse_listing(&listing(&[], "")).unwrap();
    assert!(last.objects.is_empty());
    assert_eq!(last.token, "");
}

#[test]
fn odd_listings() {
    // No size, a size before the key, nested elements, and a key that is no child.
    let body = "<L><Contents><Size>5</Size><Key>k<b/>x</Key></Contents><D><Contents><Key>deep</Key></Contents></D><Contents><X><Key>no</Key></X></Contents></L>";
    let page = parse_listing(body).unwrap();
    assert_eq!(page.objects, [("k".to_string(), 5), ("deep".to_string(), 0)]);
    let e = parse_listing("<L>").unwrap_err();
    assert!(!e.is_empty());
    assert!(parse_listing("plain").is_err());
}

fn node(name: &str, text: Option<&str>, parent: Option<usize>) -> XmlNode {
    XmlNode { name: name.to_string(), text: text.map(|t| t.to_string()), parent }
}

#[test]
fn nodes_of_a_listing() {
    let nodes = vec![
        node("", None, None),
        node("L", None, Some(0)),
        node("Contents", None, Some(1)),
        node("Key", Some("k"), Some(2)),
        node("Key", Some("second"), Some(2)),
        node("Size", Some("7"), Some(2)),
        node("NextContinuationToken", None, Some(1)),
        node("NextContinuationToken", Some("later"), Some(1)),
    ];
    assert_eq!(child_text(&nodes, 2, "Key"), Some("k"));
    assert_eq!(child_text(&nodes, 2, "ETag"), None);
    assert_eq!(child_text(&nodes, 1, "Key"), None);
    let page = read_page(&nodes);
    assert_eq!(page.objects, [("k".to_string(), 7)]);
    assert_eq!(page.token, "");
    assert_eq!(read_size(Some("18446744073709551615")), u64::MAX);
    assert_eq!(read_size(Some("-1")), 0);
    assert_eq!(read_size(None), 0);
}

/// A server with two namespaces: answers to GET and HEAD requests by address.
fn serve(mut f: Fetch, pages: &[String], configs: &[(&str, &str)], heads: &[(&str, u64)]) -> (Fetch, Vec<String>) {
    let mut asked = Vec::new();
    let mut page = 0;
    loop {
        match f.request() {
            Request::Listing(url) => {
                asked.push(format!("GET {url}"));
                f = f.on_listing(ListingReply::Body(pages[page].clone()));
                page += 1;
            }
            Request::Config(url) => {
                asked.push(format!("GET {url}"));
                let body = configs.iter().find(|(u, _)| url.contains(u)).map(|(_, b)| *b);
                f = f.on_config(body);
            }
            Request::Head(url, staged) => {
                asked.push(format!("HEAD {staged} {url}"));
                let size = heads.iter().find(|(u, _)| url.ends_with(u)).map(|(_, s)| *s);
                f = f.on_head(size);
            }
            Request::Nothing => return (f, asked),
        }
    }
}

#[test]
fn whole_check() {
    let k1 = format!("n1/{MARK}dlss/versions/20317442/files/160_E658700.bin");
    let k2 = format!("n2/{MARK}nvbcast/versions/1/files/1.zip");
    let k3 = format!("n2/{MARK}dlss/versions/20317442/files/160_E658700.bin.sha256");
    let pages = [listing(&[(&k1, "10"), (&k2, "11")], "to/ken"), listing(&[(&k3, "65")], "")];
    let pin = "/dlss/versions/20318464/files/160_E658700.bin";
    let pin_sum = "/dlss/versions/20318464/files/160_E658700.bin.sha256";
    let staged = "n2/org/nvidia/team/ngx/models/dlss/versions/20318720/files/160_E658700.bin";
    let (f, asked) = serve(
        fetch_offers(),
        &pages,
        &[("com/n2/", "[dlss]\napp_E658700 = 310.9.0\napp_1 = 2.0.0\n")],
        &[(pin, 20), (pin_sum, 64), (staged, 30)],
    );
    let host = "https://ngx.download.nvidia.com";
    assert_eq!(asked[0], format!("GET {host}/?list-type=2&max-keys=1000"));
    assert_eq!(asked[1], format!("GET {host}/?list-type=2&max-keys=1000&continuation-token=to%2Fken"));
    assert_eq!(asked[2], format!("GET {host}/n1/{MARK}config/versions/2/files/nvngx_server_config.txt"));
    assert_eq!(asked[3], format!("GET {host}/n2/{MARK}config/versions/2/files/nvngx_server_config.txt"));
    assert_eq!(asked[4], format!("HEAD false {host}/n2/{MARK}dlss/versions/20318464/files/160_E658700.bin"));
    assert_eq!(asked[5], format!("HEAD false {host}/n2/{MARK}dlss/versions/20318464/files/160_E658700.bin.sha256"));
    assert_eq!(asked[6], format!("HEAD true {host}/n1/{MARK}dlss/versions/20318720/files/160_E658700.bin"));
    assert_eq!(asked[7], format!("HEAD true {host}/{staged}"));
    assert_eq!(asked[8], format!("HEAD true {host}/{staged}.sha256"));
    assert_eq!(asked.len(), 6 + 6 * 2 + 1);
    assert_eq!(
        f.log(),
        &[
            "querying https://ngx.download.nvidia.com (S3 bucket listing)...",
            "listing page 1: 2 objects (total 2)",
            "listing page 2: 1 objects (total 3)",
            "scanning 3 objects for DLSS / Streamline packages...",
            "ignoring unrelated NGX feature dirs: nvbcast (1)",
            "discovered namespaces: n1/, n2/",
            "read server config from n2/ (2 pins)",
            "config pin verified: DLSS Super Resolution 310.9.0 on n2/",
            "probe found staged DLSS Super Resolution 310.10.0 on n2/",
        ]
    );
    let groups = groups(f);
    assert_eq!(groups.len(), 1);
    let versions: Vec<&str> = groups[0].offers.iter().map(|o| o.version.as_str()).collect();
    assert_eq!(versions, ["310.10.0", "310.9.0", "310.5.2"]);
    assert_eq!(groups[0].offers[1].size, 20);
    assert!(groups[0].offers[1].candidates[0].sha256_url.is_some());
    assert!(groups[0].offers[0].candidates[0].sha256_url.is_none());
}

#[test]
fn no_configuration_and_nothing_staged() {
    let key = format!("n/{MARK}sl_sdk_0/versions/134272/files/160_E658703.zip");
    let (f, asked) = serve(fetch_offers(), &[listing(&[(&key, "10")], "")], &[], &[]);
    assert_eq!(asked.len(), 1 + 1 + 6);
    assert_eq!(f.log().len(), 4);
    assert_eq!(groups(f)[0].offers[0].version, "2.12.128");
}

#[test]
fn newest_minor_version_of_all() {
    // No minor version above 255 is asked for.
    let key = format!("n/{MARK}dlss/versions/65280/files/160_E658700.bin");
    let (f, asked) = serve(fetch_offers(), &[listing(&[(&key, "10")], "")], &[], &[]);
    assert_eq!(asked.len(), 2);
    assert_eq!(groups(f)[0].offers[0].version, "0.255.0");
}

#[test]
fn failures_of_a_check() {
    let f = fetch_offers().on_listing(ListingReply::RequestFailed("no route".to_string()));
    assert!(matches!(f.request(), Request::Nothing));
    assert_eq!(message(f), "listing request failed: no route");
    let f = fetch_offers().on_listing(ListingReply::ReadFailed("cut off".to_string()));
    assert_eq!(message(f), "reading listing failed: cut off");
    let f = fetch_offers().on_listing(ListingReply::Body("<a>".to_string()));
    assert!(message(f).starts_with("parsing S3 listing XML: "));
    let f = fetch_offers().on_listing(ListingReply::Body(listing(&[("other", "1")], "")));
    assert_eq!(
        message(f),
        "server answered but no DLSS/Streamline objects were found - the layout may have changed"
    );
    assert_eq!(FetchError::TooManyPages.message(), "too many listing pages");
}

#[test]
fn too_many_pages() {
    let mut f = fetch_offers();
    let mut pages = 0;
    while let Request::Listing(_) = f.request() {
        f = f.on_listing(ListingReply::Body(listing(&[("k", "1")], "next")));
        pages += 1;
    }
    assert_eq!(pages, 100);
    assert_eq!(f.log().last().unwrap(), "listing page 100: 1 objects (total 100)");
    assert_eq!(message(f), "too many listing pages");
}

#[test]
fn answers_out_of_turn_change_nothing() {
    let f = fetch_offers();
    let before = format!("{f:?}");
    let f = f.on_config(Some("[dlss]\napp_E658700 = 1.0.0\n")).on_head(Some(1));
    assert_eq!(format!("{f:?}"), before);
    assert!(f.outcome().is_none());
    let over = fetch_offers().on_listing(ListingReply::RequestFailed("x".to_string()));
    let before = format!("{over:?}");
    let over = over.on_listing(ListingReply::Body(listing(&[], ""))).on_head(None).on_config(None);
    assert_eq!(format!("{over:?}"), before);
}

#[test]
fn address_of_a_listed_object_is_its_key() {
    let key = format!("x/{MARK}dlss/versions/20317442/files/160_E658700.bin");
    let (f, _) = serve(fetch_offers(), &[listing(&[(&key, "7")], "")], &[], &[]);
    let g = groups(f);
    assert_eq!(g[0].offers[0].candidates[0].url, format!("https://ngx.download.nvidia.com/{key}"));
    assert_eq!(g[0].offers[0].candidates[0].sha256_url, None);
}

#[test]
fn size_of_an_offer_is_that_of_its_payload() {
    let key = format!("x/{MARK}dlss/versions/20317442/files/160_E658700.bin");
    let sum = format!("{key}.sha256");
    let (f, _) = serve(fetch_offers(), &[listing(&[(&key, "10"), (&sum, "65")], "")], &[], &[]);
    let g = groups(f);
    assert_eq!((g.len(), g[0].offers.len()), (1, 1));
    assert_eq!(g[0].offers[0].size, 10);
    assert_eq!(g[0].offers[0].candidates.len(), 1);
    let sidecar = g[0].offers[0].candidates[0].sha256_url.as_deref();
    assert_eq!(sidecar, Some(format!("https://ngx.download.nvidia.com/{sum}").as_str()));
}
