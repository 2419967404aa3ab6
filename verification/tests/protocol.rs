use docker_registry::v2::{
    blob_exists, blob_url, catalog_url, contains, endpoint, first_page_url, is_v2_supported,
    manifest_url, next_page_url, next_query, probe, replay, tags_url, version_url, Page, Probe,
    UnexpectedStatus,
};

const API_VERSION_V: &str = "registry/2.0";

fn b(s: &str) -> Vec<u8> {
    s.as_bytes().to_vec()
}

fn text(v: &[u8]) -> String {
    String::from_utf8(v.to_vec()).unwrap()
}

fn names(items: &[&str]) -> Vec<String> {
    items.iter().map(|s| s.to_string()).collect()
}

fn page(items: &[&str], link: Option<&str>) -> Page<String, u16> {
    Page::Items { items: names(items), link: link.map(b) }
}

fn oks(items: &[&str]) -> Vec<Result<String, u16>> {
    items.iter().map(|s| Ok(s.to_string())).collect()
}

#[test]
fn test_version_check_status_ok() {
    let ok = is_v2_supported(200, Some(&b(API_VERSION_V))).unwrap();
    assert!(ok);
    assert_eq!(probe(200, Some(&b(API_VERSION_V))), Ok(Probe::Open));
}

#[test]
fn test_version_check_status_unauth() {
    let res = is_v2_supported(401, Some(&b(API_VERSION_V))).unwrap();
    assert!(res);
    assert_eq!(probe(401, Some(&b(API_VERSION_V))), Ok(Probe::Challenged));
}

#[test]
fn test_version_check_status_notfound() {
    let res = is_v2_supported(404, Some(&b(API_VERSION_V))).unwrap();
    assert!(!res);
}

#[test]
fn test_version_check_status_forbidden() {
    let res = is_v2_supported(403, Some(&b(API_VERSION_V))).unwrap();
    assert!(!res);
}

#[test]
fn test_version_check_noheader() {
    let res = is_v2_supported(403, None).unwrap();
    assert!(!res);
}

// The probe asks for `/v2/`, with the slash. A server that answers on `/v2`
// alone has no answer for it, and says so with a status that is no support.
#[test]
fn test_version_check_trailing_slash() {
    let url = version_url(true, &b("127.0.0.1:1234"));
    assert_eq!(text(&url), "http://127.0.0.1:1234/v2/");
    assert_ne!(text(&url), "http://127.0.0.1:1234/v2");
    assert_eq!(is_v2_supported(501, None), Err(UnexpectedStatus { status: 501 }));
}

#[test]
fn version_probe_without_the_header_is_no_support() {
    assert_eq!(is_v2_supported(200, None), Ok(false));
    assert_eq!(is_v2_supported(401, None), Ok(false));
    assert_eq!(is_v2_supported(200, Some(&b("registry/1.0"))), Ok(false));
    assert_eq!(is_v2_supported(401, Some(&b("registry/2.0 "))), Ok(false));
    assert_eq!(probe(404, None), Ok(Probe::Unsupported));
}

#[test]
fn version_probe_reports_other_statuses() {
    for status in [100, 204, 301, 400, 402, 405, 418, 500, 501, 503] {
        assert_eq!(is_v2_supported(status, Some(&b(API_VERSION_V))), Err(UnexpectedStatus { status }));
        assert_eq!(probe(status, None), Err(UnexpectedStatus { status }));
    }
}

#[test]
fn urls_are_formed_from_scheme_host_and_path() {
    let host = b("reg.example.com:5000");
    assert_eq!(text(&endpoint(false, &host, &b("x/y"))), "https://reg.example.com:5000/v2/x/y");
    assert_eq!(text(&endpoint(true, &host, &b(""))), "http://reg.example.com:5000/v2/");
    assert_eq!(text(&version_url(false, &host)), "https://reg.example.com:5000/v2/");
    assert_eq!(text(&catalog_url(false, &host)), "https://reg.example.com:5000/v2/_catalog");
    assert_eq!(
        text(&tags_url(true, &host, &b("repo"))),
        "http://reg.example.com:5000/v2/repo/tags/list"
    );
    assert_eq!(
        text(&manifest_url(false, &host, &b("ns/app"), &b("latest"))),
        "https://reg.example.com:5000/v2/ns/app/manifests/latest"
    );
    assert_eq!(
        text(&blob_url(true, &host, &b("my-repo/my-image"), &b("sha256:00"))),
        "http://reg.example.com:5000/v2/my-repo/my-image/blobs/sha256:00"
    );
}

#[test]
fn test_blobs_has_layer() {
    let url = blob_url(true, &b("h"), &b("my-repo/my-image"), &b("fakedigest"));
    assert_eq!(text(&url), "http://h/v2/my-repo/my-image/blobs/fakedigest");
    assert!(blob_exists(200));
}

#[test]
fn test_blobs_hasnot_layer() {
    assert!(!blob_exists(404));
    assert!(!blob_exists(401));
    assert!(!blob_exists(500));
}

#[test]
fn test_catalog_simple() {
    let collection = catalog_url(true, &b("h"));
    assert_eq!(text(&first_page_url(&collection, None)), "http://h/v2/_catalog");
    let res = replay(&collection, vec![page(&["r1/i1", "r2"], None)]);
    assert_eq!(res, oks(&["r1/i1", "r2"]));
}

// The first page names a next page. The collection goes on to it, with the
// query of the link on the URL of the catalog; where the registry has nothing
// more to say there, the collection ends with the one item of the first page.
#[test]
fn test_catalog_paginate() {
    let addr = "127.0.0.1:4321";
    let collection = catalog_url(true, &b(addr));
    assert_eq!(text(&first_page_url(&collection, Some(1))), format!("http://{addr}/v2/_catalog?n=1"));
    let link = format!(r#"<{addr}/v2/_catalog?n=21&last=r1/i1>; rel="next""#);
    let next = next_page_url(&collection, 1, Some(&b(&link))).unwrap();
    assert_eq!(text(&next), format!("http://{addr}/v2/_catalog?n=21&last=r1/i1"));

    let res = replay(&collection, vec![page(&["r1/i1"], Some(&link)), page(&[], None)]);
    assert_eq!(res, oks(&["r1/i1"]));
    let only_first = replay(&collection, vec![page(&["r1/i1"], Some(&link))]);
    assert_eq!(only_first, oks(&["r1/i1"]));
}

#[test]
fn test_dockerv2_tags_simple() {
    let collection = tags_url(true, &b("h"), &b("repo"));
    assert_eq!(text(&first_page_url(&collection, None)), "http://h/v2/repo/tags/list");
    let res = replay(&collection, vec![page(&["t1", "t2"], None)]);
    assert_eq!(res, oks(&["t1", "t2"]));
}

#[test]
fn test_dockerv2_tags_paginate() {
    let name = "repo";
    let addr = "127.0.0.1:4321";
    let ep1 = format!("/v2/{name}/tags/list?n=1");
    let ep2 = format!("/v2/{name}/tags/list?n=1&last=t1");
    let link = format!(r#"<{addr}/v2/_tags?n=1&last=t1>; rel="next""#);

    let collection = tags_url(true, &b(addr), &b(name));
    assert_eq!(text(&first_page_url(&collection, Some(1))), format!("http://{addr}{ep1}"));
    let second = next_page_url(&collection, 1, Some(&b(&link))).unwrap();
    assert_eq!(text(&second), format!("http://{addr}{ep2}"));
    assert_eq!(next_page_url(&collection, 1, None), None);

    let res = replay(&collection, vec![page(&["t1"], Some(&link)), page(&["t2"], None)]);
    assert_eq!(res, oks(&["t1", "t2"]));
}

#[test]
fn test_dockerv2_tags_404() {
    let collection = tags_url(true, &b("h"), &b("repo"));
    let res: Vec<Result<String, u16>> = replay(&collection, vec![Page::Failed { error: 404 }]);
    assert!(res.first().unwrap().is_err());
    assert_eq!(res.len(), 1);
}

#[test]
fn test_dockerv2_tags_missing_header() {
    let collection = tags_url(true, &b("h"), &b("repo"));
    let res = replay(&collection, vec![page(&["t1", "t2"], None)]);
    assert_eq!(oks(&["t1", "t2"]), res);
}

#[test]
fn pages_are_yielded_one_after_the_other() {
    let collection = b("http://h/v2/_catalog");
    let next = r#"<http://h/v2/_catalog?n=2&last=x>; rel="next""#;
    let pages = vec![
        page(&["a", "b"], Some(next)),
        page(&["c"], Some(next)),
        page(&["d", "e"], None),
        page(&["never"], None),
    ];
    assert_eq!(replay(&collection, pages), oks(&["a", "b", "c", "d", "e"]));
}

#[test]
fn an_error_ends_the_collection_in_band() {
    let collection = b("http://h/v2/_catalog");
    let next = r#"<http://h/v2/_catalog?last=x>; rel="next""#;
    let pages =
        vec![page(&["a"], Some(next)), Page::Failed { error: 500 }, page(&["never"], None)];
    assert_eq!(replay(&collection, pages), vec![Ok("a".to_string()), Err(500)]);
}

#[test]
fn an_empty_page_ends_the_collection() {
    let collection = b("http://h/v2/_catalog");
    let next = r#"<http://h/v2/_catalog?last=x>; rel="next""#;
    assert_eq!(replay(&collection, vec![page(&[], Some(next)), page(&["never"], None)]), oks(&[]));
    assert_eq!(next_page_url(&collection, 0, Some(&b(next))), None);
    let none: Vec<Page<String, u16>> = Vec::new();
    assert_eq!(replay(&collection, none), oks(&[]));
}

#[test]
fn link_headers() {
    assert_eq!(next_query(&b(r#"</v2/_catalog?n=21&last=r1/i1>; rel="next""#)), Some(b("n=21&last=r1/i1")));
    assert_eq!(next_query(&b(r#"  <http://h/x?a=1>;rel="next"; title="t""#)), Some(b("a=1")));
    assert_eq!(next_query(&b(r#"</v2/_catalog?n=21>; rel="prev""#)), None);
    assert_eq!(next_query(&b(r#"</v2/_catalog>; rel="next""#)), None);
    assert_eq!(next_query(&b(r#"/v2/_catalog?n=1; rel="next""#)), None);
    assert_eq!(next_query(&b(r#"</v2/_catalog?n=1; rel="next""#)), None);
    assert_eq!(next_query(&b(r#"rel="next" </v2/_catalog?n=1>"#)), None);
    assert_eq!(next_query(&b("")), None);
    assert_eq!(next_query(&b(r#"<?>rel="next""#)), Some(b("")));
    assert_eq!(next_query(&b(r#"<a?b?c>; rel="next""#)), Some(b("b?c")));
}

#[test]
fn first_page_with_and_without_size() {
    assert_eq!(text(&first_page_url(&b("u"), None)), "u");
    assert_eq!(text(&first_page_url(&b("u"), Some(0))), "u?n=0");
    assert_eq!(text(&first_page_url(&b("u"), Some(100))), "u?n=100");
}

#[test]
fn patterns_in_text() {
    assert!(contains(&b("hello"), &b("ell")));
    assert!(contains(&b("hello"), &b("")));
    assert!(contains(&b("hello"), &b("hello")));
    assert!(contains(&b("hello"), &b("o")));
    assert!(!contains(&b("hello"), &b("hello!")));
    assert!(!contains(&b("hello"), &b("elo")));
    assert!(contains(&b(""), &b("")));
    assert!(!contains(&b(""), &b("a")));
    assert!(contains(&b("aab"), &b("ab")));
}

#[test]
fn configuration_starts_from_defaults() {
    let c = docker_registry::client::Config::default();
    assert_eq!(text(&c.registry), "registry-1.docker.io");
    assert!(!c.insecure_registry);
    assert_eq!(c.accepted_types, docker_registry::mediatypes::default_accepted_types());
    assert_eq!(c.username, None);
    assert_eq!(c.password, None);
    assert_eq!(text(&c.user_agent), docker_registry::client::USER_AGENT);
    assert!(c.root_certificates.is_empty());
    assert_eq!(text(&c.url(&b("_catalog"))), "https://registry-1.docker.io/v2/_catalog");
}

#[test]
fn configuration_is_built_field_by_field() {
    let c = docker_registry::client::Config::default()
        .registry(b("localhost:5000"))
        .insecure_registry(true)
        .username(Some(b("bob")))
        .password(None)
        .user_agent(Some(b("custom-ua/1.0")))
        .accepted_types(Some(vec![docker_registry::mediatypes::MediaTypes::ManifestV2S2]))
        .add_root_certificate(b("cert-1"))
        .add_root_certificate(b("cert-2"));
    assert_eq!(text(&c.registry), "localhost:5000");
    assert!(c.insecure_registry);
    assert_eq!(c.username, Some(b("bob")));
    assert_eq!(c.password, None);
    assert_eq!(text(&c.user_agent), "custom-ua/1.0");
    assert_eq!(c.accepted_types, vec![docker_registry::mediatypes::MediaTypes::ManifestV2S2]);
    assert_eq!(c.root_certificates, vec![b("cert-1"), b("cert-2")]);
    assert_eq!(text(&c.url(&b(""))), "http://localhost:5000/v2/");
    let back = c.user_agent(None).accepted_types(None);
    assert_eq!(text(&back.user_agent), docker_registry::client::USER_AGENT);
    assert_eq!(back.accepted_types.len(), 5);
}

#[test]
fn api_errors_expose_code_message_and_detail() {
    let full = docker_registry::errors::ApiError::new(
        "MANIFEST_UNKNOWN".to_string(),
        Some("manifest unknown".to_string()),
        Some("{\"Tag\":\"latest\"}".to_string()),
    );
    assert_eq!(full.code(), "MANIFEST_UNKNOWN");
    assert_eq!(full.message(), Some("manifest unknown"));
    assert_eq!(full.detail(), Some("{\"Tag\":\"latest\"}"));
    let bare = docker_registry::errors::ApiError::new("DENIED".to_string(), None, None);
    assert_eq!(bare.code(), "DENIED");
    assert_eq!(bare.message(), None);
    assert_eq!(bare.detail(), None);
    let list = docker_registry::errors::ApiErrors::new(vec![full, bare]);
    assert_eq!(list.errors().len(), 2);
    assert_eq!(list.errors()[1].code(), "DENIED");
    assert!(docker_registry::errors::is_success(200));
    assert!(docker_registry::errors::is_success(299));
    assert!(!docker_registry::errors::is_success(199));
    assert!(!docker_registry::errors::is_success(300));
    assert!(!docker_registry::errors::is_success(404));
}
