use underpane::protocol::{
    accepts_uri_list, cors_headers, method_not_allowed, not_found, parse_host, preflight_response,
    realm_headers, realm_origin, route_request, uri_list_body, wallpaper_host, wallpaper_http_address,
    HttpMethod, Route, Target,
};

fn target(realm: &str, index: usize, id: &str) -> Target {
    Target { realm: realm.to_string(), index, id: id.to_string() }
}

#[test]
fn parses_monitor_hosts() {
    let t = parse_host("monitor-2.cube.wallpaper").unwrap();
    assert_eq!((t.realm.as_str(), t.index, t.id.as_str()), ("wallpaper", 1, "cube"));
    let t = parse_host("underpane.monitor-1.synthwave-canyon.asset").unwrap();
    assert_eq!((t.realm.as_str(), t.index, t.id.as_str()), ("asset", 0, "synthwave-canyon"));
    let t = parse_host("x.monitor-0.monitor-3.a.b").unwrap();
    assert_eq!((t.realm.as_str(), t.index, t.id.as_str()), ("b", 2, "a"));
    let t = parse_host("monitor-+4.a.b").unwrap();
    assert_eq!(t.index, 3);
}

#[test]
fn rejects_hosts_without_monitor_id_and_realm() {
    assert!(parse_host("monitor-0.cube.wallpaper").is_none());
    assert!(parse_host("monitor-1.cube").is_none());
    assert!(parse_host("monitor-1..wallpaper").is_none());
    assert!(parse_host("monitor-1.cube.").is_none());
    assert!(parse_host("screen-1.cube.wallpaper").is_none());
    assert!(parse_host("").is_none());
}

#[test]
fn realm_hosts_parse_back() {
    for index in [0usize, 1, 9, 41] {
        let origin = realm_origin("asset", index, "cube", false);
        let host = origin.strip_prefix("underpane://").unwrap();
        let t = parse_host(host).unwrap();
        assert_eq!((t.realm.as_str(), t.index, t.id.as_str()), ("asset", index, "cube"));
        let origin = realm_origin("asset", index, "cube", true);
        let host = origin.strip_prefix("http://").unwrap();
        let t = parse_host(host).unwrap();
        assert_eq!((t.realm.as_str(), t.index, t.id.as_str()), ("asset", index, "cube"));
    }
}

#[test]
fn builds_origins_and_wallpaper_addresses() {
    assert_eq!(realm_origin("asset", 0, "cube", false), "underpane://monitor-1.cube.asset");
    assert_eq!(realm_origin("asset", 2, "cube", true), "http://underpane.monitor-3.cube.asset");
    assert_eq!(wallpaper_host(0, "video"), "monitor-1.video");
    assert_eq!(wallpaper_http_address(1, "video"), "http://underpane-wallpaper.monitor-2.video");
}

#[test]
fn routes_requests() {
    let w = target("wallpaper", 0, "cube");
    let a = target("asset", 1, "cube");
    let o = target("other", 0, "cube");
    assert!(matches!(route_request(HttpMethod::Options, None, "/"), Route::Preflight));
    assert!(matches!(route_request(HttpMethod::Get, None, "/"), Route::NotFound));
    assert!(matches!(route_request(HttpMethod::Other, Some(&w), "/"), Route::MethodNotAllowed));
    match route_request(HttpMethod::Get, Some(&w), "/") {
        Route::WallpaperFile { id, path } => assert_eq!((id.as_str(), path.as_str()), ("cube", "index.html")),
        r => panic!("unexpected {r:?}"),
    }
    match route_request(HttpMethod::Head, Some(&w), "//css/site.css/") {
        Route::WallpaperFile { path, .. } => assert_eq!(path, "css/site.css"),
        r => panic!("unexpected {r:?}"),
    }
    match route_request(HttpMethod::Get, Some(&a), "/bg/x.png") {
        Route::AssetFile { index, id, rest } => {
            assert_eq!((index, id.as_str(), rest.as_str()), (1, "cube", "bg/x.png"))
        }
        r => panic!("unexpected {r:?}"),
    }
    assert!(matches!(route_request(HttpMethod::Get, Some(&o), "/"), Route::NotFound));
}

#[test]
fn fixed_responses() {
    let r = not_found();
    assert_eq!(r.status, 404);
    assert_eq!(r.headers, vec![("Content-Type".to_string(), "text/plain".to_string())]);
    assert_eq!(r.body, b"Not Found".to_vec());
    let r = method_not_allowed();
    assert_eq!(r.status, 405);
    assert_eq!(r.headers, vec![("Allow".to_string(), "GET, HEAD".to_string())]);
    let r = preflight_response();
    assert_eq!(r.status, 204);
    assert_eq!(r.headers.len(), 4);
    assert!(r.body.is_empty());
}

#[test]
fn realm_headers_carry_csp_and_cors() {
    let w = target("wallpaper", 0, "cube");
    let h = realm_headers(Some(&w), false);
    assert_eq!(
        h,
        vec![(
            "Content-Security-Policy".to_string(),
            "default-src 'self' 'unsafe-inline' ipc: http://ipc.localhost underpane://monitor-1.cube.asset"
                .to_string()
        )]
    );
    let a = target("asset", 0, "cube");
    assert_eq!(realm_headers(Some(&a), false), cors_headers());
    assert_eq!(cors_headers()[0], ("Access-Control-Allow-Origin".to_string(), "*".to_string()));
    assert!(realm_headers(None, false).is_empty());
    assert!(realm_headers(Some(&target("x", 0, "y")), true).is_empty());
}

#[test]
fn recognises_uri_list_requests() {
    assert!(accepts_uri_list(Some("text/uri-list")));
    assert!(accepts_uri_list(Some("text/html, TEXT/URI-List;q=0.9")));
    assert!(!accepts_uri_list(Some("text/uri")));
    assert!(!accepts_uri_list(Some("")));
    assert!(!accepts_uri_list(None));
}

#[test]
fn lists_directories() {
    let entries = vec![
        ("a b.png".to_string(), false),
        ("sub".to_string(), true),
        ("ü".to_string(), false),
    ];
    assert_eq!(uri_list_body(&entries), "a%20b.png\r\nsub/\r\n%C3%BC");
    assert_eq!(uri_list_body(&[]), "");
}
