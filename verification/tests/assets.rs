use embedded_assets::paths::normalize;
use embedded_assets::policy::cache_control_for_path;
use embedded_assets::respond::get_embedded_file;
use embedded_assets::respond::get_index_html_with_port;
use embedded_assets::respond::has_embedded_assets;
use embedded_assets::respond::list_embedded_files;
use embedded_assets::store::WebAssets;

fn store_with(entries: &[(&str, &[u8])]) -> WebAssets {
    let mut s = WebAssets::new();
    for (p, d) in entries {
        s.insert(p.to_string(), d.to_vec());
    }
    s
}

#[test]
fn normalize_empty_and_root() {
    assert_eq!(normalize(""), "index.html");
    assert_eq!(normalize("/"), "index.html");
}

#[test]
fn normalize_strips_single_separator() {
    assert_eq!(normalize("/foo/bar.js"), "foo/bar.js");
    assert_eq!(normalize("foo/bar.js"), "foo/bar.js");
    assert_eq!(normalize("/index.html"), "index.html");
}

#[test]
fn cache_directive_for_hashed_script() {
    assert_eq!(
        cache_control_for_path("app.a1b2.js"),
        "public, max-age=31536000, immutable"
    );
    assert_eq!(
        cache_control_for_path("style.css"),
        "public, max-age=31536000, immutable"
    );
}

#[test]
fn cache_directive_for_entry_document() {
    assert_eq!(cache_control_for_path("index.html"), "no-store, max-age=0");
}

#[test]
fn cache_directive_for_fonts() {
    assert_eq!(
        cache_control_for_path("font.woff2"),
        "public, max-age=31536000, immutable"
    );
    assert_eq!(
        cache_control_for_path("font.woff"),
        "public, max-age=31536000, immutable"
    );
    assert_eq!(
        cache_control_for_path("font.ttf"),
        "public, max-age=31536000, immutable"
    );
}

#[test]
fn cache_directive_default() {
    assert_eq!(cache_control_for_path("readme.txt"), "public, max-age=3600");
    assert_eq!(cache_control_for_path("logo.png"), "public, max-age=3600");
}

#[test]
fn hit_serves_stored_bytes_with_headers() {
    let s = store_with(&[
        ("index.html", b"<html></html>"),
        ("main.js", b"console.log(1);"),
    ]);
    let r = get_embedded_file(&s, "/main.js");
    assert_eq!(r.status, 200);
    assert_eq!(r.body, b"console.log(1);".to_vec());
    assert_eq!(r.content_type.as_deref(), Some("text/javascript"));
    assert_eq!(
        r.cache_control.as_deref(),
        Some("public, max-age=31536000, immutable")
    );
}

#[test]
fn root_request_serves_entry_document() {
    let s = store_with(&[("index.html", b"<html>home</html>")]);
    let r = get_embedded_file(&s, "/");
    assert_eq!(r.status, 200);
    assert_eq!(r.body, b"<html>home</html>".to_vec());
    assert_eq!(r.content_type.as_deref(), Some("text/html"));
    assert_eq!(r.cache_control.as_deref(), Some("no-store, max-age=0"));
}

#[test]
fn unknown_suffix_falls_back_to_octet_stream() {
    let s = store_with(&[("data.bin_custom", b"\x00\x01")]);
    let r = get_embedded_file(&s, "/data.bin_custom");
    assert_eq!(r.status, 200);
    assert_eq!(r.content_type.as_deref(), Some("application/octet-stream"));
}

#[test]
fn miss_is_404() {
    let s = store_with(&[("index.html", b"<html></html>")]);
    let r = get_embedded_file(&s, "/missing.js");
    assert_eq!(r.status, 404);
    assert_eq!(r.body, b"Not found".to_vec());
    assert!(r.content_type.is_none());
    assert!(r.cache_control.is_none());
}

#[test]
fn every_stored_path_is_served() {
    let entries: &[(&str, &[u8])] = &[
        ("index.html", b"<html></html>"),
        ("a/b.css", b"body{}"),
        ("deep/path/file.woff2", b"\x77\x4f\x46\x32"),
    ];
    let s = store_with(entries);
    for (p, d) in entries {
        let r = get_embedded_file(&s, p);
        assert_eq!(r.status, 200);
        assert_eq!(r.body, d.to_vec());
    }
}

#[test]
fn port_injection_replaces_every_occurrence() {
    let html = "<html>ws://h:__SELKIES_INJECTED_PORT__ and __SELKIES_INJECTED_PORT__</html>";
    let s = store_with(&[("index.html", html.as_bytes())]);
    let r = get_index_html_with_port(&s, 8080);
    assert_eq!(r.status, 200);
    assert_eq!(r.body, b"<html>ws://h:8080 and 8080</html>".to_vec());
    assert_eq!(r.content_type.as_deref(), Some("text/html; charset=utf-8"));
    assert_eq!(r.cache_control.as_deref(), Some("no-store, max-age=0"));
}

#[test]
fn port_injection_without_token_serves_unmodified() {
    let html = "<html>no token here</html>";
    let s = store_with(&[("index.html", html.as_bytes())]);
    let r = get_index_html_with_port(&s, 9000);
    assert_eq!(r.status, 200);
    assert_eq!(r.body, html.as_bytes().to_vec());
}

#[test]
fn port_injection_extreme_ports() {
    let html = "__SELKIES_INJECTED_PORT__";
    let s = store_with(&[("index.html", html.as_bytes())]);
    let r = get_index_html_with_port(&s, 65535);
    assert_eq!(r.body, b"65535".to_vec());
    let r = get_index_html_with_port(&s, 0);
    assert_eq!(r.body, b"0".to_vec());
}

#[test]
fn entry_document_missing_is_404() {
    let s = store_with(&[("other.js", b"1")]);
    let r = get_index_html_with_port(&s, 8080);
    assert_eq!(r.status, 404);
    assert_eq!(r.body, b"index.html not found".to_vec());
}

#[test]
fn invalid_entry_document_is_500() {
    let s = store_with(&[("index.html", &[0xff, 0xfe, b'<'][..])]);
    let r = get_index_html_with_port(&s, 8080);
    assert_eq!(r.status, 500);
    assert_eq!(r.body, b"Invalid UTF-8 in index.html".to_vec());
    assert!(r.content_type.is_none());
    assert!(r.cache_control.is_none());
}

#[test]
fn probe_matches_entry_presence() {
    let empty = store_with(&[]);
    assert!(!has_embedded_assets(&empty));
    assert_eq!(empty.get("index.html").is_some(), false);

    let s = store_with(&[("index.html", b"<html></html>")]);
    assert!(has_embedded_assets(&s));
    assert_eq!(s.get("index.html").is_some(), true);

    // Repeated invocations agree: the probe has no hidden state.
    assert!(has_embedded_assets(&s));
    assert!(has_embedded_assets(&s));
}

#[test]
fn listing_names_all_paths() {
    let s = store_with(&[("index.html", b"a"), ("main.js", b"b")]);
    let listed = list_embedded_files(&s);
    assert_eq!(listed.len(), 2);
    assert!(listed.iter().any(|p| p == "index.html"));
    assert!(listed.iter().any(|p| p == "main.js"));
    // The contract pins insertion order.
    assert_eq!(listed, vec!["index.html".to_string(), "main.js".to_string()]);
}

#[test]
fn duplicate_insert_keeps_first_content() {
    let mut s = WebAssets::new();
    s.insert("index.html".to_string(), b"first".to_vec());
    s.insert("index.html".to_string(), b"second".to_vec());
    assert_eq!(s.get("index.html"), Some(&b"first".to_vec()));
    assert_eq!(list_embedded_files(&s).len(), 1);
}

#[test]
fn store_lookup_is_exact_match() {
    let s = store_with(&[("dir/file.js", b"x")]);
    assert!(s.has("dir/file.js"));
    assert!(!s.has("dir"));
    assert!(!s.has("file.js"));
    assert!(!s.has("dir/file.js/"));
}
