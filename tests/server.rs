use sitebuild::reload::{on_stream_event, should_reload, watch_request, StreamAction, StreamEvent, WatchError};
use sitebuild::request::{
    after_first_probe, after_second_probe, content_type, resolve_request, split_segments, Lookup, Probe,
};

fn p(parts: &[&str]) -> Vec<String> {
    parts.iter().map(|s| s.to_string()).collect()
}

#[test]
fn traversal_is_refused() {
    let root = p(&["site", "dist"]);
    assert_eq!(resolve_request(&root, "/../../etc/passwd"), None);
    assert_eq!(resolve_request(&root, "/%2e%2e/%2E%2E/etc/passwd"), None);
    assert_eq!(resolve_request(&root, "/%2e%2e%2f%2e%2e%2fetc%2fpasswd"), None);
    assert_eq!(resolve_request(&root, "/a/..%5cb"), None);
    assert_eq!(resolve_request(&root, "/.git/config"), None);
}

#[test]
fn request_paths_resolve_under_root() {
    let root = p(&["dist"]);
    assert_eq!(resolve_request(&root, "/"), Some(p(&["dist"])));
    assert_eq!(resolve_request(&root, "/blog//post"), Some(p(&["dist", "blog", "post"])));
    assert_eq!(resolve_request(&root, "/a%20b/c%2fd"), Some(p(&["dist", "a b", "c", "d"])));
    assert_eq!(resolve_request(&root, "/bad%ff"), None);
    assert_eq!(resolve_request(&root, "/100%"), Some(p(&["dist", "100%"])));
}

#[test]
fn segments_split_on_every_slash() {
    assert_eq!(split_segments("a/b//c/"), p(&["a", "b", "", "c", ""]));
    assert_eq!(split_segments(""), p(&[""]));
}

#[test]
fn lookups_fall_back() {
    assert_eq!(after_first_probe(p(&["d", "a.css"]), Probe::File), Lookup::Serve(p(&["d", "a.css"])));
    assert_eq!(after_first_probe(p(&["d", "blog"]), Probe::Dir), Lookup::Retry(p(&["d", "blog", "index.html"])));
    assert_eq!(after_first_probe(p(&["d", "about"]), Probe::Missing), Lookup::Retry(p(&["d", "about.html"])));
    assert_eq!(after_first_probe(p(&["d", "x.png"]), Probe::Missing), Lookup::NotFound);
    assert_eq!(after_first_probe(p(&["d", "x"]), Probe::Unreadable), Lookup::NotFound);
    assert_eq!(after_second_probe(p(&["d", "about.html"]), Probe::File), Lookup::Serve(p(&["d", "about.html"])));
    assert_eq!(after_second_probe(p(&["d", "about.html"]), Probe::Missing), Lookup::NotFound);
}

#[test]
fn content_types_by_extension() {
    assert_eq!(content_type("index.html"), "text/html");
    assert_eq!(content_type("feed.xml"), "application/xml");
    assert_eq!(content_type("a.b.css"), "text/css");
    assert_eq!(content_type("app.js"), "application/javascript");
    assert_eq!(content_type("i.png"), "image/png");
    assert_eq!(content_type("favicon.ico"), "image/x-icon");
    assert_eq!(content_type("logo.svg"), "image/svg+xml");
    assert_eq!(content_type("README"), "application/octet-stream");
    assert_eq!(content_type(".html"), "application/octet-stream");
    assert_eq!(content_type("data.bin"), "application/octet-stream");
}

#[test]
fn watch_queries() {
    assert_eq!(watch_request(None), Err(WatchError::NoQuery));
    assert_eq!(watch_request(Some("path=%2Fa.html&path=b+c")), Ok(vec!["/a.html".to_string(), "b c".to_string()]));
    assert_eq!(watch_request(Some("path=/a.html&other=1")), Err(WatchError::BadKey));
    assert_eq!(watch_request(Some("")), Ok(Vec::new()));
    assert_eq!(WatchError::BadKey.message(), "query key was not `path`");
    assert_eq!(WatchError::NoQuery.message(), "no query parameters in URI");
}

#[test]
fn reload_targets_watched_path_only() {
    let watched = vec![p(&["dist", "a.html"])];
    let a = vec![p(&["home", "me", "site", "dist", "a.html"])];
    let b = vec![p(&["home", "me", "site", "dist", "b.html"])];
    assert!(should_reload(&a, &watched));
    assert!(!should_reload(&b, &watched));
    assert_eq!(on_stream_event(&watched, &StreamEvent::Changed(a)), StreamAction::Reload);
    assert_eq!(on_stream_event(&watched, &StreamEvent::Changed(b)), StreamAction::Wait);
    assert_eq!(on_stream_event(&watched, &StreamEvent::Lagged), StreamAction::Reload);
    assert_eq!(on_stream_event(&watched, &StreamEvent::Closed), StreamAction::Stop);
}

#[test]
fn reload_wakes_every_client_of_a_path() {
    let changed = vec![p(&["x", "dist", "a.html"])];
    let one = vec![p(&["dist", "a.html"])];
    let two = vec![p(&["dist", "c.html"]), p(&["dist", "a.html"])];
    let other = vec![p(&["dist", "c.html"])];
    assert!(should_reload(&changed, &one));
    assert!(should_reload(&changed, &two));
    assert!(!should_reload(&changed, &other));
    assert!(!should_reload(&Vec::new(), &one));
}
