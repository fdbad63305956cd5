use papyr::serve::{inject_livereload, is_html_content_type, Watch, WatchAction, LIVERELOAD_SCRIPT};

#[test]
fn injects_before_closing_body() {
    let out = inject_livereload("<html><body>hi</body></html>");
    assert_eq!(
        out,
        format!("<html><body>hi{LIVERELOAD_SCRIPT}</body></html>")
    );
}

#[test]
fn appends_when_no_body_tag() {
    let out = inject_livereload("<p>fragment</p>");
    assert_eq!(out, format!("<p>fragment</p>{LIVERELOAD_SCRIPT}"));
}

#[test]
fn injects_before_last_body_when_multiple() {
    // Only the final </body> should be the insertion point.
    let out = inject_livereload("<body>a</body><body>b</body>");
    assert_eq!(
        out,
        format!("<body>a</body><body>b{LIVERELOAD_SCRIPT}</body>")
    );
}

#[test]
fn script_points_at_the_reload_endpoint() {
    assert!(LIVERELOAD_SCRIPT.contains(papyr::serve::LIVERELOAD_PATH));
    assert_eq!(inject_livereload(""), LIVERELOAD_SCRIPT);
}

#[test]
fn only_html_responses_get_the_script() {
    assert!(is_html_content_type("text/html; charset=utf-8"));
    assert!(is_html_content_type("text/html"));
    assert!(!is_html_content_type("text/css"));
    assert!(!is_html_content_type("application/text/html"));
}

#[test]
fn watcher_rebuilds_only_on_newer_sources() {
    let mut w = Watch::new(100);
    assert_eq!(w.on_change(100), WatchAction::Ignore);
    assert_eq!(w.on_change(99), WatchAction::Ignore);
    assert_eq!(w.on_change(101), WatchAction::Rebuild);
    assert!(!w.built(150, false));
    assert_eq!(w.last_built, 150);
    assert!(w.built(200, true));
    assert_eq!(w.on_change(150), WatchAction::Ignore);
}
