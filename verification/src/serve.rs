//! Live reload for the development server: the client script that is added to
//! served HTML pages (the static output itself stays clean).

use vstd::prelude::*;

use crate::strings::{
    chars_of, matches_at, matches_at_exec, push_range, push_str, rfind, rfind_exec, string_of,
};

verus! {

/// Path the live-reload event stream is served from. The `__papyr` prefix
/// won't collide with generated site content.
pub const LIVERELOAD_PATH: &'static str = "/__papyr/livereload";

/// Client script injected into served HTML pages. `EventSource` reconnects on
/// its own, so when the server restarts the page reconnects and reloads on the
/// next tick.
pub const LIVERELOAD_SCRIPT: &'static str = "<script>new EventSource(\"/__papyr/livereload\").onmessage=()=>location.reload()</script>";

/// The page with the live-reload script just before its last `</body>`, or
/// appended when there is none.
pub open spec fn with_livereload(html: Seq<char>) -> Seq<char> {
    match rfind(html, "</body>"@) {
        Some(idx) => html.subrange(0, idx) + LIVERELOAD_SCRIPT@ + html.subrange(
            idx,
            html.len() as int,
        ),
        None => html + LIVERELOAD_SCRIPT@,
    }
}

/// Insert the live-reload script into an HTML document, just before its last
/// `</body>` (or appended if there is no closing body tag).
pub fn inject_livereload(html: &str) -> (res: String)
    ensures
        res@ == with_livereload(html@),
{
    let h = chars_of(html);
    let mut out: Vec<char> = Vec::new();
    match rfind_exec(&h, &chars_of("</body>")) {
        Some(idx) => {
            push_range(&mut out, &h, 0, idx);
            push_str(&mut out, LIVERELOAD_SCRIPT);
            push_range(&mut out, &h, idx, h.len());
        },
        None => {
            push_range(&mut out, &h, 0, h.len());
            push_str(&mut out, LIVERELOAD_SCRIPT);
            assert(h@.subrange(0, h@.len() as int) == h@);
        },
    }
    string_of(&out)
}

/// A response is an HTML page when its `Content-Type` starts with
/// `text/html`; only those get the live-reload script.
pub fn is_html_content_type(content_type: &str) -> (res: bool)
    ensures
        res == matches_at(content_type@, 0, "text/html"@),
{
    matches_at_exec(&chars_of(content_type), 0, &chars_of("text/html"))
}

/// The rebuild watcher's state: when the current build started, as
/// nanoseconds since the Unix epoch (negative before it).
pub struct Watch {
    pub last_built: i128,
}

/// What the watcher does after a burst of file events.
#[derive(Clone, Copy, Debug, PartialEq, Eq)]
pub enum WatchAction {
    /// No source is newer than the last build: the events were the build's
    /// own output churn.
    Ignore,
    /// A source changed since the last build started: rebuild.
    Rebuild,
}

impl Watch {
    /// A watcher whose last build started at `now`.
    pub fn new(now: i128) -> (res: Self)
        ensures
            res.last_built == now,
    {
        Watch { last_built: now }
    }

    /// Rebuild only when the newest source modification time is later than
    /// the start of the last build.
    pub fn on_change(&self, latest_source: i128) -> (res: WatchAction)
        ensures
            res == (if latest_source > self.last_built {
                WatchAction::Rebuild
            } else {
                WatchAction::Ignore
            }),
    {
        if latest_source > self.last_built {
            WatchAction::Rebuild
        } else {
            WatchAction::Ignore
        }
    }

    /// After a rebuild that started at `started`: edits made during the build
    /// stay newer than the new stamp, and browsers reload only after a clean
    /// build (a failed one leaves the last good page in place).
    pub fn built(&mut self, started: i128, ok: bool) -> (reload: bool)
        ensures
            final(self).last_built == started,
            reload == ok,
    {
        self.last_built = started;
        ok
    }
}

} // verus!
