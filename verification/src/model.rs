//! Data structures shared across the build.

use vstd::prelude::*;

verus! {

/// Site-wide configuration, read from `config.yaml`. Only the fields the
/// feed and `<head>` need are declared here; the Typst templates read the rest
/// (e.g. `tagline`, `author`) directly.
#[derive(Debug, Clone)]
pub struct Config {
    pub title: String,
    pub url: String,
    pub description: String,
    /// Pre-rendered `<link>` tags for whichever favicon files exist in
    /// `assets/`. Filled in by the build, not read from `config.yaml`.
    pub favicons: Vec<String>,
}

/// A post's frontmatter, as written in the `metadata((...))` block.
#[derive(Debug, Clone)]
pub struct FrontMatter {
    pub title: String,
    pub date: String,
    pub tags: Vec<String>,
    pub summary: String,
    /// Opt in to a table of contents (`toc: true` in the post).
    pub toc: bool,
    /// When a TOC is shown, start it collapsed instead of expanded.
    pub collapsed: bool,
    /// Number the lines of this post's code blocks.
    pub line_numbers: bool,
}

/// A post's metadata plus its slug; this is what the listing templates read.
#[derive(Debug, Clone)]
pub struct PostMeta {
    pub slug: String,
    pub title: String,
    pub date: String,
    pub tags: Vec<String>,
    pub summary: String,
}

impl PostMeta {
    /// The listing metadata of a post: its slug and the frontmatter fields
    /// the listings show (title, date, tags, summary).
    pub fn from_frontmatter(slug: String, fm: FrontMatter) -> (res: Self)
        ensures
            res.slug == slug,
            res.title == fm.title,
            res.date == fm.date,
            res.tags == fm.tags,
            res.summary == fm.summary,
    {
        PostMeta { slug, title: fm.title, date: fm.date, tags: fm.tags, summary: fm.summary }
    }
}

} // verus!
