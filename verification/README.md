# papyr

A minimal static blog engine powered by [Typst](https://typst.app): posts are
written in Typst and compiled to a static site with heading anchors, an
opt-in table of contents, line-numbered code blocks, social `<head>` tags, an
RSS feed, a sitemap and a broken-link check.

The text and HTML transformations of the engine are a library verified with
[Verus](https://github.com/verus-lang/verus); the command-line tool around it
compiles Typst, reads and writes files, and serves the site.

## Layout

- `src/` — the verified library.
  - `strings` — character-sequence search and replacement, with their specs.
  - `text` — slugs (with their shape, idempotence, content and separator
    laws), entity decoding, decimal numbers.
  - `escaping` — proofs that entity decoding undoes HTML/XML escaping.
  - `dates` — reading a post's `date` field and writing RSS dates, on top of
    chrono.
  - `feed` — the RSS 2.0 document.
  - `head` — the per-page `<head>` metadata, and that it keeps the page's
    `</head>` tags.
  - `toc` — heading ids, hover anchors and the table of contents, whose list
    is properly nested with one link per heading, in order.
  - `code` — line numbers for code blocks.
  - `links` — which site-internal links a page makes, and their targets.
  - `listing` — the newest-first order of posts and the tag pages.
  - `site` — canonical URLs, post navigation, sitemap, robots, warnings.
  - `render`, `serve`, `scaffold`, `model` — the stylesheet link, live
    reload, starter content and the shared data types.
- `tests/` — tests of the library.
- `app/` — the `papyr` command: Typst compilation, the build on disk, the
  development server and the file watcher.
