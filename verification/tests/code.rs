use papyr::code::number_lines;

#[test]
fn wraps_each_line_and_marks_the_pre() {
    let html = "<pre><code data-lang=\"rust\">fn a() {\n    b();\n}</code></pre>";
    let out = number_lines(html);
    assert!(out.starts_with(r#"<pre class="numbered"><code data-lang="rust">"#));
    assert_eq!(out.matches(r#"<span class="line">"#).count(), 3);
    assert!(out.contains(r#"<span class="line">}</span>"#));
    // newlines between lines are preserved (so `white-space: pre` still breaks)
    assert!(out.contains("</span>\n<span"));
}

#[test]
fn a_trailing_newline_does_not_add_a_blank_line() {
    let out = number_lines("<pre><code>only</code></pre>");
    assert_eq!(out.matches(r#"<span class="line">"#).count(), 1);
    let out = number_lines("<pre><code>only\n</code></pre>");
    assert_eq!(out.matches(r#"<span class="line">"#).count(), 1);
}

#[test]
fn inline_code_is_left_alone() {
    let html = "<p>use <code>x()</code> here</p>";
    assert_eq!(number_lines(html), html);
}

#[test]
fn number_lines_exact_output_and_surroundings() {
    let html = "<p>a</p><pre><code>x\ny\n</code></pre><p>b</p><pre><code class=\"c\">z</code></pre>";
    assert_eq!(
        number_lines(html),
        "<p>a</p><pre class=\"numbered\"><code><span class=\"line\">x</span>\n<span class=\"line\">y</span></code></pre><p>b</p><pre class=\"numbered\"><code class=\"c\"><span class=\"line\">z</span></code></pre>"
    );
}

#[test]
fn unclosed_code_block_is_left_alone() {
    let html = "<pre><code>never closed";
    assert_eq!(number_lines(html), html);
}

#[test]
fn number_lines_agrees_with_the_regex_form() {
    let re = regex::Regex::new(r"(?s)<pre>(<code[^>]*>)(.*?)</code></pre>").unwrap();
    let samples = [
        "<pre><code>a\nb</code></pre>",
        "x<pre><code lang=\"r\">\n\n</code></pre>y<pre><code>q</code></pre>",
        "<pre><code>a</code></pre></code></pre>",
        "<pre><codeX>a</code></pre>",
        "",
    ];
    for html in samples {
        let expected = re
            .replace_all(html, |c: &regex::Captures| {
                let body = &c[2];
                let body = body.strip_suffix('\n').unwrap_or(body);
                let mut lines = String::new();
                for (i, line) in body.split('\n').enumerate() {
                    if i > 0 {
                        lines.push('\n');
                    }
                    lines.push_str(&format!(r#"<span class="line">{line}</span>"#));
                }
                format!(r#"<pre class="numbered">{}{lines}</code></pre>"#, &c[1])
            })
            .into_owned();
        assert_eq!(number_lines(html), expected, "input: {html:?}");
    }
}
