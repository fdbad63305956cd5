use papyr::render::{inject_css, is_html_experimental_notice};

#[test]
fn inject_css_goes_into_head() {
    let out = inject_css("<head>\n  </head><body>x</body>");
    assert!(out.contains(r#"<link rel="stylesheet" href="/style.css">"#));
    assert!(out.find("stylesheet").unwrap() < out.find("</head>").unwrap());
}

#[test]
fn experimental_notice_is_recognized() {
    assert!(is_html_experimental_notice(
        "HTML export is under active development"
    ));
    assert!(!is_html_experimental_notice("equation was ignored"));
}

#[test]
fn experimental_notice_variants() {
    assert!(is_html_experimental_notice("html EXPORT is EXPERIMENTAL"));
    assert!(!is_html_experimental_notice("html export"));
    assert!(!is_html_experimental_notice("experimental feature"));
}

#[test]
fn inject_css_exact() {
    assert_eq!(
        inject_css("<head></head></head>"),
        "<head>    <link rel=\"stylesheet\" href=\"/style.css\">\n  </head></head>"
    );
    assert_eq!(inject_css("no head"), "no head");
}
