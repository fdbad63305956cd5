use papyr::dates::parse;
use papyr::listing::{newest_first, tag_pages};
use papyr::model::PostMeta;

fn post(slug: &str, tags: &[&str]) -> PostMeta {
    PostMeta {
        slug: slug.into(),
        title: slug.into(),
        date: String::new(),
        tags: tags.iter().map(|t| t.to_string()).collect(),
        summary: String::new(),
    }
}

#[test]
fn posts_are_listed_newest_first_with_bad_dates_last() {
    let dates = [
        "2026-01-01",
        "garbage",
        "2026-06-24T10:00:00Z",
        "2026-01-01T00:00:00+00:00",
        "2026-06-24 09:00",
        "",
    ];
    let keys: Vec<_> = dates.iter().map(|d| parse(d)).collect();
    assert_eq!(newest_first(&keys), vec![2, 4, 0, 3, 1, 5]);
    assert!(newest_first(&Vec::new()).is_empty());
}

#[test]
fn tag_pages_are_sorted_and_share_slugs() {
    let posts = vec![
        post("a", &["Machine Learning", "C++", "!!!"]),
        post("b", &["c", "rust", "machine-learning"]),
    ];
    let pages = tag_pages(&posts);
    assert_eq!(
        pages,
        vec![
            ("c".to_string(), "C++".to_string()),
            ("machine-learning".to_string(), "Machine Learning".to_string()),
            ("rust".to_string(), "rust".to_string()),
        ]
    );
    assert!(tag_pages(&[]).is_empty());
}

#[test]
fn tag_pages_order_by_code_point() {
    let posts = vec![post("a", &["b", "a1", "a", "ab"])];
    let slugs: Vec<String> = tag_pages(&posts).into_iter().map(|(s, _)| s).collect();
    let mut sorted = slugs.clone();
    sorted.sort();
    assert_eq!(slugs, sorted);
    assert_eq!(slugs, vec!["a", "a1", "ab", "b"]);
}
