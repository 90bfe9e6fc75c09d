use vdom_runtime::nav::{PathSegment, UrlPath};

fn texts(p: &UrlPath) -> Vec<String> {
    p.unpack().iter().map(|s| s.unpack_string().expect("static segment")).collect()
}

#[test]
fn parse_splits_on_slashes() {
    let p = UrlPath::parse("/content/items".to_string());
    assert_eq!(texts(&p), vec!["content".to_string(), "items".to_string()]);
}

#[test]
fn parse_drops_the_query() {
    let p = UrlPath::parse("/content?page=2/ignored".to_string());
    assert_eq!(texts(&p), vec!["content".to_string()]);
}

#[test]
fn parse_drops_empty_segments() {
    let p = UrlPath::parse("//a///b/".to_string());
    assert_eq!(texts(&p), vec!["a".to_string(), "b".to_string()]);
}

#[test]
fn parse_empty_path_is_index() {
    assert!(UrlPath::parse("".to_string()).is_index());
    assert!(UrlPath::parse("/".to_string()).is_index());
    assert!(UrlPath::parse("?q".to_string()).is_index());
    assert!(!UrlPath::parse("/a".to_string()).is_index());
}

#[test]
fn from_segs_round_trips() {
    let segs = vec![
        PathSegment::Static("account".to_string()),
        PathSegment::Binder,
        PathSegment::Wildcard,
    ];
    let p = UrlPath::from_segs(segs.clone());
    assert_eq!(p.unpack(), segs);
}

#[test]
fn static_matches_compares_literals_only() {
    let given = UrlPath::parse("/account/alice".to_string());
    let pattern = UrlPath::from_segs(vec![
        PathSegment::Static("account".to_string()),
        PathSegment::Binder,
    ]);
    assert!(UrlPath::static_matches(&given, &pattern));

    let wrong = UrlPath::from_segs(vec![
        PathSegment::Static("content".to_string()),
        PathSegment::Binder,
    ]);
    assert!(!UrlPath::static_matches(&given, &wrong));

    let too_short = UrlPath::from_segs(vec![PathSegment::Static("account".to_string())]);
    assert!(!UrlPath::static_matches(&given, &too_short));
}

#[test]
fn unpack_string_only_for_literals() {
    assert_eq!(
        PathSegment::Static("x".to_string()).unpack_string(),
        Some("x".to_string())
    );
    assert_eq!(PathSegment::Wildcard.unpack_string(), None);
    assert_eq!(PathSegment::Binder.unpack_string(), None);
}
