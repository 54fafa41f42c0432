use stork::link::assemble_candidates;
use stork::Link;
use stork::StorkError;
use stork::StorkHttpError;
use stork::Url;

#[test]
fn parse_decomposes_a_locator() {
    let u = Url::parse("https://example.org/a/b?q=1").unwrap();
    assert_eq!(u.as_str(), "https://example.org/a/b?q=1");
    assert_eq!(u.scheme(), "https");
    assert_eq!(u.host_str(), Some("example.org"));
    assert_eq!(u.path(), "/a/b");
}

#[test]
fn parse_normalizes_like_the_url_crate() {
    let u = Url::parse("https://example.com").unwrap();
    assert_eq!(u.as_str(), "https://example.com/");
    assert_eq!(u.path(), "/");
}

#[test]
fn parse_rejects_a_relative_reference() {
    assert_eq!(Url::parse("/only/a/path").unwrap_err(), StorkHttpError::UrlParseError);
    assert_eq!(Link::from_str("not a url").unwrap_err(), StorkHttpError::UrlParseError);
}

#[test]
fn resolve_joins_a_rooted_reference() {
    let base = Url::parse("https://example.com/dir/page").unwrap();
    let r = base.resolve("/b").unwrap();
    assert_eq!(r.as_str(), "https://example.com/b");
}

#[test]
fn resolve_joins_a_bare_relative_reference() {
    let base = Url::parse("https://example.com/dir/page").unwrap();
    let r = base.resolve("other").unwrap();
    assert_eq!(r.as_str(), "https://example.com/dir/other");
}

#[test]
fn resolve_keeps_an_absolute_reference() {
    let base = Url::parse("https://example.com/dir/page").unwrap();
    let r = base.resolve("http://other.net/c").unwrap();
    assert_eq!(r.as_str(), "http://other.net/c");
}

#[test]
fn resolve_joins_a_protocol_relative_reference() {
    let base = Url::parse("https://alice.com/a").unwrap();
    let r = base.resolve("//eve.com/b").unwrap();
    assert_eq!(r.as_str(), "https://eve.com/b");
}

#[test]
fn an_empty_label_is_dropped() {
    let u = Url::parse("https://example.com/").unwrap();
    let unlabelled = Link::with_label(u, String::new());
    assert_eq!(unlabelled.text(), None);

    let u = Url::parse("https://example.com/").unwrap();
    let labelled = Link::with_label(u, String::from("More information..."));
    assert_eq!(labelled.text(), Some(String::from("More information...")));
}

#[test]
fn a_link_from_a_url_has_no_label() {
    let u = Url::parse("https://example.com/x").unwrap();
    let l = Link::from(u);
    assert_eq!(l.text(), None);
    assert_eq!(l.url().as_str(), "https://example.com/x");
}

#[test]
fn links_compare_by_locator_and_label() {
    let a = Link::from_str("https://example.com/a").unwrap();
    let b = Link::from_str("https://example.com/a").unwrap();
    let c = Link::from_str("https://example.com/c").unwrap();
    assert!(a == b);
    assert!(a != c);

    let labelled = Link::with_label(
        Url::parse("https://example.com/a").unwrap(),
        String::from("here"),
    );
    assert!(a != labelled);
}

#[test]
fn http_errors_map_onto_engine_errors() {
    assert_eq!(
        StorkHttpError::UrlParseError.into_stork_error(),
        StorkError::UrlParseError
    );
    assert_eq!(
        StorkHttpError::HtmlParseError.into_stork_error(),
        StorkError::HtmlParseError
    );
    assert_eq!(StorkHttpError::HttpError.into_stork_error(), StorkError::HttpError);
}

#[test]
fn assemble_candidates_resolves_labels_and_fails_fast() {
    let base = Url::parse("https://example.com/dir/").unwrap();
    let out = assemble_candidates(
        &base,
        vec![
            (String::from("More"), String::from("/a")),
            (String::new(), String::from("b")),
            (String::from("bad"), String::from("http://[broken")),
            (String::from("never"), String::from("/c")),
        ],
    );
    assert_eq!(out.len(), 3);

    let first = out[0].as_ref().unwrap();
    assert_eq!(first.url().as_str(), "https://example.com/a");
    assert_eq!(first.text(), Some(String::from("More")));

    let second = out[1].as_ref().unwrap();
    assert_eq!(second.url().as_str(), "https://example.com/dir/b");
    assert_eq!(second.text(), None);

    assert_eq!(*out[2].as_ref().unwrap_err(), StorkError::UrlParseError);
}

#[test]
fn assemble_candidates_of_no_anchors_is_empty() {
    let base = Url::parse("https://example.com/").unwrap();
    let out = assemble_candidates(&base, Vec::new());
    assert_eq!(out.len(), 0);
}
