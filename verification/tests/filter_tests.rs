use stork::filters::DomainFilter;
use stork::filters::Filter;
use stork::filters::FilterType;
use stork::filters::PathFilter;
use stork::filters::SchemeFilter;
use stork::filters::UrlFilter;
use stork::filters::UrlFilterType;
use stork::FilterSet;
use stork::Link;

fn link(s: &str) -> Link {
    Link::from_str(s).unwrap()
}

#[test]
fn empty_filter_set_matches_everything() {
    let fs = FilterSet::default();
    assert!(fs.matches(&link("https://example.com/")));
    assert!(fs.matches(&link("http://example.org/some/path?q=1")));
    assert!(fs.matches(&link("ftp://files.example.net/a")));
}

#[test]
fn filter_set_is_the_conjunction_of_its_predicates() {
    let scheme = SchemeFilter::new(String::from("https"));
    let path = PathFilter::new(FilterType::StartsWith, String::from("/docs"));
    let fs = FilterSet::default()
        .add_filter(SchemeFilter::new(String::from("https")))
        .add_filter(PathFilter::new(FilterType::StartsWith, String::from("/docs")));

    let both = link("https://example.com/docs/intro");
    let only_scheme = link("https://example.com/blog");
    let only_path = link("http://example.com/docs/intro");
    let neither = link("http://example.com/blog");

    for l in [&both, &only_scheme, &only_path, &neither] {
        assert_eq!(fs.matches(l), scheme.matches(l) && path.matches(l));
    }
    assert!(fs.matches(&both));
    assert!(!fs.matches(&only_scheme));
    assert!(!fs.matches(&only_path));
    assert!(!fs.matches(&neither));
}

#[test]
fn negation_inverts_only_its_own_predicate() {
    let plain = UrlFilter::new(
        UrlFilterType::Path(FilterType::Contains),
        String::from("private"),
    );
    let inverted = UrlFilter::new(
        UrlFilterType::Path(FilterType::Contains),
        String::from("private"),
    )
    .negated();

    let hit = link("https://example.com/private/x");
    let miss = link("https://example.com/public/x");
    assert!(plain.matches(&hit));
    assert!(!plain.matches(&miss));
    assert!(!inverted.matches(&hit));
    assert!(inverted.matches(&miss));

    // Beside another predicate, the negation inverts only its own test.
    let fs = FilterSet::default()
        .add_filter(SchemeFilter::new(String::from("https")))
        .add_filter(
            UrlFilter::new(UrlFilterType::Path(FilterType::Contains), String::from("private"))
                .negated(),
        );
    assert!(fs.matches(&miss));
    assert!(!fs.matches(&hit));
    assert!(!fs.matches(&link("http://example.com/public/x")));
}

#[test]
fn path_filter_modes() {
    let l = link("https://example.com/abc/def");
    assert!(PathFilter::new(FilterType::StartsWith, String::from("/abc")).matches(&l));
    assert!(!PathFilter::new(FilterType::StartsWith, String::from("/b")).matches(&l));
    assert!(PathFilter::new(FilterType::EndsWith, String::from("def")).matches(&l));
    assert!(!PathFilter::new(FilterType::EndsWith, String::from("abc")).matches(&l));
    assert!(PathFilter::new(FilterType::Contains, String::from("c/d")).matches(&l));
    assert!(!PathFilter::new(FilterType::Contains, String::from("zzz")).matches(&l));
    assert!(PathFilter::new(FilterType::Equals, String::from("/abc/def")).matches(&l));
    assert!(!PathFilter::new(FilterType::Equals, String::from("/abc")).matches(&l));
}

#[test]
fn domain_filter_matches_host_only() {
    let f = DomainFilter::new(String::from("example.com"));
    assert!(f.matches(&link("https://example.com/anything")));
    assert!(!f.matches(&link("https://example.org/anything")));
    assert!(!f.matches(&link("https://www.example.com/")));
    // A locator without a host never matches a domain filter, so the
    // negated predicate accepts it.
    assert!(!f.matches(&link("mailto:someone@example.com")));
    let negated = UrlFilter::new(UrlFilterType::Domain, String::from("example.com")).negated();
    assert!(negated.matches(&link("mailto:someone@example.com")));
}

#[test]
fn scheme_filter_matches_scheme() {
    let f = SchemeFilter::new(String::from("https"));
    assert!(f.matches(&link("https://example.com/")));
    assert!(!f.matches(&link("http://example.com/")));
    assert!(!f.matches(&link("ftp://example.com/")));
}

#[test]
fn url_filter_covers_every_kind() {
    let l = link("https://example.com/a/b");
    assert!(UrlFilter::new(UrlFilterType::Domain, String::from("example.com")).matches(&l));
    assert!(UrlFilter::new(UrlFilterType::Scheme, String::from("https")).matches(&l));
    assert!(
        UrlFilter::new(UrlFilterType::Path(FilterType::Equals), String::from("/a/b")).matches(&l)
    );
}

#[test]
fn add_url_filter_appends_one_predicate() {
    let fs = FilterSet::default()
        .add_url_filter(UrlFilter::new(UrlFilterType::Domain, String::from("example.com")))
        .add_url_filter(
            UrlFilter::new(UrlFilterType::Path(FilterType::StartsWith), String::from("/a")),
        );
    assert!(fs.matches(&link("https://example.com/a/b")));
    assert!(!fs.matches(&link("https://example.com/b")));
    assert!(!fs.matches(&link("https://example.org/a/b")));
}

#[test]
fn extending_a_clone_leaves_the_original_alone() {
    let original = FilterSet::default().add_filter(SchemeFilter::new(String::from("https")));
    let passing = link("https://example.org/page");
    assert!(original.matches(&passing));

    let extended = original
        .clone()
        .add_filter(DomainFilter::new(String::from("example.com")));

    // The original still accepts what it accepted before...
    assert!(original.matches(&passing));
    // ...while the extended clone decides as original AND new predicate.
    assert!(!extended.matches(&passing));
    assert!(extended.matches(&link("https://example.com/page")));
}
