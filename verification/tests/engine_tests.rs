use stork::filters::DomainFilter;
use stork::Crawl;
use stork::FilterSet;
use stork::Link;
use stork::StorkClient;
use stork::StorkError;

fn link(s: &str) -> Link {
    Link::from_str(s).unwrap()
}

/// A synthetic client scripted with the candidates each page yields.
struct ScriptClient {
    pages: Vec<(String, Vec<Result<Link, StorkError>>)>,
}

impl ScriptClient {
    fn page(mut self, url: &str, cands: Vec<Result<Link, StorkError>>) -> Self {
        self.pages.push((String::from(url), cands));
        self
    }
}

impl Default for ScriptClient {
    fn default() -> Self {
        ScriptClient { pages: Vec::new() }
    }
}

impl StorkClient for ScriptClient {
    fn run(&self, src: &Link) -> Vec<Result<Link, StorkError>> {
        for (url, cands) in &self.pages {
            if src.url().as_str() == url.as_str() {
                return cands.clone();
            }
        }
        Vec::new()
    }
}

#[test]
fn seed_node_has_no_parent_and_empty_filters() {
    let crawl: Crawl<ScriptClient> = Crawl::new(link("https://example.com/"));
    assert_eq!(crawl.len(), 1);
    let root = crawl.node(0);
    assert_eq!(root.val().url().as_str(), "https://example.com/");
    assert_eq!(root.parent(), None);
    assert!(root.filters().matches(&link("https://anything.example/")));
}

#[test]
fn expansion_yields_children_in_emission_order() {
    let client = ScriptClient::default().page(
        "https://example.com/",
        vec![
            Ok(link("https://example.com/a")),
            Ok(link("https://example.com/b")),
        ],
    );
    let mut crawl = Crawl::new(link("https://example.com/")).with_client(client);
    let (kids, err) = crawl.exec(0);
    assert_eq!(err, None);
    assert_eq!(kids, vec![1, 2]);
    assert_eq!(crawl.len(), 3);
    assert_eq!(crawl.node(1).val().url().as_str(), "https://example.com/a");
    assert_eq!(crawl.node(2).val().url().as_str(), "https://example.com/b");
    assert_eq!(crawl.node(1).parent(), Some(0));
    assert_eq!(crawl.node(2).parent(), Some(0));
}

#[test]
fn duplicate_candidates_in_one_expansion_collapse_to_the_first() {
    // The base and the duplicate of `/a` mirror a page listing the same
    // reference twice, one written relative to the base.
    let base = link("https://example.com/");
    let relative_b = Link::from(base.url().resolve("/b").unwrap());
    let client = ScriptClient::default().page(
        "https://example.com/",
        vec![
            Ok(link("https://example.com/a")),
            Ok(relative_b),
            Ok(link("https://example.com/a")),
        ],
    );
    let mut crawl = Crawl::new(base).with_client(client);
    let (kids, err) = crawl.exec(0);
    assert_eq!(err, None);
    assert_eq!(kids.len(), 2);
    assert_eq!(crawl.node(kids[0]).val().url().as_str(), "https://example.com/a");
    assert_eq!(crawl.node(kids[1]).val().url().as_str(), "https://example.com/b");
}

#[test]
fn a_domain_filter_prunes_foreign_hosts() {
    let client = ScriptClient::default().page(
        "https://example.org/",
        vec![
            Ok(link("https://example.com/elsewhere")),
            Ok(link("https://example.org/here")),
        ],
    );
    let mut crawl = Crawl::new(link("https://example.org/"))
        .with_filters(FilterSet::default().add_filter(DomainFilter::new(String::from("example.org"))))
        .with_client(client);
    let (kids, err) = crawl.exec(0);
    assert_eq!(err, None);
    assert_eq!(kids.len(), 1);
    assert_eq!(crawl.node(kids[0]).val().url().as_str(), "https://example.org/here");
}

#[test]
fn children_inherit_their_parents_filters() {
    let client = ScriptClient::default().page(
        "https://example.org/",
        vec![Ok(link("https://example.org/child"))],
    );
    let mut crawl = Crawl::new(link("https://example.org/"))
        .with_filters(FilterSet::default().add_filter(DomainFilter::new(String::from("example.org"))))
        .with_client(client);
    let (kids, _) = crawl.exec(0);
    let child = crawl.node(kids[0]);
    assert!(child.filters().matches(&link("https://example.org/x")));
    assert!(!child.filters().matches(&link("https://example.com/x")));
}

#[test]
fn a_node_never_yields_itself() {
    let client = ScriptClient::default().page(
        "https://example.com/loop",
        vec![Ok(link("https://example.com/loop"))],
    );
    let mut crawl = Crawl::new(link("https://example.com/loop")).with_client(client);
    let (kids, err) = crawl.exec(0);
    assert_eq!(err, None);
    assert_eq!(kids.len(), 0);
    assert_eq!(crawl.len(), 1);
}

#[test]
fn a_child_never_yields_an_ancestor() {
    let client = ScriptClient::default()
        .page("https://example.com/a", vec![Ok(link("https://example.com/b"))])
        .page("https://example.com/b", vec![Ok(link("https://example.com/a"))]);
    let mut crawl = Crawl::new(link("https://example.com/a")).with_client(client);
    let (kids, err) = crawl.exec(0);
    assert_eq!(err, None);
    assert_eq!(kids, vec![1]);
    // The child's only candidate equals the seed's value: the ancestor
    // guard drops it and the expansion is empty.
    let (grandkids, err) = crawl.exec(1);
    assert_eq!(err, None);
    assert_eq!(grandkids.len(), 0);
    assert_eq!(crawl.len(), 2);
}

#[test]
fn a_failed_candidate_truncates_the_expansion() {
    let client = ScriptClient::default().page(
        "https://example.com/",
        vec![
            Ok(link("https://example.com/a")),
            Err(StorkError::HttpError),
            Ok(link("https://example.com/never")),
        ],
    );
    let mut crawl = Crawl::new(link("https://example.com/")).with_client(client);
    let (kids, err) = crawl.exec(0);
    assert_eq!(err, Some(StorkError::HttpError));
    assert_eq!(kids, vec![1]);
    assert_eq!(crawl.len(), 2);
    assert_eq!(crawl.node(1).val().url().as_str(), "https://example.com/a");
}

#[test]
fn an_error_in_one_branch_leaves_siblings_alone() {
    let client = ScriptClient::default()
        .page(
            "https://example.com/",
            vec![
                Ok(link("https://example.com/bad")),
                Ok(link("https://example.com/good")),
            ],
        )
        .page("https://example.com/bad", vec![Err(StorkError::HtmlParseError)])
        .page("https://example.com/good", vec![Ok(link("https://example.com/leaf"))]);
    let mut crawl = Crawl::new(link("https://example.com/")).with_client(client);
    let (kids, _) = crawl.exec(0);
    let (_, bad_err) = crawl.exec(kids[0]);
    assert_eq!(bad_err, Some(StorkError::HtmlParseError));
    let (good_kids, good_err) = crawl.exec(kids[1]);
    assert_eq!(good_err, None);
    assert_eq!(good_kids.len(), 1);
    assert_eq!(
        crawl.node(good_kids[0]).val().url().as_str(),
        "https://example.com/leaf"
    );
}

#[test]
fn the_duplicate_tracker_belongs_to_the_node() {
    let client = ScriptClient::default().page(
        "https://example.com/",
        vec![Ok(link("https://example.com/a"))],
    );
    let mut crawl = Crawl::new(link("https://example.com/")).with_client(client);
    let (first, _) = crawl.exec(0);
    assert_eq!(first.len(), 1);
    // Expanding the same node again finds only digests its tracker
    // already yielded.
    let (second, _) = crawl.exec(0);
    assert_eq!(second.len(), 0);
    // A sibling node starts with a fresh tracker of its own.
    assert_eq!(crawl.node(first[0]).parent(), Some(0));
}

#[test]
fn expand_with_runs_the_algorithm_over_given_candidates() {
    let mut crawl: Crawl<ScriptClient> = Crawl::new(link("https://example.com/"));
    let (kids, err) = crawl.expand_with(
        0,
        vec![
            Ok(link("https://example.com/a")),
            Ok(link("https://example.com/a")),
            Ok(link("https://example.com/")),
        ],
    );
    assert_eq!(err, None);
    assert_eq!(kids, vec![1]);
    assert_eq!(crawl.len(), 2);
}

#[test]
fn set_filters_reattaches_a_filter_set_to_one_node() {
    let client = ScriptClient::default().page(
        "https://example.com/",
        vec![
            Ok(link("https://example.com/a")),
            Ok(link("https://example.org/b")),
        ],
    );
    let mut crawl = Crawl::new(link("https://example.com/")).with_client(client);
    crawl.set_filters(
        0,
        FilterSet::default().add_filter(DomainFilter::new(String::from("example.com"))),
    );
    let (kids, _) = crawl.exec(0);
    assert_eq!(kids.len(), 1);
    assert_eq!(crawl.node(kids[0]).val().url().as_str(), "https://example.com/a");
}

#[test]
fn offer_drives_an_expansion_one_candidate_at_a_time() {
    let mut crawl: Crawl<ScriptClient> = Crawl::new(link("https://example.com/"));
    let (child, err) = crawl.offer(0, Ok(link("https://example.com/a")));
    assert_eq!(child, Some(1));
    assert_eq!(err, None);
    // The node's tracker has recorded the digest: the same candidate is
    // suppressed on the next pull.
    let (child, err) = crawl.offer(0, Ok(link("https://example.com/a")));
    assert_eq!(child, None);
    assert_eq!(err, None);
    // An error candidate is handed back for the caller to stop on.
    let (child, err) = crawl.offer(0, Err(StorkError::HttpError));
    assert_eq!(child, None);
    assert_eq!(err, Some(StorkError::HttpError));
    assert_eq!(crawl.len(), 2);
    assert_eq!(crawl.node(1).val().url().as_str(), "https://example.com/a");
}
