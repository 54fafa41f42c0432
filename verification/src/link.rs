//! The item type of the HTTP/HTML instantiation: a resolved locator plus an
//! optional link label.
//!
//! The engine only ever reads plain projections of a locator (its
//! serialization, scheme, host and path), so the library models a locator as
//! those components, filled in by the `url` crate behind trusted wrappers.

use vstd::prelude::*;
use vstd::string::StrSliceExecFns;

use crate::errors::StorkError;
use crate::errors::StorkHttpError;
use crate::text::prefix_of;
use crate::text::str_contains;
use crate::text::str_starts_with;
use crate::text::substring_of;

verus! {

/// Mathematical model of a locator: its serialization and the component
/// projections the filters read.
pub struct UrlV {
    /// The full serialization, as `url::Url::as_str` returns it.
    pub full: Seq<char>,
    /// The scheme, without the `:` separator.
    pub scheme: Seq<char>,
    /// The host, when the locator has one.
    pub host: Option<Seq<char>>,
    /// The path component.
    pub path: Seq<char>,
}

/// Mathematical model of a [`Link`]: its locator and optional label.
pub struct LinkV {
    pub url: UrlV,
    pub text: Option<Seq<char>>,
}

/// An absolute locator, held as the plain components the engine and the
/// filters read.  [`Url::parse`] and [`Url::resolve`] fill the components
/// with the `url` crate's own reading of the serialization; the fields are
/// public, and a hand-built value simply behaves according to whatever
/// components it carries.
#[derive(Debug, Clone, Hash)]
pub struct Url {
    /// The full serialization, as `url::Url::as_str` returns it.
    pub full: String,
    /// The scheme, without the `:` separator.
    pub scheme: String,
    /// The host, when the locator has one.
    pub host: Option<String>,
    /// The path component.
    pub path: String,
}

impl View for Url {
    type V = UrlV;

    open spec fn view(&self) -> UrlV {
        UrlV {
            full: self.full@,
            scheme: self.scheme@,
            host: match self.host {
                Some(h) => Some(h@),
                None => None,
            },
            path: self.path@,
        }
    }
}

/// What `url::Url::parse` makes of a string: `Some` with the components of
/// the parsed locator when the string parses as an absolute URL, `None`
/// otherwise.  The outcome depends on the input string alone.
pub uninterp spec fn url_parse(s: Seq<char>) -> Option<UrlV>;

/// What parsing `base` and joining `reference` against it makes: `Some` with
/// the components of the resolved locator, `None` when either step fails.
/// The outcome depends on the two strings alone.
pub uninterp spec fn url_resolve(base: Seq<char>, reference: Seq<char>) -> Option<UrlV>;

/// Relies on `url::Url::parse`: parses an absolute URL from a string, with
/// the parse outcome and every component a function of the input alone, and
/// on the component accessors `as_str`, `scheme`, `host_str` and `path`.
#[verifier::external_body]
fn parse_url_raw(input: &str) -> (r: Option<Url>)
    ensures
        match r {
            Some(u) => url_parse(input@) == Some(u@),
            None => url_parse(input@) is None,
        },
{
    match url::Url::parse(input) {
        Ok(u) => Some(Url {
            full: u.as_str().to_owned(),
            scheme: u.scheme().to_owned(),
            host: u.host_str().map(|h| h.to_owned()),
            path: u.path().to_owned(),
        }),
        Err(_) => None,
    }
}

/// Relies on `url::Url::parse` and `url::Url::join`: resolves `reference`
/// against the absolute URL serialized in `base` (an absolute reference
/// replaces the base; a relative one is joined to it), with the outcome a
/// function of the two strings alone.
#[verifier::external_body]
fn resolve_url_raw(base: &str, reference: &str) -> (r: Option<Url>)
    ensures
        match r {
            Some(u) => url_resolve(base@, reference@) == Some(u@),
            None => url_resolve(base@, reference@) is None,
        },
{
    let b = match url::Url::parse(base) {
        Ok(b) => b,
        Err(_) => return None,
    };
    match b.join(reference) {
        Ok(u) => Some(Url {
            full: u.as_str().to_owned(),
            scheme: u.scheme().to_owned(),
            host: u.host_str().map(|h| h.to_owned()),
            path: u.path().to_owned(),
        }),
        Err(_) => None,
    }
}

/// The resolution policy for a reference discovered on a page: a reference
/// that starts with `/` or carries no `://` separator is taken as relative
/// and joined against the base locator; anything else must parse as an
/// absolute locator on its own.
pub open spec fn resolved_href(base: Seq<char>, href: Seq<char>) -> Option<UrlV> {
    if prefix_of("/"@, href) || !substring_of("://"@, href) {
        url_resolve(base, href)
    } else {
        url_parse(href)
    }
}

impl Url {
    /// Parse an absolute locator from a string.
    ///
    /// Succeeds exactly when `url::Url::parse` accepts the input.
    pub fn parse(input: &str) -> (r: Result<Url, StorkHttpError>)
        ensures
            match r {
                Ok(u) => url_parse(input@) == Some(u@),
                Err(e) => url_parse(input@) is None && e == StorkHttpError::UrlParseError,
            },
    {
        match parse_url_raw(input) {
            Some(u) => Ok(u),
            None => Err(StorkHttpError::UrlParseError),
        }
    }

    /// Resolve a discovered reference against this locator, following the
    /// resolution policy of [`resolved_href`].
    pub fn resolve(&self, href: &str) -> (r: Result<Url, StorkHttpError>)
        ensures
            match r {
                Ok(u) => resolved_href(self@.full, href@) == Some(u@),
                Err(e) => resolved_href(self@.full, href@) is None && e
                    == StorkHttpError::UrlParseError,
            },
    {
        let relative = str_starts_with(href, "/") || !str_contains(href, "://");
        let raw = if relative {
            resolve_url_raw(self.full.as_str(), href)
        } else {
            parse_url_raw(href)
        };
        match raw {
            Some(u) => Ok(u),
            None => Err(StorkHttpError::UrlParseError),
        }
    }

    /// The full serialization of this locator.
    pub fn as_str(&self) -> (r: &str)
        ensures
            r@ == self@.full,
    {
        self.full.as_str()
    }

    /// The scheme of this locator, without the `:` separator.
    pub fn scheme(&self) -> (r: &str)
        ensures
            r@ == self@.scheme,
    {
        self.scheme.as_str()
    }

    /// The host of this locator, when it has one.
    pub fn host_str(&self) -> (r: Option<&str>)
        ensures
            match r {
                Some(h) => self@.host == Some(h@),
                None => self@.host is None,
            },
    {
        match &self.host {
            Some(h) => Some(h.as_str()),
            None => None,
        }
    }

    /// The path component of this locator.
    pub fn path(&self) -> (r: &str)
        ensures
            r@ == self@.path,
    {
        self.path.as_str()
    }
}

impl PartialEq for Url {
    /// Locators are equal when their serializations and components are.
    fn eq(&self, other: &Url) -> (r: bool) {
        self.full == other.full && self.scheme == other.scheme && self.path == other.path
            && match (&self.host, &other.host) {
            (Some(a), Some(b)) => *a == *b,
            (None, None) => true,
            _ => false,
        }
    }
}

impl vstd::std_specs::cmp::PartialEqSpecImpl for Url {
    open spec fn obeys_eq_spec() -> bool {
        true
    }

    open spec fn eq_spec(&self, other: &Url) -> bool {
        self@ == other@
    }
}

/// One discoverable item of the crawl: a resolved locator, with the label of
/// the anchor it was found under when that label is non-empty.
#[derive(Debug, Clone, Hash)]
pub struct Link {
    /// The resolved locator of this item.
    pub url: Url,
    /// The anchor label this item was found under, when non-empty.
    pub text: Option<String>,
}

impl View for Link {
    type V = LinkV;

    open spec fn view(&self) -> LinkV {
        LinkV {
            url: self.url@,
            text: match self.text {
                Some(t) => Some(t@),
                None => None,
            },
        }
    }
}

/// A stable content digest of a link, as `twox_hash::XxHash64` (seed 0)
/// computes it over the link's fields: the same link value always yields the
/// same digest.
pub uninterp spec fn link_digest(l: LinkV) -> u64;

/// Relies on `twox_hash::XxHash64` with its default seed 0, fed through
/// `Link`'s derived `Hash` impl: the digest is a deterministic function of
/// the link's fields.
#[verifier::external_body]
pub(crate) fn digest_of(link: &Link) -> (d: u64)
    ensures
        d == link_digest(link@),
{
    let mut hasher = twox_hash::XxHash64::default();
    std::hash::Hash::hash(link, &mut hasher);
    std::hash::Hasher::finish(&hasher)
}

impl Link {
    /// Parse an absolute locator from a string into an unlabelled link.
    ///
    /// Succeeds exactly when [`Url::parse`] does.
    pub fn from_str(input: &str) -> (r: Result<Link, StorkHttpError>)
        ensures
            match r {
                Ok(l) => url_parse(input@) == Some(l@.url) && l@.text is None,
                Err(e) => url_parse(input@) is None && e == StorkHttpError::UrlParseError,
            },
    {
        match Url::parse(input) {
            Ok(url) => Ok(Link { url, text: None }),
            Err(e) => Err(e),
        }
    }

    /// A link to `url` carrying `label` as its text, when the label is
    /// non-empty; an empty label is dropped.
    pub fn with_label(url: Url, label: String) -> (r: Link)
        ensures
            r@ == labelled_link(url@, label@),
            r@.url == url@,
            label@.len() == 0 ==> r@.text is None,
            label@.len() > 0 ==> r@.text == Some(label@),
    {
        let text = if label.as_str().unicode_len() == 0 {
            None
        } else {
            Some(label)
        };
        Link { url, text }
    }

    /// The locator of this link.
    pub fn url(&self) -> (r: &Url)
        ensures
            r@ == self@.url,
    {
        &self.url
    }

    /// The label this link was found under, when present.
    pub fn text(&self) -> (r: Option<String>)
        ensures
            match r {
                Some(t) => self@.text == Some(t@),
                None => self@.text is None,
            },
    {
        match &self.text {
            Some(t) => Some(t.clone()),
            None => None,
        }
    }
}

impl From<Url> for Link {
    /// An unlabelled link to the given locator.
    fn from(url: Url) -> (r: Link) {
        Link { url, text: None }
    }
}

impl vstd::std_specs::convert::FromSpecImpl<Url> for Link {
    open spec fn obeys_from_spec() -> bool {
        true
    }

    open spec fn from_spec(url: Url) -> Link {
        Link { url, text: None }
    }
}

/// The link a followed anchor yields: the resolved locator, labelled when
/// the anchor's text is non-empty.
pub open spec fn labelled_link(url: UrlV, label: Seq<char>) -> LinkV {
    LinkV { url, text: if label.len() == 0 { None } else { Some(label) } }
}

/// The views of a page's anchors: each anchor's label and reference.
pub open spec fn anchor_views(anchors: Seq<(String, String)>) -> Seq<(Seq<char>, Seq<char>)> {
    anchors.map_values(|a: (String, String)| (a.0@, a.1@))
}

/// The candidate sequence a page's anchors yield against base locator
/// `base`: each anchor's reference resolved by the policy of
/// [`resolved_href`], carrying its non-empty label; the first unresolvable
/// reference ends the sequence with the locator-parse error, and nothing
/// after it is produced.
pub open spec fn assembled(base: Seq<char>, anchors: Seq<(Seq<char>, Seq<char>)>) -> Seq<
    Result<LinkV, StorkError>,
>
    decreases anchors.len(),
{
    if anchors.len() == 0 {
        Seq::empty()
    } else {
        match resolved_href(base, anchors[0].1) {
            Some(u) => seq![Ok(labelled_link(u, anchors[0].0))] + assembled(
                base,
                anchors.drop_first(),
            ),
            None => seq![Err(StorkError::UrlParseError)],
        }
    }
}

/// The candidates a page's anchors yield, exactly as [`assembled`] states:
/// each `(label, reference)` pair resolved against `base` into a labelled
/// link, failing fast on the first unresolvable reference.
#[verifier::loop_isolation(false)]
pub fn assemble_candidates(base: &Url, anchors: Vec<(String, String)>) -> (out: Vec<
    Result<Link, StorkError>,
>)
    ensures
        crate::cand_views(out@) == assembled(base@.full, anchor_views(anchors@)),
{
    let ghost all = anchor_views(anchors@);
    let mut rem = anchors;
    let mut out: Vec<Result<Link, StorkError>> = Vec::new();
    proof {
        assert(crate::cand_views(out@) =~= Seq::<Result<LinkV, StorkError>>::empty());
    }
    while rem.len() > 0
        invariant
            assembled(base@.full, all) == crate::cand_views(out@) + assembled(
                base@.full,
                anchor_views(rem@),
            ),
        decreases rem@.len(),
    {
        let ghost rem0 = anchor_views(rem@);
        let (label, href) = rem.remove(0);
        proof {
            assert(rem0[0] == (label@, href@));
            assert(rem0.drop_first() =~= anchor_views(rem@));
        }
        match base.resolve(href.as_str()) {
            Ok(url) => {
                let ghost before = out@;
                out.push(Ok(Link::with_label(url, label)));
                proof {
                    assert(crate::cand_views(out@) =~= crate::cand_views(before).push(
                        Ok(labelled_link(resolved_href(base@.full, href@)->Some_0, label@)),
                    ));
                    assert(assembled(base@.full, rem0) == seq![
                        Ok::<LinkV, StorkError>(
                            labelled_link(resolved_href(base@.full, href@)->Some_0, label@),
                        ),
                    ] + assembled(base@.full, anchor_views(rem@)));
                    assert(crate::cand_views(before) + assembled(base@.full, rem0)
                        =~= crate::cand_views(out@) + assembled(base@.full, anchor_views(rem@)));
                }
            },
            Err(e) => {
                let ghost before = out@;
                out.push(Err(e.into_stork_error()));
                proof {
                    assert(assembled(base@.full, rem0) =~= seq![
                        Err::<LinkV, StorkError>(StorkError::UrlParseError),
                    ]);
                    assert(crate::cand_views(out@) =~= crate::cand_views(before).push(
                        Err(StorkError::UrlParseError),
                    ));
                    assert(crate::cand_views(out@) =~= crate::cand_views(before) + assembled(
                        base@.full,
                        rem0,
                    ));
                    assert(assembled(base@.full, anchor_views(rem@)).len() >= 0);
                }
                return out;
            },
        }
    }
    proof {
        assert(anchor_views(rem@) =~= Seq::<(Seq<char>, Seq<char>)>::empty());
        assert(assembled(base@.full, anchor_views(rem@)) =~= Seq::<
            Result<LinkV, StorkError>,
        >::empty());
        assert(assembled(base@.full, all) =~= crate::cand_views(out@));
    }
    out
}

impl PartialEq for Link {
    /// Links are equal when both their locators and their labels are.
    fn eq(&self, other: &Link) -> (r: bool) {
        self.url == other.url && match (&self.text, &other.text) {
            (Some(a), Some(b)) => *a == *b,
            (None, None) => true,
            _ => false,
        }
    }
}

impl vstd::std_specs::cmp::PartialEqSpecImpl for Link {
    open spec fn obeys_eq_spec() -> bool {
        true
    }

    open spec fn eq_spec(&self, other: &Link) -> bool {
        self@ == other@
    }
}

} // verus!
