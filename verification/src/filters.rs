//! Filter predicates and their AND-composed, inheritable collection.
//!
//! A predicate tests one string-valued projection of a [`Link`] and may be
//! negated; a [`FilterSet`] accepts a candidate exactly when every contained
//! predicate does.  Filter sets are duplicated by value, so extending a
//! child's set never affects the set a parent still holds.

use vstd::prelude::*;

use crate::link::Link;
use crate::link::LinkV;
use crate::text::prefix_of;
use crate::text::str_contains;
use crate::text::str_ends_with;
use crate::text::str_starts_with;
use crate::text::substring_of;
use crate::text::suffix_of;

verus! {

/// How a path predicate compares its comparison value with the path.
#[derive(Debug, Clone, Copy)]
pub enum FilterType {
    StartsWith,
    EndsWith,
    Contains,
    Equals,
}

/// Which projection of a locator a predicate tests.
#[derive(Debug, Clone, Copy)]
pub enum UrlFilterType {
    /// The path component, under the given comparison mode.
    Path(FilterType),
    /// Equality against the host.
    Domain,
    /// Equality against the scheme.
    Scheme,
}

/// Mathematical model of a predicate: its kind, comparison value and
/// negation flag.
pub struct FilterV {
    pub kind: UrlFilterType,
    pub value: Seq<char>,
    pub negated: bool,
}

/// One predicate over a candidate link's locator, optionally negated.
#[derive(Debug)]
pub struct UrlFilter {
    kind: UrlFilterType,
    value: String,
    negated: bool,
}

impl View for UrlFilter {
    type V = FilterV;

    closed spec fn view(&self) -> FilterV {
        FilterV { kind: self.kind, value: self.value@, negated: self.negated }
    }
}

/// Whether the plain (un-negated) test of predicate `f` holds of link `l`.
pub open spec fn filter_test(f: FilterV, l: LinkV) -> bool {
    match f.kind {
        UrlFilterType::Path(FilterType::StartsWith) => prefix_of(f.value, l.url.path),
        UrlFilterType::Path(FilterType::EndsWith) => suffix_of(f.value, l.url.path),
        UrlFilterType::Path(FilterType::Contains) => substring_of(f.value, l.url.path),
        UrlFilterType::Path(FilterType::Equals) => l.url.path == f.value,
        UrlFilterType::Domain => match l.url.host {
            Some(h) => h == f.value,
            None => false,
        },
        UrlFilterType::Scheme => l.url.scheme == f.value,
    }
}

/// Whether predicate `f` accepts link `l`: its plain test, inverted when the
/// predicate is negated.
pub open spec fn filter_accepts(f: FilterV, l: LinkV) -> bool {
    if f.negated {
        !filter_test(f, l)
    } else {
        filter_test(f, l)
    }
}

/// Whether the AND-composed predicate sequence `fs` accepts link `l`: every
/// contained predicate must accept it, so the empty sequence accepts
/// everything.
pub open spec fn set_accepts(fs: Seq<FilterV>, l: LinkV) -> bool {
    forall|i: int| 0 <= i < fs.len() ==> #[trigger] filter_accepts(fs[i], l)
}

impl UrlFilter {
    /// A plain (un-negated) predicate of the given kind and comparison value.
    pub fn new(kind: UrlFilterType, value: String) -> (r: Self)
        ensures
            r@ == (FilterV { kind, value: value@, negated: false }),
    {
        Self { kind, value, negated: false }
    }

    /// This predicate with its negation flag set: it will accept exactly the
    /// links its plain test rejects.
    pub fn negated(self) -> (r: Self)
        ensures
            r@ == (FilterV { negated: true, ..self@ }),
    {
        Self { kind: self.kind, value: self.value, negated: true }
    }

    /// Whether this predicate accepts the given link.
    pub fn matches(&self, link: &Link) -> (r: bool)
        ensures
            r == filter_accepts(self@, link@),
    {
        let hit = match &self.kind {
            UrlFilterType::Path(FilterType::StartsWith) => str_starts_with(
                link.url.path(),
                self.value.as_str(),
            ),
            UrlFilterType::Path(FilterType::EndsWith) => str_ends_with(
                link.url.path(),
                self.value.as_str(),
            ),
            UrlFilterType::Path(FilterType::Contains) => str_contains(
                link.url.path(),
                self.value.as_str(),
            ),
            UrlFilterType::Path(FilterType::Equals) => link.url.path == self.value,
            UrlFilterType::Domain => match &link.url.host {
                Some(h) => *h == self.value,
                None => false,
            },
            UrlFilterType::Scheme => link.url.scheme == self.value,
        };
        if self.negated {
            !hit
        } else {
            hit
        }
    }
}

impl Clone for UrlFilter {
    /// An independent duplicate with the same kind, value and negation.
    fn clone(&self) -> (r: Self)
        ensures
            r@ == self@,
    {
        Self { kind: self.kind, value: self.value.clone(), negated: self.negated }
    }
}

/// A predicate over candidate links that a [`FilterSet`] can hold.
///
/// Every implementation reduces, by [`Filter::into_predicate`], to one of
/// the closed predicate kinds of [`UrlFilter`], so a set of heterogeneous
/// predicates can be stored, duplicated and reasoned about uniformly.
pub trait Filter: Sized {
    /// Whether this predicate accepts the given link.
    spec fn accepts(&self, l: LinkV) -> bool;

    /// Whether this predicate accepts the given link.
    fn matches(&self, val: &Link) -> (r: bool)
        ensures
            r == self.accepts(val@),
    ;

    /// This predicate as the stored predicate representation, deciding
    /// every link exactly as the predicate itself does.
    fn into_predicate(self) -> (f: UrlFilter)
        ensures
            forall|l: LinkV| #[trigger] filter_accepts(f@, l) == self.accepts(l),
    ;
}

impl Filter for UrlFilter {
    open spec fn accepts(&self, l: LinkV) -> bool {
        filter_accepts(self@, l)
    }

    fn matches(&self, val: &Link) -> (r: bool) {
        UrlFilter::matches(self, val)
    }

    fn into_predicate(self) -> (f: UrlFilter) {
        self
    }
}

/// Accepts links whose locator's host equals the given value.
#[derive(Debug, Clone)]
pub struct DomainFilter {
    value: String,
}

impl View for DomainFilter {
    type V = Seq<char>;

    closed spec fn view(&self) -> Seq<char> {
        self.value@
    }
}

impl DomainFilter {
    /// A predicate accepting exactly the links on the given host.
    pub fn new(value: String) -> (r: Self)
        ensures
            forall|l: LinkV| #[trigger] r.accepts(l) == (l.url.host == Some(value@)),
    {
        Self { value }
    }
}

impl Filter for DomainFilter {
    open spec fn accepts(&self, l: LinkV) -> bool {
        l.url.host == Some(self@)
    }

    fn matches(&self, val: &Link) -> (r: bool) {
        match &val.url.host {
            Some(h) => *h == self.value,
            None => false,
        }
    }

    fn into_predicate(self) -> (f: UrlFilter) {
        UrlFilter::new(UrlFilterType::Domain, self.value)
    }
}

/// Accepts links whose locator's scheme equals the given value.
#[derive(Debug, Clone)]
pub struct SchemeFilter {
    value: String,
}

impl View for SchemeFilter {
    type V = Seq<char>;

    closed spec fn view(&self) -> Seq<char> {
        self.value@
    }
}

impl SchemeFilter {
    /// A predicate accepting exactly the links with the given scheme.
    pub fn new(value: String) -> (r: Self)
        ensures
            forall|l: LinkV| #[trigger] r.accepts(l) == (l.url.scheme == value@),
    {
        Self { value }
    }
}

impl Filter for SchemeFilter {
    open spec fn accepts(&self, l: LinkV) -> bool {
        l.url.scheme == self@
    }

    fn matches(&self, val: &Link) -> (r: bool) {
        val.url.scheme == self.value
    }

    fn into_predicate(self) -> (f: UrlFilter) {
        UrlFilter::new(UrlFilterType::Scheme, self.value)
    }
}

/// Accepts links whose locator's path relates to the given value under the
/// given comparison mode.
#[derive(Debug, Clone)]
pub struct PathFilter {
    kind: FilterType,
    value: String,
}

impl View for PathFilter {
    type V = FilterV;

    closed spec fn view(&self) -> FilterV {
        FilterV { kind: UrlFilterType::Path(self.kind), value: self.value@, negated: false }
    }
}

impl PathFilter {
    /// A predicate accepting exactly the links whose path relates to
    /// `value` under `kind`.
    pub fn new(kind: FilterType, value: String) -> (r: Self)
        ensures
            forall|l: LinkV|
                #[trigger] r.accepts(l) == filter_test(
                    FilterV { kind: UrlFilterType::Path(kind), value: value@, negated: false },
                    l,
                ),
    {
        Self { kind, value }
    }
}

impl Filter for PathFilter {
    open spec fn accepts(&self, l: LinkV) -> bool {
        filter_test(self@, l)
    }

    fn matches(&self, val: &Link) -> (r: bool) {
        UrlFilter::new(UrlFilterType::Path(self.kind), self.value.clone()).matches(val)
    }

    fn into_predicate(self) -> (f: UrlFilter) {
        UrlFilter::new(UrlFilterType::Path(self.kind), self.value)
    }
}

/// An ordered, AND-combined collection of predicates.  Once constructed it
/// can be attached to a node with
/// [`Crawl::with_filters`](crate::Crawl::with_filters); every child spawned
/// from that node inherits an independent duplicate.
#[derive(Debug)]
pub struct FilterSet {
    filters: Option<Vec<UrlFilter>>,
}

impl View for FilterSet {
    type V = Seq<FilterV>;

    closed spec fn view(&self) -> Seq<FilterV> {
        match self.filters {
            Some(v) => v@.map_values(|f: UrlFilter| f@),
            None => Seq::empty(),
        }
    }
}

impl FilterSet {
    /// Append a predicate: the new set accepts exactly the links the old
    /// set accepts that the new predicate accepts too.
    pub fn add_filter<F: Filter>(self, filter: F) -> (r: Self)
        ensures
            r@.len() == self@.len() + 1,
            r@.subrange(0, self@.len() as int) == self@,
            forall|l: LinkV| #[trigger] filter_accepts(r@.last(), l) == filter.accepts(l),
            forall|l: LinkV| #[trigger] set_accepts(r@, l) == (set_accepts(self@, l)
                && filter.accepts(l)),
    {
        let p = filter.into_predicate();
        let ghost old_view = self@;
        let mut filters = match self.filters {
            Some(v) => v,
            None => Vec::new(),
        };
        filters.push(p);
        let r = FilterSet { filters: Some(filters) };
        proof {
            assert(r@ =~= old_view.push(p@));
            assert forall|l: LinkV| #[trigger] set_accepts(r@, l) == (set_accepts(old_view, l)
                && filter.accepts(l)) by {
                lemma_set_accepts_push(old_view, p@, l);
            }
            assert(r@.subrange(0, old_view.len() as int) =~= old_view);
        }
        r
    }

    /// Append a URL predicate: the stored sequence grows by exactly that
    /// predicate, so the new set accepts a link exactly when the old set
    /// and the appended predicate both do.
    pub fn add_url_filter(self, filter: UrlFilter) -> (r: Self)
        ensures
            r@ == self@.push(filter@),
    {
        let ghost old_view = self@;
        let mut filters = match self.filters {
            Some(v) => v,
            None => Vec::new(),
        };
        filters.push(filter);
        let r = FilterSet { filters: Some(filters) };
        proof {
            assert(r@ =~= old_view.push(filters@.last()@));
        }
        r
    }

    /// Whether this set accepts the given link: true exactly when every
    /// contained predicate accepts it, so an empty set accepts everything.
    pub fn matches(&self, val: &Link) -> (r: bool)
        ensures
            r == set_accepts(self@, val@),
    {
        if let Some(filters) = &self.filters {
            let n: usize = filters.len();
            let mut i: usize = 0;
            while i < n
                invariant
                    i <= n,
                    n == filters@.len(),
                    self@ == filters@.map_values(|f: UrlFilter| f@),
                    forall|j: int| 0 <= j < i ==> #[trigger] filter_accepts(self@[j], val@),
                decreases n - i,
            {
                if !filters[i].matches(val) {
                    assert(!filter_accepts(self@[i as int], val@));
                    return false;
                }
                i += 1;
            }
            true
        } else {
            true
        }
    }
}

impl Default for FilterSet {
    /// The empty filter set, which accepts every link.
    fn default() -> (r: Self)
        ensures
            r@ == Seq::<FilterV>::empty(),
            forall|l: LinkV| #[trigger] set_accepts(r@, l),
    {
        FilterSet { filters: None }
    }
}

impl Clone for FilterSet {
    /// An independent duplicate holding equal predicates: extending or
    /// keeping the duplicate never changes what the original accepts.
    fn clone(&self) -> (r: Self)
        ensures
            r@ == self@,
    {
        match &self.filters {
            None => FilterSet { filters: None },
            Some(v) => {
                let mut copied: Vec<UrlFilter> = Vec::new();
                let n: usize = v.len();
                let mut i: usize = 0;
                while i < n
                    invariant
                        i <= n,
                        n == v@.len(),
                        copied@.len() == i,
                        forall|j: int| 0 <= j < i ==> #[trigger] copied@[j]@ == v@[j]@,
                    decreases n - i,
                {
                    copied.push(v[i].clone());
                    i += 1;
                }
                let r = FilterSet { filters: Some(copied) };
                proof {
                    assert(r@ =~= self@);
                }
                r
            },
        }
    }
}

/// Appending one predicate to an AND-composed set conjoins exactly that
/// one test: for every link, the extended set accepts it exactly when the
/// unextended set and the new predicate both accept it.
pub proof fn lemma_set_accepts_push(fs: Seq<FilterV>, f: FilterV, l: LinkV)
    ensures
        set_accepts(fs.push(f), l) == (set_accepts(fs, l) && filter_accepts(f, l)),
{
    let pushed = fs.push(f);
    if set_accepts(fs, l) && filter_accepts(f, l) {
        assert forall|i: int| 0 <= i < pushed.len() implies #[trigger] filter_accepts(
            pushed[i],
            l,
        ) by {
            if i < fs.len() {
                assert(pushed[i] == fs[i]);
            } else {
                assert(pushed[i] == f);
            }
        }
    }
    if set_accepts(pushed, l) {
        assert(filter_accepts(pushed[fs.len() as int], l));
        assert forall|i: int| 0 <= i < fs.len() implies #[trigger] filter_accepts(fs[i], l) by {
            assert(filter_accepts(pushed[i], l));
        }
    }
}

/// The empty filter set accepts every link.
pub proof fn lemma_empty_set_accepts(l: LinkV)
    ensures
        set_accepts(Seq::<FilterV>::empty(), l),
{
}

/// Negating a predicate inverts exactly its own test, leaving its kind
/// and comparison value to decide which links its plain test hits.
pub proof fn lemma_negation_inverts(f: FilterV, l: LinkV)
    ensures
        filter_accepts(FilterV { negated: !f.negated, ..f }, l) == !filter_accepts(f, l),
{
}

} // verus!
