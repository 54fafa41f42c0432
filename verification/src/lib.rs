//! `stork` is a small library to recursively crawl linked sources in a
//! search-engine-like fashion: a seed item is expanded, level by level, into
//! the items it points to, while a filter set prunes candidates, duplicates
//! within one expansion are suppressed, and a walk over the ancestor chain
//! keeps the crawl from revisiting a node's own ancestry.
//!
//! The entry point is [`Crawl::new`], which plants a seed [`Storkable`] node;
//! [`Crawl::exec`] expands one node through a pluggable [`StorkClient`].

use vstd::prelude::*;

pub mod errors;
pub mod expansion;
pub mod filters;
pub mod link;
pub mod text;

pub use errors::StorkError;
pub use errors::StorkHttpError;
pub use filters::FilterSet;
pub use link::Link;
pub use link::Url;

use expansion::expand;
use filters::FilterV;
use link::LinkV;
use link::link_digest;
use link::digest_of;

verus! {

/// Mathematical model of one node of the crawl graph.
pub struct StorkableV {
    /// The item this node holds.
    pub value: LinkV,
    /// The predicates this node's expansion applies to candidates.
    pub filters: Seq<FilterV>,
    /// The handle of the node this one was found on, if any.
    pub parent: Option<usize>,
    /// The content digests this node's expansion has already yielded.
    pub seen: Seq<u64>,
}

/// One node of the crawl graph: a "thing" (currently a link) which is
/// traversable.  It holds its item value, the filter set its expansion
/// applies, the handle of the node it was found on, and its own duplicate
/// tracker.  Nodes live in a [`Crawl`] and are addressed by handle.
#[derive(Debug)]
pub struct Storkable {
    value: Link,
    filters: FilterSet,
    parent: Option<usize>,
    seen: Vec<u64>,
}

impl View for Storkable {
    type V = StorkableV;

    closed spec fn view(&self) -> StorkableV {
        StorkableV {
            value: self.value@,
            filters: self.filters@,
            parent: self.parent,
            seen: self.seen@,
        }
    }
}

impl Storkable {
    /// The item value of this node.
    pub fn val(&self) -> (r: &Link)
        ensures
            r@ == self@.value,
    {
        &self.value
    }

    /// The filter set attached to this node.
    pub fn filters(&self) -> (r: &FilterSet)
        ensures
            r@ == self@.filters,
    {
        &self.filters
    }

    /// The handle of the node this one was found on, if any.
    pub fn parent(&self) -> (r: Option<usize>)
        ensures
            r == self@.parent,
    {
        self.parent
    }
}

/// A client that expands one item into the items discoverable from it.
///
/// When a [`Crawl`] is planted, a client is created with
/// [`Default::default`] and shared by every node of the graph; it can be
/// replaced with [`Crawl::with_client`].  Nothing is promised of what a
/// client returns: the engine states what it does with every possible
/// candidate sequence.
pub trait StorkClient: Default {
    /// The candidate successors of `src`, in emission order; a failed
    /// element ends the expansion that consumes it.
    fn run(&self, src: &Link) -> Vec<Result<Link, StorkError>>;
}

/// Well-formedness of a crawl graph: every node's parent was created
/// before it, so ancestry chains are finite and acyclic by construction.
pub open spec fn wf_nodes(nodes: Seq<StorkableV>) -> bool {
    forall|i: int|
        0 <= i < nodes.len() ==> ((#[trigger] nodes[i].parent) matches Some(p) ==> p < i)
}

/// The values along a node's ancestry chain: the node's own value first,
/// then its parent's chain.  Only the `value` and `parent` fields of nodes
/// at or below `h` matter.
pub open spec fn chain_values(nodes: Seq<StorkableV>, h: int) -> Seq<LinkV>
    decreases h,
{
    if 0 <= h < nodes.len() {
        match nodes[h].parent {
            Some(p) => if 0 <= p < h {
                seq![nodes[h].value] + chain_values(nodes, p as int)
            } else {
                seq![nodes[h].value]
            },
            None => seq![nodes[h].value],
        }
    } else {
        Seq::empty()
    }
}

/// The views of a candidate vector's elements.
pub open spec fn cand_views(cands: Seq<Result<Link, StorkError>>) -> Seq<
    Result<LinkV, StorkError>,
> {
    cands.map_values(
        |c: Result<Link, StorkError>|
            match c {
                Ok(l) => Ok(l@),
                Err(e) => Err(e),
            },
    )
}

/// The values of the nodes of `nodes` from position `from` on.
pub open spec fn tail_values(nodes: Seq<StorkableV>, from: int) -> Seq<LinkV> {
    nodes.subrange(from, nodes.len() as int).map_values(|n: StorkableV| n.value)
}

/// How one expansion call relates the graph before (`pre`) and after
/// (`post`): the expanding node `h` keeps everything but its duplicate
/// tracker, every other old node is untouched, and the children the
/// algorithm yields for candidate sequence `cands` are appended in order,
/// each owning the yielded value, a duplicate of `h`'s filter set, `h` as
/// its parent and a fresh tracker; `handles` lists the new handles in
/// order and `err` is the error that ended the expansion, if one did.
pub open spec fn expansion_post(
    pre: Seq<StorkableV>,
    post: Seq<StorkableV>,
    h: int,
    cands: Seq<Result<LinkV, StorkError>>,
    handles: Seq<usize>,
    err: Option<StorkError>,
) -> bool {
    let e = expand(chain_values(pre, h), pre[h].filters, pre[h].seen, cands);
    &&& post.len() == pre.len() + e.yielded.len()
    &&& (forall|i: int| 0 <= i < pre.len() && i != h ==> #[trigger] post[i] == pre[i])
    &&& post[h] == (StorkableV { seen: e.seen, ..pre[h] })
    &&& (forall|i: int|
        pre.len() <= i < post.len() ==> #[trigger] post[i] == (StorkableV {
            value: e.yielded[i - pre.len()],
            filters: pre[h].filters,
            parent: Some(h as usize),
            seen: Seq::empty(),
        }))
    &&& handles.len() == e.yielded.len()
    &&& (forall|k: int| 0 <= k < handles.len() ==> #[trigger] handles[k] == pre.len() + k)
    &&& err == e.error
}

/// A crawl graph: the nodes discovered so far, indexed by handle, and the
/// shared client that expands them.  The seed node has handle 0; each
/// expansion appends the children it yields.
pub struct Crawl<C: StorkClient> {
    nodes: Vec<Storkable>,
    client: C,
}

impl<C: StorkClient> View for Crawl<C> {
    type V = Seq<StorkableV>;

    closed spec fn view(&self) -> Seq<StorkableV> {
        self.nodes@.map_values(|n: Storkable| n@)
    }
}

/// `x` is a member of `seq![head] + tail` exactly when it equals the head
/// or is a member of the tail.
proof fn lemma_cons_contains<A>(head: A, tail: Seq<A>, x: A)
    ensures
        (seq![head] + tail).contains(x) <==> (head == x || tail.contains(x)),
{
    let whole = seq![head] + tail;
    if whole.contains(x) {
        let i = choose|i: int| 0 <= i < whole.len() && whole[i] == x;
        if i > 0 {
            assert(tail[i - 1] == x);
            assert(tail.contains(x));
        }
    }
    if head == x {
        assert(whole[0] == x);
        assert(whole.contains(x));
    }
    if tail.contains(x) {
        let i = choose|i: int| 0 <= i < tail.len() && tail[i] == x;
        assert(whole[i + 1] == x);
        assert(whole.contains(x));
    }
}

/// A node's ancestry values depend only on the `value` and `parent`
/// fields of the nodes at or below it.
proof fn lemma_chain_values_stable(nodes1: Seq<StorkableV>, nodes2: Seq<StorkableV>, h: int)
    requires
        0 <= h < nodes1.len(),
        h < nodes2.len(),
        forall|i: int|
            0 <= i <= h ==> (#[trigger] nodes1[i]).value == nodes2[i].value && nodes1[i].parent
                == nodes2[i].parent,
    ensures
        chain_values(nodes1, h) == chain_values(nodes2, h),
    decreases h,
{
    match nodes1[h].parent {
        Some(p) => {
            if 0 <= p < h {
                lemma_chain_values_stable(nodes1, nodes2, p as int);
            }
        },
        None => {},
    }
}

/// Whether `seen` records digest `d`.
fn seen_contains(seen: &Vec<u64>, d: u64) -> (r: bool)
    ensures
        r == seen@.contains(d),
{
    let n: usize = seen.len();
    let mut i: usize = 0;
    while i < n
        invariant
            i <= n,
            n == seen@.len(),
            forall|j: int| 0 <= j < i ==> seen@[j] != d,
        decreases n - i,
    {
        if seen[i] == d {
            assert(seen@.contains(d));
            return true;
        }
        i += 1;
    }
    assert(!seen@.contains(d)) by {
        if seen@.contains(d) {
            let j = choose|j: int| 0 <= j < seen@.len() && seen@[j] == d;
            assert(seen@[j] != d);
        }
    }
    false
}

impl<C: StorkClient> Crawl<C> {
    /// Whether this graph is well-formed; every operation of the library
    /// preserves it.
    pub open spec fn wf(&self) -> bool {
        wf_nodes(self@)
    }

    /// The shared client that expands every node of this graph.  The
    /// graph's view models the nodes alone, so the contracts name the
    /// client through this accessor: [`Crawl::with_client`] installs the
    /// caller's instance, and every other operation keeps it.
    pub closed spec fn client_of(&self) -> C {
        self.client
    }

    /// Plant a crawl at the given seed value: one root node with an empty
    /// filter set, no parent and a fresh duplicate tracker, expanded by a
    /// default-constructed client.
    pub fn new(val: Link) -> (r: Self)
        ensures
            r.wf(),
            r@.len() == 1,
            r@[0] == (StorkableV {
                value: val@,
                filters: Seq::<FilterV>::empty(),
                parent: None,
                seen: Seq::<u64>::empty(),
            }),
    {
        let root = Storkable {
            value: val,
            filters: FilterSet::default(),
            parent: None,
            seen: Vec::new(),
        };
        let mut nodes: Vec<Storkable> = Vec::new();
        nodes.push(root);
        let r = Crawl { nodes, client: C::default() };
        proof {
            assert(r@.len() == 1);
            assert(r@[0] == (StorkableV {
                value: val@,
                filters: Seq::<FilterV>::empty(),
                parent: None,
                seen: Seq::<u64>::empty(),
            }));
        }
        r
    }

    /// The number of nodes discovered so far.
    pub fn len(&self) -> (n: usize)
        ensures
            n == self@.len(),
    {
        self.nodes.len()
    }

    /// The node with the given handle.
    pub fn node(&self, h: usize) -> (r: &Storkable)
        requires
            h < self@.len(),
        ensures
            r@ == self@[h as int],
    {
        &self.nodes[h]
    }

    /// Replace the filter set of the node with the given handle; its next
    /// expansion, and every child yielded from then on, will use the new
    /// set.  Nothing else changes.
    pub fn set_filters(&mut self, h: usize, filters: FilterSet)
        requires
            h < old(self)@.len(),
        ensures
            final(self)@ == old(self)@.update(
                h as int,
                (StorkableV { filters: filters@, ..old(self)@[h as int] }),
            ),
            old(self).wf() ==> final(self).wf(),
            final(self).client_of() == old(self).client_of(),
    {
        self.nodes[h].filters = filters;
        proof {
            assert(self@ =~= old(self)@.update(
                h as int,
                (StorkableV { filters: filters@, ..old(self)@[h as int] }),
            ));
            if old(self).wf() {
                assert forall|i: int|
                    0 <= i < self@.len() implies ((#[trigger] self@[i].parent) matches Some(p)
                    ==> p < i) by {
                    assert(self@[i].parent == old(self)@[i].parent);
                }
            }
        }
    }

    /// Attach a filter set to the seed node; children inherit a duplicate
    /// of their parent's set when they are yielded.
    pub fn with_filters(self, filters: FilterSet) -> (r: Self)
        requires
            0 < self@.len(),
        ensures
            r@ == self@.update(0, (StorkableV { filters: filters@, ..self@[0] })),
            self.wf() ==> r.wf(),
            r.client_of() == self.client_of(),
    {
        let mut this = self;
        this.set_filters(0, filters);
        this
    }

    /// Replace the shared client used to expand every node of this graph:
    /// the given instance becomes the one every later expansion consults,
    /// while the nodes stay as they are.
    pub fn with_client(self, client: C) -> (r: Self)
        ensures
            r.client_of() == client,
            r@ == self@,
            self.wf() ==> r.wf(),
    {
        Crawl { nodes: self.nodes, client }
    }

    /// Whether `val` equals the value of node `h` or of any of its
    /// ancestors.
    fn is_own_or_ancestor_value(&self, h: usize, val: &Link) -> (r: bool)
        requires
            self.wf(),
            h < self@.len(),
        ensures
            r == chain_values(self@, h as int).contains(val@),
    {
        let mut cur: usize = h;
        loop
            invariant
                self.wf(),
                h < self@.len(),
                cur < self@.len(),
                chain_values(self@, h as int).contains(val@) == chain_values(
                    self@,
                    cur as int,
                ).contains(val@),
            decreases cur,
        {
            let same = self.nodes[cur].value == *val;
            proof {
                assert(self@[cur as int] == self.nodes@[cur as int]@);
            }
            if same {
                proof {
                    let chain = chain_values(self@, cur as int);
                    assert(chain[0] == val@);
                    assert(chain.contains(val@));
                }
                return true;
            }
            match self.nodes[cur].parent {
                Some(p) => {
                    proof {
                        assert(self@[cur as int].parent == Some(p));
                        assert(p < cur);
                        lemma_cons_contains(
                            self@[cur as int].value,
                            chain_values(self@, p as int),
                            val@,
                        );
                    }
                    cur = p;
                },
                None => {
                    proof {
                        let chain = chain_values(self@, cur as int);
                        assert(chain =~= seq![self@[cur as int].value]);
                        if chain.contains(val@) {
                            let i = choose|i: int| 0 <= i < chain.len() && chain[i] == val@;
                            assert(chain[0] == val@);
                        }
                    }
                    return false;
                },
            }
        }
    }

    /// Run one expansion of node `h` over an explicit candidate sequence,
    /// exactly as [`Crawl::exec`] does with the candidates its client
    /// emitted: the children the expansion algorithm yields are appended
    /// to the graph and their handles returned in order, together with
    /// the error that ended the expansion early, if one did.
    #[verifier::loop_isolation(false)]
    pub fn expand_with(&mut self, h: usize, candidates: Vec<Result<Link, StorkError>>) -> (out: (
        Vec<usize>,
        Option<StorkError>,
    ))
        requires
            old(self).wf(),
            h < old(self)@.len(),
        ensures
            final(self).wf(),
            final(self).client_of() == old(self).client_of(),
            expansion_post(
                old(self)@,
                final(self)@,
                h as int,
                cand_views(candidates@),
                out.0@,
                out.1,
            ),
    {
        let ghost anc = chain_values(old(self)@, h as int);
        let ghost fs0 = old(self)@[h as int].filters;
        let ghost seen0 = old(self)@[h as int].seen;
        let ghost all = cand_views(candidates@);
        let base_filters = self.nodes[h].filters.clone();
        let old_len: usize = self.nodes.len();
        proof {
            assert(old_len == old(self)@.len());
            assert(self@[h as int] == self.nodes@[h as int]@);
            assert(base_filters@ == fs0);
        }
        let mut rem = candidates;
        let mut handles: Vec<usize> = Vec::new();
        proof {
            assert(tail_values(self@, old_len as int) =~= Seq::<LinkV>::empty());
            assert(expand(anc, fs0, seen0, all).yielded =~= tail_values(self@, old_len as int)
                + expand(anc, fs0, self@[h as int].seen, cand_views(rem@)).yielded);
        }
        while rem.len() > 0
            invariant
                self.wf(),
                self.client_of() == old(self).client_of(),
                self@.len() == old(self)@.len() + handles@.len(),
                forall|i: int|
                    0 <= i < old(self)@.len() && i != h ==> #[trigger] self@[i] == old(self)@[i],
                self@[h as int] == (StorkableV {
                    seen: self@[h as int].seen,
                    ..old(self)@[h as int]
                }),
                forall|i: int|
                    old(self)@.len() <= i < self@.len() ==> #[trigger] self@[i] == (StorkableV {
                        value: expand(anc, fs0, seen0, all).yielded[i - old(self)@.len()],
                        filters: fs0,
                        parent: Some(h),
                        seen: Seq::<u64>::empty(),
                    }),
                forall|k: int|
                    0 <= k < handles@.len() ==> #[trigger] handles@[k] == old(self)@.len() + k,
                expand(anc, fs0, seen0, all).yielded == tail_values(self@, old_len as int)
                    + expand(anc, fs0, self@[h as int].seen, cand_views(rem@)).yielded,
                expand(anc, fs0, seen0, all).seen == expand(
                    anc,
                    fs0,
                    self@[h as int].seen,
                    cand_views(rem@),
                ).seen,
                expand(anc, fs0, seen0, all).error == expand(
                    anc,
                    fs0,
                    self@[h as int].seen,
                    cand_views(rem@),
                ).error,
            decreases rem@.len(),
        {
            let ghost rem0 = rem@;
            let ghost cs = self@[h as int].seen;
            let cand = rem.remove(0);
            proof {
                assert(rem@ =~= rem0.drop_first());
                assert(cand_views(rem0) =~= seq![cand_views(rem0)[0]] + cand_views(rem@));
            }
            match cand {
                Err(e) => {
                    proof {
                        assert(cand_views(rem0)[0] == Err::<LinkV, StorkError>(e));
                        let es = expand(anc, fs0, cs, cand_views(rem0));
                        assert(es.yielded =~= Seq::<LinkV>::empty());
                        assert(es.seen == cs && es.error == Some(e));
                        lemma_tail_values_len(self@, old_len as int);
                    }
                    return (handles, Some(e));
                },
                Ok(link) => {
                    let ghost lv = link@;
                    proof {
                        assert(cand_views(rem0)[0] == Ok::<LinkV, StorkError>(lv));
                        assert(cand_views(rem0).drop_first() =~= cand_views(rem@));
                    }
                    let accepted = base_filters.matches(&link);
                    if !accepted {
                        proof {
                            assert(expansion::step_seen(fs0, cs, lv) == cs);
                            assert(!expansion::step_yields(anc, fs0, cs, lv));
                            assert(expand(anc, fs0, cs, cand_views(rem0)) == expand(
                                anc,
                                fs0,
                                cs,
                                cand_views(rem@),
                            ));
                        }
                    } else {
                        let d = digest_of(&link);
                        proof {
                            assert(self@[h as int] == self.nodes@[h as int]@);
                        }
                        let dup = seen_contains(&self.nodes[h].seen, d);
                        if dup {
                            proof {
                                assert(expansion::step_seen(fs0, cs, lv) == cs);
                                assert(!expansion::step_yields(anc, fs0, cs, lv));
                                assert(expand(anc, fs0, cs, cand_views(rem0)) == expand(
                                    anc,
                                    fs0,
                                    cs,
                                    cand_views(rem@),
                                ));
                            }
                        } else {
                            let ghost before = self@;
                            self.nodes[h].seen.push(d);
                            proof {
                                assert(self@ =~= before.update(
                                    h as int,
                                    (StorkableV { seen: cs.push(link_digest(lv)), ..before[h as int] }),
                                ));
                                assert(self@[h as int].seen == expansion::step_seen(fs0, cs, lv));
                                assert(tail_values(self@, old_len as int) =~= tail_values(
                                    before,
                                    old_len as int,
                                ));
                                assert forall|i: int|
                                    0 <= i < self@.len() implies ((#[trigger] self@[i].parent)
                                    matches Some(p) ==> p < i) by {
                                    assert(self@[i].parent == before[i].parent);
                                }
                                lemma_chain_values_stable(self@, old(self)@, h as int);
                            }
                            let is_anc = self.is_own_or_ancestor_value(h, &link);
                            if is_anc {
                                proof {
                                    assert(!expansion::step_yields(anc, fs0, cs, lv));
                                    assert(expand(anc, fs0, cs, cand_views(rem0)) == expand(
                                        anc,
                                        fs0,
                                        self@[h as int].seen,
                                        cand_views(rem@),
                                    ));
                                }
                            } else {
                                proof {
                                    assert(expansion::step_yields(anc, fs0, cs, lv));
                                }
                                let idx: usize = self.nodes.len();
                                let child = Storkable {
                                    value: link,
                                    filters: base_filters.clone(),
                                    parent: Some(h),
                                    seen: Vec::new(),
                                };
                                let ghost mid = self@;
                                let ghost childv = child@;
                                self.nodes.push(child);
                                handles.push(idx);
                                proof {
                                    assert(self@ =~= mid.push(childv));
                                    assert(childv == (StorkableV {
                                        value: lv,
                                        filters: fs0,
                                        parent: Some(h),
                                        seen: Seq::<u64>::empty(),
                                    }));
                                    let es = expand(anc, fs0, cs, cand_views(rem0));
                                    let rest = expand(
                                        anc,
                                        fs0,
                                        self@[h as int].seen,
                                        cand_views(rem@),
                                    );
                                    assert(es.yielded == seq![lv] + rest.yielded);
                                    lemma_tail_values_len(mid, old_len as int);
                                    assert(tail_values(self@, old_len as int) =~= tail_values(
                                        mid,
                                        old_len as int,
                                    ).push(lv));
                                    assert(expand(anc, fs0, seen0, all).yielded =~= tail_values(
                                        self@,
                                        old_len as int,
                                    ) + rest.yielded);
                                    assert(idx == mid.len());
                                    let total = expand(anc, fs0, seen0, all).yielded;
                                    assert forall|i: int|
                                        old(self)@.len() <= i < self@.len() implies #[trigger] self@[i]
                                        == (StorkableV {
                                        value: total[i - old(self)@.len()],
                                        filters: fs0,
                                        parent: Some(h),
                                        seen: Seq::<u64>::empty(),
                                    }) by {
                                        if i < mid.len() {
                                            assert(self@[i] == mid[i]);
                                        } else {
                                            assert(self@[i] == childv);
                                            assert(tail_values(mid, old_len as int).len() == i
                                                - old_len);
                                            assert(total[i - old_len] == lv);
                                        }
                                    }
                                }
                            }
                        }
                    }
                },
            }
        }
        proof {
            assert(cand_views(rem@) =~= Seq::<Result<LinkV, StorkError>>::empty());
            let es = expand(anc, fs0, self@[h as int].seen, cand_views(rem@));
            assert(es.yielded =~= Seq::<LinkV>::empty());
            lemma_tail_values_len(self@, old_len as int);
        }
        (handles, None)
    }

    /// Offer one candidate to node `h`'s expansion, for a pull-driven
    /// caller that consumes its source one element at a time (one
    /// suspension per element, as when every candidate is awaited before
    /// the next is requested): the node's duplicate tracker advances by
    /// exactly this candidate, a yielded child is appended and its handle
    /// returned, and an error candidate is handed back unchanged for the
    /// caller to end the expansion with.  The contract is
    /// [`expansion_post`] over the one-candidate sequence: each pull is
    /// one step of the expansion algorithm, the step [`expand`] itself
    /// takes on the head of its candidate sequence.
    pub fn offer(&mut self, h: usize, candidate: Result<Link, StorkError>) -> (out: (
        Option<usize>,
        Option<StorkError>,
    ))
        requires
            old(self).wf(),
            h < old(self)@.len(),
        ensures
            final(self).wf(),
            final(self).client_of() == old(self).client_of(),
            expansion_post(
                old(self)@,
                final(self)@,
                h as int,
                seq![
                    (match candidate {
                        Ok(l) => Ok(l@),
                        Err(e) => Err(e),
                    }),
                ],
                step_handles(out.0),
                out.1,
            ),
    {
        let ghost cv = (match &candidate {
            Ok(l) => Ok::<LinkV, StorkError>(l@),
            Err(e) => Err::<LinkV, StorkError>(*e),
        });
        let mut singleton: Vec<Result<Link, StorkError>> = Vec::new();
        singleton.push(candidate);
        proof {
            assert(cand_views(singleton@) =~= seq![cv]);
        }
        let (kids, err) = self.expand_with(h, singleton);
        let child = if kids.len() > 0 { Some(kids[0]) } else { None };
        proof {
            let pre = old(self)@;
            let anc = chain_values(pre, h as int);
            let fs = pre[h as int].filters;
            let sn = pre[h as int].seen;
            let e = expand(anc, fs, sn, seq![cv]);
            assert(seq![cv].drop_first() =~= Seq::<Result<LinkV, StorkError>>::empty());
            match cv {
                Err(er) => {
                    assert(e.yielded =~= Seq::<LinkV>::empty());
                },
                Ok(c) => {
                    let rest = expand(
                        anc,
                        fs,
                        expansion::step_seen(fs, sn, c),
                        seq![cv].drop_first(),
                    );
                    assert(rest.yielded =~= Seq::<LinkV>::empty());
                    if expansion::step_yields(anc, fs, sn, c) {
                        assert(e.yielded == seq![c] + rest.yielded);
                        assert(e.yielded.len() == 1);
                    } else {
                        assert(e.yielded == rest.yielded);
                    }
                },
            }
            assert(e.yielded.len() <= 1);
            assert(step_handles(child) =~= kids@);
        }
        (child, err)
    }

    /// Expand node `h`: ask the shared client for the candidate successors
    /// of its value and run the expansion algorithm over them, appending
    /// the yielded children to the graph.  Whatever candidate sequence the
    /// client emitted, the graph and the returned handles relate to it as
    /// [`expansion_post`] states.
    pub fn exec(&mut self, h: usize) -> (out: (Vec<usize>, Option<StorkError>))
        requires
            old(self).wf(),
            h < old(self)@.len(),
        ensures
            final(self).wf(),
            final(self).client_of() == old(self).client_of(),
            exists|cands: Seq<Result<LinkV, StorkError>>|
                #[trigger] expansion_post(
                    old(self)@,
                    final(self)@,
                    h as int,
                    cands,
                    out.0@,
                    out.1,
                ),
            // Whatever the client emitted: old nodes are untouched but for
            // `h`'s duplicate tracker, and every appended child inherits
            // `h`'s filters, points back to `h`, starts a fresh tracker and
            // differs in value from `h` and all of `h`'s ancestors.
            final(self)@.len() == old(self)@.len() + out.0@.len(),
            forall|i: int|
                0 <= i < old(self)@.len() && i != h ==> #[trigger] final(self)@[i] == old(
                    self,
                )@[i],
            final(self)@[h as int] == (StorkableV {
                seen: final(self)@[h as int].seen,
                ..old(self)@[h as int]
            }),
            forall|i: int|
                old(self)@.len() <= i < final(self)@.len() ==> {
                    let child = #[trigger] final(self)@[i];
                    &&& child.parent == Some(h)
                    &&& child.filters == old(self)@[h as int].filters
                    &&& child.seen == Seq::<u64>::empty()
                    &&& !chain_values(old(self)@, h as int).contains(child.value)
                },
            forall|k: int|
                0 <= k < out.0@.len() ==> #[trigger] out.0@[k] == old(self)@.len() + k,
    {
        proof {
            assert(self@[h as int] == self.nodes@[h as int]@);
        }
        let candidates = self.client.run(&self.nodes[h].value);
        let ghost cands = cand_views(candidates@);
        let out = self.expand_with(h, candidates);
        proof {
            assert(expansion_post(old(self)@, self@, h as int, cands, out.0@, out.1));
            lemma_children_cycle_free(old(self)@, self@, h as int, cands, out.0@, out.1);
        }
        out
    }
}

/// The handle sequence one expansion step reports: one handle when a
/// child was yielded, none otherwise.
pub open spec fn step_handles(child: Option<usize>) -> Seq<usize> {
    match child {
        Some(k) => seq![k],
        None => Seq::empty(),
    }
}

/// The length of a graph's value tail from position `from`.
proof fn lemma_tail_values_len(nodes: Seq<StorkableV>, from: int)
    requires
        0 <= from <= nodes.len(),
    ensures
        tail_values(nodes, from).len() == nodes.len() - from,
{
}

/// Cycle-freedom of the graph: whatever candidate sequence a client
/// emitted, no child appended by an expansion of node `h` holds a value
/// equal to `h`'s own value or to any of `h`'s ancestors' values.
pub proof fn lemma_children_cycle_free(
    pre: Seq<StorkableV>,
    post: Seq<StorkableV>,
    h: int,
    cands: Seq<Result<LinkV, StorkError>>,
    handles: Seq<usize>,
    err: Option<StorkError>,
)
    requires
        0 <= h < pre.len(),
        expansion_post(pre, post, h, cands, handles, err),
    ensures
        forall|i: int|
            pre.len() <= i < post.len() ==> !chain_values(pre, h).contains(
                (#[trigger] post[i]).value,
            ),
{
    let anc = chain_values(pre, h);
    expansion::lemma_expand_cycle_free(anc, pre[h].filters, pre[h].seen, cands);
    let e = expand(anc, pre[h].filters, pre[h].seen, cands);
    assert forall|i: int| pre.len() <= i < post.len() implies !anc.contains(
        (#[trigger] post[i]).value,
    ) by {
        assert(post[i].value == e.yielded[i - pre.len()]);
    }
}

/// In-expansion dedup of the graph: the children appended by one expansion
/// of node `h` carry pairwise distinct content digests, and none carries a
/// digest `h`'s duplicate tracker already held.
pub proof fn lemma_children_deduped(
    pre: Seq<StorkableV>,
    post: Seq<StorkableV>,
    h: int,
    cands: Seq<Result<LinkV, StorkError>>,
    handles: Seq<usize>,
    err: Option<StorkError>,
)
    requires
        0 <= h < pre.len(),
        expansion_post(pre, post, h, cands, handles, err),
    ensures
        forall|i: int, j: int|
            pre.len() <= i < j < post.len() ==> link_digest((#[trigger] post[i]).value)
                != link_digest((#[trigger] post[j]).value),
        forall|i: int|
            pre.len() <= i < post.len() ==> !pre[h].seen.contains(
                link_digest((#[trigger] post[i]).value),
            ),
{
    let anc = chain_values(pre, h);
    expansion::lemma_expand_dedup(anc, pre[h].filters, pre[h].seen, cands);
    let e = expand(anc, pre[h].filters, pre[h].seen, cands);
    assert forall|i: int, j: int|
        pre.len() <= i < j < post.len() implies link_digest((#[trigger] post[i]).value)
        != link_digest((#[trigger] post[j]).value) by {
        assert(post[i].value == e.yielded[i - pre.len()]);
        assert(post[j].value == e.yielded[j - pre.len()]);
    }
    assert forall|i: int| pre.len() <= i < post.len() implies !pre[h].seen.contains(
        link_digest((#[trigger] post[i]).value),
    ) by {
        assert(post[i].value == e.yielded[i - pre.len()]);
    }
}

/// Every child appended by an expansion of node `h` passes the filter set
/// node `h` held when it was expanded.
pub proof fn lemma_children_filtered(
    pre: Seq<StorkableV>,
    post: Seq<StorkableV>,
    h: int,
    cands: Seq<Result<LinkV, StorkError>>,
    handles: Seq<usize>,
    err: Option<StorkError>,
)
    requires
        0 <= h < pre.len(),
        expansion_post(pre, post, h, cands, handles, err),
    ensures
        forall|i: int|
            pre.len() <= i < post.len() ==> filters::set_accepts(
                pre[h].filters,
                (#[trigger] post[i]).value,
            ),
{
    let anc = chain_values(pre, h);
    expansion::lemma_expand_filtered(anc, pre[h].filters, pre[h].seen, cands);
    let e = expand(anc, pre[h].filters, pre[h].seen, cands);
    assert forall|i: int| pre.len() <= i < post.len() implies filters::set_accepts(
        pre[h].filters,
        (#[trigger] post[i]).value,
    ) by {
        assert(post[i].value == e.yielded[i - pre.len()]);
    }
}

} // verus!
