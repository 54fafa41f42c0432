//! The expansion algorithm, as a mathematical function: how one node's raw
//! candidate sequence is turned into the children it yields.
//!
//! For each candidate in emission order: an error candidate ends the
//! expansion with that error; a candidate the filter set rejects is dropped
//! silently; a candidate whose content digest was already recorded by this
//! expansion's duplicate tracker is dropped (the digest of a fresh candidate
//! is recorded before any further check); a candidate equal in value to the
//! expanding node or one of its ancestors is dropped; anything else is
//! yielded as a child.

use vstd::prelude::*;

use crate::errors::StorkError;
use crate::filters::FilterV;
use crate::filters::set_accepts;
use crate::link::LinkV;
use crate::link::link_digest;

verus! {

/// The outcome of one expansion: the child values yielded in order, the
/// state of the duplicate tracker afterwards, and the error that ended the
/// expansion early, if one did.
pub struct ExpansionV {
    pub yielded: Seq<LinkV>,
    pub seen: Seq<u64>,
    pub error: Option<StorkError>,
}

/// The duplicate tracker after offering candidate `c` to it: a candidate
/// that passes the filters and whose digest is new is recorded, whether or
/// not the ancestor check later drops it.
pub open spec fn step_seen(fs: Seq<FilterV>, seen: Seq<u64>, c: LinkV) -> Seq<u64> {
    if set_accepts(fs, c) && !seen.contains(link_digest(c)) {
        seen.push(link_digest(c))
    } else {
        seen
    }
}

/// Whether candidate `c` is yielded as a child: it must pass the filters,
/// carry a digest the tracker has not recorded, and differ in value from
/// the expanding node and all of its ancestors.
pub open spec fn step_yields(
    anc: Seq<LinkV>,
    fs: Seq<FilterV>,
    seen: Seq<u64>,
    c: LinkV,
) -> bool {
    set_accepts(fs, c) && !seen.contains(link_digest(c)) && !anc.contains(c)
}

/// The full expansion of candidate sequence `cands` for a node whose own
/// and ancestor values are `anc`, whose filter set is `fs` and whose
/// duplicate tracker holds `seen`.
pub open spec fn expand(
    anc: Seq<LinkV>,
    fs: Seq<FilterV>,
    seen: Seq<u64>,
    cands: Seq<Result<LinkV, StorkError>>,
) -> ExpansionV
    decreases cands.len(),
{
    if cands.len() == 0 {
        ExpansionV { yielded: Seq::empty(), seen, error: None }
    } else {
        match cands[0] {
            Err(e) => ExpansionV { yielded: Seq::empty(), seen, error: Some(e) },
            Ok(c) => {
                let rest = expand(anc, fs, step_seen(fs, seen, c), cands.drop_first());
                if step_yields(anc, fs, seen, c) {
                    ExpansionV { yielded: seq![c] + rest.yielded, seen: rest.seen, error: rest.error }
                } else {
                    rest
                }
            },
        }
    }
}

/// Cycle-freedom: an expansion never yields a child whose value equals the
/// expanding node's own value or any ancestor's value.
pub proof fn lemma_expand_cycle_free(
    anc: Seq<LinkV>,
    fs: Seq<FilterV>,
    seen: Seq<u64>,
    cands: Seq<Result<LinkV, StorkError>>,
)
    ensures
        forall|i: int|
            0 <= i < expand(anc, fs, seen, cands).yielded.len() ==> !anc.contains(
                #[trigger] expand(anc, fs, seen, cands).yielded[i],
            ),
    decreases cands.len(),
{
    if cands.len() == 0 {
    } else {
        match cands[0] {
            Err(e) => {},
            Ok(c) => {
                lemma_expand_cycle_free(anc, fs, step_seen(fs, seen, c), cands.drop_first());
                let rest = expand(anc, fs, step_seen(fs, seen, c), cands.drop_first());
                if step_yields(anc, fs, seen, c) {
                    let out = expand(anc, fs, seen, cands);
                    assert forall|i: int| 0 <= i < out.yielded.len() implies !anc.contains(
                        #[trigger] out.yielded[i],
                    ) by {
                        if i == 0 {
                            assert(out.yielded[0] == c);
                        } else {
                            assert(out.yielded[i] == rest.yielded[i - 1]);
                        }
                    }
                }
            },
        }
    }
}

/// Every yielded child passes the node's filter set.
pub proof fn lemma_expand_filtered(
    anc: Seq<LinkV>,
    fs: Seq<FilterV>,
    seen: Seq<u64>,
    cands: Seq<Result<LinkV, StorkError>>,
)
    ensures
        forall|i: int|
            0 <= i < expand(anc, fs, seen, cands).yielded.len() ==> set_accepts(
                fs,
                #[trigger] expand(anc, fs, seen, cands).yielded[i],
            ),
    decreases cands.len(),
{
    if cands.len() == 0 {
    } else {
        match cands[0] {
            Err(e) => {},
            Ok(c) => {
                lemma_expand_filtered(anc, fs, step_seen(fs, seen, c), cands.drop_first());
                let rest = expand(anc, fs, step_seen(fs, seen, c), cands.drop_first());
                if step_yields(anc, fs, seen, c) {
                    let out = expand(anc, fs, seen, cands);
                    assert forall|i: int| 0 <= i < out.yielded.len() implies set_accepts(
                        fs,
                        #[trigger] out.yielded[i],
                    ) by {
                        if i == 0 {
                            assert(out.yielded[0] == c);
                        } else {
                            assert(out.yielded[i] == rest.yielded[i - 1]);
                        }
                    }
                }
            },
        }
    }
}

/// In-expansion dedup: the children of one expansion carry pairwise
/// distinct content digests, and none carries a digest the expansion's
/// tracker already held.
pub proof fn lemma_expand_dedup(
    anc: Seq<LinkV>,
    fs: Seq<FilterV>,
    seen: Seq<u64>,
    cands: Seq<Result<LinkV, StorkError>>,
)
    ensures
        forall|i: int|
            0 <= i < expand(anc, fs, seen, cands).yielded.len() ==> !seen.contains(
                link_digest(#[trigger] expand(anc, fs, seen, cands).yielded[i]),
            ),
        forall|i: int, j: int|
            0 <= i < j < expand(anc, fs, seen, cands).yielded.len() ==> link_digest(
                #[trigger] expand(anc, fs, seen, cands).yielded[i],
            ) != link_digest(#[trigger] expand(anc, fs, seen, cands).yielded[j]),
    decreases cands.len(),
{
    if cands.len() == 0 {
    } else {
        match cands[0] {
            Err(e) => {},
            Ok(c) => {
                let seen1 = step_seen(fs, seen, c);
                lemma_expand_dedup(anc, fs, seen1, cands.drop_first());
                let rest = expand(anc, fs, seen1, cands.drop_first());
                let out = expand(anc, fs, seen, cands);
                if step_yields(anc, fs, seen, c) {
                    assert(seen1 == seen.push(link_digest(c)));
                    assert forall|i: int| 0 <= i < out.yielded.len() implies !seen.contains(
                        link_digest(#[trigger] out.yielded[i]),
                    ) by {
                        if i == 0 {
                            assert(out.yielded[0] == c);
                        } else {
                            assert(out.yielded[i] == rest.yielded[i - 1]);
                            assert(!seen1.contains(link_digest(rest.yielded[i - 1])));
                            assert forall|d: u64| seen.contains(d) implies seen1.contains(d) by {
                                let k = choose|k: int| 0 <= k < seen.len() && seen[k] == d;
                                assert(seen1[k] == d);
                            }
                        }
                    }
                    assert forall|i: int, j: int|
                        0 <= i < j < out.yielded.len() implies link_digest(
                        #[trigger] out.yielded[i],
                    ) != link_digest(#[trigger] out.yielded[j]) by {
                        if i == 0 {
                            assert(out.yielded[0] == c);
                            assert(out.yielded[j] == rest.yielded[j - 1]);
                            assert(!seen1.contains(link_digest(rest.yielded[j - 1])));
                            assert(seen1[seen.len() as int] == link_digest(c));
                            assert(seen1.contains(link_digest(c)));
                        } else {
                            assert(out.yielded[i] == rest.yielded[i - 1]);
                            assert(out.yielded[j] == rest.yielded[j - 1]);
                        }
                    }
                } else {
                    if set_accepts(fs, c) && !seen.contains(link_digest(c)) {
                        assert forall|i: int| 0 <= i < out.yielded.len() implies !seen.contains(
                            link_digest(#[trigger] out.yielded[i]),
                        ) by {
                            assert(out.yielded[i] == rest.yielded[i]);
                            assert(!seen1.contains(link_digest(rest.yielded[i])));
                            assert forall|d: u64| seen.contains(d) implies seen1.contains(d) by {
                                let k = choose|k: int| 0 <= k < seen.len() && seen[k] == d;
                                assert(seen1[k] == d);
                            }
                        }
                    }
                }
            },
        }
    }
}

/// Fail-fast truncation: when the first error sits at position `k` of the
/// candidate sequence, the expansion yields exactly what the first `k`
/// candidates yield, ends with that error, and never touches anything past
/// position `k`.
pub proof fn lemma_expand_error_truncates(
    anc: Seq<LinkV>,
    fs: Seq<FilterV>,
    seen: Seq<u64>,
    cands: Seq<Result<LinkV, StorkError>>,
    k: int,
)
    requires
        0 <= k < cands.len(),
        cands[k] is Err,
        forall|i: int| 0 <= i < k ==> cands[i] is Ok,
    ensures
        ({
            let pre = expand(anc, fs, seen, cands.take(k));
            expand(anc, fs, seen, cands) == (ExpansionV {
                yielded: pre.yielded,
                seen: pre.seen,
                error: Some(cands[k]->Err_0),
            })
        }),
    decreases k,
{
    if k == 0 {
        assert(cands.take(0) =~= Seq::empty());
    } else {
        let c = cands[0]->Ok_0;
        let seen1 = step_seen(fs, seen, c);
        assert(cands.drop_first()[k - 1] == cands[k]);
        assert forall|i: int| 0 <= i < k - 1 implies cands.drop_first()[i] is Ok by {
            assert(cands.drop_first()[i] == cands[i + 1]);
        }
        lemma_expand_error_truncates(anc, fs, seen1, cands.drop_first(), k - 1);
        assert(cands.take(k)[0] == cands[0]);
        assert(cands.take(k).drop_first() =~= cands.drop_first().take(k - 1));
    }
}

} // verus!
