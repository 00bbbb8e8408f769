//! Splitting a run of items between workers.

use vstd::prelude::*;

verus! {

/// Worker `w` of `workers` takes items `[w * (total / workers), ...)`, each the same share,
/// the last one also the remainder.
pub open spec fn share_of(total: int, workers: int, w: int) -> (int, int) {
    let per = total / workers;
    let start = w * per;
    if w == workers - 1 { (start, start + per + total % workers) } else { (start, start + per) }
}

/// `ranges` are consecutive and cover `[0, total)` exactly.
pub open spec fn covers_exactly(ranges: Seq<(u64, u64)>, total: int) -> bool {
    &&& ranges.len() > 0
    &&& ranges[0].0 == 0
    &&& ranges.last().1 == total
    &&& forall|w: int| 0 <= w < ranges.len() ==> (#[trigger] ranges[w]).0 <= ranges[w].1
    &&& forall|w: int| 0 <= w < ranges.len() - 1 ==> (#[trigger] ranges[w]).1 == ranges[w + 1].0
}

/// The item ranges of `workers` workers sharing `total` items.
pub fn split_work(total: u64, workers: u64) -> (ranges: Vec<(u64, u64)>)
    requires
        workers > 0,
    ensures
        ranges@.len() == workers,
        forall|w: int| 0 <= w < workers ==> (#[trigger] ranges@[w]).0 == share_of(total as int, workers as int, w).0
            && ranges@[w].1 == share_of(total as int, workers as int, w).1,
{
    let per = total / workers;
    let remainder = total % workers;
    let mut ranges: Vec<(u64, u64)> = Vec::new();
    let mut w: u64 = 0;
    while w < workers
        invariant
            workers > 0,
            per == total / workers,
            remainder == total % workers,
            w <= workers,
            ranges@.len() == w,
            forall|v: int| 0 <= v < w ==> (#[trigger] ranges@[v]).0 == share_of(total as int, workers as int, v).0
                && ranges@[v].1 == share_of(total as int, workers as int, v).1,
        decreases workers - w,
    {
        proof {
            assert(w * per + per <= total) by (nonlinear_arith)
                requires w < workers, per == total / workers, workers > 0;
            if w == workers - 1 {
                assert(w * per + per + remainder <= total) by (nonlinear_arith)
                    requires w < workers, per == total / workers, remainder == total % workers, workers > 0, w == workers - 1;
            }
        }
        let start = w * per;
        let end = if w == workers - 1 { start + per + remainder } else { start + per };
        ranges.push((start, end));
        w += 1;
    }
    ranges
}

/// Law: the shares of the workers are consecutive and together cover every item once.
pub proof fn lemma_shares_cover_all(total: nat, workers: nat, ranges: Seq<(u64, u64)>)
    requires
        workers > 0,
        ranges.len() == workers,
        forall|w: int| 0 <= w < workers ==> (#[trigger] ranges[w]).0 == share_of(total as int, workers as int, w).0
            && ranges[w].1 == share_of(total as int, workers as int, w).1,
    ensures
        covers_exactly(ranges, total as int),
{
    let per = total as int / workers as int;
    assert(ranges[0].0 == 0);
    assert(ranges.last() == ranges[workers - 1]);
    assert((workers - 1) * per + per + (total as int) % (workers as int) == total) by (nonlinear_arith)
        requires per == total as int / workers as int, workers > 0;
    assert forall|w: int| 0 <= w < ranges.len() - 1 implies (#[trigger] ranges[w]).1 == ranges[w + 1].0 by {
        assert(w * per + per == (w + 1) * per) by (nonlinear_arith);
    }
    assert forall|w: int| 0 <= w < ranges.len() implies (#[trigger] ranges[w]).0 <= ranges[w].1 by {
        assert(per >= 0) by (nonlinear_arith) requires per == total as int / workers as int, workers > 0;
    }
}

} // verus!
