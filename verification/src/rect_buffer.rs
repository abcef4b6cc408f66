//! The set of dirty rectangles discovered for a frame. A candidate rectangle
//! that intersects or touches one already in the set is merged into it by
//! rectangle union, so each overlap cluster is represented by a single
//! rectangle.

use vstd::prelude::*;

verus! {

use crate::geometry::Rect;

/// Index of the last rectangle in `rects` that overlaps `r`, or -1 when none
/// does. The scan runs from the end, matching the order candidates are merged
/// in.
pub open spec fn last_overlap_idx(rects: Seq<Rect>, r: Rect) -> int
    decreases rects.len(),
{
    if rects.len() == 0 {
        -1
    } else if rects.last().spec_has_overlap(r) {
        rects.len() - 1
    } else {
        last_overlap_idx(rects.drop_last(), r)
    }
}

/// The buffer after pushing `r`: merged by union into the last overlapping
/// rectangle when one exists, appended otherwise.
pub open spec fn spec_push(rects: Seq<Rect>, r: Rect) -> Seq<Rect> {
    let i = last_overlap_idx(rects, r);
    if i >= 0 {
        rects.update(i, rects[i].spec_union(r))
    } else {
        rects.push(r)
    }
}

/// Some rectangle of the set covers the pixel at `(px, py)`.
pub open spec fn covers(rects: Seq<Rect>, px: int, py: int) -> bool {
    exists|i: int| 0 <= i < rects.len() && rects[i].contains(px, py)
}

/// The dirty-rectangle set of the current frame.
pub struct RectBuffer {
    pub rects: Vec<Rect>,
}

impl RectBuffer {
    /// Every rectangle of the set has well-formed edges.
    pub open spec fn wf(self) -> bool {
        forall|i: int| 0 <= i < self.rects@.len() ==> (#[trigger] self.rects@[i]).wf()
    }

    /// An empty set.
    pub fn new() -> (b: RectBuffer)
        ensures
            b.rects@ =~= Seq::<Rect>::empty(),
            b.wf(),
    {
        RectBuffer { rects: Vec::new() }
    }

    /// Removes every rectangle.
    pub fn clear(&mut self)
        ensures
            final(self).rects@ =~= Seq::<Rect>::empty(),
            final(self).wf(),
    {
        self.rects.clear();
    }

    pub fn is_empty(&self) -> (b: bool)
        ensures
            b == (self.rects@.len() == 0),
    {
        self.rects.len() == 0
    }

    pub fn len(&self) -> (n: usize)
        ensures
            n == self.rects@.len(),
    {
        self.rects.len()
    }

    pub fn get(&self, i: usize) -> (r: Rect)
        requires
            i < self.rects@.len(),
        ensures
            r == self.rects@[i as int],
    {
        self.rects[i]
    }

    /// Adds a candidate dirty rectangle, merging it into the last overlapping
    /// rectangle of the set when there is one.
    pub fn push_rect(&mut self, r: Rect)
        requires
            old(self).wf(),
            r.wf(),
        ensures
            final(self).rects@ == spec_push(old(self).rects@, r),
            final(self).wf(),
    {
        let ghost orig = old(self).rects@;
        let mut i: usize = self.rects.len();
        while i > 0
            invariant
                i <= self.rects@.len(),
                self.rects@ == orig,
                orig == old(self).rects@,
                self.wf(),
                r.wf(),
                forall|j: int|
                    i <= j < orig.len() ==> !(#[trigger] orig[j]).spec_has_overlap(r),
            decreases i,
        {
            i = i - 1;
            let cand = self.rects[i];
            if cand.has_overlap(r) {
                let u = cand.union(r);
                self.rects[i] = u;
                proof {
                    lemma_last_overlap_at(orig, r, i as int);
                    assert(self.rects@ =~= spec_push(orig, r));
                }
                return ;
            }
        }
        self.rects.push(r);
        proof {
            lemma_no_overlap(orig, r);
        }
    }
}

/// If `rects[k]` overlaps `r` and nothing after it does, the merge scan picks
/// index `k`.
proof fn lemma_last_overlap_at(rects: Seq<Rect>, r: Rect, k: int)
    requires
        0 <= k < rects.len(),
        rects[k].spec_has_overlap(r),
        forall|j: int| k < j < rects.len() ==> !(#[trigger] rects[j]).spec_has_overlap(r),
    ensures
        last_overlap_idx(rects, r) == k,
    decreases rects.len(),
{
    if k == rects.len() - 1 {
    } else {
        assert(rects.drop_last()[k] == rects[k]);
        lemma_last_overlap_at(rects.drop_last(), r, k);
    }
}

/// If nothing in the set overlaps `r`, the merge scan finds no index.
proof fn lemma_no_overlap(rects: Seq<Rect>, r: Rect)
    requires
        forall|j: int| 0 <= j < rects.len() ==> !(#[trigger] rects[j]).spec_has_overlap(r),
    ensures
        last_overlap_idx(rects, r) == -1,
    decreases rects.len(),
{
    if rects.len() > 0 {
        lemma_no_overlap(rects.drop_last(), r);
    }
}

/// Pushing keeps every pixel that was already covered covered, and covers
/// every pixel of the new rectangle: merging never loses damage.
pub proof fn lemma_push_covers(rects: Seq<Rect>, r: Rect, px: int, py: int)
    requires
        forall|i: int| 0 <= i < rects.len() ==> (#[trigger] rects[i]).wf(),
        r.wf(),
        covers(rects, px, py) || r.contains(px, py),
    ensures
        covers(spec_push(rects, r), px, py),
{
    let k = last_overlap_idx(rects, r);
    let out = spec_push(rects, r);
    if k >= 0 {
        lemma_last_overlap_bounds(rects, r);
        if r.contains(px, py) {
            crate::geometry::lemma_union_covers(rects[k], r, px, py);
            assert(out[k].contains(px, py));
        } else {
            let i = choose|i: int| 0 <= i < rects.len() && rects[i].contains(px, py);
            if i == k {
                crate::geometry::lemma_union_covers(rects[k], r, px, py);
                assert(out[k].contains(px, py));
            } else {
                assert(out[i].contains(px, py));
            }
        }
    } else {
        if r.contains(px, py) {
            assert(out[rects.len() as int].contains(px, py));
        } else {
            let i = choose|i: int| 0 <= i < rects.len() && rects[i].contains(px, py);
            assert(out[i].contains(px, py));
        }
    }
}

/// The merge scan's result is either -1 or a valid index.
pub proof fn lemma_last_overlap_bounds(rects: Seq<Rect>, r: Rect)
    ensures
        -1 <= last_overlap_idx(rects, r) < rects.len(),
        last_overlap_idx(rects, r) >= 0 ==> rects[last_overlap_idx(rects, r)].spec_has_overlap(
            r,
        ),
    decreases rects.len(),
{
    if rects.len() > 0 && !rects.last().spec_has_overlap(r) {
        lemma_last_overlap_bounds(rects.drop_last(), r);
    }
}

/// Two overlapping (or touching) candidates pushed into an empty set merge
/// into a single rectangle, their geometric union; two disjoint candidates
/// stay two separate rectangles.
pub proof fn lemma_push_merge_correctness(a: Rect, b: Rect)
    requires
        a.wf(),
        b.wf(),
    ensures
        a.spec_has_overlap(b) ==> spec_push(spec_push(Seq::empty(), a), b) =~= seq![
            a.spec_union(b),
        ],
        !a.spec_has_overlap(b) ==> spec_push(spec_push(Seq::empty(), a), b) =~= seq![a, b],
{
    let one = spec_push(Seq::empty(), a);
    assert(one =~= seq![a]);
    assert(one.last() == a);
    if a.spec_has_overlap(b) {
        assert(last_overlap_idx(seq![a], b) == 0);
        assert(spec_push(seq![a], b) =~= seq![a.spec_union(b)]);
    } else {
        lemma_no_overlap(seq![a], b);
        assert(spec_push(seq![a], b) =~= seq![a, b]);
    }
    assert(spec_push(one, b) == spec_push(seq![a], b));
}

} // verus!
