use rencache::geometry::Rect;
use rencache::rect_buffer::RectBuffer;

#[test]
fn intersection_of_overlapping_rects() {
    let a = Rect { x: 0, y: 0, width: 100, height: 100 };
    let b = Rect { x: 50, y: 50, width: 100, height: 100 };
    let r = a.intersection(b);
    assert_eq!(r, Rect { x: 50, y: 50, width: 50, height: 50 });
}

#[test]
fn intersection_of_disjoint_rects_is_empty() {
    let a = Rect { x: 0, y: 0, width: 10, height: 10 };
    let b = Rect { x: 100, y: 100, width: 10, height: 10 };
    let r = a.intersection(b);
    assert_eq!(r.width, 0);
    assert_eq!(r.height, 0);
}

#[test]
fn union_spans_both_rects() {
    let a = Rect { x: 0, y: 0, width: 10, height: 10 };
    let b = Rect { x: 20, y: 20, width: 10, height: 10 };
    assert_eq!(a.union(b), Rect { x: 0, y: 0, width: 30, height: 30 });
}

#[test]
fn overlap_is_closed_touching_counts() {
    let a = Rect { x: 0, y: 0, width: 10, height: 10 };
    let touching = Rect { x: 10, y: 0, width: 5, height: 5 };
    let apart = Rect { x: 11, y: 0, width: 5, height: 5 };
    assert!(a.has_overlap(touching));
    assert!(!a.has_overlap(apart));
}

#[test]
fn empty_rect_overlaps_nothing() {
    let big = Rect { x: 0, y: 0, width: 100, height: 100 };
    let inside_no_width = Rect { x: 5, y: 5, width: 0, height: 10 };
    let inside_no_height = Rect { x: 5, y: 5, width: 10, height: 0 };
    assert!(!big.has_overlap(inside_no_width));
    assert!(!inside_no_width.has_overlap(big));
    assert!(!big.has_overlap(inside_no_height));
    assert!(!inside_no_width.has_overlap(inside_no_height));
}

#[test]
fn push_rect_merges_overlapping_candidates() {
    let mut buf = RectBuffer::new();
    let a = Rect { x: 0, y: 0, width: 2, height: 2 };
    let b = Rect { x: 1, y: 1, width: 2, height: 2 };
    buf.push_rect(a);
    buf.push_rect(b);
    assert_eq!(buf.len(), 1);
    assert_eq!(buf.get(0), a.union(b));
    assert_eq!(buf.get(0), Rect { x: 0, y: 0, width: 3, height: 3 });
}

#[test]
fn push_rect_keeps_disjoint_candidates_separate() {
    let mut buf = RectBuffer::new();
    let a = Rect { x: 0, y: 0, width: 1, height: 1 };
    let b = Rect { x: 5, y: 5, width: 1, height: 1 };
    buf.push_rect(a);
    buf.push_rect(b);
    assert_eq!(buf.len(), 2);
    assert_eq!(buf.get(0), a);
    assert_eq!(buf.get(1), b);
}

#[test]
fn push_rect_merges_adjacent_cells() {
    // Touching (not overlapping) candidates coalesce: that is what merges
    // neighbouring dirty grid cells into one rectangle.
    let mut buf = RectBuffer::new();
    buf.push_rect(Rect { x: 0, y: 0, width: 1, height: 1 });
    buf.push_rect(Rect { x: 1, y: 0, width: 1, height: 1 });
    assert_eq!(buf.len(), 1);
    assert_eq!(buf.get(0), Rect { x: 0, y: 0, width: 2, height: 1 });
}
