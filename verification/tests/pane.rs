//! Tiling.

use koma::pane::{Axis, Node, PaneId};

/// A tree whose weights are shares of the parent's extent.
type Tree = Node<f32>;

#[derive(Clone, Copy, Debug, PartialEq)]
struct Rect {
    x: f32,
    y: f32,
    w: f32,
    h: f32,
}

const GAP: f32 = 2.0;
const MIN_WEIGHT: f32 = 0.05;

fn child_rects(rect: Rect, axis: Axis, weights: Vec<f32>) -> Vec<Rect> {
    let n = weights.len();
    let total: f32 = weights.iter().map(|w| w.max(0.0)).sum();
    let share = |w: f32| if total > 0.0 { w.max(0.0) / total } else { 1.0 / n as f32 };
    let (start, span) = match axis {
        Axis::Horizontal => (rect.x, rect.w),
        Axis::Vertical => (rect.y, rect.h),
    };
    let usable = (span - GAP * (n - 1) as f32).max(0.0);
    let mut cursor = start;
    let mut out = Vec::new();
    for (i, w) in weights.iter().enumerate() {
        let size = if i == n - 1 {
            (start + span - cursor).max(0.0)
        } else {
            (usable * share(*w)).round()
        };
        out.push(match axis {
            Axis::Horizontal => Rect { x: cursor, y: rect.y, w: size, h: rect.h },
            Axis::Vertical => Rect { x: rect.x, y: cursor, w: rect.w, h: size },
        });
        cursor += size + GAP;
    }
    out
}

fn gutter(rect: Rect, axis: Axis, a: Rect, b: Rect) -> Rect {
    match axis {
        Axis::Horizontal => Rect {
            x: a.x + a.w,
            y: rect.y,
            w: (b.x - (a.x + a.w)).max(1.0),
            h: rect.h,
        },
        Axis::Vertical => Rect {
            x: rect.x,
            y: a.y + a.h,
            w: rect.w,
            h: (b.y - (a.y + a.h)).max(1.0),
        },
    }
}

fn split(tree: &mut Tree, target: PaneId, axis: Axis, new_id: PaneId) -> bool {
    tree.split(target, axis, new_id, 1.0)
}

fn resize(tree: &mut Tree, target: PaneId, axis: Axis, delta: f32) -> bool {
    let rebalance = |weights: Vec<f32>, i: usize, j: usize| -> Option<Vec<f32>> {
        let total: f32 = weights.iter().map(|w| w.max(0.0)).sum();
        if total <= 0.0 {
            return None;
        }
        let mut out: Vec<f32> = weights.iter().map(|w| w.max(0.0) / total).collect();
        let (lo, hi) = (MIN_WEIGHT - out[i], out[j] - MIN_WEIGHT);
        let d = if lo > hi { 0.0 } else { delta.clamp(lo, hi) };
        out[i] += d;
        out[j] -= d;
        Some(out)
    };
    tree.resize(target, axis, &rebalance)
}

fn remove(tree: &mut Tree, target: PaneId) -> bool {
    let merge = |outer: Vec<f32>, at: usize, inner: Vec<f32>| -> Vec<f32> {
        let total: f32 = inner.iter().sum();
        let mut out = outer[..at].to_vec();
        out.extend(inner.iter().map(|w| outer[at] * w / total));
        out.extend_from_slice(&outer[at + 1..]);
        out
    };
    tree.remove(target, &merge)
}

/// The axis and weights of the row at the root.
fn root_row(tree: &Tree) -> (Axis, Vec<f32>) {
    match tree {
        Node::Split { axis, children } => (*axis, children.iter().map(|c| c.weight).collect()),
        Node::Leaf(_) => panic!("a single pane"),
    }
}

const FULL: Rect = Rect { x: 0.0, y: 0.0, w: 800.0, h: 600.0 };

fn layout_of(node: &Tree) -> Vec<(PaneId, Rect)> {
    let mut out = Vec::new();
    node.layout(FULL, &child_rects, &mut out);
    out
}

/// Widths in pane-id order, for checking even distribution.
fn widths(node: &Tree) -> Vec<f32> {
    layout_of(node).into_iter().map(|(_, r)| r.w).collect()
}

fn assert_even(sizes: &[f32]) {
    let (min, max) = sizes.iter().fold((f32::MAX, f32::MIN), |(lo, hi), &v| {
        (lo.min(v), hi.max(v))
    });
    // Rounding to whole pixels can leave a pixel or two of slack.
    assert!(max - min <= 2.0, "sizes should be even, got {sizes:?}");
}

#[test]
fn a_single_leaf_fills_the_area() {
    let out = layout_of(&Tree::leaf(1));
    assert_eq!(out.len(), 1);
    assert_eq!(out[0], (1, FULL));
}

#[test]
fn horizontal_split_puts_panes_side_by_side() {
    let mut t = Tree::leaf(1);
    assert!(split(&mut t, 1, Axis::Horizontal, 2));
    let out = layout_of(&t);
    assert_eq!(out.len(), 2);
    let (a, b) = (out[0].1, out[1].1);
    assert_eq!(out[0].0, 1);
    assert_eq!(out[1].0, 2);
    assert!(a.x < b.x, "pane 1 should be on the left");
    assert_eq!(a.h, FULL.h);
    assert_eq!(b.h, FULL.h);
    // The panes plus the gutter must span the full width exactly.
    assert!((b.x + b.w - FULL.w).abs() < 0.01);
    assert!(b.x > a.x + a.w, "there must be a gutter between panes");
    assert_even(&[a.w, b.w]);
}

#[test]
fn vertical_split_stacks_panes() {
    let mut t = Tree::leaf(1);
    assert!(split(&mut t, 1, Axis::Vertical, 2));
    let out = layout_of(&t);
    let (a, b) = (out[0].1, out[1].1);
    assert_eq!(a.w, FULL.w);
    assert!(a.y < b.y);
    assert!((b.y + b.h - FULL.h).abs() < 0.01);
    assert_even(&[a.h, b.h]);
}

#[test]
fn repeated_splits_on_one_axis_stay_even() {
    // The whole point of the n-ary split: 1/N each, not 50/25/25.
    let mut t = Tree::leaf(1);
    split(&mut t, 1, Axis::Horizontal, 2);
    split(&mut t, 2, Axis::Horizontal, 3);
    assert_even(&widths(&t));

    split(&mut t, 3, Axis::Horizontal, 4);
    split(&mut t, 4, Axis::Horizontal, 5);
    let w = widths(&t);
    assert_eq!(w.len(), 5);
    assert_even(&w);
    // And they still tile the full width.
    let out = layout_of(&t);
    let last = out.last().unwrap().1;
    assert!((last.x + last.w - FULL.w).abs() < 0.01);
}

#[test]
fn splitting_the_first_pane_again_stays_even() {
    // Growth from the left end, not just the right.
    let mut t = Tree::leaf(1);
    split(&mut t, 1, Axis::Horizontal, 2);
    split(&mut t, 1, Axis::Horizontal, 3);
    assert_even(&widths(&t));
    let mut leaves = Vec::new();
    t.leaves(&mut leaves);
    assert_eq!(leaves, vec![1, 3, 2], "the new pane goes next to its source");
}

#[test]
fn a_split_across_the_other_axis_nests() {
    let mut t = Tree::leaf(1);
    split(&mut t, 1, Axis::Horizontal, 2);
    split(&mut t, 2, Axis::Vertical, 3);
    let out = layout_of(&t);
    assert_eq!(out.len(), 3);
    let (a, b, c) = (out[0].1, out[1].1, out[2].1);
    // Pane 1 keeps the full-height left half; 2 and 3 share the right half.
    assert_eq!(a.h, FULL.h);
    assert_even(&[a.w, b.w]);
    assert_even(&[b.h, c.h]);
}

#[test]
fn a_split_reverts_to_even_after_a_manual_resize() {
    let mut t = Tree::leaf(1);
    split(&mut t, 1, Axis::Horizontal, 2);
    resize(&mut t, 1, Axis::Horizontal, 0.3);
    assert!(widths(&t)[0] > widths(&t)[1], "resize should have taken effect");
    split(&mut t, 2, Axis::Horizontal, 3);
    assert_even(&widths(&t));
}

#[test]
fn nested_splits_never_overlap() {
    let mut t = Tree::leaf(1);
    split(&mut t, 1, Axis::Horizontal, 2);
    split(&mut t, 2, Axis::Vertical, 3);
    split(&mut t, 1, Axis::Vertical, 4);
    let out = layout_of(&t);
    assert_eq!(out.len(), 4);
    for i in 0..out.len() {
        for j in (i + 1)..out.len() {
            let (a, b) = (out[i].1, out[j].1);
            let overlaps =
                a.x < b.x + b.w && b.x < a.x + a.w && a.y < b.y + b.h && b.y < a.y + a.h;
            assert!(!overlaps, "{:?} overlaps {:?}", a, b);
        }
    }
}

#[test]
fn splitting_an_unknown_pane_fails() {
    let mut t = Tree::leaf(1);
    assert!(!split(&mut t, 99, Axis::Horizontal, 2));
}

#[test]
fn removing_a_pane_collapses_into_its_sibling() {
    let mut t = Tree::leaf(1);
    split(&mut t, 1, Axis::Horizontal, 2);
    assert!(remove(&mut t, 1));
    let out = layout_of(&t);
    assert_eq!(out.len(), 1);
    assert_eq!(out[0], (2, FULL), "the survivor should reclaim the space");
}

#[test]
fn removing_one_of_three_leaves_the_rest_tiling() {
    let mut t = Tree::leaf(1);
    split(&mut t, 1, Axis::Horizontal, 2);
    split(&mut t, 2, Axis::Horizontal, 3);
    assert!(remove(&mut t, 2));
    let out = layout_of(&t);
    assert_eq!(out.len(), 2);
    assert_even(&[out[0].1.w, out[1].1.w]);
    let last = out.last().unwrap().1;
    assert!((last.x + last.w - FULL.w).abs() < 0.01);
}

#[test]
fn removing_a_deeply_nested_pane_works() {
    let mut t = Tree::leaf(1);
    split(&mut t, 1, Axis::Horizontal, 2);
    split(&mut t, 2, Axis::Vertical, 3);
    assert!(remove(&mut t, 3));
    let mut leaves = Vec::new();
    t.leaves(&mut leaves);
    assert_eq!(leaves, vec![1, 2]);
}

#[test]
fn removing_the_last_pane_fails() {
    let mut t = Tree::leaf(1);
    assert!(!remove(&mut t, 1), "the root leaf has no sibling to collapse into");
}

#[test]
fn resize_moves_the_boundary_and_clamps() {
    let mut t = Tree::leaf(1);
    split(&mut t, 1, Axis::Horizontal, 2);
    let before = widths(&t)[0];
    assert!(resize(&mut t, 1, Axis::Horizontal, 0.1));
    assert!(widths(&t)[0] > before, "growing pane 1 should widen it");

    // The clamp means repeated shrinks never invert or zero out a pane.
    for _ in 0..100 {
        resize(&mut t, 1, Axis::Horizontal, -0.1);
    }
    let w = widths(&t);
    assert!(w[0] > 0.0 && w[1] > 0.0, "got {w:?}");
}

#[test]
fn resize_of_the_last_pane_borrows_from_its_left() {
    let mut t = Tree::leaf(1);
    split(&mut t, 1, Axis::Horizontal, 2);
    split(&mut t, 2, Axis::Horizontal, 3);
    let before = widths(&t);
    assert!(resize(&mut t, 3, Axis::Horizontal, 0.1));
    let after = widths(&t);
    assert!(after[2] > before[2], "the last pane should grow");
    assert!(after[1] < before[1], "its left neighbour should shrink");
    assert!((after[0] - before[0]).abs() < 2.0, "distant panes stay put");
}

#[test]
fn resize_ignores_the_wrong_axis() {
    let mut t = Tree::leaf(1);
    split(&mut t, 1, Axis::Horizontal, 2);
    assert!(!resize(&mut t, 1, Axis::Vertical, 0.1));
}

#[test]
fn dividers_sit_between_panes() {
    let mut t = Tree::leaf(1);
    split(&mut t, 1, Axis::Horizontal, 2);
    split(&mut t, 2, Axis::Horizontal, 3);
    let mut d = Vec::new();
    t.dividers(FULL, &child_rects, &gutter, &mut d);
    assert_eq!(d.len(), 2, "three panes in a row need two gutters");
    let rects = layout_of(&t);
    for (i, div) in d.iter().enumerate() {
        let (a, b) = (rects[i].1, rects[i + 1].1);
        assert!(div.x >= a.x + a.w - 0.01 && div.x + div.w <= b.x + 0.01);
        assert_eq!(div.h, FULL.h);
    }
}

/// Pane 1 beside a column of 2 over a row of 3 and 4.
fn row_in_a_column_in_a_row() -> Tree {
    let mut t = Tree::leaf(1);
    assert!(split(&mut t, 1, Axis::Horizontal, 2));
    assert!(split(&mut t, 2, Axis::Vertical, 3));
    assert!(split(&mut t, 3, Axis::Horizontal, 4));
    t
}

#[test]
fn a_row_left_of_a_collapsed_column_joins_the_row_around_it() {
    let mut t = row_in_a_column_in_a_row();
    assert!(remove(&mut t, 2));
    assert_eq!(root_row(&t), (Axis::Horizontal, vec![1.0, 0.5, 0.5]));
    assert!(split(&mut t, 4, Axis::Horizontal, 5));
    let out = layout_of(&t);
    assert_eq!(out.iter().map(|p| p.0).collect::<Vec<_>>(), vec![1, 3, 4, 5]);
    assert_even(&widths(&t));
}

#[test]
fn a_row_joins_in_place_and_keeps_the_panes_apart() {
    // The column is in the middle of its row.
    let mut t = row_in_a_column_in_a_row();
    assert!(split(&mut t, 1, Axis::Horizontal, 9));
    assert!(resize(&mut t, 1, Axis::Horizontal, 0.1));
    let before = layout_of(&t);
    assert!(remove(&mut t, 2));
    let after = layout_of(&t);
    assert_eq!(after.iter().map(|p| p.0).collect::<Vec<_>>(), vec![1, 9, 3, 4]);
    assert!((after[0].1.w - before[0].1.w).abs() <= 2.0, "siblings keep their share");
    assert!((after[2].1.w - after[3].1.w).abs() <= 2.0);
}

#[test]
fn a_list_of_the_wrong_length_leaves_weights_as_they_were() {
    let mut t = row_in_a_column_in_a_row();
    let none = |_: Vec<f32>, _: usize, _: Vec<f32>| -> Vec<f32> { Vec::new() };
    assert!(t.remove(2, &none));
    assert_eq!(root_row(&t), (Axis::Horizontal, vec![1.0, 1.0, 1.0]));
}

#[test]
fn rows_meet_only_where_a_column_collapses() {
    let told = |_: Vec<f32>, _: usize, _: Vec<f32>| -> Vec<f32> { panic!("no two rows meet") };
    let mut t = row_in_a_column_in_a_row();
    assert!(t.remove(4, &told), "a column of two is left");
    assert!(t.remove(1, &told), "the column is the root now");
    assert_eq!(root_row(&t).0, Axis::Vertical);
    assert!(!t.remove(8, &told));
}

#[test]
fn closing_a_pane_undoes_its_split() {
    let mut t = row_in_a_column_in_a_row();
    assert!(split(&mut t, 2, Axis::Horizontal, 7));
    assert!(remove(&mut t, 7));
    let mut leaves = Vec::new();
    t.leaves(&mut leaves);
    assert_eq!(leaves, vec![1, 2, 3, 4]);
}

#[test]
fn a_nested_row_is_even_after_a_split() {
    let mut t = row_in_a_column_in_a_row();
    assert!(resize(&mut t, 3, Axis::Horizontal, 0.2));
    assert!(split(&mut t, 3, Axis::Horizontal, 5));
    let out = layout_of(&t);
    let nested: Vec<f32> = out.iter().filter(|p| p.0 >= 3).map(|p| p.1.w).collect();
    assert_eq!(nested.len(), 3);
    assert_even(&nested);
}
