//! Walking the split tree: which area each pane gets, and where the dividers
//! between panes go.
//!
//! The walk does not know what an area is. It is handed the function that
//! divides one among the children of a split, and the one that finds the gutter
//! between two neighbours.

use crate::pane::{self, Axis, Branch, Child, Node, PaneId, Tree};
use vstd::prelude::*;

verus! {

/// Whether `placed` gives each pane of `tree` its area, `area` being that of
/// the whole: each split hands its area to `divide` together with its weights,
/// and each of its children takes the piece at its position.
pub open spec fn lays_out<W, R, F: Fn(R, Axis, Vec<W>) -> Vec<R>>(
    tree: Tree<W>,
    area: R,
    divide: F,
    placed: Seq<(PaneId, R)>,
) -> bool
    decreases tree,
{
    match tree {
        Tree::Leaf(id) => placed == seq![(id, area)],
        Tree::Split { axis, children } => exists|
            v: Vec<W>,
            pieces: Vec<R>,
            parts: Seq<Seq<(PaneId, R)>>,
        |
            {
                &&& v@ == pane::weights(children)
                &&& #[trigger] call_ensures(divide, (area, axis, v), pieces)
                &&& parts.len() <= children.len()
                &&& parts.len() == crate::model::min(children.len() as int, pieces@.len() as int)
                &&& forall|i: int|
                    0 <= i < parts.len() ==> lays_out(
                        children[i].tree,
                        pieces@[i],
                        divide,
                        #[trigger] parts[i],
                    )
                &&& placed == #[trigger] parts.flatten()
            },
    }
}

/// Whether `lines` are the gutters of `tree`: for each split those between its
/// neighbouring children, then those inside each child.
pub open spec fn divides<
    W,
    R,
    F: Fn(R, Axis, Vec<W>) -> Vec<R>,
    G: Fn(R, Axis, R, R) -> R,
>(tree: Tree<W>, area: R, divide: F, gutter: G, lines: Seq<R>) -> bool
    decreases tree,
{
    match tree {
        Tree::Leaf(id) => lines.len() == 0,
        Tree::Split { axis, children } => exists|
            v: Vec<W>,
            pieces: Vec<R>,
            own: Seq<R>,
            parts: Seq<Seq<R>>,
        |
            {
                &&& v@ == pane::weights(children)
                &&& #[trigger] call_ensures(divide, (area, axis, v), pieces)
                &&& own.len() == crate::model::monus(pieces@.len() as int, 1)
                &&& forall|i: int|
                    0 <= i < own.len() ==> call_ensures(
                        gutter,
                        (area, axis, pieces@[i], pieces@[i + 1]),
                        #[trigger] own[i],
                    )
                &&& parts.len() <= children.len()
                &&& parts.len() == crate::model::min(children.len() as int, pieces@.len() as int)
                &&& forall|i: int|
                    0 <= i < parts.len() ==> divides(
                        children[i].tree,
                        pieces@[i],
                        divide,
                        gutter,
                        #[trigger] parts[i],
                    )
                &&& lines == #[trigger] (own + parts.flatten())
            },
    }
}

/// A copy of the weights of `children`.
fn weights_of<W: Copy>(children: &Vec<Child<W>>) -> (v: Vec<W>)
    ensures
        v@ == pane::weights(pane::branches(children@)),
{
    let ghost wanted = pane::weights(pane::branches(children@));
    let mut v: Vec<W> = Vec::new();
    let mut i: usize = 0;
    while i < children.len()
        invariant
            i <= children@.len(),
            wanted == pane::weights(pane::branches(children@)),
            v@ =~= wanted.take(i as int),
        decreases children.len() - i,
    {
        v.push(children[i].weight);
        i = i + 1;
    }
    assert(v@ =~= wanted);
    v
}

impl<W: Copy> Node<W> {
    /// Flattens the tree into `(pane, area)` pairs covering `area`.
    pub fn layout<R: Copy, F: Fn(R, Axis, Vec<W>) -> Vec<R>>(
        &self,
        area: R,
        divide: &F,
        out: &mut Vec<(PaneId, R)>,
    )
        requires
            forall|a: R, axis: Axis, v: Vec<W>| call_requires(divide, (a, axis, v)),
        ensures
            exists|placed: Seq<(PaneId, R)>|
                lays_out(self.tree(), area, *divide, placed) && final(out)@ == #[trigger] (
                old(out)@ + placed),
        decreases self,
    {
        proof {
            pane::lemma_split_tree(*self);
        }
        let ghost before = out@;
        match self {
            Node::Leaf(id) => {
                out.push((*id, area));
                assert(out@ =~= before + seq![(*id, area)]);
            },
            Node::Split { axis, children } => {
                let ghost shapes = pane::branches(children@);
                let v = weights_of(children);
                let ghost handed = v;
                let pieces = divide(area, *axis, v);
                let ghost mut parts: Seq<Seq<(PaneId, R)>> = Seq::empty();
                let mut i: usize = 0;
                assert(parts.flatten() =~= Seq::<(PaneId, R)>::empty());
                assert(out@ =~= before + parts.flatten());
                while i < children.len() && i < pieces.len()
                    invariant
                        i <= children@.len(),
                        i <= pieces@.len(),
                        forall|a: R, axis: Axis, v: Vec<W>| call_requires(divide, (a, axis, v)),
                        shapes == pane::branches(children@),
                        parts.len() == i,
                        forall|j: int|
                            0 <= j < i ==> lays_out(
                                shapes[j].tree,
                                pieces@[j],
                                *divide,
                                #[trigger] parts[j],
                            ),
                        out@ == before + parts.flatten(),
                        decreases_to!(self => children),
                    decreases children.len() - i,
                {
                    let ghost so_far = out@;
                    children[i].node.layout(pieces[i], divide, out);
                    proof {
                        let placed = choose|placed: Seq<(PaneId, R)>|
                            lays_out(
                                shapes[i as int].tree,
                                pieces@[i as int],
                                *divide,
                                placed,
                            ) && out@ == #[trigger] (so_far + placed);
                        parts.lemma_flatten_push(placed);
                        let ghost longer = parts.push(placed);
                        assert(before + longer.flatten() =~= so_far + placed);
                        parts = longer;
                    }
                    i = i + 1;
                }
                proof {
                    assert(handed@ == pane::weights(shapes));
                    assert(call_ensures(*divide, (area, *axis, handed), pieces));
                    assert(lays_out(self.tree(), area, *divide, parts.flatten()));
                }
            },
        }
    }

    /// The gutters themselves, for drawing the divider lines.
    pub fn dividers<R: Copy, F: Fn(R, Axis, Vec<W>) -> Vec<R>, G: Fn(R, Axis, R, R) -> R>(
        &self,
        area: R,
        divide: &F,
        gutter: &G,
        out: &mut Vec<R>,
    )
        requires
            forall|a: R, axis: Axis, v: Vec<W>| call_requires(divide, (a, axis, v)),
            forall|a: R, axis: Axis, b: R, c: R| call_requires(gutter, (a, axis, b, c)),
        ensures
            exists|lines: Seq<R>|
                divides(self.tree(), area, *divide, *gutter, lines) && final(out)@ == #[trigger] (
                old(out)@ + lines),
        decreases self,
    {
        proof {
            pane::lemma_split_tree(*self);
        }
        let ghost before = out@;
        match self {
            Node::Leaf(_) => {
                assert(out@ =~= before + Seq::<R>::empty());
            },
            Node::Split { axis, children } => {
                let ghost shapes = pane::branches(children@);
                let v = weights_of(children);
                let ghost handed = v;
                let pieces = divide(area, *axis, v);
                let ghost mut own: Seq<R> = Seq::empty();
                let mut i: usize = 0;
                assert(out@ =~= before + own);
                while i + 1 < pieces.len()
                    invariant
                        i <= crate::model::monus(pieces.len() as int, 1),
                        forall|a: R, axis: Axis, b: R, c: R|
                            call_requires(gutter, (a, axis, b, c)),
                        own.len() == i,
                        forall|j: int|
                            0 <= j < i ==> call_ensures(
                                *gutter,
                                (area, *axis, pieces@[j], pieces@[j + 1]),
                                #[trigger] own[j],
                            ),
                        out@ == before + own,
                    decreases pieces.len() - i,
                {
                    let line = gutter(area, *axis, pieces[i], pieces[i + 1]);
                    out.push(line);
                    proof {
                        assert(before + own.push(line) =~= (before + own).push(line));
                        own = own.push(line);
                    }
                    i = i + 1;
                }
                let ghost mut parts: Seq<Seq<R>> = Seq::empty();
                assert(parts.flatten() =~= Seq::<R>::empty());
                assert(out@ =~= before + own + parts.flatten());
                let mut k: usize = 0;
                while k < children.len() && k < pieces.len()
                    invariant
                        k <= children@.len(),
                        k <= pieces@.len(),
                        forall|a: R, axis: Axis, v: Vec<W>| call_requires(divide, (a, axis, v)),
                        forall|a: R, axis: Axis, b: R, c: R|
                            call_requires(gutter, (a, axis, b, c)),
                        shapes == pane::branches(children@),
                        parts.len() == k,
                        forall|j: int|
                            0 <= j < k ==> divides(
                                shapes[j].tree,
                                pieces@[j],
                                *divide,
                                *gutter,
                                #[trigger] parts[j],
                            ),
                        out@ == before + own + parts.flatten(),
                        decreases_to!(self => children),
                    decreases children.len() - k,
                {
                    let ghost so_far = out@;
                    children[k].node.dividers(pieces[k], divide, gutter, out);
                    proof {
                        let lines = choose|lines: Seq<R>|
                            divides(
                                shapes[k as int].tree,
                                pieces@[k as int],
                                *divide,
                                *gutter,
                                lines,
                            ) && out@ == #[trigger] (so_far + lines);
                        parts.lemma_flatten_push(lines);
                        let longer = parts.push(lines);
                        assert(before + own + longer.flatten() =~= so_far + lines);
                        parts = longer;
                    }
                    k = k + 1;
                }
                proof {
                    assert(call_ensures(*divide, (area, *axis, handed), pieces));
                    let lines = own + parts.flatten();
                    assert(divides(self.tree(), area, *divide, *gutter, lines));
                    assert(out@ =~= before + lines);
                }
            },
        }
    }
}

/// The panes of a layout, without their areas.
pub open spec fn ids<R>(placed: Seq<(PaneId, R)>) -> Seq<PaneId> {
    Seq::new(placed.len(), |i: int| placed[i].0)
}

/// A layout shows every pane exactly as often as it is in the tree, and in the
/// tree's order, as long as each split is divided into as many pieces as it has
/// children.
pub proof fn law_layout_shows_every_pane<W, R, F: Fn(R, Axis, Vec<W>) -> Vec<R>>(
    tree: Tree<W>,
    area: R,
    divide: F,
    placed: Seq<(PaneId, R)>,
)
    requires
        lays_out(tree, area, divide, placed),
        forall|a: R, axis: Axis, v: Vec<W>, pieces: Vec<R>| #[trigger]
            call_ensures(divide, (a, axis, v), pieces) ==> pieces@.len() == v@.len(),
    ensures
        ids(placed) == tree.leaves(),
    decreases tree,
{
    match tree {
        Tree::Leaf(id) => {
            assert(ids(placed) =~= seq![id]);
        },
        Tree::Split { axis, children } => {
            let (v, pieces, parts) = choose|
                v: Vec<W>,
                pieces: Vec<R>,
                parts: Seq<Seq<(PaneId, R)>>,
            |
                {
                    &&& v@ == pane::weights(children)
                    &&& #[trigger] call_ensures(divide, (area, axis, v), pieces)
                    &&& parts.len() <= children.len()
                    &&& parts.len() == crate::model::min(
                        children.len() as int,
                        pieces@.len() as int,
                    )
                    &&& forall|i: int|
                        0 <= i < parts.len() ==> lays_out(
                            children[i].tree,
                            pieces@[i],
                            divide,
                            #[trigger] parts[i],
                        )
                    &&& placed == #[trigger] parts.flatten()
                };
            assert(parts.len() == children.len());
            assert forall|i: int| 0 <= i < parts.len() implies ids(#[trigger] parts[i])
                == children[i].tree.leaves() by {
                law_layout_shows_every_pane(children[i].tree, pieces@[i], divide, parts[i]);
            }
            lemma_ids_of_parts(children, parts, parts.len() as int);
            assert(parts.take(parts.len() as int) =~= parts);
        },
    }
}

proof fn lemma_ids_of_parts<W, R>(
    children: Seq<Branch<W>>,
    parts: Seq<Seq<(PaneId, R)>>,
    n: int,
)
    requires
        0 <= n <= parts.len() == children.len(),
        forall|i: int|
            0 <= i < parts.len() ==> ids(#[trigger] parts[i]) == children[i].tree.leaves(),
    ensures
        ids(parts.take(n).flatten()) == pane::leaves_upto(children, n),
    decreases n,
{
    if n == 0 {
        assert(parts.take(0).flatten() =~= Seq::<(PaneId, R)>::empty());
        assert(ids(parts.take(0).flatten()) =~= pane::leaves_upto(children, 0));
    } else {
        lemma_ids_of_parts(children, parts, n - 1);
        let head = parts.take(n - 1);
        head.lemma_flatten_push(parts[n - 1]);
        assert(parts.take(n) =~= head.push(parts[n - 1]));
        assert(ids(parts[n - 1]) == children[n - 1].tree.leaves());
        assert(ids(head.flatten() + parts[n - 1]) =~= ids(head.flatten()) + ids(parts[n - 1]));
    }
}

/// There is one divider fewer than there are panes, as long as each split is
/// divided into as many pieces as it has children.
pub proof fn law_one_divider_fewer_than_panes<
    W,
    R,
    F: Fn(R, Axis, Vec<W>) -> Vec<R>,
    G: Fn(R, Axis, R, R) -> R,
>(tree: Tree<W>, area: R, divide: F, gutter: G, lines: Seq<R>)
    requires
        tree.wf(),
        divides(tree, area, divide, gutter, lines),
        forall|a: R, axis: Axis, v: Vec<W>, pieces: Vec<R>| #[trigger]
            call_ensures(divide, (a, axis, v), pieces) ==> pieces@.len() == v@.len(),
    ensures
        lines.len() + 1 == tree.leaves().len(),
    decreases tree,
{
    if let Tree::Split { axis, children } = tree {
        let (v, pieces, own, parts) = choose|
            v: Vec<W>,
            pieces: Vec<R>,
            own: Seq<R>,
            parts: Seq<Seq<R>>,
        |
            {
                &&& v@ == pane::weights(children)
                &&& #[trigger] call_ensures(divide, (area, axis, v), pieces)
                &&& own.len() == crate::model::monus(pieces@.len() as int, 1)
                &&& forall|i: int|
                    0 <= i < own.len() ==> call_ensures(
                        gutter,
                        (area, axis, pieces@[i], pieces@[i + 1]),
                        #[trigger] own[i],
                    )
                &&& parts.len() <= children.len()
                &&& parts.len() == crate::model::min(children.len() as int, pieces@.len() as int)
                &&& forall|i: int|
                    0 <= i < parts.len() ==> divides(
                        children[i].tree,
                        pieces@[i],
                        divide,
                        gutter,
                        #[trigger] parts[i],
                    )
                &&& lines == #[trigger] (own + parts.flatten())
            };
        assert(parts.len() == children.len());
        assert forall|i: int| 0 <= i < parts.len() implies (#[trigger] parts[i]).len() + 1
            == children[i].tree.leaves().len() by {
            assert(children[i].tree.wf());
            law_one_divider_fewer_than_panes(
                children[i].tree,
                pieces@[i],
                divide,
                gutter,
                parts[i],
            );
        }
        lemma_lines_of_parts(children, parts, parts.len() as int);
        assert(parts.take(parts.len() as int) =~= parts);
    }
}

proof fn lemma_lines_of_parts<W, R>(children: Seq<Branch<W>>, parts: Seq<Seq<R>>, n: int)
    requires
        0 <= n <= parts.len() == children.len(),
        forall|i: int|
            0 <= i < parts.len() ==> (#[trigger] parts[i]).len() + 1
                == children[i].tree.leaves().len(),
    ensures
        parts.take(n).flatten().len() + n == pane::leaves_upto(children, n).len(),
    decreases n,
{
    if n == 0 {
        assert(parts.take(0).flatten() =~= Seq::<R>::empty());
    } else {
        lemma_lines_of_parts(children, parts, n - 1);
        let head = parts.take(n - 1);
        head.lemma_flatten_push(parts[n - 1]);
        assert(parts.take(n) =~= head.push(parts[n - 1]));
        assert(parts[n - 1].len() + 1 == children[n - 1].tree.leaves().len());
    }
}

/// The panes of a row get the pieces that its area is divided into by their
/// weights: the first the first piece, the next the next.
pub proof fn law_a_row_is_laid_out_piece_by_piece<W, R, F: Fn(R, Axis, Vec<W>) -> Vec<R>>(
    axis: Axis,
    children: Seq<Branch<W>>,
    area: R,
    divide: F,
    placed: Seq<(PaneId, R)>,
)
    requires
        lays_out(Tree::Split { axis, children }, area, divide, placed),
        forall|j: int| 0 <= j < children.len() ==> (#[trigger] children[j]).tree is Leaf,
    ensures
        exists|v: Vec<W>, pieces: Vec<R>|
            {
                &&& v@ == children.map_values(|b: Branch<W>| b.weight)
                &&& #[trigger] call_ensures(divide, (area, axis, v), pieces)
                &&& placed.len() == (if pieces@.len() < children.len() {
                    pieces@.len()
                } else {
                    children.len()
                })
                &&& forall|i: int|
                    0 <= i < placed.len() ==> #[trigger] placed[i] == (
                        children[i].tree->Leaf_0,
                        pieces@[i],
                    )
            },
{
    let (v, pieces, parts) = choose|v: Vec<W>, pieces: Vec<R>, parts: Seq<Seq<(PaneId, R)>>|
        {
            &&& v@ == pane::weights(children)
            &&& #[trigger] call_ensures(divide, (area, axis, v), pieces)
            &&& parts.len() <= children.len()
            &&& parts.len() == crate::model::min(children.len() as int, pieces@.len() as int)
            &&& forall|i: int|
                0 <= i < parts.len() ==> lays_out(
                    children[i].tree,
                    pieces@[i],
                    divide,
                    #[trigger] parts[i],
                )
            &&& placed == #[trigger] parts.flatten()
        };
    assert(pane::weights(children) =~= children.map_values(|b: Branch<W>| b.weight));
    let wanted = Seq::new(
        parts.len(),
        |i: int| (children[i].tree->Leaf_0, pieces@[i]),
    );
    assert forall|i: int| 0 <= i < parts.len() implies #[trigger] parts[i] == seq![wanted[i]] by {
        assert(children[i].tree is Leaf);
        assert(lays_out(children[i].tree, pieces@[i], divide, parts[i]));
    }
    lemma_singles(parts, wanted, parts.len() as int);
    assert(parts.take(parts.len() as int) =~= parts);
    assert(wanted.take(parts.len() as int) =~= wanted);
    assert(placed == wanted);
    assert(call_ensures(divide, (area, axis, v), pieces));
}

proof fn lemma_singles<T>(parts: Seq<Seq<T>>, items: Seq<T>, n: int)
    requires
        0 <= n <= parts.len() == items.len(),
        forall|i: int| 0 <= i < parts.len() ==> #[trigger] parts[i] == seq![items[i]],
    ensures
        parts.take(n).flatten() == items.take(n),
    decreases n,
{
    if n == 0 {
        assert(parts.take(0).flatten() =~= Seq::<T>::empty());
        assert(items.take(0) =~= Seq::<T>::empty());
    } else {
        lemma_singles(parts, items, n - 1);
        let head = parts.take(n - 1);
        head.lemma_flatten_push(parts[n - 1]);
        assert(parts.take(n) =~= head.push(parts[n - 1]));
        assert(items.take(n) =~= items.take(n - 1) + seq![items[n - 1]]);
    }
}

/// The dividers of a row are the gutters between each piece of its area and the
/// next.
pub proof fn law_dividers_are_between_the_pieces<
    W,
    R,
    F: Fn(R, Axis, Vec<W>) -> Vec<R>,
    G: Fn(R, Axis, R, R) -> R,
>(axis: Axis, children: Seq<Branch<W>>, area: R, divide: F, gutter: G, lines: Seq<R>)
    requires
        divides(Tree::Split { axis, children }, area, divide, gutter, lines),
        forall|j: int| 0 <= j < children.len() ==> (#[trigger] children[j]).tree is Leaf,
    ensures
        exists|v: Vec<W>, pieces: Vec<R>|
            {
                &&& v@ == children.map_values(|b: Branch<W>| b.weight)
                &&& #[trigger] call_ensures(divide, (area, axis, v), pieces)
                &&& lines.len() + 1 == pieces@.len() || (lines.len() == 0 && pieces@.len() == 0)
                &&& forall|i: int|
                    0 <= i < lines.len() ==> call_ensures(
                        gutter,
                        (area, axis, pieces@[i], pieces@[i + 1]),
                        #[trigger] lines[i],
                    )
            },
{
    let (v, pieces, own, parts) = choose|
        v: Vec<W>,
        pieces: Vec<R>,
        own: Seq<R>,
        parts: Seq<Seq<R>>,
    |
        {
            &&& v@ == pane::weights(children)
            &&& #[trigger] call_ensures(divide, (area, axis, v), pieces)
            &&& own.len() == crate::model::monus(pieces@.len() as int, 1)
            &&& forall|i: int|
                0 <= i < own.len() ==> call_ensures(
                    gutter,
                    (area, axis, pieces@[i], pieces@[i + 1]),
                    #[trigger] own[i],
                )
            &&& parts.len() <= children.len()
            &&& parts.len() == crate::model::min(children.len() as int, pieces@.len() as int)
            &&& forall|i: int|
                0 <= i < parts.len() ==> divides(
                    children[i].tree,
                    pieces@[i],
                    divide,
                    gutter,
                    #[trigger] parts[i],
                )
            &&& lines == #[trigger] (own + parts.flatten())
        };
    assert(pane::weights(children) =~= children.map_values(|b: Branch<W>| b.weight));
    assert forall|i: int| 0 <= i < parts.len() implies (#[trigger] parts[i]).len() == 0 by {
        assert(children[i].tree is Leaf);
        assert(divides(children[i].tree, pieces@[i], divide, gutter, parts[i]));
    }
    lemma_nothing_in(parts, parts.len() as int);
    assert(parts.take(parts.len() as int) =~= parts);
    assert(lines =~= own);
    assert(call_ensures(divide, (area, axis, v), pieces));
}

proof fn lemma_nothing_in<T>(parts: Seq<Seq<T>>, n: int)
    requires
        0 <= n <= parts.len(),
        forall|i: int| 0 <= i < parts.len() ==> (#[trigger] parts[i]).len() == 0,
    ensures
        parts.take(n).flatten().len() == 0,
    decreases n,
{
    if n == 0 {
        assert(parts.take(0).flatten() =~= Seq::<T>::empty());
    } else {
        lemma_nothing_in(parts, n - 1);
        let head = parts.take(n - 1);
        head.lemma_flatten_push(parts[n - 1]);
        assert(parts.take(n) =~= head.push(parts[n - 1]));
        assert(parts[n - 1].len() == 0);
    }
}

} // verus!
