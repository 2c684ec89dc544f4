//! Split tree describing how panes tile the window.
//!
//! A split holds *n* children along one axis rather than two, so splitting the
//! same row repeatedly gives evenly sized panes instead of the 50/25/25 that a
//! binary tree produces. Weights are relative; layout normalises by their sum.
//! The tree carries them without looking inside: what a weight is, and what it
//! comes to in pixels, is up to whoever lays the panes out.

use vstd::prelude::*;

verus! {

pub type PaneId = u64;

#[derive(Clone, Copy, PartialEq, Eq, Debug, Structural)]
pub enum Axis {
    /// Children sit side by side; the dividers between them are vertical.
    Horizontal,
    /// Children are stacked; the dividers between them are horizontal.
    Vertical,
}

pub struct Child<W> {
    pub node: Node<W>,
    /// Share of the parent's extent, relative to its siblings.
    pub weight: W,
}

pub enum Node<W> {
    Leaf(PaneId),
    Split { axis: Axis, children: Vec<Child<W>> },
}

/// The shape of a [`Node`].
pub enum Tree<W> {
    Leaf(PaneId),
    Split { axis: Axis, children: Seq<Branch<W>> },
}

/// The shape of a [`Child`].
pub struct Branch<W> {
    pub tree: Tree<W>,
    pub weight: W,
}

impl<W> Node<W> {
    /// The shape of this node.
    pub open spec fn tree(self) -> Tree<W>
        decreases self,
    {
        match self {
            Node::Leaf(id) => Tree::Leaf(id),
            Node::Split { axis, children } => Tree::Split {
                axis,
                children: Seq::new(
                    children@.len(),
                    |i: int|
                        if 0 <= i < children@.len() {
                            Branch { tree: children@[i].node.tree(), weight: children@[i].weight }
                        } else {
                            arbitrary()
                        },
                ),
            },
        }
    }
}

/// The shapes of `children`.
pub open spec fn branches<W>(children: Seq<Child<W>>) -> Seq<Branch<W>> {
    Seq::new(
        children.len(),
        |i: int| Branch { tree: children[i].node.tree(), weight: children[i].weight },
    )
}

impl<W> Tree<W> {
    /// The panes, from left to right and from top to bottom.
    pub open spec fn leaves(self) -> Seq<PaneId>
        decreases self, 0int,
    {
        match self {
            Tree::Leaf(id) => seq![id],
            Tree::Split { axis, children } => leaves_upto(children, children.len() as int),
        }
    }
}

/// The panes of the first `n` of `children`.
pub open spec fn leaves_upto<W>(children: Seq<Branch<W>>, n: int) -> Seq<PaneId>
    decreases children, n,
{
    if 0 < n <= children.len() {
        leaves_upto(children, n - 1) + children[n - 1].tree.leaves()
    } else {
        Seq::empty()
    }
}

/// The position of the first of `children` that is the pane `target` itself,
/// looking from `from` on.
pub open spec fn leaf_position<W>(children: Seq<Branch<W>>, target: PaneId, from: int) -> Option<
    int,
>
    decreases children.len() - from,
{
    if 0 <= from < children.len() {
        if children[from].tree == Tree::<W>::Leaf(target) {
            Some(from)
        } else {
            leaf_position(children, target, from + 1)
        }
    } else {
        None
    }
}

/// `children` with the pane `new_id` put in after position `at`, and every
/// member weighted `even`.
pub open spec fn joined<W>(children: Seq<Branch<W>>, at: int, new_id: PaneId, even: W) -> Seq<
    Branch<W>,
> {
    let longer = children.insert(at + 1, Branch { tree: Tree::Leaf(new_id), weight: even });
    Seq::new(longer.len(), |i: int| Branch { tree: longer[i].tree, weight: even })
}

/// A pane in a row of its own with `new_id`.
pub open spec fn paired<W>(axis: Axis, target: PaneId, new_id: PaneId, even: W) -> Tree<W> {
    Tree::Split {
        axis,
        children: seq![
            Branch { tree: Tree::Leaf(target), weight: even },
            Branch { tree: Tree::Leaf(new_id), weight: even },
        ],
    }
}

impl<W> Tree<W> {
    /// The tree with `new_id` next to `target`, split along `axis`; `None`
    /// where `target` isn't in it.
    ///
    /// When `target` already sits in a split of the same axis the new pane
    /// joins that split as a sibling and every member is weighted evenly.
    /// Splitting across the other axis nests a new two-pane split in
    /// `target`'s place.
    pub open spec fn split(self, target: PaneId, axis: Axis, new_id: PaneId, even: W) -> Option<
        Tree<W>,
    >
        decreases self, 0int,
    {
        match self {
            Tree::Leaf(id) => if id == target {
                Some(paired(axis, target, new_id, even))
            } else {
                None
            },
            Tree::Split { axis: own, children } => {
                let at = leaf_position(children, target, 0);
                if own == axis && at is Some {
                    Some(Tree::Split { axis: own, children: joined(children, at->0, new_id, even) })
                } else {
                    match split_from(children, 0, target, axis, new_id, even) {
                        Some(next) => Some(Tree::Split { axis: own, children: next }),
                        None => None,
                    }
                }
            },
        }
    }

    /// The one child left of this row when `target` goes; `None` where
    /// `target` is not in it or more than one is left.
    pub open spec fn left_alone(self, target: PaneId) -> Option<Tree<W>> {
        match self {
            Tree::Leaf(id) => None,
            Tree::Split { axis, children } => match leaf_position(children, target, 0) {
                Some(at) => if children.len() == 2 { Some(children[1 - at].tree) } else { None },
                None => None,
            },
        }
    }

    /// The tree without `target`; `None` where there is no such pane or it is
    /// the root. Surviving siblings keep their weights.
    ///
    /// A split left with one child collapses into it. Where that child is a
    /// row along the axis of the split around it, its members join that split,
    /// which then has the weights `fresh`; a list of the wrong length leaves
    /// every member with the weight it had.
    pub open spec fn remove(self, target: PaneId, fresh: Seq<W>) -> Option<Tree<W>>
        decreases self,
    {
        match self {
            Tree::Leaf(id) => None,
            Tree::Split { axis, children } => match leaf_position(children, target, 0) {
                Some(at) => {
                    let rest = children.remove(at);
                    Some(
                        if rest.len() == 1 {
                            rest[0].tree
                        } else {
                            Tree::Split { axis, children: rest }
                        },
                    )
                },
                None => match holder_position(children, target, 0) {
                    Some(k) => if 0 <= k < children.len() {
                        match merged_at(axis, children, k, target) {
                            Some(inner) => Some(
                                Tree::Split { axis, children: spliced(children, k, inner, fresh) },
                            ),
                            None => match children[k].tree.remove(target, fresh) {
                                Some(tree) => Some(
                                    Tree::Split {
                                        axis,
                                        children: children.update(
                                            k,
                                            Branch { tree, ..children[k] },
                                        ),
                                    },
                                ),
                                None => None,
                            },
                        }
                    } else {
                        None
                    },
                    None => None,
                },
            },
        }
    }

    /// The two rows that removing `target` makes one, by their weights, and
    /// the position of the inner one in the outer one; `None` where no two do.
    pub open spec fn merging(self, target: PaneId) -> Option<(Seq<W>, int, Seq<W>)>
        decreases self,
    {
        match self {
            Tree::Leaf(id) => None,
            Tree::Split { axis, children } => if leaf_position(children, target, 0) is Some {
                None
            } else {
                match holder_position(children, target, 0) {
                    Some(k) => if 0 <= k < children.len() {
                        match merged_at(axis, children, k, target) {
                            Some(inner) => Some((weights(children), k, weights(inner))),
                            None => children[k].tree.merging(target),
                        }
                    } else {
                        None
                    },
                    None => None,
                }
            },
        }
    }

    /// Whether this is a split along `axis`.
    pub open spec fn runs_along(self, axis: Axis) -> bool {
        self matches Tree::Split { axis: own, children } && own == axis
    }

    /// Every split has at least two children, and none of them is a split
    /// along its own axis: that would be two rows where one will do.
    pub open spec fn wf(self) -> bool
        decreases self,
    {
        match self {
            Tree::Leaf(id) => true,
            Tree::Split { axis, children } => {
                &&& children.len() >= 2
                &&& forall|i: int|
                    0 <= i < children.len() ==> (#[trigger] children[i]).tree.wf()
                        && !children[i].tree.runs_along(axis)
            },
        }
    }
}

/// The members of the row that child `k` of a split along `axis` is left with
/// when `target` goes, where they run along that axis too.
pub open spec fn merged_at<W>(
    axis: Axis,
    children: Seq<Branch<W>>,
    k: int,
    target: PaneId,
) -> Option<Seq<Branch<W>>> {
    match children[k].tree.left_alone(target) {
        Some(Tree::Split { axis: own, children: inner }) => if own == axis {
            Some(inner)
        } else {
            None
        },
        _ => None,
    }
}

/// `children` with the members `inner` in the place of child `k`.
pub open spec fn opened<W>(children: Seq<Branch<W>>, k: int, inner: Seq<Branch<W>>) -> Seq<
    Branch<W>,
> {
    children.take(k) + inner + children.skip(k + 1)
}

/// `children` with the members `inner` in the place of child `k`, and the
/// weights `fresh` if there is one for each.
pub open spec fn spliced<W>(
    children: Seq<Branch<W>>,
    k: int,
    inner: Seq<Branch<W>>,
    fresh: Seq<W>,
) -> Seq<Branch<W>> {
    let row = opened(children, k, inner);
    if fresh.len() == row.len() { reweighted(row, fresh) } else { row }
}

/// What removing `target` does, going by what `merge` answers where two rows
/// become one.
pub open spec fn removed<W, G: Fn(Vec<W>, usize, Vec<W>) -> Vec<W>>(
    before: Tree<W>,
    target: PaneId,
    merge: G,
    after: Tree<W>,
    done: bool,
) -> bool {
    match before.remove(target, Seq::empty()) {
        None => !done && after == before,
        Some(plain) => done && match before.merging(target) {
            None => after == plain,
            Some((outer, at, inner)) => exists|v: Vec<W>, u: Vec<W>, fresh: Vec<W>|
                {
                    &&& v@ == outer
                    &&& u@ == inner
                    &&& #[trigger] call_ensures(merge, (v, at as usize, u), fresh)
                    &&& before.remove(target, fresh@) == Some(after)
                },
        },
    }
}

/// The first of `children`, from `k` on, in which `target` can be split.
pub open spec fn split_from<W>(
    children: Seq<Branch<W>>,
    k: int,
    target: PaneId,
    axis: Axis,
    new_id: PaneId,
    even: W,
) -> Option<Seq<Branch<W>>>
    decreases children, children.len() - k,
{
    if 0 <= k < children.len() {
        match children[k].tree.split(target, axis, new_id, even) {
            Some(tree) => Some(children.update(k, Branch { tree, ..children[k] })),
            None => split_from(children, k + 1, target, axis, new_id, even),
        }
    } else {
        None
    }
}

/// The position of the first child that is the pane `target` itself.
fn find_leaf<W>(children: &Vec<Child<W>>, target: PaneId) -> (at: Option<usize>)
    ensures
        match leaf_position(branches(children@), target, 0) {
            Some(i) => at == Some(i as usize) && 0 <= i < children.len(),
            None => at is None,
        },
{
    let ghost shapes = branches(children@);
    let mut i: usize = 0;
    while i < children.len()
        invariant
            i <= children@.len(),
            shapes == branches(children@),
            leaf_position(shapes, target, 0) == leaf_position(shapes, target, i as int),
        decreases children.len() - i,
    {
        if let Node::Leaf(id) = &children[i].node {
            if *id == target {
                return Some(i);
            }
        }
        i = i + 1;
    }
    None
}

/// The shape of a split is made of the shapes of its children.
pub proof fn lemma_split_tree<W>(node: Node<W>)
    ensures
        node matches Node::Split { axis, children } ==> node.tree() == (Tree::Split {
            axis,
            children: branches(children@),
        }),
{
    if let Node::Split { axis, children } = node {
        assert(node.tree()->children =~= branches(children@));
    }
}

impl<W: Copy> Node<W> {
    /// Adds `new_id` next to `target`, splitting along `axis`.
    ///
    /// When `target` already sits in a split of the same axis the new pane
    /// joins that split as a sibling and every member is re-weighted evenly,
    /// so N panes in a row are always 1/N each. Splitting across the other axis
    /// nests a new two-pane split in `target`'s place.
    ///
    /// Returns false if `target` isn't in the tree.
    pub fn split(&mut self, target: PaneId, axis: Axis, new_id: PaneId, even: W) -> (done: bool)
        ensures
            match old(self).tree().split(target, axis, new_id, even) {
                Some(tree) => done && final(self).tree() == tree,
                None => !done && final(self).tree() == old(self).tree(),
            },
        decreases *old(self), 0int,
    {
        proof {
            lemma_split_tree(*self);
        }
        match self {
            Node::Leaf(id) => {
                if *id != target {
                    return false;
                }
                let mut children: Vec<Child<W>> = Vec::new();
                children.push(Child { node: Node::Leaf(target), weight: even });
                children.push(Child { node: Node::Leaf(new_id), weight: even });
                *self = Node::Split { axis, children };
                proof {
                    lemma_split_tree(*self);
                    assert(branches(children@) =~= paired(axis, target, new_id, even)->children);
                }
                true
            },
            Node::Split { axis: own, children } => {
                if *own == axis {
                    if let Some(i) = find_leaf(children, target) {
                        join(children, i, new_id, even);
                        proof {
                            lemma_split_tree(*self);
                        }
                        return true;
                    }
                }
                let done = split_child(children, target, axis, new_id, even);
                proof {
                    lemma_split_tree(*self);
                }
                done
            },
        }
    }
}

/// Splits `target` in the first of `children` that can.
fn split_child<W: Copy>(
    children: &mut Vec<Child<W>>,
    target: PaneId,
    axis: Axis,
    new_id: PaneId,
    even: W,
) -> (done: bool)
    ensures
        match split_from(branches(old(children)@), 0, target, axis, new_id, even) {
            Some(next) => done && branches(final(children)@) == next,
            None => !done && branches(final(children)@) == branches(old(children)@),
        },
    decreases *old(children), 1int,
{
    let ghost before = branches(children@);
    let mut k: usize = 0;
    while k < children.len()
        invariant
            k <= children@.len(),
            children@.len() == old(children)@.len(),
            before == branches(children@),
            before == branches(old(children)@),
            forall|j: int| k <= j < children@.len() ==> children@[j] == old(children)@[j],
            split_from(before, 0, target, axis, new_id, even) == split_from(
                before,
                k as int,
                target,
                axis,
                new_id,
                even,
            ),
        decreases children.len() - k,
    {
        let ghost shapes = children@;
        let done = children[k].node.split(target, axis, new_id, even);
        if done {
            proof {
                let tree = shapes[k as int].node.tree().split(target, axis, new_id, even)->0;
                assert(branches(children@) =~= before.update(
                    k as int,
                    Branch { tree, ..before[k as int] },
                ));
            }
            return true;
        }
        assert(branches(children@) =~= before);
        k = k + 1;
    }
    false
}

/// Puts the pane `new_id` in after position `at` and weights every member
/// evenly.
fn join<W: Copy>(children: &mut Vec<Child<W>>, at: usize, new_id: PaneId, even: W)
    requires
        at < old(children).len(),
    ensures
        branches(final(children)@) == joined(
            branches(old(children)@),
            at as int,
            new_id,
            even,
        ),
{
    children.insert(at + 1, Child { node: Node::Leaf(new_id), weight: even });
    let ghost longer = children@;
    let mut i: usize = 0;
    while i < children.len()
        invariant
            i <= children@.len(),
            children@.len() == longer.len(),
            forall|j: int| 0 <= j < longer.len() ==> (#[trigger] children@[j]).node
                == longer[j].node,
            forall|j: int| 0 <= j < i ==> (#[trigger] children@[j]).weight == even,
        decreases children.len() - i,
    {
        children[i].weight = even;
        i = i + 1;
    }
    assert(branches(children@) =~= joined(branches(old(children)@), at as int, new_id, even));
}

impl<W> Node<W> {
    pub fn leaf(id: PaneId) -> (node: Self)
        ensures
            node.tree() == Tree::<W>::Leaf(id),
    {
        Node::Leaf(id)
    }

    pub fn leaves(&self, out: &mut Vec<PaneId>)
        ensures
            final(out)@ == old(out)@ + self.tree().leaves(),
        decreases self,
    {
        match self {
            Node::Leaf(id) => {
                let ghost before = out@;
                out.push(*id);
                assert(out@ =~= before + seq![*id]);
            },
            Node::Split { axis, children } => {
                let ghost before = out@;
                let ghost shapes = branches(children@);
                assert(self.tree()->children =~= shapes);
                let mut i: usize = 0;
                assert(out@ =~= before + leaves_upto(shapes, 0));
                while i < children.len()
                    invariant
                        i <= children@.len(),
                        shapes == branches(children@),
                        out@ == before + leaves_upto(shapes, i as int),
                        decreases_to!(self => children),
                    decreases children.len() - i,
                {
                    children[i].node.leaves(out);
                    i = i + 1;
                    assert(out@ =~= before + leaves_upto(shapes, i as int));
                }
            },
        }
    }
}

impl<W> Node<W> {
    /// Whether the pane `target` is in the tree.
    pub fn holds(&self, target: PaneId) -> (yes: bool)
        ensures
            yes == self.tree().leaves().contains(target),
        decreases self,
    {
        proof {
            lemma_split_tree(*self);
        }
        match self {
            Node::Leaf(id) => {
                assert(seq![*id][0] == *id);
                *id == target
            },
            Node::Split { axis, children } => {
                let ghost shapes = branches(children@);
                let mut i: usize = 0;
                while i < children.len()
                    invariant
                        i <= children@.len(),
                        shapes == branches(children@),
                        self.tree().leaves() == leaves_upto(shapes, shapes.len() as int),
                        !leaves_upto(shapes, i as int).contains(target),
                        decreases_to!(self => children),
                    decreases children.len() - i,
                {
                    let here = children[i].node.holds(target);
                    proof {
                        lemma_contains_concat(
                            leaves_upto(shapes, i as int),
                            shapes[i as int].tree.leaves(),
                            target,
                        );
                        if here {
                            lemma_leaves_grow(shapes, i + 1, shapes.len() as int, target);
                        }
                    }
                    if here {
                        return true;
                    }
                    i = i + 1;
                }
                false
            },
        }
    }

    /// Whether this is a row of `target` and one other child.
    fn leaves_alone(&self, target: PaneId) -> (yes: bool)
        ensures
            yes == (self.tree().left_alone(target) is Some),
    {
        proof {
            lemma_split_tree(*self);
        }
        match self {
            Node::Leaf(_) => false,
            Node::Split { axis: _, children } => children.len() == 2 && find_leaf(
                children,
                target,
            ).is_some(),
        }
    }
}

impl<W: Copy> Node<W> {
    /// Removes `target`. Surviving siblings keep their relative sizes and share
    /// out the freed space; a split left with one child collapses into it.
    /// Returns false if `target` is the root leaf.
    ///
    /// A split whose axis is that of the one around it would be a row within a
    /// row, so a row that is left of a collapsed split moves up: its members
    /// take their place among the outer row's, and `merge` is handed the
    /// weights of the outer row, the position at which they come in, and their
    /// own weights, and answers with the weights of the row that both become.
    pub fn remove<G: Fn(Vec<W>, usize, Vec<W>) -> Vec<W>>(
        &mut self,
        target: PaneId,
        merge: &G,
    ) -> (done: bool)
        requires
            forall|v: Vec<W>, k: usize, u: Vec<W>| call_requires(merge, (v, k, u)),
        ensures
            removed(old(self).tree(), target, *merge, final(self).tree(), done),
        decreases *old(self),
    {
        proof {
            lemma_split_tree(*self);
        }
        match self {
            Node::Leaf(_) => false,
            Node::Split { axis, children } => {
                let ghost before = branches(children@);
                if let Some(i) = find_leaf(children, target) {
                    children.remove(i);
                    assert(branches(children@) =~= before.remove(i as int));
                    if children.len() == 1 {
                        let only = children.pop();
                        if let Some(child) = only {
                            *self = child.node;
                        }
                    }
                    proof {
                        lemma_split_tree(*self);
                    }
                    return true;
                }
                let k: usize = match find_holder(children, target) {
                    Some(k) => k,
                    None => return false,
                };
                let alone = children[k].node.leaves_alone(target);
                let ghost row = *axis;
                let done = children[k].node.remove(target, merge);
                let ghost inside = branches(children@);
                assert(inside =~= before.update(
                    k as int,
                    Branch { tree: inside[k as int].tree, ..before[k as int] },
                ));
                if done && alone {
                    splice(*axis, children, k, merge);
                }
                proof {
                    lemma_removed_inside(
                        row,
                        before,
                        k as int,
                        target,
                        *merge,
                        inside,
                        branches(children@),
                        done,
                    );
                    lemma_split_tree(*self);
                }
                done
            },
        }
    }
}

/// The weights of `children`.
fn weights_of<W: Copy>(children: &Vec<Child<W>>) -> (out: Vec<W>)
    ensures
        out@ == weights(branches(children@)),
{
    let ghost all = weights(branches(children@));
    let mut out: Vec<W> = Vec::new();
    let mut n: usize = 0;
    while n < children.len()
        invariant
            n <= children@.len(),
            all == weights(branches(children@)),
            out@ =~= all.take(n as int),
        decreases children.len() - n,
    {
        out.push(children[n].weight);
        n = n + 1;
    }
    assert(out@ =~= all);
    out
}

/// Gives `children` the weights `fresh`, if there is one for each.
fn reweight<W: Copy>(children: &mut Vec<Child<W>>, fresh: &Vec<W>)
    ensures
        branches(final(children)@) == (if fresh@.len() == old(children)@.len() {
            reweighted(branches(old(children)@), fresh@)
        } else {
            branches(old(children)@)
        }),
{
    if fresh.len() != children.len() {
        return;
    }
    let ghost before = branches(children@);
    let mut m: usize = 0;
    while m < children.len()
        invariant
            m <= children@.len(),
            children@.len() == before.len(),
            fresh@.len() == before.len(),
            forall|k: int|
                0 <= k < before.len() ==> (#[trigger] children@[k]).node.tree() == before[k].tree,
            forall|k: int| 0 <= k < m ==> (#[trigger] children@[k]).weight == fresh@[k],
        decreases children.len() - m,
    {
        children[m].weight = fresh[m];
        m = m + 1;
    }
    assert(branches(children@) =~= reweighted(before, fresh@));
}

/// Whether `after` is `before` with the members of child `k` in its place, if
/// that is a row along `axis`, and `before` itself if not.
spec fn taken_in<W, G: Fn(Vec<W>, usize, Vec<W>) -> Vec<W>>(
    axis: Axis,
    before: Seq<Branch<W>>,
    k: int,
    merge: G,
    after: Seq<Branch<W>>,
) -> bool {
    match before[k].tree {
        Tree::Split { axis: own, children: inner } => if own == axis {
            exists|v: Vec<W>, u: Vec<W>, fresh: Vec<W>|
                {
                    &&& v@ == weights(before)
                    &&& u@ == weights(inner)
                    &&& #[trigger] call_ensures(merge, (v, k as usize, u), fresh)
                    &&& after == spliced(before, k, inner, fresh@)
                }
        } else {
            after == before
        },
        Tree::Leaf(id) => after == before,
    }
}

/// What happens to the child that holds `target` happens to the tree.
proof fn lemma_removed_inside<W, G: Fn(Vec<W>, usize, Vec<W>) -> Vec<W>>(
    axis: Axis,
    before: Seq<Branch<W>>,
    k: int,
    target: PaneId,
    merge: G,
    inside: Seq<Branch<W>>,
    after: Seq<Branch<W>>,
    done: bool,
)
    requires
        leaf_position(before, target, 0) is None,
        holder_position(before, target, 0) == Some(k),
        0 <= k < before.len(),
        inside == before.update(k, Branch { tree: inside[k].tree, ..before[k] }),
        removed(before[k].tree, target, merge, inside[k].tree, done),
        if done && before[k].tree.left_alone(target) is Some {
            taken_in(axis, inside, k, merge, after)
        } else {
            after == inside
        },
    ensures
        removed(
            Tree::Split { axis, children: before },
            target,
            merge,
            Tree::Split { axis, children: after },
            done,
        ),
{
    let none = Seq::<W>::empty();
    let child = before[k].tree;
    let tree = Tree::Split { axis, children: before };
    let next = Tree::Split { axis, children: after };
    lemma_left_alone(child, target, none);
    if !done {
        assert(inside =~= before);
    } else if child.left_alone(target) is Some {
        if let Some(inner) = merged_at(axis, before, k, target) {
            assert(weights(inside) =~= weights(before));
            assert(opened(inside, k, inner) =~= opened(before, k, inner));
            let (v, u, fresh) = choose|v: Vec<W>, u: Vec<W>, fresh: Vec<W>|
                {
                    &&& v@ == weights(inside)
                    &&& u@ == weights(inner)
                    &&& #[trigger] call_ensures(merge, (v, k as usize, u), fresh)
                    &&& after == spliced(inside, k, inner, fresh@)
                };
            let (outer, at, joining) = tree.merging(target)->0;
            assert(v@ == outer);
            assert(u@ == joining);
            assert(call_ensures(merge, (v, at as usize, u), fresh));
            assert(tree.remove(target, fresh@) == Some(next));
        }
    } else if let Some((outer, at, inner)) = child.merging(target) {
        let (v, u, fresh) = choose|v: Vec<W>, u: Vec<W>, fresh: Vec<W>|
            {
                &&& v@ == outer
                &&& u@ == inner
                &&& #[trigger] call_ensures(merge, (v, at as usize, u), fresh)
                &&& child.remove(target, fresh@) == Some(inside[k].tree)
            };
        assert(call_ensures(merge, (v, at as usize, u), fresh));
        assert(tree.remove(target, fresh@) == Some(next));
    }
}

/// Puts the members of child `k`, if it is a row along `axis`, in its place.
fn splice<W: Copy, G: Fn(Vec<W>, usize, Vec<W>) -> Vec<W>>(
    axis: Axis,
    children: &mut Vec<Child<W>>,
    k: usize,
    merge: &G,
)
    requires
        forall|v: Vec<W>, k: usize, u: Vec<W>| call_requires(merge, (v, k, u)),
        k < old(children)@.len(),
    ensures
        taken_in(
            axis,
            branches(old(children)@),
            k as int,
            *merge,
            branches(final(children)@),
        ),
{
    let ghost before = branches(children@);
    let outer = weights_of(children);
    let Child { node, weight } = children.remove(k);
    proof {
        lemma_split_tree(node);
    }
    match node {
        Node::Split { axis: own, children: mut inner } => {
            if own != axis {
                let same = Node::Split { axis: own, children: inner };
                children.insert(k, Child { node: same, weight });
                assert(branches(children@) =~= before);
                return;
            }
            let ghost members = branches(inner@);
            let own_weights = weights_of(&inner);
            let fresh = merge(outer, k, own_weights);
            let ghost head = before.take(k as int);
            let ghost tail = before.skip(k + 1);
            assert(branches(children@) =~= head + tail);
            while inner.len() > 0
                invariant
                    k <= children@.len(),
                    head.len() == k,
                    inner@.len() <= members.len(),
                    branches(inner@) =~= members.take(inner@.len() as int),
                    branches(children@) =~= head + members.skip(inner@.len() as int) + tail,
                decreases inner@.len(),
            {
                let ghost n = inner@.len() as int;
                let ghost rest = inner@;
                let ghost row = children@;
                if let Some(last) = inner.pop() {
                    assert(branches(rest)[n - 1] == members[n - 1]);
                    children.insert(k, last);
                    assert(branches(inner@) =~= members.take(n - 1));
                    assert(branches(children@) =~= branches(row).insert(k as int, members[n - 1]));
                    assert(branches(children@) =~= head + members.skip(n - 1) + tail);
                }
            }
            assert(branches(children@) =~= opened(before, k as int, members));
            reweight(children, &fresh);
            assert(call_ensures(*merge, (outer, k as int as usize, own_weights), fresh));
        },
        Node::Leaf(id) => {
            children.insert(k, Child { node: Node::Leaf(id), weight });
            assert(branches(children@) =~= before);
        },
    }
}

proof fn lemma_contains_concat(a: Seq<PaneId>, b: Seq<PaneId>, id: PaneId)
    ensures
        (a + b).contains(id) == (a.contains(id) || b.contains(id)),
{
    if a.contains(id) {
        let i = choose|i: int| 0 <= i < a.len() && a[i] == id;
        assert((a + b)[i] == id);
    }
    if b.contains(id) {
        let i = choose|i: int| 0 <= i < b.len() && b[i] == id;
        assert((a + b)[a.len() + i] == id);
    }
}

/// More children hold no fewer panes.
proof fn lemma_leaves_grow<W>(children: Seq<Branch<W>>, m: int, n: int, id: PaneId)
    requires
        0 <= m <= n <= children.len(),
        leaves_upto(children, m).contains(id),
    ensures
        leaves_upto(children, n).contains(id),
    decreases n - m,
{
    if m < n {
        lemma_leaves_grow(children, m, n - 1, id);
        lemma_contains_concat(leaves_upto(children, n - 1), children[n - 1].tree.leaves(), id);
    }
}

/// Changing one child changes the panes of that child and no others.
proof fn lemma_leaves_update<W>(children: Seq<Branch<W>>, k: int, child: Branch<W>, n: int)
    requires
        0 <= k < children.len(),
        0 <= n <= children.len(),
    ensures
        n <= k ==> leaves_upto(children.update(k, child), n) == leaves_upto(children, n),
        n > k ==> exists|tail: Seq<PaneId>| #[trigger]
            (leaves_upto(children, k) + children[k].tree.leaves() + tail) == leaves_upto(
                children,
                n,
            ) && leaves_upto(children.update(k, child), n) == leaves_upto(children, k)
                + child.tree.leaves() + tail,
    decreases n,
{
    let next = children.update(k, child);
    if n > 0 {
        lemma_leaves_update(children, k, child, n - 1);
        if n - 1 == k {
            let tail = Seq::<PaneId>::empty();
            assert(leaves_upto(children, k) + children[k].tree.leaves() + tail =~= leaves_upto(
                children,
                n,
            ));
            assert(leaves_upto(next, n) =~= leaves_upto(children, k) + child.tree.leaves() + tail);
        } else if n - 1 > k {
            let before = choose|tail: Seq<PaneId>| #[trigger]
                (leaves_upto(children, k) + children[k].tree.leaves() + tail) == leaves_upto(
                    children,
                    n - 1,
                ) && leaves_upto(next, n - 1) == leaves_upto(children, k) + child.tree.leaves()
                    + tail;
            let tail = before + children[n - 1].tree.leaves();
            assert(leaves_upto(children, k) + children[k].tree.leaves() + tail =~= leaves_upto(
                children,
                n,
            ));
            assert(leaves_upto(next, n) =~= leaves_upto(children, k) + child.tree.leaves() + tail);
        }
    }
}

/// Whether `after` is `before` with `new_id` put in right after an occurrence
/// of `target`.
pub open spec fn placed_after(
    before: Seq<PaneId>,
    after: Seq<PaneId>,
    target: PaneId,
    new_id: PaneId,
) -> bool {
    exists|i: int|
        0 <= i < before.len() && #[trigger] before[i] == target && after == before.insert(
            i + 1,
            new_id,
        )
}

/// Whether `after` is `before` without one occurrence of `target`.
pub open spec fn taken_out(before: Seq<PaneId>, after: Seq<PaneId>, target: PaneId) -> bool {
    exists|i: int|
        0 <= i < before.len() && #[trigger] before[i] == target && after == before.remove(i)
}

/// A change to the middle of a sequence is a change to the sequence.
proof fn lemma_placed_inside(
    head: Seq<PaneId>,
    before: Seq<PaneId>,
    after: Seq<PaneId>,
    tail: Seq<PaneId>,
    target: PaneId,
    new_id: PaneId,
)
    requires
        placed_after(before, after, target, new_id),
    ensures
        placed_after(head + before + tail, head + after + tail, target, new_id),
{
    let i = choose|i: int|
        0 <= i < before.len() && #[trigger] before[i] == target && after == before.insert(
            i + 1,
            new_id,
        );
    let whole = head + before + tail;
    assert(whole[head.len() + i] == target);
    assert(head + after + tail =~= whole.insert(head.len() + i + 1, new_id));
}

proof fn lemma_taken_inside(
    head: Seq<PaneId>,
    before: Seq<PaneId>,
    after: Seq<PaneId>,
    tail: Seq<PaneId>,
    target: PaneId,
)
    requires
        taken_out(before, after, target),
    ensures
        taken_out(head + before + tail, head + after + tail, target),
{
    let i = choose|i: int|
        0 <= i < before.len() && #[trigger] before[i] == target && after == before.remove(i);
    let whole = head + before + tail;
    assert(whole[head.len() + i] == target);
    assert(head + after + tail =~= whole.remove(head.len() + i));
}

/// Where the first leaf `target` is, if there is one.
proof fn lemma_leaf_position<W>(children: Seq<Branch<W>>, target: PaneId, from: int)
    requires
        0 <= from,
    ensures
        match leaf_position(children, target, from) {
            Some(at) => from <= at < children.len() && children[at].tree == Tree::<W>::Leaf(target),
            None => forall|i: int|
                from <= i < children.len() ==> (#[trigger] children[i]).tree != Tree::<W>::Leaf(
                    target,
                ),
        },
    decreases children.len() - from,
{
    if from < children.len() && children[from].tree != Tree::<W>::Leaf(target) {
        lemma_leaf_position(children, target, from + 1);
    }
}

/// The panes of the first `n` members of a row that `new_id` has joined.
proof fn lemma_leaves_joined<W>(
    children: Seq<Branch<W>>,
    at: int,
    target: PaneId,
    new_id: PaneId,
    even: W,
    n: int,
)
    requires
        0 <= at < children.len(),
        children[at].tree == Tree::<W>::Leaf(target),
        0 <= n <= children.len(),
    ensures
        n <= at ==> leaves_upto(joined(children, at, new_id, even), n) == leaves_upto(children, n),
        n > at ==> placed_after(
            leaves_upto(children, n),
            leaves_upto(joined(children, at, new_id, even), n + 1),
            target,
            new_id,
        ),
    decreases n,
{
    let next = joined(children, at, new_id, even);
    if n > 0 {
        lemma_leaves_joined(children, at, target, new_id, even, n - 1);
        if n - 1 < at {
            assert(next[n - 1].tree == children[n - 1].tree);
        } else if n - 1 == at {
            let head = leaves_upto(children, at);
            assert(next[at].tree == children[at].tree);
            assert(next[at + 1].tree == Tree::<W>::Leaf(new_id));
            reveal_with_fuel(leaves_upto, 3);
            let before = leaves_upto(children, n);
            assert(before =~= head.push(target));
            assert(leaves_upto(next, n + 1) =~= head.push(target).push(new_id));
            assert(before[head.len() as int] == target);
            assert(leaves_upto(next, n + 1) =~= before.insert(head.len() as int + 1, new_id));
        } else {
            assert(next[n].tree == children[n - 1].tree);
            let none = Seq::<PaneId>::empty();
            let last = children[n - 1].tree.leaves();
            lemma_placed_inside(
                none,
                leaves_upto(children, n - 1),
                leaves_upto(next, n),
                last,
                target,
                new_id,
            );
            assert(none + leaves_upto(children, n - 1) + last =~= leaves_upto(children, n));
            assert(none + leaves_upto(next, n) + last =~= leaves_upto(next, n + 1));
        }
    }
}

/// A split succeeds exactly where its target is in the tree, and puts the new
/// pane right after it in reading order: no other pane moves.
pub proof fn law_split_places_the_new_pane_after_its_source<W>(
    tree: Tree<W>,
    target: PaneId,
    axis: Axis,
    new_id: PaneId,
    even: W,
)
    ensures
        match tree.split(target, axis, new_id, even) {
            Some(next) => placed_after(tree.leaves(), next.leaves(), target, new_id),
            None => !tree.leaves().contains(target),
        },
    decreases tree, 1int,
{
    match tree {
        Tree::Leaf(id) => {
            if id == target {
                reveal_with_fuel(leaves_upto, 3);
                let next = paired(axis, target, new_id, even);
                let pair = next->children;
                assert(tree.leaves()[0] == target);
                assert(pair[0].tree.leaves() == seq![target]);
                assert(pair[1].tree.leaves() == seq![new_id]);
                assert(leaves_upto(pair, 1) =~= seq![target]);
                assert(leaves_upto(pair, 2) =~= seq![target, new_id]);
                assert(next.leaves() =~= tree.leaves().insert(1, new_id));
            }
        },
        Tree::Split { axis: own, children } => {
            lemma_leaf_position(children, target, 0);
            let at = leaf_position(children, target, 0);
            if own == axis && at is Some {
                lemma_leaves_joined(
                    children,
                    at->0,
                    target,
                    new_id,
                    even,
                    children.len() as int,
                );
            } else {
                lemma_split_from(children, 0, target, axis, new_id, even);
            }
        },
    }
}

proof fn lemma_split_from<W>(
    children: Seq<Branch<W>>,
    k: int,
    target: PaneId,
    axis: Axis,
    new_id: PaneId,
    even: W,
)
    requires
        0 <= k <= children.len(),
        !leaves_upto(children, k).contains(target),
    ensures
        match split_from(children, k, target, axis, new_id, even) {
            Some(next) => next.len() == children.len() && placed_after(
                leaves_upto(children, children.len() as int),
                leaves_upto(next, next.len() as int),
                target,
                new_id,
            ),
            None => !leaves_upto(children, children.len() as int).contains(target),
        },
    decreases children, children.len() - k,
{
    if k < children.len() {
        law_split_places_the_new_pane_after_its_source(
            children[k].tree,
            target,
            axis,
            new_id,
            even,
        );
        match children[k].tree.split(target, axis, new_id, even) {
            Some(tree) => {
                let child = Branch { tree, ..children[k] };
                let n = children.len() as int;
                lemma_leaves_update(children, k, child, n);
                let head = leaves_upto(children, k);
                let tail = choose|tail: Seq<PaneId>| #[trigger]
                    (head + children[k].tree.leaves() + tail) == leaves_upto(children, n)
                        && leaves_upto(children.update(k, child), n) == head + child.tree.leaves()
                        + tail;
                lemma_placed_inside(
                    head,
                    children[k].tree.leaves(),
                    tree.leaves(),
                    tail,
                    target,
                    new_id,
                );
            },
            None => {
                lemma_contains_concat(
                    leaves_upto(children, k),
                    children[k].tree.leaves(),
                    target,
                );
                lemma_split_from(children, k + 1, target, axis, new_id, even);
            },
        }
    }
}

/// Removing a pane succeeds wherever it is in the tree and not the root, and
/// takes it out of the reading order: no other pane moves or goes.
pub proof fn law_remove_takes_out_one_pane<W>(tree: Tree<W>, target: PaneId, fresh: Seq<W>)
    ensures
        match tree.remove(target, fresh) {
            Some(next) => taken_out(tree.leaves(), next.leaves(), target),
            None => tree is Leaf || !tree.leaves().contains(target),
        },
    decreases tree,
{
    if let Tree::Split { axis, children } = tree {
        lemma_leaf_position(children, target, 0);
        lemma_holder_position(children, target, 0);
        let n = children.len() as int;
        match leaf_position(children, target, 0) {
            Some(at) => {
                let rest = children.remove(at);
                lemma_leaves_removed(children, at, target, n);
                if rest.len() == 1 {
                    reveal_with_fuel(leaves_upto, 2);
                    assert(leaves_upto(rest, 1) =~= rest[0].tree.leaves());
                }
            },
            None => match holder_position(children, target, 0) {
                Some(k) => {
                    law_remove_takes_out_one_pane(children[k].tree, target, fresh);
                    if let Tree::Leaf(id) = children[k].tree {
                        assert(children[k].tree.leaves() == seq![id]);
                        assert(false);
                    }
                    lemma_left_alone(children[k].tree, target, fresh);
                    let tree = children[k].tree.remove(target, fresh)->0;
                    let child = Branch { tree, ..children[k] };
                    lemma_leaves_around(children, k);
                    lemma_leaves_around(children.update(k, child), k);
                    assert(children.update(k, child).take(k) =~= children.take(k));
                    assert(children.update(k, child).skip(k + 1) =~= children.skip(k + 1));
                    let head = leaves_upto(children.take(k), k);
                    let tail = leaves_upto(children.skip(k + 1), n - k - 1);
                    lemma_taken_inside(
                        head,
                        children[k].tree.leaves(),
                        tree.leaves(),
                        tail,
                        target,
                    );
                    if let Some(inner) = merged_at(axis, children, k, target) {
                        lemma_leaves_opened(children, k, inner);
                        let row = opened(children, k, inner);
                        let next = spliced(children, k, inner, fresh);
                        lemma_same_leaves(row, next, row.len() as int);
                    }
                },
                None => lemma_none_hold(children, target, n),
            },
        }
    }
}

/// A row of two that loses one is left with the other.
proof fn lemma_left_alone<W>(tree: Tree<W>, target: PaneId, fresh: Seq<W>)
    ensures
        tree.left_alone(target) matches Some(other) ==> tree.remove(target, fresh) == Some(other),
{
    if let Tree::Split { axis, children } = tree {
        lemma_leaf_position(children, target, 0);
        if let Some(at) = leaf_position(children, target, 0) {
            if children.len() == 2 {
                assert(children.remove(at)[0] == children[1 - at]);
            }
        }
    }
}

/// Where the first child that holds `target` is, if there is one.
proof fn lemma_holder_position<W>(children: Seq<Branch<W>>, target: PaneId, from: int)
    requires
        0 <= from,
    ensures
        match holder_position(children, target, from) {
            Some(at) => from <= at < children.len() && children[at].tree.leaves().contains(target)
                && forall|i: int|
                from <= i < at ==> !(#[trigger] children[i]).tree.leaves().contains(target),
            None => forall|i: int|
                from <= i < children.len() ==> !(#[trigger] children[i]).tree.leaves().contains(
                    target,
                ),
        },
    decreases children.len() - from,
{
    if from < children.len() && !children[from].tree.leaves().contains(target) {
        lemma_holder_position(children, target, from + 1);
    }
}

/// Children that do not hold a pane one by one do not hold it together.
proof fn lemma_none_hold<W>(children: Seq<Branch<W>>, target: PaneId, n: int)
    requires
        0 <= n <= children.len(),
        forall|i: int|
            0 <= i < n ==> !(#[trigger] children[i]).tree.leaves().contains(target),
    ensures
        !leaves_upto(children, n).contains(target),
    decreases n,
{
    if n > 0 {
        lemma_none_hold(children, target, n - 1);
        lemma_contains_concat(
            leaves_upto(children, n - 1),
            children[n - 1].tree.leaves(),
            target,
        );
    }
}

/// The panes of a row are those of its first part and those of the rest.
proof fn lemma_leaves_concat<W>(a: Seq<Branch<W>>, b: Seq<Branch<W>>, n: int)
    requires
        0 <= n <= a.len() + b.len(),
    ensures
        n <= a.len() ==> leaves_upto(a + b, n) == leaves_upto(a, n),
        n >= a.len() ==> leaves_upto(a + b, n) == leaves_upto(a, a.len() as int) + leaves_upto(
            b,
            n - a.len(),
        ),
    decreases n,
{
    if n > 0 {
        lemma_leaves_concat(a, b, n - 1);
        if n <= a.len() {
            assert((a + b)[n - 1] == a[n - 1]);
        } else {
            assert((a + b)[n - 1] == b[n - 1 - a.len()]);
        }
    }
    assert(leaves_upto(a, a.len() as int) + leaves_upto(b, 0) =~= leaves_upto(a, a.len() as int));
    if n > a.len() {
        assert(leaves_upto(a + b, n) =~= leaves_upto(a, a.len() as int) + leaves_upto(
            b,
            n - a.len(),
        ));
    }
}

/// The panes of a row are those before child `k`, its own, and those after.
proof fn lemma_leaves_around<W>(children: Seq<Branch<W>>, k: int)
    requires
        0 <= k < children.len(),
    ensures
        leaves_upto(children, children.len() as int) == leaves_upto(children.take(k), k)
            + children[k].tree.leaves() + leaves_upto(
            children.skip(k + 1),
            children.len() - k - 1,
        ),
{
    let n = children.len() as int;
    let tail = children.skip(k + 1);
    assert(children =~= children.take(k + 1) + tail);
    lemma_leaves_concat(children.take(k + 1), tail, n);
    assert(children.take(k + 1) =~= children.take(k) + seq![children[k]]);
    lemma_leaves_concat(children.take(k), seq![children[k]], k + 1);
    reveal_with_fuel(leaves_upto, 2);
    assert(leaves_upto(seq![children[k]], 1) =~= children[k].tree.leaves());
}

/// Opening a row up moves no pane.
proof fn lemma_leaves_opened<W>(children: Seq<Branch<W>>, k: int, inner: Seq<Branch<W>>)
    requires
        0 <= k < children.len(),
    ensures
        leaves_upto(opened(children, k, inner), opened(children, k, inner).len() as int)
            == leaves_upto(children.take(k), k) + leaves_upto(inner, inner.len() as int)
            + leaves_upto(children.skip(k + 1), children.len() - k - 1),
{
    let head = children.take(k);
    let tail = children.skip(k + 1);
    lemma_leaves_concat(head + inner, tail, k + inner.len() + tail.len());
    lemma_leaves_concat(head, inner, k + inner.len());
}

/// The panes of the first members of a row that has lost the one at `at`.
proof fn lemma_leaves_removed<W>(children: Seq<Branch<W>>, at: int, target: PaneId, n: int)
    requires
        0 <= at < children.len(),
        children[at].tree == Tree::<W>::Leaf(target),
        0 <= n <= children.len(),
    ensures
        n <= at ==> leaves_upto(children.remove(at), n) == leaves_upto(children, n),
        n > at ==> taken_out(
            leaves_upto(children, n),
            leaves_upto(children.remove(at), n - 1),
            target,
        ),
    decreases n,
{
    let rest = children.remove(at);
    if n > 0 {
        lemma_leaves_removed(children, at, target, n - 1);
        if n - 1 < at {
            assert(rest[n - 1] == children[n - 1]);
        } else if n - 1 == at {
            let head = leaves_upto(children, at);
            let before = leaves_upto(children, n);
            assert(children[at].tree.leaves() == seq![target]);
            assert(before =~= head.push(target));
            assert(before[head.len() as int] == target);
            assert(leaves_upto(rest, at) =~= before.remove(head.len() as int));
        } else {
            assert(rest[n - 2] == children[n - 1]);
            let none = Seq::<PaneId>::empty();
            let last = children[n - 1].tree.leaves();
            lemma_taken_inside(
                none,
                leaves_upto(children, n - 1),
                leaves_upto(rest, n - 2),
                last,
                target,
            );
            assert(none + leaves_upto(children, n - 1) + last =~= leaves_upto(children, n));
            assert(none + leaves_upto(rest, n - 2) + last =~= leaves_upto(rest, n - 1));
        }
    }
}

/// Closing the pane that a split opened brings the panes back as they were.
pub proof fn law_remove_undoes_split<W>(
    tree: Tree<W>,
    target: PaneId,
    axis: Axis,
    new_id: PaneId,
    even: W,
    fresh: Seq<W>,
)
    requires
        !tree.leaves().contains(new_id),
    ensures
        tree.split(target, axis, new_id, even) matches Some(split) ==> split.remove(
            new_id,
            fresh,
        ) matches Some(back) && back.leaves() == tree.leaves(),
{
    if let Some(split) = tree.split(target, axis, new_id, even) {
        law_split_places_the_new_pane_after_its_source(tree, target, axis, new_id, even);
        law_remove_takes_out_one_pane(split, new_id, fresh);
        let before = tree.leaves();
        let i = choose|i: int|
            0 <= i < before.len() && #[trigger] before[i] == target && split.leaves()
                == before.insert(i + 1, new_id);
        let during = split.leaves();
        assert(during[i + 1] == new_id);
        assert(during.contains(new_id));
        let back = split.remove(new_id, fresh)->0;
        let j = choose|j: int|
            0 <= j < during.len() && #[trigger] during[j] == new_id && back.leaves()
                == during.remove(j);
        assert(j == i + 1) by {
            if j <= i {
                assert(during[j] == before[j]);
                assert(before.contains(new_id));
            } else if j > i + 1 {
                assert(during[j] == before[j - 1]);
                assert(before.contains(new_id));
            }
        }
        assert(during.remove(j) =~= before);
    }
}

/// Splitting keeps every split at two children or more, and no row within a
/// row.
pub proof fn law_split_keeps_the_tree_well_formed<W>(
    tree: Tree<W>,
    target: PaneId,
    axis: Axis,
    new_id: PaneId,
    even: W,
)
    requires
        tree.wf(),
    ensures
        tree.split(target, axis, new_id, even) matches Some(next) ==> next.wf(),
    decreases tree, 1int,
{
    match tree {
        Tree::Leaf(id) => {
            let next = paired(axis, target, new_id, even);
            let pair = next->children;
            assert(pair[0].tree.wf());
            assert(pair[1].tree.wf());
        },
        Tree::Split { axis: own, children } => {
            let at = leaf_position(children, target, 0);
            lemma_leaf_position(children, target, 0);
            if own == axis && at is Some {
                let next = joined(children, at->0, new_id, even);
                assert forall|i: int| 0 <= i < next.len() implies (#[trigger] next[i]).tree.wf()
                    && !next[i].tree.runs_along(own) by {
                    if i <= at->0 {
                        assert(next[i].tree == children[i].tree);
                    } else if i > at->0 + 1 {
                        assert(next[i].tree == children[i - 1].tree);
                    } else {
                        assert(next[i].tree == Tree::<W>::Leaf(new_id));
                    }
                }
            } else {
                lemma_split_from_wf(own, children, 0, target, axis, new_id, even);
            }
        },
    }
}

proof fn lemma_split_from_wf<W>(
    own: Axis,
    children: Seq<Branch<W>>,
    k: int,
    target: PaneId,
    axis: Axis,
    new_id: PaneId,
    even: W,
)
    requires
        0 <= k <= children.len(),
        forall|i: int|
            0 <= i < children.len() ==> (#[trigger] children[i]).tree.wf()
                && !children[i].tree.runs_along(own),
        own == axis ==> forall|i: int|
            0 <= i < children.len() ==> (#[trigger] children[i]).tree != Tree::<W>::Leaf(target),
    ensures
        split_from(children, k, target, axis, new_id, even) matches Some(next) ==> {
            &&& next.len() == children.len()
            &&& forall|i: int|
                0 <= i < next.len() ==> (#[trigger] next[i]).tree.wf()
                    && !next[i].tree.runs_along(own)
        },
    decreases children, children.len() - k,
{
    if k < children.len() {
        law_split_keeps_the_tree_well_formed(children[k].tree, target, axis, new_id, even);
        lemma_split_from_wf(own, children, k + 1, target, axis, new_id, even);
        if let Some(tree) = children[k].tree.split(target, axis, new_id, even) {
            assert(!tree.runs_along(own)) by {
                if let Tree::Leaf(id) = children[k].tree {
                    assert(id == target);
                }
            }
        }
    }
}

/// Removing keeps every split at two children or more, and no row within a
/// row.
pub proof fn law_remove_keeps_the_tree_well_formed<W>(
    tree: Tree<W>,
    target: PaneId,
    fresh: Seq<W>,
)
    requires
        tree.wf(),
    ensures
        tree.remove(target, fresh) matches Some(next) ==> next.wf(),
    decreases tree,
{
    if let Tree::Split { axis, children } = tree {
        lemma_leaf_position(children, target, 0);
        lemma_holder_position(children, target, 0);
        match leaf_position(children, target, 0) {
            Some(at) => {
                let rest = children.remove(at);
                assert forall|i: int| 0 <= i < rest.len() implies (#[trigger] rest[i]).tree.wf()
                    && !rest[i].tree.runs_along(axis) by {
                    if i < at {
                        assert(rest[i] == children[i]);
                    } else {
                        assert(rest[i] == children[i + 1]);
                    }
                }
            },
            None => if let Some(k) = holder_position(children, target, 0) {
                law_remove_keeps_the_tree_well_formed(children[k].tree, target, fresh);
                lemma_left_alone(children[k].tree, target, fresh);
                match merged_at(axis, children, k, target) {
                    Some(inner) => lemma_spliced_wf(axis, children, k, inner, fresh),
                    None => if let Some(next) = children[k].tree.remove(target, fresh) {
                        lemma_kept_axis(children[k].tree, target, fresh);
                        let child = Branch { tree: next, ..children[k] };
                        let after = children.update(k, child);
                        assert forall|i: int| 0 <= i < after.len() implies (
                        #[trigger] after[i]).tree.wf() && !after[i].tree.runs_along(axis) by {
                            if i != k {
                                assert(after[i] == children[i]);
                            }
                        }
                    },
                }
            },
        }
    }
}

/// A split that loses a pane stays a split along its axis, or is left with one
/// child.
proof fn lemma_kept_axis<W>(tree: Tree<W>, target: PaneId, fresh: Seq<W>)
    requires
        tree.wf(),
    ensures
        tree.remove(target, fresh) matches Some(next) ==> tree.left_alone(target) == Some(next)
            || (tree matches Tree::Split { axis, children } && next.runs_along(axis)),
{
    lemma_left_alone(tree, target, fresh);
    if let Tree::Split { axis, children } = tree {
        lemma_leaf_position(children, target, 0);
    }
}

proof fn lemma_spliced_wf<W>(
    axis: Axis,
    children: Seq<Branch<W>>,
    k: int,
    inner: Seq<Branch<W>>,
    fresh: Seq<W>,
)
    requires
        0 <= k < children.len(),
        (Tree::Split { axis, children }).wf(),
        (Tree::Split { axis, children: inner }).wf(),
    ensures
        (Tree::Split { axis, children: spliced(children, k, inner, fresh) }).wf(),
{
    let row = opened(children, k, inner);
    let next = spliced(children, k, inner, fresh);
    assert forall|i: int| 0 <= i < next.len() implies (#[trigger] next[i]).tree.wf()
        && !next[i].tree.runs_along(axis) by {
        assert(next[i].tree == row[i].tree);
        if i < k {
            assert(row[i] == children[i]);
        } else if i < k + inner.len() {
            assert(row[i] == inner[i - k]);
        } else {
            assert(row[i] == children[i - inner.len() + 1]);
        }
    }
}

impl<W> Tree<W> {
    /// The row along `axis` that has the pane `target` itself for a member, in
    /// the first part of the tree that holds the pane.
    pub open spec fn row_with(self, target: PaneId, axis: Axis) -> Option<Seq<Branch<W>>>
        decreases self,
    {
        match self {
            Tree::Leaf(id) => None,
            Tree::Split { axis: own, children } => if own == axis && leaf_position(
                children,
                target,
                0,
            ) is Some {
                Some(children)
            } else {
                match holder_position(children, target, 0) {
                    Some(k) => if 0 <= k < children.len() {
                        children[k].tree.row_with(target, axis)
                    } else {
                        None
                    },
                    None => None,
                }
            },
        }
    }
}

/// Whether every member of a row has the weight `even`.
pub open spec fn all_even<W>(row: Seq<Branch<W>>, even: W) -> bool {
    forall|i: int| 0 <= i < row.len() ==> (#[trigger] row[i]).weight == even
}

/// Splitting makes an even row, wherever in the tree it is: a pane that sits
/// in a row of that axis makes it one longer and every member of it the same
/// size, and any other pane shares its place evenly with the new one.
pub proof fn law_a_split_row_is_even<W>(
    tree: Tree<W>,
    target: PaneId,
    axis: Axis,
    new_id: PaneId,
    even: W,
)
    requires
        tree.leaves().contains(target),
        !tree.leaves().contains(new_id),
    ensures
        tree.split(target, axis, new_id, even) matches Some(next) && next.row_with(
            new_id,
            axis,
        ) matches Some(row) && all_even(row, even) && row.len() == match tree.row_with(
            target,
            axis,
        ) {
            Some(before) => before.len() + 1,
            None => 2,
        },
    decreases tree,
{
    match tree {
        Tree::Leaf(id) => {
            assert(tree.leaves() == seq![id]);
            let pair = paired(axis, target, new_id, even)->children;
            assert(tree.leaves()[0] == target);
            assert(pair[1].tree == Tree::<W>::Leaf(new_id));
            lemma_leaf_position(pair, new_id, 0);
        },
        Tree::Split { axis: own, children } => {
            let at = leaf_position(children, target, 0);
            lemma_leaf_position(children, target, 0);
            if own == axis && at is Some {
                let next = joined(children, at->0, new_id, even);
                assert(next[at->0 + 1].tree == Tree::<W>::Leaf(new_id));
                lemma_leaf_position(next, new_id, 0);
            } else {
                lemma_holder_position(children, target, 0);
                let n = children.len() as int;
                if holder_position(children, target, 0) is None {
                    lemma_none_hold(children, target, n);
                }
                let k = holder_position(children, target, 0)->0;
                lemma_absent(children, new_id, n);
                law_a_split_row_is_even(children[k].tree, target, axis, new_id, even);
                lemma_split_at_holder(children, 0, target, axis, new_id, even);
                let tree = children[k].tree.split(target, axis, new_id, even)->0;
                let next = children.update(k, Branch { tree, ..children[k] });
                lemma_row_holds(tree, new_id, axis);
                lemma_leaf_position(next, new_id, 0);
                lemma_holder_position(next, new_id, 0);
                assert forall|i: int| 0 <= i < n implies (#[trigger] next[i]).tree != Tree::<
                    W,
                >::Leaf(new_id) by {
                    if i != k {
                        assert(next[i] == children[i]);
                        if next[i].tree == Tree::<W>::Leaf(new_id) {
                            assert(children[i].tree.leaves()[0] == new_id);
                        }
                    }
                }
                let found = holder_position(next, new_id, 0);
                if found is None {
                    assert(!next[k].tree.leaves().contains(new_id));
                } else if found->0 != k {
                    assert(next[found->0] == children[found->0]);
                }
            }
        },
    }
}

/// Panes that are in none of the children together are in none of them.
proof fn lemma_absent<W>(children: Seq<Branch<W>>, id: PaneId, n: int)
    requires
        0 <= n <= children.len(),
        !leaves_upto(children, n).contains(id),
    ensures
        forall|i: int| 0 <= i < n ==> !(#[trigger] children[i]).tree.leaves().contains(id),
    decreases n,
{
    if n > 0 {
        lemma_contains_concat(leaves_upto(children, n - 1), children[n - 1].tree.leaves(), id);
        lemma_absent(children, id, n - 1);
    }
}

/// A split happens in the first child that holds its target.
proof fn lemma_split_at_holder<W>(
    children: Seq<Branch<W>>,
    from: int,
    target: PaneId,
    axis: Axis,
    new_id: PaneId,
    even: W,
)
    requires
        0 <= from,
        holder_position(children, target, from) is Some,
    ensures
        ({
            let k = holder_position(children, target, from)->0;
            children[k].tree.split(target, axis, new_id, even) matches Some(tree) && split_from(
                children,
                from,
                target,
                axis,
                new_id,
                even,
            ) == Some(children.update(k, Branch { tree, ..children[k] }))
        }),
    decreases children.len() - from,
{
    law_split_places_the_new_pane_after_its_source(
        children[from].tree,
        target,
        axis,
        new_id,
        even,
    );
    if !children[from].tree.leaves().contains(target) {
        if let Some(tree) = children[from].tree.split(target, axis, new_id, even) {
            let before = children[from].tree.leaves();
            let i = choose|i: int|
                0 <= i < before.len() && #[trigger] before[i] == target && tree.leaves()
                    == before.insert(i + 1, new_id);
            assert(before[i] == target);
        }
        lemma_split_at_holder(children, from + 1, target, axis, new_id, even);
    }
}

/// The row that has a pane for a member is in a tree that holds the pane.
proof fn lemma_row_holds<W>(tree: Tree<W>, target: PaneId, axis: Axis)
    requires
        tree.row_with(target, axis) is Some,
    ensures
        tree is Split,
        tree.leaves().contains(target),
    decreases tree,
{
    if let Tree::Split { axis: own, children } = tree {
        lemma_leaf_position(children, target, 0);
        lemma_holder_position(children, target, 0);
        let n = children.len() as int;
        let k = if own == axis && leaf_position(children, target, 0) is Some {
            leaf_position(children, target, 0)->0
        } else {
            holder_position(children, target, 0)->0
        };
        if children[k].tree == Tree::<W>::Leaf(target) {
            assert(children[k].tree.leaves()[0] == target);
        }
        lemma_contains_concat(leaves_upto(children, k), children[k].tree.leaves(), target);
        lemma_leaves_grow(children, k + 1, n, target);
    }
}

/// What `merge` would answer matters only where two rows become one.
pub proof fn law_weights_are_asked_for_only_to_merge<W>(
    tree: Tree<W>,
    target: PaneId,
    a: Seq<W>,
    b: Seq<W>,
)
    requires
        tree.merging(target) is None,
    ensures
        tree.remove(target, a) == tree.remove(target, b),
    decreases tree,
{
    if let Tree::Split { axis, children } = tree {
        lemma_holder_position(children, target, 0);
        if let Some(k) = holder_position(children, target, 0) {
            if leaf_position(children, target, 0) is None && merged_at(axis, children, k, target)
                is None {
                law_weights_are_asked_for_only_to_merge(children[k].tree, target, a, b);
            }
        }
    }
}

/// The position of the first of `children`, from `from` on, that holds
/// `target`.
pub open spec fn holder_position<W>(children: Seq<Branch<W>>, target: PaneId, from: int) -> Option<
    int,
>
    decreases children.len() - from,
{
    if 0 <= from < children.len() {
        if children[from].tree.leaves().contains(target) {
            Some(from)
        } else {
            holder_position(children, target, from + 1)
        }
    } else {
        None
    }
}

/// The neighbour that the child at `i` of `n` grows into: the next one, or the
/// previous one when it is last.
pub open spec fn neighbour(i: int, n: int) -> int {
    if i + 1 < n { i + 1 } else { i - 1 }
}

/// The weights of `children`.
pub open spec fn weights<W>(children: Seq<Branch<W>>) -> Seq<W> {
    Seq::new(children.len(), |i: int| children[i].weight)
}

/// `children` with new weights.
pub open spec fn reweighted<W>(children: Seq<Branch<W>>, fresh: Seq<W>) -> Seq<Branch<W>> {
    Seq::new(children.len(), |i: int| Branch { tree: children[i].tree, weight: fresh[i] })
}

/// What moving the boundary next to `target` does to one row, going by what
/// `rebalance` answers for its weights: `None`, or a list of the wrong length,
/// leaves the row as it is.
pub open spec fn row_rebalanced<W, F: Fn(Vec<W>, usize, usize) -> Option<Vec<W>>>(
    before: Seq<Branch<W>>,
    target: PaneId,
    rebalance: F,
    after: Seq<Branch<W>>,
    done: bool,
) -> bool {
    match holder_position(before, target, 0) {
        Some(i) => exists|v: Vec<W>, answer: Option<Vec<W>>|
            {
                &&& v@ == weights(before)
                &&& #[trigger] call_ensures(
                    rebalance,
                    (v, i as usize, neighbour(i, before.len() as int) as usize),
                    answer,
                )
                &&& match answer {
                    Some(fresh) if fresh@.len() == before.len() => done && after == reweighted(
                        before,
                        fresh@,
                    ),
                    _ => !done && after == before,
                }
            },
        None => !done && after == before,
    }
}

impl<W> Tree<W> {
    /// What a resize does: the innermost row along `axis` that holds `target`
    /// is rebalanced, or the next one out where that one is left as it is.
    pub open spec fn resized<F: Fn(Vec<W>, usize, usize) -> Option<Vec<W>>>(
        self,
        target: PaneId,
        axis: Axis,
        rebalance: F,
        after: Tree<W>,
        done: bool,
    ) -> bool
        decreases self,
    {
        match self {
            Tree::Leaf(id) => !done && after == self,
            Tree::Split { axis: own, children } => {
                ||| exists|k: int|
                    0 <= k < children.len() && done && #[trigger] child_resized(
                        children,
                        k,
                        after,
                        own,
                    ) && (forall|j: int|
                        0 <= j < k ==> (#[trigger] children[j]).tree.resized(
                            target,
                            axis,
                            rebalance,
                            children[j].tree,
                            false,
                        )) && children[k].tree.resized(
                        target,
                        axis,
                        rebalance,
                        after->children[k].tree,
                        true,
                    )
                ||| (forall|j: int|
                    0 <= j < children.len() ==> (#[trigger] children[j]).tree.resized(
                        target,
                        axis,
                        rebalance,
                        children[j].tree,
                        false,
                    )) && if own == axis && children.len() >= 2 {
                    after matches Tree::Split { axis: then, children: next } && then == own
                        && row_rebalanced(children, target, rebalance, next, done)
                } else {
                    !done && after == self
                }
            },
        }
    }
}

/// Whether `after` is the row `children` with nothing but the tree of child
/// `k` changed.
pub open spec fn child_resized<W>(
    children: Seq<Branch<W>>,
    k: int,
    after: Tree<W>,
    axis: Axis,
) -> bool {
    after matches Tree::Split { axis: own, children: next } && own == axis && next
        == children.update(k, Branch { tree: next[k].tree, weight: children[k].weight })
}

/// The position of the first child that holds `target`.
fn find_holder<W>(children: &Vec<Child<W>>, target: PaneId) -> (at: Option<usize>)
    ensures
        match holder_position(branches(children@), target, 0) {
            Some(i) => at == Some(i as usize) && 0 <= i < children.len(),
            None => at is None,
        },
{
    let ghost shapes = branches(children@);
    let mut i: usize = 0;
    while i < children.len()
        invariant
            i <= children@.len(),
            shapes == branches(children@),
            holder_position(shapes, target, 0) == holder_position(shapes, target, i as int),
        decreases children.len() - i,
    {
        if children[i].node.holds(target) {
            return Some(i);
        }
        i = i + 1;
    }
    None
}

/// Rebalances the row that `children` are, around the child that holds
/// `target`.
fn rebalance_row<W: Copy, F: Fn(Vec<W>, usize, usize) -> Option<Vec<W>>>(
    children: &mut Vec<Child<W>>,
    target: PaneId,
    rebalance: &F,
) -> (done: bool)
    requires
        forall|v: Vec<W>, i: usize, j: usize| call_requires(rebalance, (v, i, j)),
        old(children)@.len() >= 2,
    ensures
        row_rebalanced(
            branches(old(children)@),
            target,
            *rebalance,
            branches(final(children)@),
            done,
        ),
{
    let ghost before = branches(children@);
    let i: usize = match find_holder(children, target) {
        Some(i) => i,
        None => return false,
    };
    // Grow into the next pane, or the previous one when we're last.
    let j: usize = if i < children.len() - 1 { i + 1 } else { i - 1 };
    let current = weights_of(children);
    let answer = rebalance(current, i, j);
    match answer {
        Some(fresh) => {
            if fresh.len() != children.len() {
                assert(call_ensures(
                    *rebalance,
                    (current, i, neighbour(i as int, before.len() as int) as usize),
                    Some(fresh),
                ));
                return false;
            }
            reweight(children, &fresh);
            assert(call_ensures(
                *rebalance,
                (current, i, neighbour(i as int, before.len() as int) as usize),
                Some(fresh),
            ));
            true
        },
        None => {
            assert(call_ensures(
                *rebalance,
                (current, i, neighbour(i as int, before.len() as int) as usize),
                None::<Vec<W>>,
            ));
            false
        },
    }
}

impl<W: Copy> Node<W> {
    /// Nudges the boundary next to `target` within the innermost split of
    /// `axis` that contains it.
    ///
    /// `rebalance` is handed the weights of that split, the position of the
    /// child that holds `target`, and that of the adjacent child it trades
    /// with, and answers with the new weights, or `None` to leave them alone.
    pub fn resize<F: Fn(Vec<W>, usize, usize) -> Option<Vec<W>>>(
        &mut self,
        target: PaneId,
        axis: Axis,
        rebalance: &F,
    ) -> (done: bool)
        requires
            forall|v: Vec<W>, i: usize, j: usize| call_requires(rebalance, (v, i, j)),
        ensures
            old(self).tree().resized(target, axis, *rebalance, final(self).tree(), done),
        decreases *old(self), 0int,
    {
        proof {
            lemma_split_tree(*self);
        }
        match self {
            Node::Leaf(_) => false,
            Node::Split { axis: own, children } => {
                let ghost before = branches(children@);
                let ghost row = *own;
                // Let a descendant claim it first, so the innermost split wins.
                if resize_child(children, target, axis, rebalance) {
                    proof {
                        let after = branches(children@);
                        let k = choose|k: int|
                            0 <= k < before.len() && (#[trigger] before[k]).tree.resized(
                                target,
                                axis,
                                *rebalance,
                                after[k].tree,
                                true,
                            ) && after == before.update(
                                k,
                                Branch { tree: after[k].tree, weight: before[k].weight },
                            ) && forall|j: int|
                                0 <= j < k ==> (#[trigger] before[j]).tree.resized(
                                    target,
                                    axis,
                                    *rebalance,
                                    before[j].tree,
                                    false,
                                );
                        lemma_split_tree(*self);
                        assert(child_resized(before, k, self.tree(), row));
                    }
                    return true;
                }
                if *own != axis || children.len() < 2 {
                    proof {
                        lemma_split_tree(*self);
                    }
                    return false;
                }
                let done = rebalance_row(children, target, rebalance);
                proof {
                    lemma_split_tree(*self);
                }
                done
            },
        }
    }
}

/// Lets the children claim a resize, first to last.
fn resize_child<W: Copy, F: Fn(Vec<W>, usize, usize) -> Option<Vec<W>>>(
    children: &mut Vec<Child<W>>,
    target: PaneId,
    axis: Axis,
    rebalance: &F,
) -> (done: bool)
    requires
        forall|v: Vec<W>, i: usize, j: usize| call_requires(rebalance, (v, i, j)),
    ensures
        ({
            let before = branches(old(children)@);
            let after = branches(final(children)@);
            if done {
                exists|k: int|
                    0 <= k < before.len() && (#[trigger] before[k]).tree.resized(
                        target,
                        axis,
                        *rebalance,
                        after[k].tree,
                        true,
                    ) && after == before.update(
                        k,
                        Branch { tree: after[k].tree, weight: before[k].weight },
                    ) && forall|j: int|
                        0 <= j < k ==> (#[trigger] before[j]).tree.resized(
                            target,
                            axis,
                            *rebalance,
                            before[j].tree,
                            false,
                        )
            } else {
                after == before && forall|j: int|
                    0 <= j < before.len() ==> (#[trigger] before[j]).tree.resized(
                        target,
                        axis,
                        *rebalance,
                        before[j].tree,
                        false,
                    )
            }
        }),
    decreases *old(children), 1int,
{
    let ghost before = branches(children@);
    let mut k: usize = 0;
    while k < children.len()
        invariant
            k <= children@.len(),
            forall|v: Vec<W>, i: usize, j: usize| call_requires(rebalance, (v, i, j)),
            children@.len() == old(children)@.len(),
            before == branches(children@),
            before == branches(old(children)@),
            forall|j: int| k <= j < children@.len() ==> children@[j] == old(children)@[j],
            forall|j: int|
                0 <= j < k ==> (#[trigger] before[j]).tree.resized(
                    target,
                    axis,
                    *rebalance,
                    before[j].tree,
                    false,
                ),
        decreases children.len() - k,
    {
        let ghost shapes = children@;
        let done = children[k].node.resize(target, axis, rebalance);
        if done {
            proof {
                let after = branches(children@);
                assert(after =~= before.update(
                    k as int,
                    Branch { tree: after[k as int].tree, weight: before[k as int].weight },
                ));
            }
            return true;
        }
        proof {
            lemma_unresized(
                before[k as int].tree,
                target,
                axis,
                *rebalance,
                children@[k as int].node.tree(),
            );
        }
        assert(branches(children@) =~= before);
        k = k + 1;
    }
    false
}

/// A resize that did nothing changed nothing.
proof fn lemma_unresized<W, F: Fn(Vec<W>, usize, usize) -> Option<Vec<W>>>(
    tree: Tree<W>,
    target: PaneId,
    axis: Axis,
    rebalance: F,
    after: Tree<W>,
)
    requires
        tree.resized(target, axis, rebalance, after, false),
    ensures
        after == tree,
{
}

/// A resize moves boundaries and nothing else: every pane stays, in its place.
pub proof fn law_resize_moves_no_pane<W, F: Fn(Vec<W>, usize, usize) -> Option<Vec<W>>>(
    tree: Tree<W>,
    target: PaneId,
    axis: Axis,
    rebalance: F,
    after: Tree<W>,
    done: bool,
)
    requires
        tree.resized(target, axis, rebalance, after, done),
    ensures
        after.leaves() == tree.leaves(),
    decreases tree,
{
    if let Tree::Split { axis: own, children } = tree {
        if done {
            if let Tree::Split { axis: then, children: next } = after {
                if exists|k: int|
                    0 <= k < children.len() && #[trigger] child_resized(children, k, after, own)
                        && children[k].tree.resized(target, axis, rebalance, next[k].tree, true) {
                    let k = choose|k: int|
                        0 <= k < children.len() && #[trigger] child_resized(
                            children,
                            k,
                            after,
                            own,
                        ) && children[k].tree.resized(
                            target,
                            axis,
                            rebalance,
                            next[k].tree,
                            true,
                        );
                    law_resize_moves_no_pane(
                        children[k].tree,
                        target,
                        axis,
                        rebalance,
                        next[k].tree,
                        true,
                    );
                    assert forall|j: int| 0 <= j < children.len() implies (
                    #[trigger] next[j]).tree.leaves() == children[j].tree.leaves() by {}
                }
                assert(next.len() == children.len());
                lemma_same_leaves(children, next, children.len() as int);
            }
        }
    }
}

/// A resize keeps the axis of a split.
proof fn lemma_resized_axis<W, F: Fn(Vec<W>, usize, usize) -> Option<Vec<W>>>(
    tree: Tree<W>,
    target: PaneId,
    axis: Axis,
    rebalance: F,
    after: Tree<W>,
    done: bool,
    other: Axis,
)
    requires
        tree.resized(target, axis, rebalance, after, done),
    ensures
        after.runs_along(other) == tree.runs_along(other),
{
}

/// A resize keeps every split at two children or more, and no row within a
/// row.
pub proof fn law_resize_keeps_the_tree_well_formed<
    W,
    F: Fn(Vec<W>, usize, usize) -> Option<Vec<W>>,
>(tree: Tree<W>, target: PaneId, axis: Axis, rebalance: F, after: Tree<W>, done: bool)
    requires
        tree.wf(),
        tree.resized(target, axis, rebalance, after, done),
    ensures
        after.wf(),
    decreases tree,
{
    if let Tree::Split { axis: own, children } = tree {
        if done {
            lemma_resized_axis(tree, target, axis, rebalance, after, done, own);
            let next = after->children;
            if exists|k: int|
                0 <= k < children.len() && #[trigger] child_resized(children, k, after, own)
                    && children[k].tree.resized(target, axis, rebalance, next[k].tree, true) {
                let k = choose|k: int|
                    0 <= k < children.len() && #[trigger] child_resized(children, k, after, own)
                        && children[k].tree.resized(target, axis, rebalance, next[k].tree, true);
                let inside = next[k].tree;
                law_resize_keeps_the_tree_well_formed(
                    children[k].tree,
                    target,
                    axis,
                    rebalance,
                    inside,
                    true,
                );
                lemma_resized_axis(children[k].tree, target, axis, rebalance, inside, true, own);
                assert forall|j: int| 0 <= j < next.len() implies (#[trigger] next[j]).tree.wf()
                    && !next[j].tree.runs_along(own) by {
                    if j != k {
                        assert(next[j] == children[j]);
                    }
                }
            } else {
                assert forall|j: int| 0 <= j < next.len() implies (#[trigger] next[j]).tree.wf()
                    && !next[j].tree.runs_along(own) by {
                    assert(next[j].tree == children[j].tree);
                }
            }
        }
    }
}

proof fn lemma_same_leaves<W>(a: Seq<Branch<W>>, b: Seq<Branch<W>>, n: int)
    requires
        0 <= n <= a.len() == b.len(),
        forall|j: int| 0 <= j < a.len() ==> (#[trigger] b[j]).tree.leaves() == a[j].tree.leaves(),
    ensures
        leaves_upto(a, n) == leaves_upto(b, n),
    decreases n,
{
    if n > 0 {
        lemma_same_leaves(a, b, n - 1);
        assert(b[n - 1].tree.leaves() == a[n - 1].tree.leaves());
    }
}

/// The panes of a row are those of its first member, then those of the next, and
/// so on.
pub proof fn law_panes_are_in_reading_order<W>(axis: Axis, children: Seq<Branch<W>>, last: Branch<W>)
    ensures
        (Tree::Split { axis, children: children.push(last) }).leaves() == (Tree::Split {
            axis,
            children,
        }).leaves() + last.tree.leaves(),
        (Tree::<W>::Split { axis, children: Seq::empty() }).leaves().len() == 0,
{
    let n = children.len() as int;
    lemma_leaves_prefix(children, last, n);
    assert(children.push(last)[n] == last);
}

proof fn lemma_leaves_prefix<W>(children: Seq<Branch<W>>, last: Branch<W>, n: int)
    requires
        0 <= n <= children.len(),
    ensures
        leaves_upto(children.push(last), n) == leaves_upto(children, n),
    decreases n,
{
    if n > 0 {
        lemma_leaves_prefix(children, last, n - 1);
    }
}

/// Splitting a pane that stands alone gives it and the new one a row of two along
/// the axis, the old one first, of equal weight.
pub proof fn law_splitting_a_lone_pane<W>(target: PaneId, axis: Axis, new_id: PaneId, even: W)
    ensures
        ({
            let next = Tree::<W>::Leaf(target).split(target, axis, new_id, even);
            &&& next matches Some(Tree::Split { axis: own, children })
            &&& own == axis
            &&& children.len() == 2
            &&& children[0].tree == Tree::<W>::Leaf(target) && children[0].weight == even
            &&& children[1].tree == Tree::<W>::Leaf(new_id) && children[1].weight == even
        }),
{
}

/// Splitting a member of a row along that row's axis puts the new pane right
/// after it: the members are the same otherwise, and all of equal weight.
pub proof fn law_splitting_a_member_of_a_row<W>(
    axis: Axis,
    children: Seq<Branch<W>>,
    at: int,
    target: PaneId,
    new_id: PaneId,
    even: W,
    i: int,
)
    requires
        0 <= at < children.len(),
        children[at].tree == Tree::<W>::Leaf(target),
        forall|j: int| 0 <= j < at ==> (#[trigger] children[j]).tree != Tree::<W>::Leaf(target),
        0 <= i <= children.len(),
    ensures
        ({
            let next = (Tree::Split { axis, children }).split(target, axis, new_id, even);
            &&& next matches Some(Tree::Split { axis: own, children: row })
            &&& own == axis
            &&& row.len() == children.len() + 1
            &&& row[i].weight == even
            &&& i <= at ==> row[i].tree == children[i].tree
            &&& i == at + 1 ==> row[i].tree == Tree::<W>::Leaf(new_id)
            &&& i > at + 1 ==> row[i].tree == children[i - 1].tree
        }),
{
    lemma_leaf_is(children, target, at, 0);
}

proof fn lemma_leaf_is<W>(children: Seq<Branch<W>>, target: PaneId, at: int, from: int)
    requires
        0 <= from <= at < children.len(),
        children[at].tree == Tree::<W>::Leaf(target),
        forall|j: int| 0 <= j < at ==> (#[trigger] children[j]).tree != Tree::<W>::Leaf(target),
    ensures
        leaf_position(children, target, from) == Some(at),
    decreases at - from,
{
    if from < at {
        lemma_leaf_is(children, target, at, from + 1);
    }
}

/// Splitting anywhere else in a row changes the one member that holds the pane,
/// as splitting there does; the row, its other members and all weights stay.
pub proof fn law_splitting_inside_a_member<W>(
    own: Axis,
    children: Seq<Branch<W>>,
    k: int,
    target: PaneId,
    axis: Axis,
    new_id: PaneId,
    even: W,
)
    requires
        0 <= k < children.len(),
        own != axis || forall|j: int|
            0 <= j < children.len() ==> (#[trigger] children[j]).tree != Tree::<W>::Leaf(target),
        children[k].tree.leaves().contains(target),
        forall|j: int|
            0 <= j < k ==> !(#[trigger] children[j]).tree.leaves().contains(target),
    ensures
        ({
            let next = (Tree::Split { axis: own, children }).split(target, axis, new_id, even);
            let inside = children[k].tree.split(target, axis, new_id, even);
            &&& inside is Some
            &&& next == Some(
                Tree::Split {
                    axis: own,
                    children: children.update(
                        k,
                        Branch { tree: inside->0, weight: children[k].weight },
                    ),
                },
            )
        }),
{
    lemma_leaf_position(children, target, 0);
    law_split_places_the_new_pane_after_its_source(children[k].tree, target, axis, new_id, even);
    lemma_split_at(children, 0, k, target, axis, new_id, even);
}

proof fn lemma_split_at<W>(
    children: Seq<Branch<W>>,
    from: int,
    k: int,
    target: PaneId,
    axis: Axis,
    new_id: PaneId,
    even: W,
)
    requires
        0 <= from <= k < children.len(),
        children[k].tree.split(target, axis, new_id, even) is Some,
        forall|j: int|
            0 <= j < k ==> !(#[trigger] children[j]).tree.leaves().contains(target),
    ensures
        split_from(children, from, target, axis, new_id, even) == Some(
            children.update(
                k,
                Branch {
                    tree: children[k].tree.split(target, axis, new_id, even)->0,
                    ..children[k]
                },
            ),
        ),
    decreases k - from,
{
    if from < k {
        law_split_places_the_new_pane_after_its_source(
            children[from].tree,
            target,
            axis,
            new_id,
            even,
        );
        if let Some(next) = children[from].tree.split(target, axis, new_id, even) {
            let before = children[from].tree.leaves();
            let i = choose|i: int|
                0 <= i < before.len() && #[trigger] before[i] == target && next.leaves()
                    == before.insert(i + 1, new_id);
            assert(before.contains(target));
            assert(false);
        }
        lemma_split_at(children, from + 1, k, target, axis, new_id, even);
    }
}

/// Closing a member of a row of three or more leaves the others as they were, in
/// their order and with their weights; of a row of two the other one is left, in
/// the row's place.
pub proof fn law_closing_a_member_of_a_row<W>(
    axis: Axis,
    children: Seq<Branch<W>>,
    at: int,
    target: PaneId,
    fresh: Seq<W>,
)
    requires
        0 <= at < children.len(),
        children[at].tree == Tree::<W>::Leaf(target),
        forall|j: int| 0 <= j < at ==> (#[trigger] children[j]).tree != Tree::<W>::Leaf(target),
    ensures
        ({
            let next = (Tree::Split { axis, children }).remove(target, fresh);
            &&& children.len() == 2 ==> next == Some(children[1 - at].tree)
            &&& children.len() > 2 ==> {
                &&& next matches Some(Tree::Split { axis: own, children: row })
                &&& own == axis
                &&& row == children.take(at) + children.skip(at + 1)
            }
        }),
{
    lemma_leaf_is(children, target, at, 0);
    let rest = children.remove(at);
    assert(rest =~= children.take(at) + children.skip(at + 1));
}

/// Closing a pane deeper in a member of a row changes that member, as closing it
/// there does, and nothing else of the row. Only where that leaves a row along
/// the same axis in its place, that row's members join this one, where it stood.
pub proof fn law_closing_inside_a_member<W>(
    axis: Axis,
    children: Seq<Branch<W>>,
    k: int,
    target: PaneId,
    fresh: Seq<W>,
)
    requires
        0 <= k < children.len(),
        (Tree::Split { axis, children }).wf(),
        forall|j: int|
            0 <= j < children.len() ==> (#[trigger] children[j]).tree != Tree::<W>::Leaf(target),
        children[k].tree.leaves().contains(target),
        forall|j: int|
            0 <= j < k ==> !(#[trigger] children[j]).tree.leaves().contains(target),
    ensures
        ({
            let next = (Tree::Split { axis, children }).remove(target, fresh);
            let inside = children[k].tree.remove(target, fresh);
            &&& inside is Some
            &&& next matches Some(Tree::Split { axis: own, children: row })
            &&& own == axis
            &&& match inside->0 {
                Tree::Split { axis: inner, children: members } if inner == axis => {
                    let joined = children.take(k) + members + children.skip(k + 1);
                    &&& row.len() == joined.len()
                    &&& forall|i: int|
                        0 <= i < row.len() ==> (#[trigger] row[i]).tree == joined[i].tree
                            && row[i].weight == (if fresh.len() == row.len() {
                            fresh[i]
                        } else {
                            joined[i].weight
                        })
                },
                _ => row == children.update(
                    k,
                    Branch { tree: inside->0, weight: children[k].weight },
                ),
            }
        }),
{
    lemma_leaf_position(children, target, 0);
    lemma_holder_position(children, target, 0);
    lemma_holder_is(children, target, k, 0);
    law_remove_takes_out_one_pane(children[k].tree, target, fresh);
    lemma_left_alone(children[k].tree, target, fresh);
    if let Tree::Leaf(id) = children[k].tree {
        assert(children[k].tree.leaves() == seq![id]);
    }
    assert(children[k].tree.wf() && !children[k].tree.runs_along(axis));
    lemma_kept_axis(children[k].tree, target, fresh);
}

proof fn lemma_holder_is<W>(children: Seq<Branch<W>>, target: PaneId, k: int, from: int)
    requires
        0 <= from <= k < children.len(),
        children[k].tree.leaves().contains(target),
        forall|j: int|
            0 <= j < k ==> !(#[trigger] children[j]).tree.leaves().contains(target),
    ensures
        holder_position(children, target, from) == Some(k),
    decreases k - from,
{
    if from < k {
        lemma_holder_is(children, target, k, from + 1);
    }
}

/// Moving the boundary of a member of a row asks for the row's weights to be
/// balanced anew between that member and its neighbour: the next one, or the one
/// before where there is none. The answer is what the row weighs from then on,
/// and nothing else changes.
pub proof fn law_moving_a_boundary<W, F: Fn(Vec<W>, usize, usize) -> Option<Vec<W>>>(
    axis: Axis,
    children: Seq<Branch<W>>,
    at: int,
    other: int,
    target: PaneId,
    rebalance: F,
    after: Tree<W>,
    done: bool,
)
    requires
        2 <= children.len() <= usize::MAX,
        0 <= at < children.len(),
        at + 1 < children.len() ==> other == at + 1,
        at + 1 == children.len() ==> other == at - 1,
        forall|j: int| 0 <= j < children.len() ==> (#[trigger] children[j]).tree is Leaf,
        forall|j: int|
            0 <= j < children.len() ==> ((#[trigger] children[j]).tree == Tree::<W>::Leaf(target))
                == (j == at),
        (Tree::Split { axis, children }).resized(target, axis, rebalance, after, done),
    ensures
        exists|v: Vec<W>, answer: Option<Vec<W>>|
            {
                &&& v@ == children.map_values(|b: Branch<W>| b.weight)
                &&& #[trigger] call_ensures(rebalance, (v, at as usize, other as usize), answer)
                &&& done == (answer is Some && answer->0@.len() == children.len())
                &&& !done ==> after == (Tree::Split { axis, children })
                &&& done ==> {
                    &&& after matches Tree::Split { axis: own, children: row }
                    &&& own == axis
                    &&& row.len() == children.len()
                    &&& forall|i: int|
                        0 <= i < row.len() ==> (#[trigger] row[i]).tree == children[i].tree
                            && row[i].weight == answer->0@[i]
                }
            },
{
    assert forall|j: int| 0 <= j < children.len() implies ((
    #[trigger] children[j]).tree.leaves().contains(target)) == (j == at) by {
        let id = children[j].tree->Leaf_0;
        assert(children[j].tree == Tree::<W>::Leaf(id));
        assert(children[j].tree.leaves() == seq![id]);
        assert(seq![id][0] == id);
    }
    lemma_holder_is(children, target, at, 0);
    let row = after->children;
    let n = children.len() as int;
    if exists|k: int|
        0 <= k < n && done && #[trigger] child_resized(children, k, after, axis)
            && children[k].tree.resized(target, axis, rebalance, row[k].tree, true) {
        let k = choose|k: int|
            0 <= k < n && done && #[trigger] child_resized(children, k, after, axis)
                && children[k].tree.resized(target, axis, rebalance, row[k].tree, true);
        assert(children[k].tree is Leaf);
        assert(false);
    }
    assert(row_rebalanced(children, target, rebalance, row, done));
    assert(other == neighbour(at, n));
    let (v, answer) = choose|v: Vec<W>, answer: Option<Vec<W>>|
        {
            &&& v@ == weights(children)
            &&& #[trigger] call_ensures(rebalance, (v, at as usize, other as usize), answer)
            &&& match answer {
                Some(fresh) if fresh@.len() == children.len() => done && row == reweighted(
                    children,
                    fresh@,
                ),
                _ => !done && row == children,
            }
        };
    assert(weights(children) =~= children.map_values(|b: Branch<W>| b.weight));
    assert(call_ensures(rebalance, (v, at as usize, other as usize), answer));
}

} // verus!
