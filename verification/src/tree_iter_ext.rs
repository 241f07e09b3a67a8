//! Flattening of trees into the sequence of their leafs.
use vstd::prelude::*;
use vstd::std_specs::iter::IteratorSpec;

verus! {

/// Visits leafs first, and recursed into children afterwards.
pub struct LeafFirstThenChildren<L>(pub Option<L>, pub Vec<LeafFirstThenChildren<L>>);

impl<L> LeafFirstThenChildren<L> {
    /// The leafs of a tree: its own leaf, if it has one, then those of its
    /// children from the first to the last.
    pub open spec fn leafs(self) -> Seq<L>
        decreases self,
    {
        own_leaf(self.0) + forest_leafs(self.1@)
    }

    /// The number of nodes of a tree, with or without a leaf.
    spec fn nodes(self) -> nat
        decreases self,
    {
        1 + forest_nodes(self.1@)
    }
}

/// The leaf of a node as a sequence of at most one item.
pub open spec fn own_leaf<L>(leaf: Option<L>) -> Seq<L> {
    match leaf {
        Some(l) => seq![l],
        None => Seq::empty(),
    }
}

/// The leafs of several trees, one tree after the other.
pub open spec fn forest_leafs<L>(forest: Seq<LeafFirstThenChildren<L>>) -> Seq<L>
    decreases forest,
{
    if forest.len() == 0 {
        Seq::empty()
    } else {
        forest[0].leafs() + forest_leafs(forest.drop_first())
    }
}

/// The number of nodes of several trees.
spec fn forest_nodes<L>(forest: Seq<LeafFirstThenChildren<L>>) -> nat
    decreases forest,
{
    if forest.len() == 0 {
        0
    } else {
        forest[0].nodes() + forest_nodes(forest.drop_first())
    }
}

/// From the leafs that were left before, this leaf was handed out, and these are
/// left after. Without any, none is handed out.
pub open spec fn hands_out<L>(before: Seq<L>, leaf: Option<L>, after: Seq<L>) -> bool {
    if before.len() == 0 {
        leaf is None && after == before
    } else {
        leaf == Some(before[0]) && after == before.drop_first()
    }
}

/// The number of trees up to the first that has a leaf, that one included, or of
/// all trees if none has.
pub open spec fn trees_to_first_leaf<L>(trees: Seq<LeafFirstThenChildren<L>>) -> nat
    decreases trees.len(),
{
    if trees.len() == 0 {
        0
    } else if trees[0].leafs().len() > 0 {
        1
    } else {
        1 + trees_to_first_leaf(trees.drop_first())
    }
}

/// One step of a traversal: from the leafs that were left of the current tree and
/// the trees to come, to the leaf that is handed out and what is left after it.
/// Trees are taken only when the current one has no leaf left, and no further
/// than to the first that has one.
pub open spec fn steps<L>(
    stacked: Seq<L>,
    trees: Seq<LeafFirstThenChildren<L>>,
    leaf: Option<L>,
    stacked_after: Seq<L>,
    trees_after: Seq<LeafFirstThenChildren<L>>,
) -> bool {
    if stacked.len() > 0 {
        &&& leaf == Some(stacked[0])
        &&& stacked_after == stacked.drop_first()
        &&& trees_after == trees
    } else {
        let taken = trees_to_first_leaf(trees);
        &&& trees_after == trees.skip(taken as int)
        &&& if taken > 0 && trees[taken - 1].leafs().len() > 0 {
            &&& leaf == Some(trees[taken - 1].leafs()[0])
            &&& stacked_after == trees[taken - 1].leafs().drop_first()
        } else {
            &&& leaf is None
            &&& stacked_after == Seq::<L>::empty()
            &&& trees_after == Seq::<LeafFirstThenChildren<L>>::empty()
        }
    }
}

/// The siblings that a frame of the stack still holds, in the order in which
/// they are visited: a frame keeps the next one at its end.
spec fn frame_forest<L>(frame: Vec<LeafFirstThenChildren<L>>) -> Seq<LeafFirstThenChildren<L>> {
    frame@.reverse()
}

/// The leafs that the frames of a stack still hold, from its top down.
spec fn stack_leafs<L>(stack: Seq<Vec<LeafFirstThenChildren<L>>>) -> Seq<L>
    decreases stack.len(),
{
    if stack.len() == 0 {
        Seq::empty()
    } else {
        forest_leafs(frame_forest(stack.last())) + stack_leafs(stack.drop_last())
    }
}

/// The nodes and frames that are left on a stack.
spec fn stack_work<L>(stack: Seq<Vec<LeafFirstThenChildren<L>>>) -> nat
    decreases stack.len(),
{
    if stack.len() == 0 {
        0
    } else {
        1 + 2 * forest_nodes(frame_forest(stack.last())) + stack_work(stack.drop_last())
    }
}

/// The first tree of a forest, taken apart into its leaf and its children.
proof fn lemma_unfold<L>(forest: Seq<LeafFirstThenChildren<L>>)
    requires
        forest.len() > 0,
    ensures
        forest_leafs(forest) == own_leaf(forest[0].0) + forest_leafs(forest[0].1@) + forest_leafs(
            forest.drop_first(),
        ),
        forest_nodes(forest) == 1 + forest_nodes(forest[0].1@) + forest_nodes(forest.drop_first()),
{
    assert(forest[0].leafs() == own_leaf(forest[0].0) + forest_leafs(forest[0].1@));
    assert(forest[0].nodes() == 1 + forest_nodes(forest[0].1@));
}

/// How far a step has come that began with no leaf left of the current tree: of
/// the trees, all but those in `left` were taken, and only the last of them can
/// have a leaf. `stacked` are the leafs of that one.
spec fn resumes<L>(
    trees: Seq<LeafFirstThenChildren<L>>,
    stacked: Seq<L>,
    left: Seq<LeafFirstThenChildren<L>>,
) -> bool {
    let taken = trees.len() - left.len();
    &&& taken >= 0
    &&& left == trees.skip(taken)
    &&& forall|i: int| 0 <= i < taken - 1 ==> (#[trigger] trees[i]).leafs().len() == 0
    &&& stacked == if taken == 0 {
        Seq::empty()
    } else {
        trees[taken - 1].leafs()
    }
}

/// The first tree with a leaf is found behind those without.
proof fn lemma_trees_to_first_leaf<L>(trees: Seq<LeafFirstThenChildren<L>>, without: int)
    requires
        0 <= without <= trees.len(),
        forall|i: int| 0 <= i < without ==> (#[trigger] trees[i]).leafs().len() == 0,
        without < trees.len() ==> trees[without].leafs().len() > 0,
    ensures
        trees_to_first_leaf(trees) == if without < trees.len() {
            without + 1
        } else {
            without
        },
    decreases trees.len(),
{
    if without > 0 {
        let rest = trees.drop_first();
        assert(trees[0].leafs().len() == 0);
        assert forall|i: int| 0 <= i < without - 1 implies (#[trigger] rest[i]).leafs().len() == 0 by {
            assert(rest[i] == trees[i + 1]);
        }
        lemma_trees_to_first_leaf(rest, without - 1);
    }
}

/// A step that has come to a leaf, or to the end of the trees, has taken as many
/// trees as it should.
proof fn lemma_resumed<L>(
    trees: Seq<LeafFirstThenChildren<L>>,
    stacked: Seq<L>,
    left: Seq<LeafFirstThenChildren<L>>,
)
    requires
        resumes(trees, stacked, left),
        stacked.len() > 0 || left.len() == 0,
    ensures
        trees_to_first_leaf(trees) == trees.len() - left.len(),
{
    let taken = trees.len() - left.len();
    if stacked.len() > 0 {
        lemma_trees_to_first_leaf(trees, taken - 1);
    } else {
        lemma_trees_to_first_leaf(trees, taken);
    }
}

/// A step that has found no leaf takes one more tree.
proof fn lemma_taken<L>(
    trees: Seq<LeafFirstThenChildren<L>>,
    left: Seq<LeafFirstThenChildren<L>>,
)
    requires
        resumes(trees, Seq::<L>::empty(), left),
        left.len() > 0,
    ensures
        resumes(trees, left[0].leafs(), left.drop_first()),
{
    let taken = trees.len() - left.len();
    assert(left[0] == trees[taken]);
    assert(left.drop_first() =~= trees.skip(taken + 1));
}

/// Puts children into the order in which a frame keeps them.
fn into_frame<L>(children: Vec<LeafFirstThenChildren<L>>) -> (frame: Vec<LeafFirstThenChildren<L>>)
    ensures
        frame_forest(frame) == children@,
{
    let mut children = children;
    let ghost all = children@;
    let mut frame: Vec<LeafFirstThenChildren<L>> = Vec::new();
    while children.len() > 0
        invariant
            children@ + frame@.reverse() == all,
        decreases children.len(),
    {
        let ghost before = children@ + frame@.reverse();
        if let Some(child) = children.pop() {
            frame.push(child);
        }
        assert(children@ + frame@.reverse() =~= before);
    }
    assert(frame@.reverse() =~= all);
    frame
}

/// An iterator over the leafs of the trees that another iterator yields.
///
/// It keeps the siblings that wait on each level of the tree that is being
/// visited.
#[verifier::reject_recursive_types(L)]
pub struct FlatMapTree<L, It>
where
    It: Iterator<Item = LeafFirstThenChildren<L>>,
{
    it: It,
    stack: Vec<Vec<LeafFirstThenChildren<L>>>,
}

impl<L, It> FlatMapTree<L, It>
where
    It: Iterator<Item = LeafFirstThenChildren<L>>,
{
    /// The iterator that further trees come from.
    pub closed spec fn source(self) -> It {
        self.it
    }

    /// The leafs that are still to come from the tree that is being visited.
    pub closed spec fn stacked(self) -> Seq<L> {
        stack_leafs(self.stack@)
    }

    /// The iterator that further trees come from keeps to the laws of iterators,
    /// and comes to an end.
    pub open spec fn well_formed(self) -> bool {
        self.source().obeys_prophetic_iter_laws() && self.source().decrease() is Some
    }

    /// Pushes the children of a node that has just been visited.
    fn descend(&mut self, children: Vec<LeafFirstThenChildren<L>>)
        ensures
            final(self).it == old(self).it,
            stack_leafs(final(self).stack@) == forest_leafs(children@) + stack_leafs(old(self).stack@),
            stack_work(final(self).stack@) == 1 + 2 * forest_nodes(children@) + stack_work(old(self).stack@),
    {
        let frame = into_frame(children);
        self.stack.push(frame);
        assert(self.stack@.drop_last() =~= old(self).stack@);
    }

    /// Hands out the first of the leafs that are left. A further tree is taken
    /// from the source only when the one that is being visited has no leaf left.
    ///
    /// The source has to come to an end: over trees without any leaf, an endless
    /// one would never get to a next leaf.
    pub fn next(&mut self) -> (leaf: Option<L>)
        requires
            old(self).well_formed(),
        ensures
            final(self).well_formed(),
            hands_out(
                old(self).stacked() + forest_leafs(old(self).source().remaining()),
                leaf,
                final(self).stacked() + forest_leafs(final(self).source().remaining()),
            ),
            steps(
                old(self).stacked(),
                old(self).source().remaining(),
                leaf,
                final(self).stacked(),
                final(self).source().remaining(),
            ),
            ({
                let before = old(self).stacked() + forest_leafs(old(self).source().remaining());
                let after = final(self).stacked() + forest_leafs(final(self).source().remaining());
                &&& before.len() == 0 ==> leaf is None && after.len() == 0
                &&& before.len() > 0 ==> leaf == Some(before[0]) && after == before.drop_first()
            }),
            old(self).stacked().len() > 0 ==> leaf == Some(old(self).stacked()[0])
                && final(self).stacked() == old(self).stacked().drop_first(),
            old(self).stacked().len() == 0 ==> ({
                let trees = old(self).source().remaining();
                let taken = trees.len() - final(self).source().remaining().len();
                &&& taken >= 0
                &&& final(self).source().remaining() == trees.skip(taken)
                &&& forall|i: int| 0 <= i < taken - 1 ==> (#[trigger] trees[i]).leafs().len() == 0
                &&& leaf matches Some(l) ==> taken > 0 && trees[taken - 1].leafs() == seq![l]
                    + final(self).stacked()
                &&& leaf is None ==> taken == trees.len() && final(self).stacked().len() == 0
                    && forall|i: int| 0 <= i < taken ==> (#[trigger] trees[i]).leafs().len() == 0
            }),
            old(self).stacked().len() > 0 ==> final(self).source() == old(self).source(),
            leaf is Some && old(self).stacked().len() == 0 ==> final(self).source().decrease()->0
                < old(self).source().decrease()->0,
            leaf is None ==> final(self).source().remaining().len() == 0
                && final(self).source().will_return_none(),
    {
        proof {
            let trees = self.it.remaining();
            assert(trees.skip(0) =~= trees);
            if self.stacked().len() == 0 {
                assert(self.stacked() =~= Seq::empty());
            }
        }
        loop
            invariant
                self.well_formed(),
                old(self).stacked().len() > 0 ==> self.it == old(self).it && self.stacked() == old(
                    self,
                ).stacked(),
                old(self).stacked().len() == 0 ==> resumes(
                    old(self).source().remaining(),
                    self.stacked(),
                    self.it.remaining(),
                ),
                self.it.decrease()->0 <= old(self).it.decrease()->0,
                old(self).stacked().len() == 0 && self.stacked().len() > 0
                    ==> self.it.decrease()->0 < old(self).it.decrease()->0,
            decreases self.it.decrease()->0, stack_work(self.stack@),
        {
            let ghost stack0 = self.stack@;
            if let Some(frame) = self.stack.pop() {
                let mut current = frame;
                assert(self.stack@ =~= stack0.drop_last());
                if let Some(node) = current.pop() {
                    proof {
                        let forest = frame_forest(frame);
                        assert(forest[0] == node);
                        assert(frame_forest(current) =~= forest.drop_first());
                        lemma_unfold(forest);
                    }
                    let ghost below = self.stack@;
                    self.stack.push(current);
                    assert(self.stack@.drop_last() =~= below);
                    let LeafFirstThenChildren(leaf, children) = node;
                    self.descend(children);
                    assert(own_leaf(leaf) + stack_leafs(self.stack@) =~= stack_leafs(stack0));
                    if let Some(l) = leaf {
                        proof {
                            assert(stack_leafs(stack0)[0] == l);
                            assert(stack_leafs(self.stack@) =~= stack_leafs(stack0).drop_first());
                            if old(self).stacked().len() == 0 {
                                lemma_resumed(
                                    old(self).source().remaining(),
                                    stack_leafs(stack0),
                                    self.it.remaining(),
                                );
                            }
                            law_step_hands_out_first_leaf(
                                old(self).stacked(),
                                old(self).source().remaining(),
                                Some(l),
                                self.stacked(),
                                self.it.remaining(),
                            );
                            assert(stack_leafs(stack0) =~= seq![l] + self.stacked());
                        }
                        return Some(l);
                    }
                    assert(stack_leafs(self.stack@) =~= stack_leafs(stack0));
                } else {
                    assert(frame_forest(frame) =~= Seq::empty());
                    assert(stack_leafs(self.stack@) =~= stack_leafs(stack0));
                }
            } else {
                let ghost trees = self.it.remaining();
                if let Some(node) = self.it.next() {
                    let LeafFirstThenChildren(leaf, children) = node;
                    proof {
                        assert(stack_leafs(stack0) =~= Seq::empty());
                        assert(node.leafs() == own_leaf(leaf) + forest_leafs(children@));
                    }
                    self.descend(children);
                    assert(own_leaf(leaf) + stack_leafs(self.stack@) =~= trees[0].leafs());
                    if let Some(l) = leaf {
                        proof {
                            assert(trees[0].leafs()[0] == l);
                            assert(stack_leafs(self.stack@) =~= trees[0].leafs().drop_first());
                            lemma_taken(old(self).source().remaining(), trees);
                            lemma_resumed(
                                old(self).source().remaining(),
                                trees[0].leafs(),
                                self.it.remaining(),
                            );
                            law_step_hands_out_first_leaf(
                                old(self).stacked(),
                                old(self).source().remaining(),
                                Some(l),
                                self.stacked(),
                                self.it.remaining(),
                            );
                        }
                        return Some(l);
                    }
                    proof {
                        assert(stack_leafs(self.stack@) =~= trees[0].leafs());
                        lemma_taken(old(self).source().remaining(), trees);
                    }
                } else {
                    proof {
                        assert(stack_leafs(stack0) =~= Seq::empty());
                        assert(self.it.remaining() =~= Seq::empty());
                        lemma_resumed(
                            old(self).source().remaining(),
                            stack_leafs(stack0),
                            self.it.remaining(),
                        );
                        law_step_hands_out_first_leaf(
                            old(self).stacked(),
                            old(self).source().remaining(),
                            None,
                            self.stacked(),
                            self.it.remaining(),
                        );
                    }
                    return None;
                }
            }
        }
    }
}

/// Flattening for iterators over trees.
pub trait TreeIterExt<L>: Iterator {
    type Output;

    /// Flattens a tree structure into a single iterator of leaf nodes.
    /// Supported iterated types are: LeafFirstThenChildren.
    fn flat_map_tree(self) -> Self::Output;
}

impl<L, It> TreeIterExt<L> for It
where
    It: Iterator<Item = LeafFirstThenChildren<L>>,
{
    type Output = FlatMapTree<L, It>;

    fn flat_map_tree(self) -> (leafs: Self::Output)
        ensures
            leafs.source() == self,
            leafs.stacked() == Seq::<L>::empty(),
    {
        FlatMapTree { it: self, stack: Vec::new() }
    }
}

/// The leafs of two groups of trees are those of the first, then those of the
/// second.
pub proof fn law_forest_leafs_concat<L>(
    a: Seq<LeafFirstThenChildren<L>>,
    b: Seq<LeafFirstThenChildren<L>>,
)
    ensures
        forest_leafs(a + b) == forest_leafs(a) + forest_leafs(b),
    decreases a.len(),
{
    if a.len() == 0 {
        assert(a + b =~= b);
        assert(forest_leafs(a) + forest_leafs(b) =~= forest_leafs(b));
    } else {
        assert((a + b).drop_first() =~= a.drop_first() + b);
        law_forest_leafs_concat(a.drop_first(), b);
        assert(forest_leafs(a + b) =~= forest_leafs(a) + forest_leafs(b));
    }
}

/// The leaf of a tree comes before those of its children, and each child
/// follows the one before it: nothing is left out and nothing comes twice.
pub proof fn law_leaf_first_then_children<L>(
    leaf: Option<L>,
    before: Vec<LeafFirstThenChildren<L>>,
    child: LeafFirstThenChildren<L>,
    after: Vec<LeafFirstThenChildren<L>>,
    children: Vec<LeafFirstThenChildren<L>>,
)
    requires
        children@ == before@ + seq![child] + after@,
    ensures
        LeafFirstThenChildren(leaf, children).leafs() == own_leaf(leaf) + forest_leafs(before@)
            + child.leafs() + forest_leafs(after@),
{
    let tree = LeafFirstThenChildren(leaf, children);
    assert(tree.leafs() == own_leaf(leaf) + forest_leafs(children@));
    law_forest_leafs_concat(before@ + seq![child], after@);
    law_forest_leafs_concat(before@, seq![child]);
    let one = seq![child];
    assert(forest_leafs(one.drop_first()) =~= Seq::empty());
    assert(forest_leafs(one) =~= child.leafs());
    assert(tree.leafs() =~= own_leaf(leaf) + forest_leafs(before@) + child.leafs() + forest_leafs(
        after@,
    ));
}

/// The leafs of trees begin with those of the first tree that has one.
proof fn lemma_first_leafs<L>(trees: Seq<LeafFirstThenChildren<L>>)
    ensures
        trees_to_first_leaf(trees) <= trees.len(),
        trees.len() > 0 ==> {
            let taken = trees_to_first_leaf(trees);
            &&& taken > 0
            &&& forest_leafs(trees) == trees[taken - 1].leafs() + forest_leafs(
                trees.skip(taken as int),
            )
            &&& trees[taken - 1].leafs().len() == 0 ==> taken == trees.len()
        },
    decreases trees.len(),
{
    if trees.len() > 0 {
        let rest = trees.drop_first();
        lemma_first_leafs(rest);
        if trees[0].leafs().len() > 0 {
            assert(trees.skip(1) =~= rest);
        } else {
            assert(forest_leafs(trees) =~= forest_leafs(rest));
            if rest.len() == 0 {
                assert(trees.skip(1) =~= rest);
            } else {
                let taken = trees_to_first_leaf(rest);
                assert(rest.skip(taken as int) =~= trees.skip(taken as int + 1));
                assert(rest[taken - 1] == trees[taken as int]);
            }
        }
    }
}

/// A step hands out the first of all the leafs that are left, of the current tree
/// and of those to come, and leaves the others.
pub proof fn law_step_hands_out_first_leaf<L>(
    stacked: Seq<L>,
    trees: Seq<LeafFirstThenChildren<L>>,
    leaf: Option<L>,
    stacked_after: Seq<L>,
    trees_after: Seq<LeafFirstThenChildren<L>>,
)
    requires
        steps(stacked, trees, leaf, stacked_after, trees_after),
    ensures
        hands_out(
            stacked + forest_leafs(trees),
            leaf,
            stacked_after + forest_leafs(trees_after),
        ),
{
    let before = stacked + forest_leafs(trees);
    let after = stacked_after + forest_leafs(trees_after);
    lemma_first_leafs(trees);
    if leaf is Some {
        assert(before[0] == leaf->0);
        assert(after =~= before.drop_first());
    } else {
        assert(before =~= Seq::empty());
        assert(after =~= before);
    }
}

/// Once a step has handed out no leaf, the following one hands out none either,
/// and nothing is left after it.
pub proof fn law_stays_finished<L>(
    stacked: Seq<L>,
    trees: Seq<LeafFirstThenChildren<L>>,
    stacked_between: Seq<L>,
    trees_between: Seq<LeafFirstThenChildren<L>>,
    leaf: Option<L>,
    stacked_after: Seq<L>,
    trees_after: Seq<LeafFirstThenChildren<L>>,
)
    requires
        steps(stacked, trees, None, stacked_between, trees_between),
        steps(stacked_between, trees_between, leaf, stacked_after, trees_after),
    ensures
        leaf is None,
        stacked_after.len() == 0,
        trees_after.len() == 0,
{
}

/// Of some trees, a number was taken, and the leafs that are left of the current
/// tree are the last ones of the tree that was taken last.
pub open spec fn visits<L>(
    trees: Seq<LeafFirstThenChildren<L>>,
    taken: int,
    stacked: Seq<L>,
) -> bool {
    &&& 0 <= taken <= trees.len()
    &&& if taken == 0 {
        stacked == Seq::<L>::empty()
    } else {
        stacked.is_suffix_of(trees[taken - 1].leafs())
    }
}

/// No tree is taken ahead: whenever a step hands out a leaf, it is a leaf of the
/// tree that was taken last, and it stands right before those that are left of
/// that tree. A step hands out none only when every tree was taken.
pub proof fn law_no_look_ahead<L>(
    trees: Seq<LeafFirstThenChildren<L>>,
    taken: int,
    stacked: Seq<L>,
    leaf: Option<L>,
    stacked_after: Seq<L>,
    left_after: Seq<LeafFirstThenChildren<L>>,
) -> (taken_after: int)
    requires
        visits(trees, taken, stacked),
        steps(stacked, trees.skip(taken), leaf, stacked_after, left_after),
    ensures
        taken <= taken_after,
        left_after == trees.skip(taken_after),
        visits(trees, taken_after, stacked_after),
        leaf matches Some(l) ==> taken_after > 0 && ({
            let all = trees[taken_after - 1].leafs();
            &&& stacked_after.len() < all.len()
            &&& seq![l] + stacked_after == all.skip(all.len() - stacked_after.len() - 1)
        }),
        leaf is None ==> taken_after == trees.len(),
{
    if stacked.len() > 0 {
        let all = trees[taken - 1].leafs();
        assert(stacked =~= seq![leaf->0] + stacked_after);
        assert(stacked =~= all.skip(all.len() - stacked.len()));
        assert(stacked_after =~= all.skip(all.len() - stacked_after.len()));
        taken
    } else {
        let left = trees.skip(taken);
        let count = trees_to_first_leaf(left);
        lemma_first_leafs(left);
        let after = taken + count;
        assert(left.skip(count as int) =~= trees.skip(after));
        if leaf is Some {
            let all = left[count - 1].leafs();
            assert(trees[after - 1] == left[count - 1]);
            assert(stacked_after =~= all.skip(all.len() - stacked_after.len()));
            assert(seq![leaf->0] + stacked_after =~= all);
            assert(all.skip(0) =~= all);
        } else if left.len() == 0 {
            assert(stacked_after =~= stacked);
        } else {
            let all = trees[after - 1].leafs();
            assert(trees[after - 1] == left[count - 1]);
            assert(stacked_after =~= all.skip(all.len() - stacked_after.len()));
        }
        after
    }
}

/// Calling `next` until it gives `None` hands out exactly the leafs that were
/// left at the start, in order. `states` are the iterator before each of the
/// calls.
pub proof fn law_draining_yields_all_leafs<L, It>(
    states: Seq<FlatMapTree<L, It>>,
    leafs: Seq<L>,
    end: FlatMapTree<L, It>,
) where It: Iterator<Item = LeafFirstThenChildren<L>>
    requires
        states.len() == leafs.len() + 1,
        forall|i: int|
            0 <= i < leafs.len() ==> hands_out(
                states[i].stacked() + forest_leafs(states[i].source().remaining()),
                Some(#[trigger] leafs[i]),
                states[i + 1].stacked() + forest_leafs(states[i + 1].source().remaining()),
            ),
        hands_out(
            states.last().stacked() + forest_leafs(states.last().source().remaining()),
            None,
            end.stacked() + forest_leafs(end.source().remaining()),
        ),
    ensures
        leafs == states[0].stacked() + forest_leafs(states[0].source().remaining()),
    decreases leafs.len(),
{
    let left = states[0].stacked() + forest_leafs(states[0].source().remaining());
    if leafs.len() == 0 {
        assert(leafs =~= left);
    } else {
        let later = states.drop_first();
        let others = leafs.drop_first();
        assert forall|i: int| 0 <= i < others.len() implies hands_out(
            later[i].stacked() + forest_leafs(later[i].source().remaining()),
            Some(#[trigger] others[i]),
            later[i + 1].stacked() + forest_leafs(later[i + 1].source().remaining()),
        ) by {
            assert(others[i] == leafs[i + 1]);
            assert(later[i] == states[i + 1]);
            assert(later[i + 1] == states[i + 2]);
        }
        law_draining_yields_all_leafs(later, others, end);
        assert(later[0] == states[1]);
        assert(leafs[0] == left[0] && others == left.drop_first());
        assert(leafs =~= seq![leafs[0]] + others);
        assert(left =~= seq![left[0]] + left.drop_first());
    }
}


/// A tree begins with its own leaf, if it has one, and goes on with the leafs of
/// its children, however many they are. A tree without children has at most its
/// own.
pub proof fn law_leafs_of_one_tree<L>(
    leaf: L,
    children: Vec<LeafFirstThenChildren<L>>,
    none: Vec<LeafFirstThenChildren<L>>,
)
    requires
        none@.len() == 0,
    ensures
        LeafFirstThenChildren(Some(leaf), children).leafs() == seq![leaf] + forest_leafs(children@),
        LeafFirstThenChildren(Some(leaf), children).leafs()[0] == leaf,
        LeafFirstThenChildren(None, children).leafs() == forest_leafs(children@),
        LeafFirstThenChildren(Some(leaf), none).leafs() == seq![leaf],
        LeafFirstThenChildren(None, none).leafs().len() == 0,
{
    let with = LeafFirstThenChildren(Some(leaf), children);
    let without = LeafFirstThenChildren(None, children);
    let lone = LeafFirstThenChildren(Some(leaf), none);
    let bare = LeafFirstThenChildren::<L>(None, none);
    assert(with.leafs() == own_leaf(Some(leaf)) + forest_leafs(children@));
    assert(without.leafs() =~= forest_leafs(children@)) by {
        assert(without.leafs() == own_leaf(None::<L>) + forest_leafs(children@));
    }
    assert(forest_leafs(none@) =~= Seq::empty());
    assert(lone.leafs() =~= seq![leaf]) by {
        assert(lone.leafs() == own_leaf(Some(leaf)) + forest_leafs(none@));
    }
    assert(bare.leafs() == own_leaf(None::<L>) + forest_leafs(none@));
}

/// The leafs of one tree alone are its own, and no tree has none. Of several
/// trees, each has its leafs among those of all, behind those of the trees before
/// it.
pub proof fn law_each_tree_keeps_its_leafs<L>(
    trees: Seq<LeafFirstThenChildren<L>>,
    at: int,
    leaf: int,
)
    requires
        0 <= at < trees.len(),
        0 <= leaf < trees[at].leafs().len(),
    ensures
        forest_leafs(Seq::<LeafFirstThenChildren<L>>::empty()).len() == 0,
        forest_leafs(seq![trees[at]]) == trees[at].leafs(),
        forest_leafs(trees.take(at)).len() + leaf < forest_leafs(trees).len(),
        forest_leafs(trees)[forest_leafs(trees.take(at)).len() + leaf] == trees[at].leafs()[leaf],
{
    let one = seq![trees[at]];
    assert(forest_leafs(one.drop_first()) =~= Seq::empty());
    assert(forest_leafs(one) =~= trees[at].leafs());
    let before = trees.take(at);
    let after = trees.skip(at + 1);
    assert(trees =~= before + one + after);
    law_forest_leafs_concat(before + one, after);
    law_forest_leafs_concat(before, one);
}

/// The trees up to the first with a leaf are those without one and that one, or
/// all trees where none has a leaf.
pub proof fn law_trees_to_first_leaf<L>(trees: Seq<LeafFirstThenChildren<L>>)
    ensures
        ({
            let taken = trees_to_first_leaf(trees);
            &&& taken <= trees.len()
            &&& trees.len() > 0 ==> taken > 0
            &&& forall|i: int| 0 <= i < taken - 1 ==> (#[trigger] trees[i]).leafs().len() == 0
            &&& taken < trees.len() ==> trees[taken - 1].leafs().len() > 0
        }),
    decreases trees.len(),
{
    if trees.len() > 0 && trees[0].leafs().len() == 0 {
        let rest = trees.drop_first();
        law_trees_to_first_leaf(rest);
        let taken = trees_to_first_leaf(trees);
        assert forall|i: int| 0 <= i < taken - 1 implies (#[trigger] trees[i]).leafs().len() == 0 by {
            if i > 0 {
                assert(trees[i] == rest[i - 1]);
            }
        }
        if rest.len() > 0 {
            assert(rest[trees_to_first_leaf(rest) - 1] == trees[taken - 1]);
        }
    }
}

/// Handing out takes the first of what is left, and the rest stays in order. It
/// hands out nothing exactly when nothing is left.
pub proof fn law_handing_out<L>(before: Seq<L>, leaf: Option<L>, after: Seq<L>)
    requires
        hands_out(before, leaf, after),
    ensures
        before == own_leaf(leaf) + after,
        leaf is None <==> before.len() == 0,
        leaf matches Some(l) ==> before == seq![l] + after,
{
    if before.len() > 0 {
        assert(before =~= seq![before[0]] + before.drop_first());
    } else {
        assert(before =~= own_leaf(leaf) + after);
    }
}


/// Any iterator that keeps to the laws of iterators and comes to an end can be
/// drained, whatever is stacked.
pub proof fn law_lawful_sources_can_be_drained<L, It>(leafs: FlatMapTree<L, It>) where
    It: Iterator<Item = LeafFirstThenChildren<L>>,

    ensures
        leafs.well_formed() <==> leafs.source().obeys_prophetic_iter_laws()
            && leafs.source().decrease() is Some,
{
}

}
