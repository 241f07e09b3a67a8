use turbopack_node::tree_iter_ext::{FlatMapTree, LeafFirstThenChildren, TreeIterExt};

type Tree = LeafFirstThenChildren<i32>;

fn leaf(value: i32) -> Tree {
    LeafFirstThenChildren(Some(value), vec![])
}

fn drain<It: Iterator<Item = Tree>>(it: &mut FlatMapTree<i32, It>) -> Vec<i32> {
    let mut leafs = Vec::new();
    while let Some(leaf) = it.next() {
        leafs.push(leaf);
    }
    leafs
}

fn leafs(trees: Vec<Tree>) -> Vec<i32> {
    drain(&mut trees.into_iter().flat_map_tree())
}

/// Yields trees, and counts how often it is asked.
struct Counted<'a> {
    trees: std::vec::IntoIter<Tree>,
    asked: &'a std::cell::Cell<usize>,
}

impl<'a> Iterator for Counted<'a> {
    type Item = Tree;

    fn next(&mut self) -> Option<Tree> {
        self.asked.set(self.asked.get() + 1);
        self.trees.next()
    }
}

fn sample() -> Tree {
    LeafFirstThenChildren(
        Some(1),
        vec![
            LeafFirstThenChildren(Some(2), vec![leaf(3), leaf(4)]),
            LeafFirstThenChildren(None, vec![leaf(5)]),
            leaf(6),
        ],
    )
}

#[test]
fn leaf_comes_before_children_and_siblings_follow() {
    assert_eq!(leafs(vec![sample()]), vec![1, 2, 3, 4, 5, 6]);
}

#[test]
fn trees_follow_one_another() {
    let mut expected = leafs(vec![sample()]);
    expected.extend(leafs(vec![leaf(7), leaf(8)]));
    assert_eq!(leafs(vec![sample(), leaf(7), leaf(8)]), expected);
    assert_eq!(expected, vec![1, 2, 3, 4, 5, 6, 7, 8]);
}

#[test]
fn nodes_without_leaf_are_skipped() {
    let bare = LeafFirstThenChildren(
        None,
        vec![
            LeafFirstThenChildren(None, vec![]),
            LeafFirstThenChildren(None, vec![leaf(9)]),
            LeafFirstThenChildren(None, vec![]),
        ],
    );
    assert_eq!(leafs(vec![LeafFirstThenChildren(None, vec![]), bare]), vec![9]);
}

#[test]
fn no_tree_has_no_leaf() {
    let mut none: FlatMapTree<i32, std::vec::IntoIter<Tree>> = vec![].into_iter().flat_map_tree();
    assert_eq!(none.next(), None);
    assert_eq!(none.next(), None);
}

#[test]
fn each_call_hands_out_one_leaf() {
    let mut it = vec![sample()].into_iter().flat_map_tree();
    assert_eq!(it.next(), Some(1));
    assert_eq!(it.next(), Some(2));
    assert_eq!(it.next(), Some(3));
    assert_eq!(drain(&mut it), vec![4, 5, 6]);
    assert_eq!(it.next(), None);
}

#[test]
fn deep_trees_are_flattened() {
    let mut tree = leaf(0);
    for i in 1..1000 {
        tree = LeafFirstThenChildren(Some(i), vec![tree]);
    }
    let expected: Vec<i32> = (0..1000).rev().collect();
    assert_eq!(leafs(vec![tree]), expected);
}

#[test]
fn trees_are_taken_one_at_a_time() {
    let asked = std::cell::Cell::new(0);
    let trees = vec![
        LeafFirstThenChildren(Some(1), vec![leaf(2)]),
        LeafFirstThenChildren(None, vec![LeafFirstThenChildren(None, vec![])]),
        LeafFirstThenChildren(None, vec![leaf(3)]),
        leaf(4),
    ];
    let mut it = Counted { trees: trees.into_iter(), asked: &asked }.flat_map_tree();
    assert_eq!(asked.get(), 0);
    assert_eq!((it.next(), asked.get()), (Some(1), 1));
    assert_eq!((it.next(), asked.get()), (Some(2), 1));
    assert_eq!((it.next(), asked.get()), (Some(3), 3));
    assert_eq!((it.next(), asked.get()), (Some(4), 4));
    assert_eq!((it.next(), asked.get()), (None, 5));
}
