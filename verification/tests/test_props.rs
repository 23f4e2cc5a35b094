use two_three::LeafThree;
use two_three::LeafTwo;
use two_three::Node;
use two_three::TTTree;
use two_three::Three;
use two_three::Two;

fn build(values: &[u64]) -> TTTree<u64> {
    let mut tree: TTTree<u64> = TTTree::new();
    for v in values {
        tree.insert(*v);
    }
    tree
}

fn inorder(node: &Node<u64>, out: &mut Vec<u64>) {
    match node {
        Node::LeafTwo(LeafTwo(a)) => out.push(*a),
        Node::LeafThree(LeafThree(a, b)) => {
            out.push(*a);
            out.push(*b);
        }
        Node::Two(Two(k, l, r)) => {
            inorder(l, out);
            out.push(*k);
            inorder(r, out);
        }
        Node::Three(Three(k1, k2, l, m, r)) => {
            inorder(l, out);
            out.push(*k1);
            inorder(m, out);
            out.push(*k2);
            inorder(r, out);
        }
    }
}

fn keys(tree: &TTTree<u64>) -> Vec<u64> {
    let mut out: Vec<u64> = Vec::new();
    if let Some(n) = &tree.root {
        inorder(n, &mut out);
    }
    out
}

fn height(tree: &TTTree<u64>) -> usize {
    fn node_height(node: &Node<u64>) -> usize {
        match node {
            Node::LeafTwo(_) => 1,
            Node::LeafThree(_) => 1,
            Node::Two(Two(_, l, _)) => 1 + node_height(l),
            Node::Three(Three(_, _, l, _, _)) => 1 + node_height(l),
        }
    }
    match &tree.root {
        None => 0,
        Some(n) => node_height(n),
    }
}

#[test]
fn new_tree_is_empty() {
    let tree: TTTree<u64> = TTTree::new();
    assert!(matches!(tree.root, None));
    assert_eq!(height(&tree), 0);
    assert_eq!(keys(&tree), Vec::<u64>::new());
}

#[test]
fn duplicate_inserts_leave_tree_identical() {
    let values: [u64; 9] = [50, 50, 60, 70, 100, 55, 68, 75, 52];
    let reference = build(&values);
    for v in values {
        let mut tree = build(&values);
        tree.insert(v);
        assert_eq!(tree, reference);
    }
}

#[test]
fn leaf_overflow_is_permutation_invariant() {
    let orders: [[u64; 3]; 6] = [
        [10, 20, 30],
        [10, 30, 20],
        [20, 10, 30],
        [20, 30, 10],
        [30, 10, 20],
        [30, 20, 10],
    ];
    let expected = TTTree {
        root: Some(Node::Two(Two(
            20,
            Box::new(Node::LeafTwo(LeafTwo(10))),
            Box::new(Node::LeafTwo(LeafTwo(30))),
        ))),
    };
    for order in orders {
        assert_eq!(build(&order), expected);
    }
}

#[test]
fn inorder_keys_are_strictly_increasing() {
    let values: [u64; 12] = [8, 3, 11, 1, 6, 14, 4, 7, 13, 3, 8, 2];
    let tree = build(&values);
    let ks = keys(&tree);
    assert_eq!(ks, vec![1, 2, 3, 4, 6, 7, 8, 11, 13, 14]);
    for w in ks.windows(2) {
        assert!(w[0] < w[1]);
    }
}

#[test]
fn height_grows_only_at_root_split() {
    let mut tree: TTTree<u64> = TTTree::new();
    let expected_heights: [usize; 7] = [1, 1, 2, 2, 2, 2, 3];
    for (i, v) in (1u64..=7).enumerate() {
        tree.insert(v);
        assert_eq!(height(&tree), expected_heights[i]);
    }
}

#[test]
fn largest_key_value_is_stored() {
    let mut tree: TTTree<u64> = TTTree::new();
    tree.insert(u64::MAX);
    tree.insert(0);
    tree.insert(u64::MAX);
    assert_eq!(tree, TTTree { root: Some(Node::LeafThree(LeafThree(0, u64::MAX))) });
}
