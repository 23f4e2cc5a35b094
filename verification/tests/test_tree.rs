use two_three::LeafThree;
use two_three::LeafTwo;
use two_three::Node;
use two_three::TTTree;
use two_three::Three;
use two_three::Two;

fn leaf2(v: u64) -> Node<u64> {
    Node::LeafTwo(LeafTwo(v))
}

fn leaf3(a: u64, b: u64) -> Node<u64> {
    Node::LeafThree(LeafThree(a, b))
}

fn two(k: u64, l: Node<u64>, r: Node<u64>) -> Node<u64> {
    Node::Two(Two(k, Box::new(l), Box::new(r)))
}

fn three(k1: u64, k2: u64, l: Node<u64>, m: Node<u64>, r: Node<u64>) -> Node<u64> {
    Node::Three(Three(k1, k2, Box::new(l), Box::new(m), Box::new(r)))
}

#[test]
fn it_works() {
    let mut tree: TTTree<u64> = TTTree::new();

    tree.insert(50);
    assert_eq!(tree, TTTree { root: Some(leaf2(50)) });

    tree.insert(50);
    assert_eq!(tree, TTTree { root: Some(leaf2(50)) });

    tree.insert(60);
    assert_eq!(tree, TTTree { root: Some(leaf3(50, 60)) });

    tree.insert(70);
    assert_eq!(tree, TTTree { root: Some(two(60, leaf2(50), leaf2(70))) });

    tree.insert(100);
    assert_eq!(tree, TTTree { root: Some(two(60, leaf2(50), leaf3(70, 100))) });

    tree.insert(55);
    assert_eq!(tree, TTTree { root: Some(two(60, leaf3(50, 55), leaf3(70, 100))) });

    tree.insert(68);
    assert_eq!(
        tree,
        TTTree { root: Some(three(60, 70, leaf3(50, 55), leaf2(68), leaf2(100))) }
    );

    tree.insert(75);
    assert_eq!(
        tree,
        TTTree { root: Some(three(60, 70, leaf3(50, 55), leaf2(68), leaf3(75, 100))) }
    );

    tree.insert(52);
    assert_eq!(
        tree,
        TTTree {
            root: Some(two(
                60,
                two(52, leaf2(50), leaf2(55)),
                two(70, leaf2(68), leaf3(75, 100)),
            ))
        }
    );
}
