use avl_tree::node::{BSTNode, ChildNode};
use avl_tree::tree::BST;

/// Walks the subtree, checks balance and cached heights at every node, pushes
/// the keys in order, and returns the height.
fn walk(node: &BSTNode<i64>, keys: &mut Vec<i64>) -> i32 {
    match node {
        BSTNode::Nil => -1,
        BSTNode::Node { left, right, height, value } => {
            let l = walk(left, keys);
            keys.push(*value);
            let r = walk(right, keys);
            assert!((l - r).abs() <= 1, "unbalanced at {}", value);
            assert_eq!(*height, 1 + l.max(r), "stale height at {}", value);
            *height
        }
    }
}

/// Checks every invariant of the tree and returns its keys in order.
fn audit(bst: &BST<i64>) -> Vec<i64> {
    let mut keys = Vec::new();
    let h = walk(bst.root(), &mut keys);
    assert_eq!(h, bst.height());
    for pair in keys.windows(2) {
        assert!(pair[0] < pair[1]);
    }
    assert_eq!(keys.len(), bst.size() as usize);
    keys
}

/// A fixed pseudo-random sequence.
fn next(state: &mut u64) -> i64 {
    *state = state.wrapping_mul(6364136223846793005).wrapping_add(1442695040888963407);
    ((*state >> 33) % 200) as i64
}

#[test]
fn invariants_hold_after_every_operation() {
    let mut bst = BST::new();
    let mut model: Vec<i64> = Vec::new();
    let mut state = 7u64;
    for step in 0..2000 {
        let k = next(&mut state);
        let was_there = model.contains(&k);
        if step % 3 == 2 {
            assert_eq!(bst.delete(&k), was_there);
            model.retain(|m| *m != k);
        } else {
            assert_eq!(bst.insert(k), !was_there);
            if !was_there {
                model.push(k);
            }
        }
        let keys = audit(&bst);
        let mut sorted = model.clone();
        sorted.sort();
        assert_eq!(keys, sorted);
    }
}

#[test]
fn traversal_is_strictly_increasing() {
    let mut bst = BST::new();
    for k in [50, 20, 70, 10, 30, 60, 80, 25, 35, 65] {
        bst.insert(k);
    }
    assert_eq!(audit(&bst), vec![10, 20, 25, 30, 35, 50, 60, 65, 70, 80]);
}

#[test]
fn size_counts_the_keys() {
    let mut bst = BST::new();
    let mut state = 99u64;
    let mut expected = 0u32;
    for _ in 0..300 {
        if bst.insert(next(&mut state)) {
            expected += 1;
        }
        assert_eq!(bst.size(), expected);
    }
    for _ in 0..300 {
        if bst.delete(&next(&mut state)) {
            expected -= 1;
        }
        assert_eq!(bst.size(), expected);
    }
    assert_eq!(audit(&bst).len(), expected as usize);
}

#[test]
fn duplicate_insert_leaves_the_traversal_unchanged() {
    let mut bst = BST::new();
    for k in [8, 3, 11, 1, 5, 9, 14] {
        bst.insert(k);
    }
    let before = audit(&bst);
    for k in [8, 3, 11, 1, 5, 9, 14] {
        assert!(!bst.insert(k));
        assert_eq!(audit(&bst), before);
    }
}

#[test]
fn missing_delete_leaves_the_tree_unchanged() {
    let mut bst = BST::new();
    for k in [8, 3, 11, 1, 5, 9, 14] {
        bst.insert(k);
    }
    let before = audit(&bst);
    let shape = format!("{:?}", bst);
    for k in [0, 2, 4, 6, 7, 10, 12, 13, 15] {
        assert!(!bst.delete(&k));
        assert_eq!(audit(&bst), before);
        assert_eq!(format!("{:?}", bst), shape);
    }
    assert_eq!(bst.size(), 7);
}

#[test]
fn inserted_keys_are_found_and_others_are_not() {
    let mut bst = BST::new();
    for k in (0..100).step_by(2) {
        bst.insert(k);
    }
    for k in (0..100).step_by(4) {
        bst.delete(&k);
    }
    for k in 0..100 {
        assert_eq!(bst.contains(&k), k % 4 == 2, "key {}", k);
    }
    for k in (0..100).step_by(4) {
        bst.insert(k);
    }
    for k in 0..100 {
        assert_eq!(bst.contains(&k), k % 2 == 0, "key {}", k);
    }
    audit(&bst);
}

#[test]
fn deleting_the_root_until_the_tree_is_empty() {
    let mut bst = BST::new();
    for k in 1..=40 {
        bst.insert(k);
    }
    let mut left = 40;
    loop {
        let root = match bst.root() {
            BSTNode::Nil => break,
            BSTNode::Node { value, .. } => *value,
        };
        assert!(bst.delete(&root));
        left -= 1;
        assert_eq!(audit(&bst).len(), left);
        assert!(!bst.contains(&root));
    }
    assert_eq!(bst.size(), 0);
    assert_eq!(bst.height(), -1);
    for k in 1..=40 {
        assert!(!bst.contains(&k));
    }
}

#[test]
fn height_stays_logarithmic() {
    let mut bst = BST::new();
    for k in 0..1000 {
        bst.insert(k);
    }
    audit(&bst);
    // fewer than min_size(14) = 1596 keys
    assert!(bst.height() <= 13);
    assert_eq!(bst.height(), 9);
    let mut bst = BST::new();
    for k in (0..1000).rev() {
        bst.insert(k);
    }
    assert_eq!(bst.height(), 9);
}

#[test]
fn node_new_is_a_leaf() {
    let node = BSTNode::new(17i64);
    match node {
        BSTNode::Node { left, right, height, value } => {
            assert_eq!(value, 17);
            assert_eq!(height, 0);
            assert!(matches!(*left, BSTNode::Nil));
            assert!(matches!(*right, BSTNode::Nil));
        }
        BSTNode::Nil => panic!("a new node is not empty"),
    }
}

#[test]
fn node_default_is_empty() {
    let node: BSTNode<i64> = BSTNode::default();
    assert!(matches!(node, BSTNode::Nil));
}

#[test]
fn node_delete_balanced_on_a_leaf_and_on_nothing() {
    let mut node: ChildNode<i64> = Box::new(BSTNode::new(4));
    assert!(!node.delete_balanced(&5));
    assert!(matches!(*node, BSTNode::Node { value: 4, height: 0, .. }));
    assert!(node.delete_balanced(&4));
    assert!(matches!(*node, BSTNode::Nil));
    assert!(!node.delete_balanced(&4));
    assert!(matches!(*node, BSTNode::Nil));
}

#[test]
fn node_delete_balanced_rebalances_a_hand_built_tree() {
    let leaf = |v: i64| Box::new(BSTNode::new(v));
    let mut node: ChildNode<i64> = Box::new(BSTNode::Node {
        left: Box::new(BSTNode::Node { left: leaf(1), right: leaf(3), height: 1, value: 2 }),
        right: leaf(5),
        height: 2,
        value: 4,
    });
    assert!(node.delete_balanced(&5));
    let mut keys = Vec::new();
    assert_eq!(walk(&node, &mut keys), 2);
    assert_eq!(keys, vec![1, 2, 3, 4]);
    assert!(matches!(*node, BSTNode::Node { value: 2, .. }));
}
