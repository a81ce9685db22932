use avl_tree::node::BSTNode;
use avl_tree::tree::BST;

fn filled(lo: i32, hi: i32) -> BST<i32> {
    let mut bst = BST::new();
    for i in lo..=hi {
        assert!(bst.insert(i));
    }
    bst
}

fn key(node: &BSTNode<i32>) -> Option<i32> {
    match node {
        BSTNode::Nil => None,
        BSTNode::Node { value, .. } => Some(*value),
    }
}

fn left_key(node: &BSTNode<i32>) -> Option<i32> {
    match node {
        BSTNode::Nil => None,
        BSTNode::Node { left, .. } => key(left),
    }
}

fn right_key(node: &BSTNode<i32>) -> Option<i32> {
    match node {
        BSTNode::Nil => None,
        BSTNode::Node { right, .. } => key(right),
    }
}

#[test]
fn ascending_inserts_stay_shallow() {
    let bst = filled(1, 63);
    assert!(bst.height() <= 7);
    assert_eq!(bst.height(), 5);
    assert_eq!(bst.size(), 63);
    for k in 1..=63 {
        assert!(bst.contains(&k));
    }
    assert!(!bst.contains(&0));
    assert!(!bst.contains(&64));
}

#[test]
fn deleting_a_range_removes_exactly_that_range() {
    let mut bst = filled(1, 63);
    for k in 10..=30 {
        assert!(bst.delete(&k));
    }
    assert_eq!(bst.size(), 42);
    for k in 1..=9 {
        assert!(bst.contains(&k));
    }
    for k in 10..=30 {
        assert!(!bst.contains(&k));
    }
    for k in 31..=63 {
        assert!(bst.contains(&k));
    }
}

#[test]
fn deleting_a_missing_key_changes_nothing() {
    let mut bst = filled(1, 63);
    for k in 10..=30 {
        bst.delete(&k);
    }
    assert!(!bst.delete(&10));
    assert_eq!(bst.size(), 42);
}

#[test]
fn inserting_a_duplicate_changes_nothing() {
    let mut bst = filled(1, 63);
    assert!(!bst.insert(5));
    assert_eq!(bst.size(), 63);
    assert!(bst.contains(&5));
}

#[test]
fn seven_ascending_keys_make_a_perfect_tree() {
    let bst = filled(1, 7);
    let root = bst.root();
    assert_eq!(key(root), Some(4));
    assert_eq!(left_key(root), Some(2));
    assert_eq!(right_key(root), Some(6));
    assert_eq!(bst.height(), 2);
    match root {
        BSTNode::Nil => panic!("the tree is empty"),
        BSTNode::Node { left, right, .. } => {
            assert_eq!(left_key(left), Some(1));
            assert_eq!(right_key(left), Some(3));
            assert_eq!(left_key(right), Some(5));
            assert_eq!(right_key(right), Some(7));
        }
    }
}

#[test]
fn demo_sequence() {
    let mut bst = BST::new();
    for i in 1..=63 {
        bst.insert(i);
    }
    for i in 10..=30 {
        bst.delete(&i);
    }
    for i in 1..=9 {
        assert!(bst.contains(&i));
    }
    for i in 10..=30 {
        assert!(!bst.contains(&i));
    }
    for i in 31..=63 {
        assert!(bst.contains(&i));
    }
    assert!(bst.delete(&1));
    assert!(bst.delete(&3));
    assert!(bst.delete(&7));
    assert_eq!(bst.size(), 39);
}

#[test]
fn empty_tree() {
    let mut bst: BST<i32> = BST::new();
    assert_eq!(bst.size(), 0);
    assert_eq!(bst.height(), -1);
    assert!(!bst.contains(&1));
    assert!(!bst.delete(&1));
    assert_eq!(bst.size(), 0);
    assert!(matches!(bst.root(), BSTNode::Nil));
}

#[test]
fn first_insert_makes_the_root() {
    let mut bst = BST::new();
    assert!(bst.insert(9));
    assert_eq!(bst.size(), 1);
    assert_eq!(bst.height(), 0);
    assert_eq!(key(bst.root()), Some(9));
    assert_eq!(left_key(bst.root()), None);
    assert_eq!(right_key(bst.root()), None);
}

#[test]
fn duplicate_below_the_root_is_rejected() {
    let mut bst = BST::new();
    assert!(bst.insert(2));
    assert!(bst.insert(1));
    assert!(bst.insert(3));
    assert!(!bst.insert(1));
    assert!(!bst.insert(3));
    assert!(!bst.insert(2));
    assert_eq!(bst.size(), 3);
}

#[test]
fn string_keys() {
    let mut bst: BST<String> = BST::new();
    for word in ["pear", "apple", "fig", "plum", "kiwi"] {
        assert!(bst.insert(word.to_string()));
    }
    assert!(!bst.insert("fig".to_string()));
    assert_eq!(bst.size(), 5);
    assert!(bst.contains(&"kiwi".to_string()));
    assert!(!bst.contains(&"lime".to_string()));
    assert!(bst.delete(&"pear".to_string()));
    assert!(!bst.contains(&"pear".to_string()));
    assert_eq!(bst.size(), 4);
}
