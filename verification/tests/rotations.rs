use avl_tree::node::BSTNode;
use avl_tree::tree::BST;

fn built(keys: &[i32]) -> BST<i32> {
    let mut bst = BST::new();
    for k in keys {
        assert!(bst.insert(*k));
    }
    bst
}

/// The keys of the root, of its left child and of its right child.
fn top(bst: &BST<i32>) -> (Option<i32>, Option<i32>, Option<i32>) {
    fn key(node: &BSTNode<i32>) -> Option<i32> {
        match node {
            BSTNode::Nil => None,
            BSTNode::Node { value, .. } => Some(*value),
        }
    }
    match bst.root() {
        BSTNode::Nil => (None, None, None),
        BSTNode::Node { left, right, value, .. } => (Some(*value), key(left), key(right)),
    }
}

#[test]
fn left_left_case_rotates_right() {
    let bst = built(&[3, 2, 1]);
    assert_eq!(top(&bst), (Some(2), Some(1), Some(3)));
    assert_eq!(bst.height(), 1);
}

#[test]
fn right_right_case_rotates_left() {
    let bst = built(&[1, 2, 3]);
    assert_eq!(top(&bst), (Some(2), Some(1), Some(3)));
    assert_eq!(bst.height(), 1);
}

#[test]
fn left_right_case_rotates_twice() {
    let bst = built(&[3, 1, 2]);
    assert_eq!(top(&bst), (Some(2), Some(1), Some(3)));
    assert_eq!(bst.height(), 1);
}

#[test]
fn right_left_case_rotates_twice() {
    let bst = built(&[1, 3, 2]);
    assert_eq!(top(&bst), (Some(2), Some(1), Some(3)));
    assert_eq!(bst.height(), 1);
}

#[test]
fn deletion_with_an_even_left_child_rotates_once() {
    let mut bst = built(&[4, 2, 5, 1, 3]);
    assert!(bst.delete(&5));
    assert_eq!(top(&bst), (Some(2), Some(1), Some(4)));
    assert_eq!(bst.height(), 2);
    match bst.root() {
        BSTNode::Node { right, .. } => match &**right {
            BSTNode::Node { left, right, height, value } => {
                assert_eq!(*value, 4);
                assert_eq!(*height, 1);
                assert!(matches!(&**left, BSTNode::Node { value: 3, height: 0, .. }));
                assert!(matches!(&**right, BSTNode::Nil));
            }
            BSTNode::Nil => panic!("the right child is missing"),
        },
        BSTNode::Nil => panic!("the tree is empty"),
    }
}

#[test]
fn deletion_with_an_even_right_child_rotates_once() {
    let mut bst = built(&[2, 1, 4, 3, 5]);
    assert!(bst.delete(&1));
    assert_eq!(top(&bst), (Some(4), Some(2), Some(5)));
    assert_eq!(bst.height(), 2);
    match bst.root() {
        BSTNode::Node { left, .. } => match &**left {
            BSTNode::Node { left, right, height, value } => {
                assert_eq!(*value, 2);
                assert_eq!(*height, 1);
                assert!(matches!(&**left, BSTNode::Nil));
                assert!(matches!(&**right, BSTNode::Node { value: 3, height: 0, .. }));
            }
            BSTNode::Nil => panic!("the left child is missing"),
        },
        BSTNode::Nil => panic!("the tree is empty"),
    }
}

#[test]
fn deleting_a_leaf() {
    let mut bst = built(&[2, 1, 3]);
    assert!(bst.delete(&1));
    assert_eq!(top(&bst), (Some(2), None, Some(3)));
    assert_eq!(bst.size(), 2);
    assert_eq!(bst.height(), 1);
}

#[test]
fn deleting_a_node_with_one_child() {
    let mut bst = built(&[2, 1, 3, 4]);
    assert!(bst.delete(&3));
    assert_eq!(top(&bst), (Some(2), Some(1), Some(4)));
    assert_eq!(bst.size(), 3);
    assert_eq!(bst.height(), 1);

    let mut bst = built(&[3, 2, 4, 1]);
    assert!(bst.delete(&2));
    assert_eq!(top(&bst), (Some(3), Some(1), Some(4)));
    assert_eq!(bst.size(), 3);
}

#[test]
fn deleting_a_node_with_two_children_promotes_the_successor() {
    let mut bst = built(&[4, 2, 6, 1, 3, 5, 7]);
    assert!(bst.delete(&4));
    assert_eq!(top(&bst), (Some(5), Some(2), Some(6)));
    assert_eq!(bst.size(), 6);
    assert!(!bst.contains(&4));
    assert!(bst.contains(&5));
    assert!(bst.delete(&2));
    match bst.root() {
        BSTNode::Node { left, .. } => {
            assert!(matches!(&**left, BSTNode::Node { value: 3, height: 1, .. }));
        }
        BSTNode::Nil => panic!("the tree is empty"),
    }
}

#[test]
fn successor_with_a_right_child_hands_it_up() {
    let mut bst = built(&[5, 3, 8, 2, 4, 7, 10, 1, 6, 9, 11, 12]);
    // the successor of 8 is 9, a left child without children; that of 5 is 6
    assert!(bst.delete(&5));
    assert_eq!(top(&bst).0, Some(6));
    assert!(bst.contains(&7));
    assert_eq!(bst.size(), 11);
    for k in [1, 2, 3, 4, 6, 7, 8, 9, 10, 11, 12] {
        assert!(bst.contains(&k));
    }
}
