use sos_kernel::list::ListNode;

#[derive(Debug, PartialEq)]
struct NumberedNode {
    pub number: usize,
}

impl NumberedNode {
    fn new(number: usize) -> Self {
        NumberedNode { number }
    }
}

#[test]
fn test_not_empty_after_push() {
    let mut list = ListNode::<Box<NumberedNode>>::new();

    assert_eq!(list.front(), None);
    assert_eq!(list.back(), None);

    assert!(list.is_empty());

    list.push_front(Box::new(NumberedNode::new(1)));

    assert!(!list.is_empty());
}

#[test]
fn test_has_contents_after_push() {
    let mut list = ListNode::<Box<NumberedNode>>::new();

    list.push_front(Box::new(NumberedNode::new(1)));

    assert_eq!(list.front().unwrap().number, 1);
}

#[test]
fn test_head_tail_same_first_push() {
    let mut list = ListNode::<Box<NumberedNode>>::new();

    list.push_front(Box::new(NumberedNode::new(1)));

    assert_eq!(list.front().unwrap().number, 1);
    assert_eq!(list.back().unwrap().number, 1);
    assert_eq!(list.front().unwrap(), list.back().unwrap());
}

#[test]
fn test_contents_after_pushes() {
    let mut list = ListNode::<Box<NumberedNode>>::new();

    list.push_front(Box::new(NumberedNode::new(0)));
    list.push_front(Box::new(NumberedNode::new(1)));

    assert_eq!(list.back().unwrap().number, 0);
    assert_eq!(list.front().unwrap().number, 1);

    list.push_back(Box::new(NumberedNode::new(2)));
    assert_eq!(list.back().unwrap().number, 2);
    assert_eq!(list.front().unwrap().number, 1);

    list.push_back(Box::new(NumberedNode::new(3)));
    assert_eq!(list.back().unwrap().number, 3);
    assert_eq!(list.front().unwrap().number, 1);

    assert!(!list.is_empty());
}

#[test]
fn pops_come_from_the_right_ends() {
    let mut list = ListNode::<Box<NumberedNode>>::new();
    assert!(list.pop_front().is_none());
    assert!(list.pop_back().is_none());
    for n in 0..4 {
        list.push_back(Box::new(NumberedNode::new(n)));
    }
    assert_eq!(list.pop_front().unwrap().number, 0);
    assert_eq!(list.pop_back().unwrap().number, 3);
    assert_eq!(list.front().unwrap().number, 1);
    assert_eq!(list.back().unwrap().number, 2);
    assert_eq!(list.pop_back().unwrap().number, 2);
    assert_eq!(list.pop_back().unwrap().number, 1);
    assert!(list.is_empty());
    assert!(list.pop_back().is_none());
}

#[test]
fn push_then_pop_at_the_same_end_gives_the_node_back() {
    let mut list = ListNode::<Box<NumberedNode>>::new();
    list.push_back(Box::new(NumberedNode::new(7)));
    list.push_front(Box::new(NumberedNode::new(9)));
    assert_eq!(list.pop_front().unwrap().number, 9);
    list.push_back(Box::new(NumberedNode::new(5)));
    assert_eq!(list.pop_back().unwrap().number, 5);
    assert_eq!(list.front().unwrap().number, 7);
    assert_eq!(list.back().unwrap().number, 7);
}
