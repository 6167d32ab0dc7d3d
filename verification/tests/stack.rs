use linked_lists::stack::List;

#[test]
#[allow(non_snake_case)]
fn ListA() {
    let mut list: List<i32> = List::new();
    list.push(1);
    list.push(2);
    list.push(3);
    if let Some(n) = list.pop().take() {
        assert_eq!(n.val, 3);
    }
    if let Some(n) = list.pop().take() {
        assert_eq!(n.val, 2);
    }
    if let Some(n) = list.pop().take() {
        assert_eq!(n.val, 1);
    }
    if let Some(_n) = list.pop().take() {
        assert!(false);
    } else {
        assert!(true);
    }
}

#[test]
fn stack_pops_in_reverse_order_of_pushes() {
    let mut list: List<u8> = List::new();
    for v in 0..10u8 {
        list.push(v);
    }
    for v in (0..10u8).rev() {
        let node = list.pop().expect("a node for every push");
        assert_eq!(node.val, v);
        assert!(node.next.is_none());
    }
    assert!(list.pop().is_none());
}

#[test]
fn stack_pop_on_empty_is_absent_and_repeatable() {
    let mut list: List<String> = List::new();
    assert!(list.pop().is_none());
    assert!(list.pop().is_none());
    list.push(String::from("a"));
    assert_eq!(list.pop().map(|n| n.val), Some(String::from("a")));
    assert!(list.pop().is_none());
}

#[test]
fn stack_interleaves_pushes_and_pops() {
    let mut list: List<i32> = List::new();
    list.push(1);
    list.push(2);
    assert_eq!(list.pop().map(|n| n.val), Some(2));
    list.push(3);
    assert_eq!(list.pop().map(|n| n.val), Some(3));
    assert_eq!(list.pop().map(|n| n.val), Some(1));
    assert!(list.pop().is_none());
}
