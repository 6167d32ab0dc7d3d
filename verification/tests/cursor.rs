use linked_lists::cursor::Inter;
use linked_lists::queue::List;

fn filled(values: &[i32]) -> List<i32> {
    let mut list = List::new();
    for v in values {
        list.push(*v);
    }
    list
}

#[test]
fn a_fresh_cursor_shows_the_first_value_before_any_advance() {
    let list = filled(&[1, 2, 3]);
    let mut cursor = list.IntoIter();
    let first = cursor.iter.expect("current node");
    assert_eq!(list.borrow(first).val, 1);

    let second = cursor.next(&list).expect("second node");
    assert_eq!(cursor.iter, Some(second));
    assert_eq!(list.borrow(second).val, 2);

    let third = cursor.next(&list).expect("third node");
    assert_eq!(cursor.iter, Some(third));
    assert_eq!(list.borrow(third).val, 3);

    assert!(cursor.next(&list).is_none());
    assert!(cursor.iter.is_none());
}

#[test]
fn an_exhausted_cursor_stays_exhausted() {
    let list = filled(&[1]);
    let mut cursor = list.IntoIter();
    assert!(cursor.next(&list).is_none());
    assert!(cursor.next(&list).is_none());
    assert!(cursor.next(&list).is_none());
    assert!(cursor.iter.is_none());
}

#[test]
fn a_cursor_on_an_empty_list_starts_nowhere() {
    let list: List<i32> = List::new();
    let mut cursor = list.IntoIter();
    assert!(cursor.iter.is_none());
    assert!(cursor.next(&list).is_none());
    assert!(cursor.iter.is_none());
}

#[test]
fn a_cursor_leaves_the_list_as_it_was() {
    let mut list = filled(&[4, 5, 6]);
    let head = list.head();
    let tail = list.tail();
    let mut cursor = list.IntoIter();
    while cursor.next(&list).is_some() {}
    assert_eq!(list.head(), head);
    assert_eq!(list.tail(), tail);
    assert_eq!(list.pop_front_val(), Some(4));
    assert_eq!(list.pop_front_val(), Some(5));
    assert_eq!(list.pop_front_val(), Some(6));
    assert_eq!(list.pop_front_val(), None);
}

#[test]
fn cursors_walk_independently() {
    let list = filled(&[1, 2, 3]);
    let mut a = list.IntoIter();
    let mut b = list.IntoIter();
    let a1 = a.next(&list).expect("second node");
    let a2 = a.next(&list).expect("third node");
    assert_eq!(list.borrow(a2).val, 3);
    let b0 = b.iter.expect("first node");
    assert_eq!(list.borrow(b0).val, 1);
    assert_eq!(b.next(&list), Some(a1));
    assert_eq!(b.next(&list), Some(a2));
    assert!(a.next(&list).is_none());
    assert!(b.next(&list).is_none());
}

#[test]
fn a_cursor_is_restarted_by_asking_for_a_new_one() {
    let list = filled(&[1, 2]);
    let mut cursor = list.IntoIter();
    while cursor.next(&list).is_some() {}
    assert!(cursor.iter.is_none());
    let again = list.IntoIter();
    assert_eq!(again.iter, list.head());
    assert_eq!(list.borrow(again.iter.expect("first node")).val, 1);
}

#[test]
fn a_cursor_keeps_sight_of_a_node_that_was_removed() {
    let mut list = filled(&[1, 2, 3]);
    let mut cursor = list.IntoIter();
    let first = cursor.iter.expect("first node");
    assert_eq!(list.pop_front(), Some(first));
    assert_eq!(list.borrow(first).val, 1);
    assert!(cursor.next(&list).is_none());
    assert!(cursor.iter.is_none());
    assert_eq!(list.peek_front(), Some(2));
}

#[test]
fn a_cursor_past_a_removed_node_walks_on() {
    let mut list = filled(&[1, 2, 3]);
    let mut cursor = list.IntoIter();
    let second = cursor.next(&list).expect("second node");
    assert_eq!(list.pop_front_val(), Some(1));
    assert_eq!(list.borrow(second).val, 2);
    let third = cursor.next(&list).expect("third node");
    assert_eq!(list.borrow(third).val, 3);
    assert!(cursor.next(&list).is_none());
}

#[test]
fn a_cursor_can_be_placed_on_any_link_of_the_list() {
    let list = filled(&[1, 2, 3]);
    let mut cursor = Inter { iter: list.tail() };
    assert_eq!(list.borrow(cursor.iter.expect("tail node")).val, 3);
    assert!(cursor.next(&list).is_none());
}

#[test]
fn a_cursor_on_a_node_the_list_does_not_own_has_nowhere_to_go() {
    let long = filled(&[1, 2, 3]);
    let short = filled(&[9]);
    let mut cursor = Inter { iter: long.tail() };
    assert!(!short.owns(cursor.iter.expect("tail node")));
    assert!(cursor.next(&short).is_none());
    assert!(cursor.iter.is_none());
}

#[test]
fn a_cursor_on_the_tail_sees_a_node_pushed_later() {
    let mut list = filled(&[1]);
    let mut cursor = list.IntoIter();
    list.push(2);
    let second = cursor.next(&list).expect("second node");
    assert_eq!(list.borrow(second).val, 2);
    assert!(cursor.next(&list).is_none());
}
