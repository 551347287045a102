use miniature_os::intrusive_linked_list::{IntrusiveLinkedList, Links};

#[test]
fn test_list() {
    let mut list = IntrusiveLinkedList::new();

    for i in 0..5u64 {
        list.push_back(0x1000 + i);
        assert_eq!(list.len(), (i + 1) as usize);
    }

    for i in 0..5u64 {
        let e = list.pop_front().unwrap();

        assert_eq!(e, 0x1000 + i);
    }

    assert!(list.pop_front().is_none());
    assert!(list.pop_back().is_none());

    list.push_back(0x1001);

    // 1 item in list => head == tail
    assert_eq!(list.front().unwrap(), list.back().unwrap());

    list.push_front(0x1002);

    assert_eq!(list.pop_back().unwrap(), 0x1001);
    assert_eq!(list.pop_front().unwrap(), 0x1002);
}

#[test]
fn removing_from_the_middle_keeps_the_order() {
    let mut list = IntrusiveLinkedList::new();
    for a in [10u64, 20, 30, 40] {
        list.push_back(a);
    }
    assert!(list.contains(30));
    assert_eq!(list.remove(30), Some(30));
    assert!(!list.contains(30));
    assert_eq!(list.iter(), vec![10, 20, 40]);
    assert_eq!(list.remove_checked(30), None);
    assert_eq!(list.remove(99), None);
    assert_eq!(list.remove(10), Some(10));
    assert_eq!(list.remove(40), Some(40));
    assert_eq!(list.iter(), vec![20]);
    assert_eq!(list.front(), Some(20));
    assert_eq!(list.back(), Some(20));
    assert!(!list.is_empty());
    assert_eq!(list.remove_checked(20), Some(20));
    assert!(list.is_empty());
}

#[test]
fn links_start_unlinked() {
    let links = Links::new();
    assert!(!links.is_linked());
    assert!(Links { next: Some(1), prev: None }.is_linked());
}
