use kstd::collections::deltaq::{DeltaQueue, Node};

fn nodes<T: Clone>(q: &DeltaQueue<T>) -> Vec<Node<T>> {
    (0..q.len())
        .map(|i| {
            let node = q.index(i);
            Node::new(node.value, node.elem.clone())
        })
        .collect()
}

#[test]
fn test_simple_insert() {
    let mut q = DeltaQueue::new();
    assert_eq!(0, q.len());

    q.insert(0, "hello");
    assert_eq!(1, q.len());
}

#[test]
fn test_insert_in_order() {
    let mut q = DeltaQueue::new();

    q.insert(3, "three");
    q.insert(5, "five");
    q.insert(9, "nine");

    assert_eq!(
        vec![
            Node::new(3, "three"),
            Node::new(2, "five"),
            Node::new(4, "nine"),
        ],
        nodes(&q)
    );
}

#[test]
fn test_insert_reverse_order() {
    let mut q = DeltaQueue::new();

    q.insert(9, "nine");
    q.insert(5, "five");
    q.insert(3, "three");

    assert_eq!(
        vec![
            Node::new(3, "three"),
            Node::new(2, "five"),
            Node::new(4, "nine"),
        ],
        nodes(&q)
    );
}

#[test]
fn test_insert_no_order() {
    let mut q = DeltaQueue::new();

    q.insert(3, "three");
    q.insert(6, "six");
    q.insert(5, "five");
    q.insert(9, "nine");
    q.insert(4, "four");

    assert_eq!(
        vec![
            Node::new(3, "three"),
            Node::new(1, "four"),
            Node::new(1, "five"),
            Node::new(1, "six"),
            Node::new(3, "nine"),
        ],
        nodes(&q)
    );
}

#[test]
fn test_insert_duplicates() {
    let mut q = DeltaQueue::new();

    q.insert(3, "three");
    q.insert(5, "five");
    q.insert(5, "five");
    q.insert(5, "five");
    q.insert(6, "six");
    q.insert(9, "nine");

    assert_eq!(
        vec![
            Node::new(3, "three"),
            Node::new(2, "five"),
            Node::new(0, "five"),
            Node::new(0, "five"),
            Node::new(1, "six"),
            Node::new(3, "nine"),
        ],
        nodes(&q)
    );
}

#[test]
fn test_insert_duplicates_different_values() {
    let mut q = DeltaQueue::new();

    q.insert(5, "five1");
    q.insert(5, "five2");
    q.insert(5, "five3");

    assert_eq!(
        vec![
            Node::new(5, "five3"),
            Node::new(0, "five2"),
            Node::new(0, "five1"),
        ],
        nodes(&q)
    );
}

#[test]
fn test_insert_many() {
    let limit = 1000;
    let mut q = DeltaQueue::with_capacity(limit);

    for i in (0..limit).rev() {
        q.insert(i + 1, i);
        assert_eq!(limit - i, q.len());
    }

    for i in 0..limit {
        let front = q.index(0);
        assert_eq!(1, front.value);
        assert_eq!(i, front.elem);
        assert_eq!(Some(i), q.pop_front());
    }
}

#[test]
fn test_insert_returns_the_inserted_element() {
    let mut q = DeltaQueue::new();
    q.insert(4, 40);
    *q.insert(2, 20) += 1;
    assert_eq!(vec![Node::new(2, 21), Node::new(2, 40)], nodes(&q));
}

#[test]
fn test_front_and_front_mut() {
    let mut q: DeltaQueue<u8> = DeltaQueue::default();
    assert!(q.is_empty());
    assert_eq!(None, q.front());
    assert!(q.front_mut().is_none());
    assert_eq!(None, q.pop_front());

    q.insert(7, 1);
    q.insert(9, 2);
    assert!(!q.is_empty());
    assert_eq!(Some(&Node::new(7, 1)), q.front());
    q.front_mut().unwrap().value -= 3;
    q.index_mut(1).elem = 5;
    assert_eq!(vec![Node::new(4, 1), Node::new(2, 5)], nodes(&q));
    assert_eq!(Some(1), q.pop_front());
    assert_eq!(vec![Node::new(2, 5)], nodes(&q));
}
