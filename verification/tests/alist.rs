use axel::alist::{AList, Get, Link, Node};

fn values(list: &AList<usize>, nodes: &Vec<Node<usize>>) -> Vec<usize> {
    let mut out = Vec::new();
    let mut link = list.head;
    while let Some(i) = link {
        out.push(*nodes[i].get());
        link = nodes[i].next;
    }
    out
}

fn values_backwards(list: &AList<usize>, nodes: &Vec<Node<usize>>) -> Vec<usize> {
    let mut out = Vec::new();
    let mut link = list.tail;
    while let Some(i) = link {
        out.push(*nodes[i].get());
        link = nodes[i].prev;
    }
    out
}

#[test]
fn test_get() {
    let mut n1 = Node::new(0usize);
    assert_eq!(*n1.get(), 0);
    *n1.get_mut() = 10;
    assert_eq!(*n1.get(), 10);
}

#[test]
fn test_iters() {
    const N: usize = 100;
    let mut nodes: Vec<Node<usize>> = Vec::new();
    for _ in 0..N {
        nodes.push(Node::new(usize::MAX));
    }
    for i in 0..nodes.len() {
        nodes[i].init(i);
    }

    let mut list = AList::<usize>::new();
    let mut cnt = 0;
    for i in 0..N {
        assert_eq!(cnt, *nodes[i].get());
        cnt += 1;

        list.push_front(&mut nodes, i);
    }

    assert_eq!(list.len(&nodes), N);

    cnt = N;
    let mut link = list.head;
    while let Some(i) = link {
        cnt -= 1;
        assert_eq!(*nodes[i].get(), cnt);
        assert_eq!(i, cnt);
        link = nodes[i].next;
    }
    assert_eq!(cnt, 0);
}

#[test]
fn test_is_empty() {
    let list = AList::<usize>::new();
    assert_eq!(list.is_empty(), true);
}

#[test]
fn alist_test_push_front() {
    let mut nodes = vec![Node::new(0usize), Node::new(1usize)];
    let mut list = AList::<usize>::new();
    list.push_front(&mut nodes, 0);

    assert_eq!(list.is_empty(), false);
    assert_eq!(list.len(&nodes), 1);
    assert_eq!(list.head.get(&nodes).unwrap().value, list.tail.get(&nodes).unwrap().value);

    list.push_front(&mut nodes, 1);
    assert_eq!(
        list.head.get(&nodes).unwrap().value,
        list.tail.get(&nodes).unwrap().prev.get(&nodes).unwrap().value
    );
    assert_eq!(values(&list, &nodes), vec![1, 0]);
    assert_eq!(values_backwards(&list, &nodes), vec![0, 1]);
}

#[test]
fn alist_test_push_back() {
    let mut nodes = vec![Node::new(0usize), Node::new(1usize)];
    let mut list = AList::<usize>::new();
    list.push_back(&mut nodes, 0);

    assert_eq!(list.is_empty(), false);
    assert_eq!(list.len(&nodes), 1);
    assert_eq!(list.head.get(&nodes).unwrap().value, list.tail.get(&nodes).unwrap().value);

    list.push_back(&mut nodes, 1);
    assert_eq!(
        list.head.get(&nodes).unwrap().value,
        list.tail.get(&nodes).unwrap().prev.get(&nodes).unwrap().value
    );
    assert_eq!(values(&list, &nodes), vec![0, 1]);
    assert_eq!(values_backwards(&list, &nodes), vec![1, 0]);
}

#[test]
fn test_front_back() {
    let mut nodes = vec![Node::new(0usize), Node::new(1usize)];
    let mut list = AList::<usize>::new();
    list.push_front(&mut nodes, 0);
    list.push_front(&mut nodes, 1);

    assert_eq!(list.front(&nodes), Some(&1));
    assert_eq!(list.back(&nodes), Some(&0));
}

#[test]
fn test_front_back_mut() {
    let mut nodes = vec![Node::new(0usize), Node::new(1usize)];
    let mut list = AList::<usize>::new();
    list.push_front(&mut nodes, 0);
    list.push_front(&mut nodes, 1);

    *(list.front_mut(&mut nodes).unwrap()) = 100;
    *(list.back_mut(&mut nodes).unwrap()) = 200;

    assert_eq!(list.front(&nodes), Some(&100));
    assert_eq!(list.back(&nodes), Some(&200));
    assert_eq!(values(&list, &nodes), vec![100, 200]);
}

#[test]
fn alist_test_pop_front() {
    let mut nodes = vec![Node::new(0usize), Node::new(1usize), Node::new(2usize)];
    let mut list = AList::<usize>::new();
    list.push_front(&mut nodes, 0);
    list.push_front(&mut nodes, 1);
    list.push_front(&mut nodes, 2);

    assert_eq!(list.len(&nodes), 3);
    let popped = list.pop_front(&mut nodes).unwrap();
    assert_eq!(nodes[popped].get(), nodes[2].get());
    assert_eq!(popped, 2);
    assert_eq!(list.len(&nodes), 2);
    let popped = list.pop_front(&mut nodes).unwrap();
    assert_eq!(nodes[popped].get(), nodes[1].get());
    assert_eq!(popped, 1);
    assert_eq!(list.len(&nodes), 1);
    let popped = list.pop_back(&mut nodes).unwrap();
    assert_eq!(nodes[popped].get(), nodes[0].get());
    assert_eq!(popped, 0);
    assert_eq!(list.len(&nodes), 0);
    assert_eq!(list.pop_front(&mut nodes).is_none(), true);
}

#[test]
fn test_pop_back() {
    let mut nodes = vec![Node::new(0usize), Node::new(1usize), Node::new(2usize)];
    let mut list = AList::<usize>::new();
    list.push_front(&mut nodes, 0);
    list.push_front(&mut nodes, 1);
    list.push_front(&mut nodes, 2);

    assert_eq!(list.len(&nodes), 3);
    let popped = list.pop_back(&mut nodes).unwrap();
    assert_eq!(nodes[popped].get(), nodes[0].get());
    assert_eq!(popped, 0);
    assert_eq!(list.len(&nodes), 2);
    let popped = list.pop_back(&mut nodes).unwrap();
    assert_eq!(nodes[popped].get(), nodes[1].get());
    assert_eq!(popped, 1);
    assert_eq!(list.len(&nodes), 1);
    let popped = list.pop_front(&mut nodes).unwrap();
    assert_eq!(nodes[popped].get(), nodes[2].get());
    assert_eq!(popped, 2);
    assert_eq!(list.len(&nodes), 0);
    assert_eq!(list.pop_back(&mut nodes).is_none(), true);
}

#[test]
fn test_disjoint() {
    let mut nodes = vec![Node::new(0usize), Node::new(1usize), Node::new(2usize)];
    let mut list = AList::<usize>::new();
    list.push_front(&mut nodes, 0);
    list.push_front(&mut nodes, 1);
    list.push_front(&mut nodes, 2);

    assert_eq!(list.len(&nodes), 3);
    Node::disjoint(&mut nodes, 1, &mut list);
    assert_eq!(list.len(&nodes), 2);

    let mut i = 0;
    let ans = [2, 0];
    for v in values(&list, &nodes) {
        assert_eq!(v, ans[i]);
        i += 1;
    }
    assert_eq!(i, 2);
}

#[test]
fn alist_popped_node_can_be_linked_again() {
    let mut nodes = vec![Node::new(7usize), Node::new(8usize), Node::new(9usize)];
    let mut list = AList::<usize>::new();
    list.push_back(&mut nodes, 0);
    list.push_back(&mut nodes, 1);
    list.push_back(&mut nodes, 2);
    let first = list.pop_front(&mut nodes).unwrap();
    assert_eq!(first, 0);
    assert!(nodes[0].next.is_none() && nodes[0].prev.is_none());
    assert_eq!(list.head, Some(1));
    assert_eq!(nodes[1].prev, None);
    list.push_back(&mut nodes, first);
    assert_eq!(values(&list, &nodes), vec![8, 9, 7]);
    assert_eq!(values_backwards(&list, &nodes), vec![7, 9, 8]);
}

#[test]
fn alist_disjoint_at_the_ends_moves_them() {
    let mut nodes = vec![Node::new(0usize), Node::new(1usize), Node::new(2usize)];
    let mut list = AList::<usize>::new();
    list.push_back(&mut nodes, 0);
    list.push_back(&mut nodes, 1);
    list.push_back(&mut nodes, 2);
    Node::disjoint(&mut nodes, 0, &mut list);
    assert_eq!(list.head, Some(1));
    assert_eq!(values(&list, &nodes), vec![1, 2]);
    Node::disjoint(&mut nodes, 2, &mut list);
    assert_eq!(list.tail, Some(1));
    assert_eq!(values(&list, &nodes), vec![1]);
    Node::disjoint(&mut nodes, 1, &mut list);
    assert!(list.is_empty());
    assert_eq!(list.len(&nodes), 0);
    assert_eq!(list.front(&nodes), None);
    assert_eq!(list.back(&nodes), None);
}

#[test]
fn alist_two_lists_share_one_array() {
    let mut nodes = vec![Node::new(0usize), Node::new(1usize), Node::new(2usize), Node::new(3usize)];
    let mut even = AList::<usize>::new();
    let mut odd = AList::<usize>::new();
    even.push_back(&mut nodes, 0);
    odd.push_back(&mut nodes, 1);
    even.push_back(&mut nodes, 2);
    odd.push_back(&mut nodes, 3);
    assert_eq!(values(&even, &nodes), vec![0, 2]);
    assert_eq!(values(&odd, &nodes), vec![1, 3]);
    let moved = even.pop_front(&mut nodes).unwrap();
    odd.push_front(&mut nodes, moved);
    assert_eq!(values(&even, &nodes), vec![2]);
    assert_eq!(values(&odd, &nodes), vec![0, 1, 3]);
}

#[test]
fn alist_links_lead_to_their_nodes() {
    let mut nodes = vec![Node::new(3usize), Node::new(4usize)];
    let nothing: Link = None;
    assert!(nothing.get(&nodes).is_none());
    assert!(nothing.get_mut(&mut nodes).is_none());
    let second: Link = Some(1);
    assert_eq!(second.get(&nodes).unwrap().value, 4);
    *second.get_mut(&mut nodes).unwrap().get_mut() = 40;
    assert_eq!(nodes[1].value, 40);
    assert_eq!(nodes[0].value, 3);
}
