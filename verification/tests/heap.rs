use priorityqueue::heap::{pop, push, MinHeap};
use priorityqueue::queue::PriorityQueue;

// A fixed shuffle of 0..n: multiplying by a unit modulo n permutes the residues.
fn shuffled(n: u64, unit: u64) -> Vec<u64> {
    (0..n).map(|i| (i * unit + 7) % n).collect()
}

#[test]
fn size_counts_pushes() {
    let mut queue: MinHeap<u64> = MinHeap::new();
    assert_eq!(queue.size(), 0);
    for (done, value) in shuffled(100, 37).into_iter().enumerate() {
        queue.push(value);
        assert_eq!(queue.size(), done + 1);
    }
    assert_eq!(queue.size(), 100);
}

#[test]
fn pops_come_smallest_first() {
    let mut queue: MinHeap<usize> = MinHeap::new();
    queue.push(3);
    queue.push(2);
    queue.push(4);
    assert_eq!(queue.pop(), Some(2));
    assert_eq!(queue.size(), 2);
    assert_eq!(queue.pop(), Some(3));
    assert_eq!(queue.size(), 1);
    assert_eq!(queue.pop(), Some(4));
    assert_eq!(queue.size(), 0);
}

#[test]
fn popping_empty_queue_stays_absent() {
    let mut queue: MinHeap<usize> = MinHeap::new();
    for _ in 0..5 {
        assert_eq!(queue.pop(), None);
        assert_eq!(queue.size(), 0);
        assert!(queue.is_empty());
    }
    queue.push(9);
    assert_eq!(queue.pop(), Some(9));
    for _ in 0..5 {
        assert_eq!(queue.pop(), None);
        assert_eq!(queue.size(), 0);
    }
}

#[test]
fn peek_shows_minimum_and_keeps_size() {
    let mut queue: MinHeap<usize> = MinHeap::new();
    assert_eq!(queue.peek(), None);
    queue.push(3);
    queue.push(2);
    queue.push(4);
    assert_eq!(queue.peek(), Some(&2));
    assert_eq!(queue.size(), 3);
    assert_eq!(queue.peek(), Some(&2));
    assert_eq!(queue.size(), 3);
}

#[test]
fn peek_agrees_with_next_pop() {
    let mut queue: MinHeap<u64> = MinHeap::new();
    for value in shuffled(64, 27) {
        queue.push(value);
    }
    while !queue.is_empty() {
        let top = *queue.peek().unwrap();
        assert_eq!(queue.pop(), Some(top));
    }
    assert_eq!(queue.peek(), None);
}

#[test]
fn shuffled_distinct_values_come_back_sorted() {
    let mut queue: MinHeap<u64> = MinHeap::new();
    for value in shuffled(1000, 389) {
        queue.push(value);
    }
    let mut out = Vec::new();
    for _ in 0..1000 {
        out.push(queue.pop().unwrap());
    }
    let expected: Vec<u64> = (0..1000).collect();
    assert_eq!(out, expected);
    assert_eq!(queue.pop(), None);
}

#[test]
fn popped_values_are_the_pushed_values() {
    let pushed: Vec<i32> = vec![5, -1, 5, 0, 7, -1, -1, 3, 5, 0];
    let mut queue: MinHeap<i32> = MinHeap::new();
    for value in pushed.iter() {
        queue.push(*value);
    }
    let mut out = Vec::new();
    while let Some(value) = queue.pop() {
        out.push(value);
    }
    assert_eq!(out, vec![-1, -1, -1, 0, 0, 3, 5, 5, 5, 7]);
    let mut sorted = pushed.clone();
    sorted.sort();
    assert_eq!(out, sorted);
}

#[test]
fn is_empty_means_size_zero() {
    let mut queue: MinHeap<u32> = MinHeap::new();
    assert_eq!(queue.is_empty(), queue.size() == 0);
    assert!(queue.is_empty());
    for value in [8u32, 1, 6] {
        queue.push(value);
        assert_eq!(queue.is_empty(), queue.size() == 0);
        assert!(!queue.is_empty());
    }
    for _ in 0..4 {
        queue.pop();
        assert_eq!(queue.is_empty(), queue.size() == 0);
    }
    assert!(queue.is_empty());
}

#[test]
fn interleaved_pushes_and_pops() {
    let mut queue: MinHeap<i64> = MinHeap::new();
    queue.push(10);
    queue.push(-4);
    assert_eq!(queue.pop(), Some(-4));
    queue.push(7);
    queue.push(12);
    queue.push(-9);
    assert_eq!(queue.size(), 4);
    assert_eq!(queue.pop(), Some(-9));
    assert_eq!(queue.pop(), Some(7));
    queue.push(11);
    assert_eq!(queue.pop(), Some(10));
    assert_eq!(queue.pop(), Some(11));
    assert_eq!(queue.pop(), Some(12));
    assert_eq!(queue.pop(), None);
}

#[test]
fn free_functions_push_and_pop() {
    let mut queue: MinHeap<u64> = MinHeap::default();
    push(&mut queue, 6);
    push(&mut queue, 1);
    push(&mut queue, 6);
    push(&mut queue, 3);
    assert_eq!(queue.size(), 4);
    assert_eq!(pop(&mut queue), Some(1));
    assert_eq!(pop(&mut queue), Some(3));
    assert_eq!(pop(&mut queue), Some(6));
    assert_eq!(pop(&mut queue), Some(6));
    assert_eq!(pop(&mut queue), None);
}

#[test]
fn default_heap_is_empty() {
    let queue: MinHeap<usize> = MinHeap::default();
    assert!(queue.is_empty());
    assert_eq!(queue.size(), 0);
    assert_eq!(queue.peek(), None);
}

#[test]
fn sorted_and_reversed_input() {
    let mut up: MinHeap<u64> = MinHeap::new();
    let mut down: MinHeap<u64> = MinHeap::new();
    for value in 0..50u64 {
        up.push(value);
        down.push(49 - value);
    }
    for value in 0..50u64 {
        assert_eq!(up.pop(), Some(value));
        assert_eq!(down.pop(), Some(value));
    }
}
