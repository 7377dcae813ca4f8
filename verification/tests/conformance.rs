use priorityqueue::conformance::{test_peek, test_pop, test_push};
use priorityqueue::heap::MinHeap;

#[test]
fn heap_passes_push_scenario() {
    assert!(test_push::<MinHeap<usize>>());
}

#[test]
fn heap_passes_pop_scenario() {
    assert!(test_pop::<MinHeap<usize>>());
}

#[test]
fn heap_passes_peek_scenario() {
    assert!(test_peek::<MinHeap<usize>>());
}
