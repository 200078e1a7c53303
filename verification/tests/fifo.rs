use mypaint::fifo::{fifo_free, fifo_new, fifo_peek_first, fifo_peek_last, fifo_pop, fifo_push};

#[test]
fn fifo_first_in_first_out() {
    let mut q = fifo_new();
    assert_eq!(fifo_pop(&mut q), None);
    assert_eq!(fifo_peek_first(&q), None);
    assert_eq!(fifo_peek_last(&q), None);
    fifo_push(&mut q, 1);
    fifo_push(&mut q, 2);
    fifo_push(&mut q, 3);
    assert_eq!(fifo_peek_first(&q), Some(&1));
    assert_eq!(fifo_peek_last(&q), Some(&3));
    assert_eq!(fifo_pop(&mut q), Some(1));
    fifo_push(&mut q, 4);
    assert_eq!(fifo_pop(&mut q), Some(2));
    assert_eq!(fifo_pop(&mut q), Some(3));
    assert_eq!(fifo_peek_first(&q), Some(&4));
    assert_eq!(fifo_peek_last(&q), Some(&4));
    assert_eq!(fifo_pop(&mut q), Some(4));
    assert_eq!(fifo_pop(&mut q), None);
}

#[test]
fn fifo_free_hands_back_payloads_in_order() {
    let mut q = fifo_new();
    for s in ["a", "b", "c"] {
        fifo_push(&mut q, s.to_string());
    }
    assert_eq!(fifo_pop(&mut q), Some("a".to_string()));
    assert_eq!(fifo_free(q), vec!["b".to_string(), "c".to_string()]);
    let empty: Vec<u8> = fifo_free(fifo_new());
    assert!(empty.is_empty());
}
