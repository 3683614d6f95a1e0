use dsl_frontend::lookahead_iterator::{LookAheadIterator, ToLookaheadIterator};

#[test]
fn peek_does_not_consume() {
    let it = LookAheadIterator::new(vec![10, 20, 30]);
    assert_eq!(it.peek(), Some(&10));
    assert_eq!(it.peek(), Some(&10));
}

#[test]
fn lookahead_reads_ahead_without_consuming() {
    let it = LookAheadIterator::new(vec![10, 20, 30]);
    assert_eq!(it.lookahead(0), Some(&10));
    assert_eq!(it.lookahead(2), Some(&30));
    assert_eq!(it.lookahead(3), None);
    assert_eq!(it.peek(), Some(&10));
}

#[test]
fn next_consumes_in_order_until_exhausted() {
    let mut it = LookAheadIterator::new(vec![10, 20]);
    assert_eq!(it.next(), Some(10));
    assert_eq!(it.peek(), Some(&20));
    assert_eq!(it.next(), Some(20));
    assert_eq!(it.next(), None);
    assert_eq!(it.next(), None);
    assert_eq!(it.peek(), None);
}

#[test]
fn empty_iterator_has_nothing() {
    let mut it = LookAheadIterator::new(Vec::<u8>::new());
    assert_eq!(it.peek(), None);
    assert_eq!(it.lookahead(5), None);
    assert_eq!(it.next(), None);
}

#[test]
fn vec_converts_to_lookahead_iterator() {
    let mut it = vec![1, 2, 3].to_lookahead_iter();
    assert_eq!(it.next(), Some(1));
    assert_eq!(it.lookahead(1), Some(&3));
    assert_eq!(it.next(), Some(2));
    assert_eq!(it.next(), Some(3));
    assert_eq!(it.next(), None);
}
