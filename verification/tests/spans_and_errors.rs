use exprfront::error::aggregate_error;
use exprfront::span::Span;

#[test]
fn span_new_carries_its_fields() {
    let s = Span::new(7u8, 2, 5);
    assert_eq!(s.note, 7);
    assert_eq!(s.from, 2);
    assert_eq!(s.to, 5);
}

#[test]
fn fit_from_rebases_onto_the_root() {
    let inner = Span::new(7u8, 2, 5);
    assert_eq!(inner.fit_from(10), Span::new(7u8, 12, 15));
}

#[test]
fn aggregate_error_pairs_successes() {
    let r: Result<(u32, u32), Vec<u32>> = aggregate_error(Ok(1), Ok(2));
    assert_eq!(r, Ok((1, 2)));
}

#[test]
fn aggregate_error_keeps_the_failing_side() {
    let r: Result<(u32, u32), Vec<u32>> = aggregate_error(Err(vec![9]), Ok(2));
    assert_eq!(r, Err(vec![9]));
    let r: Result<(u32, u32), Vec<u32>> = aggregate_error(Ok(1), Err(vec![8]));
    assert_eq!(r, Err(vec![8]));
}

#[test]
fn aggregate_error_concatenates_left_first() {
    let r: Result<(u32, u32), Vec<u32>> = aggregate_error(Err(vec![1, 2]), Err(vec![3]));
    assert_eq!(r, Err(vec![1, 2, 3]));
}
