use geocode_csv::optional::reduce_discarding_nulls;

#[test]
fn two_values_are_reduced_and_one_is_kept() {
    let least = |a: u32, b: u32| a.min(b);
    assert_eq!(reduce_discarding_nulls(least, None, None), None);
    assert_eq!(reduce_discarding_nulls(least, Some(3), None), Some(3));
    assert_eq!(reduce_discarding_nulls(least, None, Some(4)), Some(4));
    assert_eq!(reduce_discarding_nulls(least, Some(3), Some(4)), Some(3));
    assert_eq!(reduce_discarding_nulls(least, Some(5), Some(4)), Some(4));
    assert_eq!(
        reduce_discarding_nulls(|a: String, b: String| a + &b, Some("a".to_owned()), Some("b".to_owned())),
        Some("ab".to_owned())
    );
    assert_eq!(
        reduce_discarding_nulls(f64::max, Some(1.5), Some(-2.0)),
        Some(1.5)
    );
}
