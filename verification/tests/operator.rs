use strutters::operator::AssociativeOperator;
use strutters::operator::maximum;
use strutters::operator::minimum;
use strutters::operator::summation;

#[test]
fn summation_combines_by_wrapping_addition() {
    let operator = summation();
    assert_eq!(operator.combine(&2, &3), 5);
    assert_eq!(operator.combine(&-2, &-3), -5);
    assert_eq!(operator.combine(&i64::MAX, &1), i64::MIN);
    assert_eq!(operator.combine(&i64::MIN, &-1), i64::MAX);
}

#[test]
fn minimum_combines_by_order() {
    let operator = minimum();
    assert_eq!(operator.combine(&2, &3), 2);
    assert_eq!(operator.combine(&3, &2), 2);
    assert_eq!(operator.combine(&-7, &-7), -7);
}

#[test]
fn maximum_combines_by_order() {
    let operator = maximum();
    assert_eq!(operator.combine(&2, &3), 3);
    assert_eq!(operator.combine(&3, &2), 3);
    assert_eq!(operator.combine(&-7, &-7), -7);
}
