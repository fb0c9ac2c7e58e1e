use strutters::math::greatest_common_divisor;
use strutters::operator::GcdOperator;
use strutters::query::SparseTable;
use strutters::operator::summation;

#[test]
fn sparse_table_test() {
    let data: Vec<u64> = vec![6, 12, 24, 36, 36];
    let table = SparseTable::compute(data, GcdOperator);
    assert_eq!(table.query(0, 1), 6);
    assert_eq!(table.query(0, 4), 6);
    assert_eq!(table.query(3, 4), 36);
    assert_eq!(table.query(2, 4), 12);
    assert_eq!(table.query(1, 3), 12);
}

#[test]
fn sparse_table_matches_direct_gcd() {
    let data: Vec<u64> = vec![8, 12, 20, 7, 14];
    let table = SparseTable::compute(data.clone(), GcdOperator);
    for right in 0..data.len() {
        for left in 0..=right {
            let mut expected = data[left];
            for index in left + 1..=right {
                expected = greatest_common_divisor(expected, data[index]);
            }
            assert_eq!(table.query(left, right), expected);
        }
    }
}

#[test]
fn sparse_table_sums() {
    let data: Vec<i64> = vec![1, 2, 3, 4, 5, 6, 7];
    let table = SparseTable::compute(data, summation());
    assert_eq!(table.query(0, 6), 28);
    assert_eq!(table.query(0, 4), 15);
    assert_eq!(table.query(2, 5), 18);
    assert_eq!(table.query(3, 3), 4);
}
