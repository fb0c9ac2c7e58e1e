use strutters::tree::functions::extend_inclusive;
use strutters::tree::functions::extend_until;
use strutters::tree::functions::split_range;

#[test]
fn test_extend_until() {
    let mut vector = vec![30, 15];
    extend_until(&mut vector, 10, 1337);
    assert_eq!(vector[0], 30);
    assert_eq!(vector[1], 15);
    for index in 2..10 {
        assert_eq!(vector[index], 1337);
    }
    assert_eq!(vector.len(), 10);
}

#[test]
fn test_split_range() {
    assert_eq!(split_range(0, 7), (3, 4));
    assert_eq!(split_range(10, 19), (14, 15))
}

#[test]
fn extend_until_never_shrinks() {
    let mut vector = vec![1, 2, 3];
    extend_until(&mut vector, 2, 9);
    assert_eq!(vector, vec![1, 2, 3]);
}

#[test]
fn extend_inclusive_reaches_index() {
    let mut vector: Vec<u8> = Vec::new();
    extend_inclusive(&mut vector, 4, 7);
    assert_eq!(vector.len(), 5);
    assert_eq!(vector[4], 7);
}
