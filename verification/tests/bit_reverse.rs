use alice_audio::bit_reverse::bit_reverse_permutation;

#[test]
fn bit_reverse_of_eight_elements() {
    let mut v = [0usize, 1, 2, 3, 4, 5, 6, 7];
    bit_reverse_permutation(&mut v);
    assert_eq!(v, [0, 4, 2, 6, 1, 5, 3, 7]);
}

#[test]
fn bit_reverse_of_four_elements() {
    let mut v = ['a', 'b', 'c', 'd'];
    bit_reverse_permutation(&mut v);
    assert_eq!(v, ['a', 'c', 'b', 'd']);
}

#[test]
fn bit_reverse_of_sixteen_elements() {
    let mut v: Vec<u32> = (0..16).collect();
    bit_reverse_permutation(&mut v);
    assert_eq!(v, vec![0, 8, 4, 12, 2, 10, 6, 14, 1, 9, 5, 13, 3, 11, 7, 15]);
}

#[test]
fn bit_reverse_of_one_and_two_elements_is_identity() {
    let mut one = [9.5f64];
    bit_reverse_permutation(&mut one);
    assert_eq!(one, [9.5]);
    let mut two = [1.0f64, 2.0];
    bit_reverse_permutation(&mut two);
    assert_eq!(two, [1.0, 2.0]);
}

#[test]
fn bit_reverse_twice_is_identity() {
    let orig: Vec<u64> = (0..64).map(|i| i * 3 + 1).collect();
    let mut v = orig.clone();
    bit_reverse_permutation(&mut v);
    assert_ne!(v, orig);
    bit_reverse_permutation(&mut v);
    assert_eq!(v, orig);
}
