use bevy_ggrs::checksum::checksum;
use bevy_ggrs::checksum::fnv1a_extend;
use bevy_ggrs::checksum::FNV_OFFSET_BASIS;
use bevy_ggrs::checksum::FNV_PRIME;

#[test]
fn checksum_of_nothing_is_the_offset_basis() {
    assert_eq!(checksum(&Vec::new()), 0xcbf2_9ce4_8422_2325);
    assert_eq!(FNV_OFFSET_BASIS, 0xcbf2_9ce4_8422_2325);
    assert_eq!(FNV_PRIME, 0x0000_0100_0000_01b3);
}

#[test]
fn checksum_of_known_inputs() {
    assert_eq!(checksum(&b"a".to_vec()), 0xaf63_dc4c_8601_ec8c);
    assert_eq!(checksum(&b"foobar".to_vec()), 0x8594_4171_f739_67e8);
}

#[test]
fn checksum_of_one_byte_is_one_step() {
    let expected: u64 = (FNV_OFFSET_BASIS ^ 0x61).wrapping_mul(FNV_PRIME);
    assert_eq!(checksum(&vec![0x61]), expected);
}

#[test]
fn checksum_can_be_continued() {
    let whole = checksum(&b"foobar".to_vec());
    let first = checksum(&b"foo".to_vec());
    assert_eq!(fnv1a_extend(first, &b"bar".to_vec()), whole);
    assert_eq!(fnv1a_extend(first, &Vec::new()), first);
}

#[test]
fn checksum_depends_on_byte_order() {
    assert_ne!(checksum(&vec![1, 2]), checksum(&vec![2, 1]));
}
