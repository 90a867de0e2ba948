use sudoku_rust::digit::{self, Digit};
use sudoku_rust::variants::Variants;

fn digit_at(index: u8) -> Digit {
    Digit::from_index(index).unwrap()
}

#[test]
fn test_count() {
    let mut v = Variants::new();
    assert_eq!(v.count(), 0);
    v |= digit_at(digit::ONE);
    assert_eq!(v.count(), 1);
    v |= digit_at(digit::NINE);
    assert_eq!(v.count(), 2);
    v |= digit_at(digit::ONE); // already there
    assert_eq!(v.count(), 2);
}

#[test]
fn union_and_symmetric_difference() {
    let a = Variants::from_bits(0b000_000_111).unwrap();
    let b = Variants::from_bits(0b000_110_100).unwrap();
    assert_eq!(a | b, Variants::from_bits(0b000_110_111).unwrap());
    assert_eq!(a ^ b, Variants::from_bits(0b000_110_011).unwrap());
    assert_eq!(a.union(b), a | b);
    assert_eq!(a.symmetric_difference(b), a ^ b);
    let mut c = a;
    c ^= b;
    assert_eq!(c, a ^ b);
    c ^= digit_at(digit::ONE);
    assert_eq!(c, Variants::from_bits(0b000_110_010).unwrap());
}

#[test]
fn from_digit_is_a_singleton() {
    let d = digit_at(digit::FOUR);
    let v = Variants::from(d);
    assert_eq!(u64::from(v), 0b1000);
    assert_eq!(v.count(), 1);
    assert!(v.has_digit(d));
    assert!(!v.has_digit(digit_at(digit::THREE)));
    assert_eq!(v.to_digit(), Ok(d));
    assert_eq!(Variants::from_digit(d), v);
}

#[test]
fn to_digit_errors() {
    assert_eq!(Variants::new().to_digit(), Err("no variants"));
    assert_eq!(Variants::any().to_digit(), Err("multiple variants"));
    assert_eq!(Variants::from_bits(0x180).unwrap().to_digit(), Err("multiple variants"));
    assert_eq!(Variants::from_bits(0x100).unwrap().to_digit(), Ok(digit_at(digit::NINE)));
}

#[test]
fn from_bits_rejects_wide_values() {
    assert_eq!(Variants::from_bits(0x200), Err("value too large"));
    assert_eq!(Variants::try_from(0x3ffu64), Err("value too large"));
    assert_eq!(Variants::from_bits(0x1ff), Ok(Variants::any()));
    assert_eq!(Variants::any().to_bits(), 0x1ff);
    assert_eq!(Variants::any().count(), 9);
}

#[test]
fn or_assign_with_present_digit_changes_nothing() {
    let mut v = Variants::new() | digit_at(digit::ONE) | digit_at(digit::NINE);
    let before = v;
    v |= digit_at(digit::ONE);
    assert_eq!(v, before);
    assert_eq!(v.count(), 2);
}
