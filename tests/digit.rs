use sudoku_rust::digit::{self, Digit};

#[test]
fn digits_from_characters() {
    assert_eq!(u8::from(Digit::try_from('1').unwrap()), 0);
    assert_eq!(u8::from(Digit::try_from('9').unwrap()), 8);
    assert_eq!(Digit::from_char('5').unwrap().index(), digit::FIVE);
    assert_eq!(Digit::try_from('0'), Err("invalid digit"));
    assert_eq!(Digit::try_from('.'), Err("invalid digit"));
    assert_eq!(Digit::try_from('a'), Err("invalid digit"));
}

#[test]
fn digits_to_characters() {
    for (i, ch) in "123456789".chars().enumerate() {
        let d = Digit::from_index(i as u8).unwrap();
        assert_eq!(char::from(d), ch);
        assert_eq!(d.to_char(), ch);
        assert_eq!(Digit::try_from(ch), Ok(d));
    }
}

#[test]
fn digits_from_integers() {
    assert_eq!(Digit::try_from(8u8).map(u16::from), Ok(8));
    assert_eq!(Digit::try_from(9u8), Err("invalid digit"));
    assert_eq!(Digit::try_from(3u32).map(u64::from), Ok(3));
    assert_eq!(Digit::try_from(264u32), Err("invalid digit"));
    assert_eq!(Digit::try_from(0i32).map(i32::from), Ok(0));
    assert_eq!(Digit::try_from(-1i32), Err("invalid digit"));
    assert_eq!(Digit::try_from(7i32).map(usize::from), Ok(7));
    assert_eq!(Digit::from_index(200), Err("invalid digit"));
}
