use vstd::prelude::*;

verus! {

/// One of the nine symbols '1'..='9', stored as 0..=8.
#[derive(Copy, Clone, Debug, PartialEq, Eq, Structural)]
pub struct Digit(pub(crate) u8);

/// Positions of the nine digits, as taken by `Digit::from_index`.
pub const ONE: u8 = 0;
pub const TWO: u8 = 1;
pub const THREE: u8 = 2;
pub const FOUR: u8 = 3;
pub const FIVE: u8 = 4;
pub const SIX: u8 = 5;
pub const SEVEN: u8 = 6;
pub const EIGHT: u8 = 7;
pub const NINE: u8 = 8;

/// The digit position that a character names: '1' is 0, up to '9', 8.
pub open spec fn char_digit(ch: char) -> Option<nat> {
    if '1' <= ch && ch <= '9' {
        Some((ch as nat - '1' as nat) as nat)
    } else {
        None
    }
}

/// The character that names digit position `d`.
pub open spec fn digit_char(d: nat) -> char {
    (d + '1' as nat) as char
}

impl View for Digit {
    type V = nat;

    open(crate) spec fn view(&self) -> nat {
        self.0 as nat
    }
}

impl Digit {
    #[verifier::type_invariant]
    pub(crate) open spec fn inv(self) -> bool {
        self.0 < 9
    }

    /// The digit's position, 0 for '1' up to 8 for '9'.
    pub fn index(&self) -> (r: u8)
        ensures
            r as nat == self@,
            r < 9,
    {
        proof {
            use_type_invariant(self);
        }
        self.0
    }

    pub fn from_index(value: u8) -> (r: Result<Digit, &'static str>)
        ensures
            value < 9 ==> r is Ok && r->Ok_0@ == value,
            value >= 9 ==> r == Err::<Digit, &'static str>("invalid digit"),
    {
        if value <= 8 {
            Ok(Digit(value))
        } else {
            Err("invalid digit")
        }
    }

    /// The digit that `value` names; an error for any character but '1'..='9'.
    pub fn from_char(value: char) -> (r: Result<Digit, &'static str>)
        ensures
            char_digit(value) is Some <==> r is Ok,
            r is Ok ==> r->Ok_0@ == char_digit(value)->0,
            r is Err ==> r == Err::<Digit, &'static str>("invalid digit"),
    {
        if value >= '1' && value <= '9' {
            let d = (value as u32 - '1' as u32) as u8;
            Ok(Digit(d))
        } else {
            Err("invalid digit")
        }
    }

    /// The character that names the digit.
    pub fn to_char(self) -> (r: char)
        ensures
            r == digit_char(self@),
            char_digit(r) == Some(self@),
    {
        proof {
            use_type_invariant(self);
        }
        let r = (self.0 as u32 + '1' as u32) as u8 as char;
        proof {
            assert(r as nat == self.0 as nat + '1' as nat);
        }
        r
    }
}

impl TryFrom<char> for Digit {
    type Error = &'static str;

    fn try_from(value: char) -> (r: Result<Digit, &'static str>) {
        Digit::from_char(value)
    }
}

impl vstd::std_specs::convert::TryFromSpecImpl<char> for Digit {
    open(crate) spec fn obeys_try_from_spec() -> bool {
        true
    }

    open(crate) spec fn try_from_spec(value: char) -> Result<Digit, &'static str> {
        if '1' <= value && value <= '9' {
            Ok(Digit((value as nat - '1' as nat) as u8))
        } else {
            Err("invalid digit")
        }
    }
}

impl TryFrom<u8> for Digit {
    type Error = &'static str;

    fn try_from(value: u8) -> (r: Result<Digit, &'static str>) {
        Digit::from_index(value)
    }
}

impl vstd::std_specs::convert::TryFromSpecImpl<u8> for Digit {
    open(crate) spec fn obeys_try_from_spec() -> bool {
        true
    }

    open(crate) spec fn try_from_spec(value: u8) -> Result<Digit, &'static str> {
        if value < 9 {
            Ok(Digit(value))
        } else {
            Err("invalid digit")
        }
    }
}

impl TryFrom<u32> for Digit {
    type Error = &'static str;

    fn try_from(value: u32) -> (r: Result<Digit, &'static str>) {
        if value < 9 {
            Digit::from_index(value as u8)
        } else {
            Err("invalid digit")
        }
    }
}

impl vstd::std_specs::convert::TryFromSpecImpl<u32> for Digit {
    open(crate) spec fn obeys_try_from_spec() -> bool {
        true
    }

    open(crate) spec fn try_from_spec(value: u32) -> Result<Digit, &'static str> {
        if value < 9 {
            Ok(Digit(value as u8))
        } else {
            Err("invalid digit")
        }
    }
}

impl TryFrom<i32> for Digit {
    type Error = &'static str;

    fn try_from(value: i32) -> (r: Result<Digit, &'static str>) {
        if 0 <= value && value < 9 {
            Digit::from_index(value as u8)
        } else {
            Err("invalid digit")
        }
    }
}

impl vstd::std_specs::convert::TryFromSpecImpl<i32> for Digit {
    open(crate) spec fn obeys_try_from_spec() -> bool {
        true
    }

    open(crate) spec fn try_from_spec(value: i32) -> Result<Digit, &'static str> {
        if 0 <= value < 9 {
            Ok(Digit(value as u8))
        } else {
            Err("invalid digit")
        }
    }
}

impl From<Digit> for char {
    fn from(d: Digit) -> (r: char) {
        d.to_char()
    }
}

impl vstd::std_specs::convert::FromSpecImpl<Digit> for char {
    open(crate) spec fn obeys_from_spec() -> bool {
        true
    }

    open(crate) spec fn from_spec(d: Digit) -> char {
        digit_char(d@)
    }
}

impl From<Digit> for u8 {
    fn from(d: Digit) -> (r: u8) {
        d.index()
    }
}

impl vstd::std_specs::convert::FromSpecImpl<Digit> for u8 {
    open(crate) spec fn obeys_from_spec() -> bool {
        true
    }

    open(crate) spec fn from_spec(d: Digit) -> u8 {
        d.0
    }
}

impl From<Digit> for u16 {
    fn from(d: Digit) -> (r: u16) {
        d.index() as u16
    }
}

impl vstd::std_specs::convert::FromSpecImpl<Digit> for u16 {
    open(crate) spec fn obeys_from_spec() -> bool {
        true
    }

    open(crate) spec fn from_spec(d: Digit) -> u16 {
        d.0 as u16
    }
}

impl From<Digit> for u64 {
    fn from(d: Digit) -> (r: u64) {
        d.index() as u64
    }
}

impl vstd::std_specs::convert::FromSpecImpl<Digit> for u64 {
    open(crate) spec fn obeys_from_spec() -> bool {
        true
    }

    open(crate) spec fn from_spec(d: Digit) -> u64 {
        d.0 as u64
    }
}

impl From<Digit> for i32 {
    fn from(d: Digit) -> (r: i32) {
        d.index() as i32
    }
}

impl vstd::std_specs::convert::FromSpecImpl<Digit> for i32 {
    open(crate) spec fn obeys_from_spec() -> bool {
        true
    }

    open(crate) spec fn from_spec(d: Digit) -> i32 {
        d.0 as i32
    }
}

impl From<Digit> for usize {
    fn from(d: Digit) -> (r: usize) {
        d.index() as usize
    }
}

impl vstd::std_specs::convert::FromSpecImpl<Digit> for usize {
    open(crate) spec fn obeys_from_spec() -> bool {
        true
    }

    open(crate) spec fn from_spec(d: Digit) -> usize {
        d.0 as usize
    }
}

} // verus!
