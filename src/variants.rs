use vstd::prelude::*;
use crate::digit::Digit;

verus! {

/// Number of bits that a candidate set occupies.
pub const NUM_BITS: usize = 9;

/// The bits that a candidate set may have set.
pub const MASK: usize = 0x1ff;

/// Whether bit `d` of `x` is set.
pub open spec fn has_bit(x: u16, d: nat) -> bool {
    (x >> (d as u16)) & 1u16 == 1u16
}

/// The set of bit positions of `x` that are set.
pub open spec fn bits_of(x: u16) -> Set<nat> {
    Set::new(|d: nat| d < 16 && has_bit(x, d))
}

/// The set of bit positions of the word `x` that are set.
pub open spec fn word_bits(x: u64) -> Set<nat> {
    Set::new(|d: nat| d < 64 && (x >> (d as u64)) & 1u64 == 1u64)
}

/// All nine digit positions.
pub open spec fn all_digits() -> Set<nat> {
    Set::new(|d: nat| d < 9)
}

/// The set of digits still possible for one cell, as a 9-bit field.
#[derive(Copy, Clone, Debug, PartialEq, Eq, Structural)]
pub struct Variants(pub(crate) u16);

impl View for Variants {
    type V = Set<nat>;

    /// The positions of the set bits: the digits in the set.
    open(crate) spec fn view(&self) -> Set<nat> {
        bits_of(self.0)
    }
}

proof fn lemma_bit_or(a: u16, b: u16, d: u16)
    by (bit_vector)
    ensures
        ((a | b) >> d) & 1u16 == 1u16 <==> ((a >> d) & 1u16 == 1u16 || (b >> d) & 1u16 == 1u16),
{
}

proof fn lemma_bit_xor(a: u16, b: u16, d: u16)
    by (bit_vector)
    ensures
        ((a ^ b) >> d) & 1u16 == 1u16 <==> ((a >> d) & 1u16 == 1u16) != ((b >> d) & 1u16
            == 1u16),
{
}

proof fn lemma_bit_single(k: u16, d: u16)
    by (bit_vector)
    requires
        k < 16,
    ensures
        ((1u16 << k) >> d) & 1u16 == 1u16 <==> d == k,
{
}

proof fn lemma_bit_below_mask(x: u16, d: u16)
    by (bit_vector)
    requires
        x <= 0x1ff,
        9 <= d,
    ensures
        (x >> d) & 1u16 != 1u16,
{
}

proof fn lemma_bit_widen(x: u16, d: u16)
    by (bit_vector)
    ensures
        ((x as u64) >> (d as u64)) & 1u64 == 1u64 <==> (x >> d) & 1u16 == 1u16,
{
}

proof fn lemma_word_bit_above(x: u64, d: u64)
    by (bit_vector)
    requires
        x <= 0x1ff,
        9 <= d,
    ensures
        (x >> d) & 1u64 != 1u64,
{
}

proof fn lemma_bit_mask(d: u16)
    by (bit_vector)
    ensures
        (0x1ffu16 >> d) & 1u16 == 1u16 <==> d < 9,
{
}

proof fn lemma_bits_determine(a: u16, b: u16)
    by (bit_vector)
    requires
        (a >> 0u16) & 1u16 == (b >> 0u16) & 1u16,
        (a >> 1u16) & 1u16 == (b >> 1u16) & 1u16,
        (a >> 2u16) & 1u16 == (b >> 2u16) & 1u16,
        (a >> 3u16) & 1u16 == (b >> 3u16) & 1u16,
        (a >> 4u16) & 1u16 == (b >> 4u16) & 1u16,
        (a >> 5u16) & 1u16 == (b >> 5u16) & 1u16,
        (a >> 6u16) & 1u16 == (b >> 6u16) & 1u16,
        (a >> 7u16) & 1u16 == (b >> 7u16) & 1u16,
        (a >> 8u16) & 1u16 == (b >> 8u16) & 1u16,
        (a >> 9u16) & 1u16 == (b >> 9u16) & 1u16,
        (a >> 10u16) & 1u16 == (b >> 10u16) & 1u16,
        (a >> 11u16) & 1u16 == (b >> 11u16) & 1u16,
        (a >> 12u16) & 1u16 == (b >> 12u16) & 1u16,
        (a >> 13u16) & 1u16 == (b >> 13u16) & 1u16,
        (a >> 14u16) & 1u16 == (b >> 14u16) & 1u16,
        (a >> 15u16) & 1u16 == (b >> 15u16) & 1u16,
    ensures
        a == b,
{
}

proof fn lemma_bit_is_zero_or_one(x: u16, d: u16)
    by (bit_vector)
    ensures
        (x >> d) & 1u16 == 1u16 || (x >> d) & 1u16 == 0u16,
{
}

/// Two candidate sets with the same digits are the same value.
pub proof fn lemma_view_injective(a: Variants, b: Variants)
    requires
        a@ == b@,
    ensures
        a == b,
{
    assert forall|d: u16| d < 16 implies #[trigger] ((a.0 >> d) & 1u16) == ((b.0 >> d) & 1u16) by {
        let n = d as nat;
        assert(n as u16 == d);
        assert(a@.contains(n) == b@.contains(n));
        assert(a@ == bits_of(a.0));
        assert(bits_of(a.0).contains(n) == (n < 16 && has_bit(a.0, n)));
        assert(bits_of(b.0).contains(n) == (n < 16 && has_bit(b.0, n)));
        assert(has_bit(a.0, n) == has_bit(b.0, n));
        lemma_bit_is_zero_or_one(a.0, d);
        lemma_bit_is_zero_or_one(b.0, d);
    }
    lemma_bits_determine(a.0, b.0);
}

impl Variants {
    #[verifier::type_invariant]
    spec fn inv(self) -> bool {
        self.0 <= 0x1ff
    }

    /// Every candidate set holds only digit positions.
    pub(crate) proof fn lemma_within_digits(self)
        requires
            self.0 <= 0x1ff,
        ensures
            self@.subset_of(all_digits()),
    {
        assert forall|d: nat| self@.contains(d) implies d < 9 by {
            if d >= 9 {
                lemma_bit_below_mask(self.0, d as u16);
            }
        }
    }

    /// The set with every digit, the state of a cell nothing is known of.
    pub fn any() -> (r: Variants)
        ensures
            r@ == all_digits(),
    {
        let r = Variants(0x1ff);
        assert forall|d: nat| r@.contains(d) <==> all_digits().contains(d) by {
            if d < 16 {
                lemma_bit_mask(d as u16);
            }
        }
        assert(r@ =~= all_digits());
        r
    }

    /// The empty set.
    pub fn new() -> (r: Variants)
        ensures
            r@ == Set::<nat>::empty(),
    {
        let r = Variants(0);
        assert forall|d: nat| !r@.contains(d) by {
            if d < 16 {
                let e = d as u16;
                assert((0u16 >> e) & 1u16 == 0u16) by (bit_vector);
            }
        }
        assert(r@ =~= Set::<nat>::empty());
        r
    }

    /// The set that holds `d` alone.
    pub fn from_digit(d: Digit) -> (r: Variants)
        ensures
            r@ == set![d@],
    {
        let r = Variants::from(d);
        proof {
            use_type_invariant(d);
            let k = d.0 as u16;
            assert forall|e: nat| r@.contains(e) <==> e == d@ by {
                if e < 16 {
                    lemma_bit_single(k, e as u16);
                }
            }
            assert(r@ =~= set![d@]);
        }
        r
    }

    /// Whether `d` is in the set.
    pub fn has_digit(self, d: Digit) -> (r: bool)
        ensures
            r == self@.contains(d@),
    {
        let k = d.index() as u16;
        let x = self.0;
        let r = x & (1u16 << k) != 0;
        assert(r == ((x >> k) & 1u16 == 1u16)) by (bit_vector)
            requires
                k < 9,
                r == (x & (1u16 << k) != 0),
        ;
        r
    }

    /// The digits that are in either set.
    pub fn union(self, other: Variants) -> (r: Variants)
        ensures
            r@ == self@.union(other@),
    {
        let r = self | other;
        proof {
            assert forall|d: nat| r@.contains(d) <==> self@.union(other@).contains(d) by {
                lemma_bit_or(self.0, other.0, d as u16);
            }
            assert(r@ =~= self@.union(other@));
        }
        r
    }

    /// The digits that are in exactly one of the two sets.
    pub fn symmetric_difference(self, other: Variants) -> (r: Variants)
        ensures
            r@ == self@.difference(other@).union(other@.difference(self@)),
    {
        let r = self ^ other;
        proof {
            assert forall|d: nat|
                r@.contains(d) <==> self@.difference(other@).union(
                    other@.difference(self@),
                ).contains(d) by {
                lemma_bit_xor(self.0, other.0, d as u16);
            }
            assert(r@ =~= self@.difference(other@).union(other@.difference(self@)));
        }
        r
    }

    /// Reads a candidate set back from the low bits of a word; fails when a bit
    /// above the nine digit bits is set.
    pub fn from_bits(value: u64) -> (r: Result<Variants, &'static str>)
        ensures
            value <= 0x1ff <==> r is Ok,
            r is Ok ==> r->Ok_0@ == word_bits(value),
            r is Err ==> r == Err::<Variants, &'static str>("value too large"),
    {
        let r = Variants::try_from(value);
        proof {
            if value <= 0x1ff {
                let v = r->Ok_0;
                let x = v.0;
                assert(x as u64 == value) by (bit_vector)
                    requires
                        value <= 0x1ff,
                        x == value as u16,
                ;
                assert forall|d: nat| v@.contains(d) <==> word_bits(value).contains(d) by {
                    if d < 16 {
                        lemma_bit_widen(x, d as u16);
                    } else if d < 64 {
                        lemma_word_bit_above(value, d as u64);
                    }
                }
                assert(v@ =~= word_bits(value));
            }
        }
        r
    }

    /// The set as the low bits of a word.
    pub fn to_bits(self) -> (r: u64)
        ensures
            word_bits(r) == self@,
            r <= 0x1ff,
            self@.subset_of(all_digits()),
    {
        proof {
            use_type_invariant(self);
            self.lemma_within_digits();
        }
        let r = u64::from(self);
        assert forall|d: nat| word_bits(r).contains(d) <==> self@.contains(d) by {
            if d < 16 {
                lemma_bit_widen(self.0, d as u16);
            } else if d < 64 {
                lemma_word_bit_above(r, d as u64);
            }
        }
        assert(word_bits(r) =~= self@);
        r
    }

    /// Number of digits in the set.
    pub fn count(self) -> (r: u32)
        ensures
            self@.finite(),
            r as nat == self@.len(),
    {
        proof {
            use_type_invariant(self);
            self.lemma_within_digits();
        }
        let x = self.0;
        let mut n: u32 = 0;
        let mut d: u16 = 0;
        let ghost mut seen: Set<nat> = Set::empty();
        while d < 9
            invariant
                d <= 9,
                n <= d,
                x == self.0,
                seen.finite(),
                seen.len() == n,
                seen == Set::new(|e: nat| e < d && has_bit(x, e)),
            decreases 9 - d,
        {
            let bit = (x >> d) & 1u16;
            proof {
                lemma_bit_is_zero_or_one(x, d);
            }
            if bit == 1 {
                proof {
                    seen = seen.insert(d as nat);
                }
                n += 1;
            }
            d += 1;
            proof {
                assert(seen =~= Set::new(|e: nat| e < d && has_bit(x, e)));
            }
        }
        proof {
            assert(seen =~= self@);
        }
        n
    }

    /// The digit of a set that holds exactly one; an error for an empty set
    /// and for a set of two or more.
    pub fn to_digit(self) -> (r: Result<Digit, &'static str>)
        ensures
            self@.finite(),
            r is Ok <==> self@.len() == 1,
            r is Ok ==> self@ == set![r->Ok_0@],
            self@.len() == 0 ==> r == Err::<Digit, &'static str>("no variants"),
            self@.len() > 1 ==> r == Err::<Digit, &'static str>("multiple variants"),
    {
        let n = self.count();
        if n == 0 {
            Err("no variants")
        } else if n == 1 {
            let x = self.0;
            let t = x.trailing_zeros();
            proof {
                use_type_invariant(self);
                self.lemma_within_digits();
                vstd::std_specs::bits::axiom_u16_trailing_zeros(x);
                Set::lemma_is_singleton(self@);
                assert(Set::<nat>::empty().len() == 0);
                assert(exists|e: nat| self@.contains(e)) by {
                    if !(exists|e: nat| self@.contains(e)) {
                        assert(self@ =~= Set::<nat>::empty());
                    }
                }
                let e = choose|e: nat| self@.contains(e);
                assert(x != 0) by {
                    let f = e as u16;
                    assert(e < 9);
                    assert((x >> f) & 1u16 == 1u16);
                    assert(x == 0 ==> (x >> f) & 1u16 == 0u16) by (bit_vector);
                }
                assert(t < 16);
                assert(self@.contains(t as nat)) by {
                    assert((t as nat) as u16 == t as u16);
                }
                assert(self@ =~= set![t as nat]);
            }
            match Digit::from_index(t as u8) {
                Ok(digit) => Ok(digit),
                Err(_) => {
                    proof {
                        assert(false);
                    }
                    Err("no variants")
                },
            }
        } else {
            Err("multiple variants")
        }
    }
}

impl From<Digit> for Variants {
    fn from(d: Digit) -> (r: Variants) {
        proof {
            use_type_invariant(d);
        }
        let k = d.0 as u16;
        assert(1u16 << k <= 0x1ff) by (bit_vector)
            requires
                k < 9,
        ;
        Variants(1u16 << k)
    }
}

impl vstd::std_specs::convert::FromSpecImpl<Digit> for Variants {
    open(crate) spec fn obeys_from_spec() -> bool {
        true
    }

    open(crate) spec fn from_spec(d: Digit) -> Variants {
        Variants(1u16 << d.0)
    }
}

impl TryFrom<u64> for Variants {
    type Error = &'static str;

    fn try_from(value: u64) -> (r: Result<Variants, &'static str>) {
        if value & 0x1ff == value {
            assert(value <= 0x1ff) by (bit_vector)
                requires
                    value & 0x1ff == value,
            ;
            Ok(Variants(value as u16))
        } else {
            assert(value > 0x1ff) by (bit_vector)
                requires
                    value & 0x1ff != value,
            ;
            Err("value too large")
        }
    }
}

impl vstd::std_specs::convert::TryFromSpecImpl<u64> for Variants {
    open(crate) spec fn obeys_try_from_spec() -> bool {
        true
    }

    open(crate) spec fn try_from_spec(value: u64) -> Result<Variants, &'static str> {
        if value <= 0x1ff {
            Ok(Variants(value as u16))
        } else {
            Err("value too large")
        }
    }
}

impl From<Variants> for u64 {
    fn from(v: Variants) -> (r: u64) {
        v.0 as u64
    }
}

impl vstd::std_specs::convert::FromSpecImpl<Variants> for u64 {
    open(crate) spec fn obeys_from_spec() -> bool {
        true
    }

    open(crate) spec fn from_spec(v: Variants) -> u64 {
        v.0 as u64
    }
}

impl core::ops::BitOr<Variants> for Variants {
    type Output = Variants;

    fn bitor(self, rhs: Variants) -> (r: Variants) {
        proof {
            use_type_invariant(self);
            use_type_invariant(rhs);
        }
        let a = self.0;
        let b = rhs.0;
        assert(a | b <= 0x1ff) by (bit_vector)
            requires
                a <= 0x1ff,
                b <= 0x1ff,
        ;
        Variants(a | b)
    }
}

impl vstd::std_specs::ops::BitOrSpecImpl<Variants> for Variants {
    open(crate) spec fn obeys_bitor_spec() -> bool {
        true
    }

    open(crate) spec fn bitor_req(self, rhs: Variants) -> bool {
        true
    }

    open(crate) spec fn bitor_spec(self, rhs: Variants) -> Variants {
        Variants(self.0 | rhs.0)
    }
}

impl core::ops::BitOr<Digit> for Variants {
    type Output = Variants;

    fn bitor(self, rhs: Digit) -> (r: Variants) {
        self | Variants::from(rhs)
    }
}

impl vstd::std_specs::ops::BitOrSpecImpl<Digit> for Variants {
    open(crate) spec fn obeys_bitor_spec() -> bool {
        true
    }

    open(crate) spec fn bitor_req(self, rhs: Digit) -> bool {
        true
    }

    open(crate) spec fn bitor_spec(self, rhs: Digit) -> Variants {
        Variants(self.0 | (1u16 << rhs.0))
    }
}

impl core::ops::BitOrAssign<Digit> for Variants {
    fn bitor_assign(&mut self, rhs: Digit)
        ensures
            final(self)@ == old(self)@.insert(rhs@),
    {
        let r = self.union(Variants::from_digit(rhs));
        proof {
            assert(old(self)@.union(set![rhs@]) =~= old(self)@.insert(rhs@));
        }
        *self = r;
    }
}

impl core::ops::BitXor<Variants> for Variants {
    type Output = Variants;

    fn bitxor(self, rhs: Variants) -> (r: Variants) {
        proof {
            use_type_invariant(self);
            use_type_invariant(rhs);
        }
        let a = self.0;
        let b = rhs.0;
        assert(a ^ b <= 0x1ff) by (bit_vector)
            requires
                a <= 0x1ff,
                b <= 0x1ff,
        ;
        Variants(a ^ b)
    }
}

impl vstd::std_specs::ops::BitXorSpecImpl<Variants> for Variants {
    open(crate) spec fn obeys_bitxor_spec() -> bool {
        true
    }

    open(crate) spec fn bitxor_req(self, rhs: Variants) -> bool {
        true
    }

    open(crate) spec fn bitxor_spec(self, rhs: Variants) -> Variants {
        Variants(self.0 ^ rhs.0)
    }
}

impl core::ops::BitXorAssign<Variants> for Variants {
    fn bitxor_assign(&mut self, rhs: Variants)
        ensures
            final(self)@ == old(self)@.difference(rhs@).union(rhs@.difference(old(self)@)),
    {
        *self = self.symmetric_difference(rhs);
    }
}

impl core::ops::BitXor<Digit> for Variants {
    type Output = Variants;

    fn bitxor(self, rhs: Digit) -> (r: Variants) {
        self ^ Variants::from(rhs)
    }
}

impl vstd::std_specs::ops::BitXorSpecImpl<Digit> for Variants {
    open(crate) spec fn obeys_bitxor_spec() -> bool {
        true
    }

    open(crate) spec fn bitxor_req(self, rhs: Digit) -> bool {
        true
    }

    open(crate) spec fn bitxor_spec(self, rhs: Digit) -> Variants {
        Variants(self.0 ^ (1u16 << rhs.0))
    }
}

impl core::ops::BitXorAssign<Digit> for Variants {
    fn bitxor_assign(&mut self, rhs: Digit)
        ensures
            final(self)@ == old(self)@.difference(set![rhs@]).union(
                set![rhs@].difference(old(self)@),
            ),
    {
        *self = self.symmetric_difference(Variants::from_digit(rhs));
    }
}

} // verus!
