//! Elements of the scalar field of BLS12-377 (the base field of the circuits)
//! and points given by their affine coordinates.

use vstd::prelude::*;

verus! {

/// The number of bits in the little-endian encoding of a field element.
pub const FIELD_BITS: usize = 253;

/// The field modulus, in four 64-bit limbs, least significant first.
pub const MODULUS_0: u64 = 0x0a11800000000001;
pub const MODULUS_1: u64 = 0x59aa76fed0000001;
pub const MODULUS_2: u64 = 0x60b44d1e5c37b001;
pub const MODULUS_3: u64 = 0x12ab655e9a2ca556;

/// A field element, in four 64-bit limbs, least significant first.
#[derive(Clone, Copy, Debug, PartialEq, Eq, Structural, Hash)]
pub struct Field {
    l0: u64,
    l1: u64,
    l2: u64,
    l3: u64,
}

/// The number that four limbs stand for.
pub open spec fn limbs_value(l0: u64, l1: u64, l2: u64, l3: u64) -> int {
    l0 + 0x1_0000_0000_0000_0000 * (l1 + 0x1_0000_0000_0000_0000 * (l2 + 0x1_0000_0000_0000_0000 * l3))
}

/// The field modulus.
pub open spec fn modulus() -> int {
    limbs_value(MODULUS_0, MODULUS_1, MODULUS_2, MODULUS_3)
}

/// Bit `i` of a limb.
pub open spec fn limb_bit(limb: u64, i: int) -> bool {
    (limb >> (i as u64)) & 1 == 1
}

impl Field {
    /// The limbs of the element, least significant first.
    pub closed spec fn limbs(self) -> Seq<u64> {
        seq![self.l0, self.l1, self.l2, self.l3]
    }

    /// The number the element stands for.
    pub open spec fn value(self) -> int {
        limbs_value(self.limbs()[0], self.limbs()[1], self.limbs()[2], self.limbs()[3])
    }

    /// Bit `i` of the element, for `i` below 256.
    pub open spec fn bit(self, i: int) -> bool {
        limb_bit(self.limbs()[i / 64], i % 64)
    }

    /// The little-endian bits of the element.
    pub open spec fn bits(self) -> Seq<bool> {
        Seq::new(FIELD_BITS as nat, |i: int| self.bit(i))
    }

    #[verifier::type_invariant]
    closed spec fn inv(self) -> bool {
        limbs_value(self.l0, self.l1, self.l2, self.l3) < modulus()
    }

    /// Returns the element with the given limbs (least significant first), or
    /// `None` where they stand for a number not below the modulus.
    pub fn from_limbs(l0: u64, l1: u64, l2: u64, l3: u64) -> (r: Option<Field>)
        ensures
            r is Some <==> limbs_value(l0, l1, l2, l3) < modulus(),
            r matches Some(f) ==> f.limbs() == seq![l0, l1, l2, l3],
    {
        let below = if l3 != MODULUS_3 {
            l3 < MODULUS_3
        } else if l2 != MODULUS_2 {
            l2 < MODULUS_2
        } else if l1 != MODULUS_1 {
            l1 < MODULUS_1
        } else {
            l0 < MODULUS_0
        };
        proof {
            lemma_limbs_less(l0, l1, l2, l3, MODULUS_0, MODULUS_1, MODULUS_2, MODULUS_3);
        }
        if below {
            Some(Field { l0, l1, l2, l3 })
        } else {
            None
        }
    }

    /// The element one.
    pub closed spec fn spec_one() -> Field {
        Field { l0: 1, l1: 0, l2: 0, l3: 0 }
    }

    /// Returns the element one.
    pub fn one() -> (r: Field)
        ensures
            r == Field::spec_one(),
            r.value() == 1,
    {
        assert(limbs_value(1, 0, 0, 0) < modulus());
        Field { l0: 1, l1: 0, l2: 0, l3: 0 }
    }

    /// The element standing for a 16-bit number.
    pub closed spec fn spec_from_u16(v: u16) -> Field {
        Field { l0: v as u64, l1: 0, l2: 0, l3: 0 }
    }

    /// Returns the element standing for a 16-bit number.
    pub fn from_u16(v: u16) -> (r: Field)
        ensures
            r == Field::spec_from_u16(v),
            r.value() == v,
    {
        assert(limbs_value(v as u64, 0, 0, 0) < modulus());
        Field { l0: v as u64, l1: 0, l2: 0, l3: 0 }
    }

    /// Returns the zero element.
    pub fn zero() -> (r: Field)
        ensures
            r.value() == 0,
            r.limbs() == seq![0u64, 0u64, 0u64, 0u64],
    {
        assert(limbs_value(0, 0, 0, 0) < modulus());
        Field { l0: 0, l1: 0, l2: 0, l3: 0 }
    }

    /// Returns the limb `i` of the element (least significant first).
    pub fn limb(&self, i: usize) -> (r: u64)
        requires
            i < 4,
        ensures
            r == self.limbs()[i as int],
    {
        if i == 0 {
            self.l0
        } else if i == 1 {
            self.l1
        } else if i == 2 {
            self.l2
        } else {
            self.l3
        }
    }

    /// Appends the little-endian bits of the element to `out`.
    pub fn write_bits_le(&self, out: &mut Vec<bool>)
        ensures
            final(out)@ == old(out)@ + self.bits(),
    {
        let mut i: usize = 0;
        while i < FIELD_BITS
            invariant
                i <= FIELD_BITS,
                out@ == old(out)@ + self.bits().subrange(0, i as int),
            decreases FIELD_BITS - i,
        {
            let limb = self.limb(i / 64);
            let bit = (limb >> ((i % 64) as u64)) & 1 == 1;
            out.push(bit);
            assert(bit == self.bit(i as int));
            assert(self.bits().subrange(0, i + 1) =~= self.bits().subrange(0, i as int).push(bit));
            i = i + 1;
        }
        assert(self.bits().subrange(0, FIELD_BITS as int) =~= self.bits());
    }

    /// Returns the little-endian bits of the element.
    pub fn to_bits_le(&self) -> (r: Vec<bool>)
        ensures
            r@ == self.bits(),
    {
        let mut out: Vec<bool> = Vec::new();
        self.write_bits_le(&mut out);
        assert(out@ =~= self.bits());
        out
    }
}

/// Comparing limbs from the most significant down compares the numbers.
proof fn lemma_limbs_less(a0: u64, a1: u64, a2: u64, a3: u64, b0: u64, b1: u64, b2: u64, b3: u64)
    ensures
        (limbs_value(a0, a1, a2, a3) < limbs_value(b0, b1, b2, b3)) == (if a3 != b3 {
            a3 < b3
        } else if a2 != b2 {
            a2 < b2
        } else if a1 != b1 {
            a1 < b1
        } else {
            a0 < b0
        }),
{
    let w: int = 0x1_0000_0000_0000_0000;
    lemma_place(a0, b0, a1 + w * (a2 + w * a3), b1 + w * (b2 + w * b3));
    lemma_place(a1, b1, a2 + w * a3, b2 + w * b3);
    lemma_place(a2, b2, a3 as int, b3 as int);
}

/// With digits below 2^64, the higher place decides unless it is equal.
proof fn lemma_place(lo_a: u64, lo_b: u64, hi_a: int, hi_b: int)
    ensures
        (lo_a + 0x1_0000_0000_0000_0000 * hi_a < lo_b + 0x1_0000_0000_0000_0000 * hi_b) == (if hi_a != hi_b {
            hi_a < hi_b
        } else {
            lo_a < lo_b
        }),
{
    if hi_a < hi_b {
        assert(0x1_0000_0000_0000_0000 * hi_a + 0x1_0000_0000_0000_0000 <= 0x1_0000_0000_0000_0000 * hi_b)
            by (nonlinear_arith)
            requires
                hi_a < hi_b,
        ;
    } else if hi_a > hi_b {
        assert(0x1_0000_0000_0000_0000 * hi_b + 0x1_0000_0000_0000_0000 <= 0x1_0000_0000_0000_0000 * hi_a)
            by (nonlinear_arith)
            requires
                hi_b < hi_a,
        ;
    }
}

/// A point of the curve, by its affine coordinates.
#[derive(Clone, Copy, Debug, PartialEq, Eq, Structural, Hash)]
pub struct Group {
    pub x: Field,
    pub y: Field,
}

impl Group {
    /// Returns the x-coordinate of the point.
    pub fn to_x_coordinate(&self) -> (r: Field)
        ensures
            r == self.x,
    {
        self.x
    }
}

} // verus!
