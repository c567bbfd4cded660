//! The values that inputs and outputs carry, in the form in which they are
//! hashed.

use vstd::prelude::*;

use crate::field::Field;

verus! {

/// Why a hash could not be computed (as when its input is too long).
#[derive(Clone, Copy, Debug, PartialEq, Eq)]
pub struct HashError;

/// A plaintext value, held by its canonical little-endian bit encoding.
#[derive(Clone, Debug, PartialEq, Eq)]
pub struct Plaintext {
    pub bits: Vec<bool>,
}

impl Plaintext {
    /// The bits that are hashed.
    pub open spec fn spec_bits(self) -> Seq<bool> {
        self.bits@
    }

    /// Returns the bits that are hashed.
    pub fn to_bits_le(&self) -> (r: Vec<bool>)
        ensures
            r@ == self.spec_bits(),
    {
        let mut out: Vec<bool> = Vec::new();
        let mut i: usize = 0;
        while i < self.bits.len()
            invariant
                i <= self.bits@.len(),
                out@ == self.bits@.subrange(0, i as int),
            decreases self.bits@.len() - i,
        {
            out.push(self.bits[i]);
            i = i + 1;
        }
        out
    }
}

/// The little-endian bits of a list of field elements, one after the other.
pub open spec fn fields_bits(fields: Seq<Field>) -> Seq<bool>
    decreases fields.len(),
{
    if fields.len() == 0 {
        Seq::empty()
    } else {
        fields_bits(fields.drop_last()) + fields.last().bits()
    }
}

/// A ciphertext: a list of field elements.
#[derive(Clone, Debug, PartialEq, Eq)]
pub struct Ciphertext {
    pub fields: Vec<Field>,
}

impl Ciphertext {
    /// The bits that are hashed: those of each field element, in order.
    pub open spec fn spec_bits(self) -> Seq<bool> {
        fields_bits(self.fields@)
    }

    /// Returns the bits that are hashed.
    pub fn to_bits_le(&self) -> (r: Vec<bool>)
        ensures
            r@ == self.spec_bits(),
    {
        let mut out: Vec<bool> = Vec::new();
        let mut i: usize = 0;
        while i < self.fields.len()
            invariant
                i <= self.fields@.len(),
                out@ == fields_bits(self.fields@.subrange(0, i as int)),
            decreases self.fields@.len() - i,
        {
            assert(self.fields@.subrange(0, i + 1).drop_last() =~= self.fields@.subrange(0, i as int));
            self.fields[i].write_bits_le(&mut out);
            i = i + 1;
        }
        assert(self.fields@.subrange(0, self.fields@.len() as int) =~= self.fields@);
        out
    }
}

} // verus!
