//! A program record in circuit form, and its commitment.

use vstd::prelude::*;

use crate::field::{Field, Group};

verus! {

/// A program record: the encrypted owner, balance and data, the nonce, the
/// MAC and the balance commitment.
#[derive(Clone, Copy, Debug, PartialEq, Eq)]
pub struct Record {
    pub owner: Field,
    pub balance: Field,
    pub data: Field,
    pub nonce: Group,
    pub mac: Field,
    pub bcm: Group,
}

impl Record {
    /// The bits that the commitment hashes: those of the owner, balance,
    /// data, the x-coordinate of the nonce, the MAC and the x-coordinate of the
    /// balance commitment, each little-endian, one after the other.
    pub open spec fn commitment_input(self) -> Seq<bool> {
        self.owner.bits() + self.balance.bits() + self.data.bits() + self.nonce.x.bits() + self.mac.bits()
            + self.bcm.x.bits()
    }

    /// Returns the bits that the commitment hashes.
    pub fn commitment_input_bits(&self) -> (r: Vec<bool>)
        ensures
            r@ == self.commitment_input(),
    {
        let mut bits: Vec<bool> = Vec::new();
        self.owner.write_bits_le(&mut bits);
        self.balance.write_bits_le(&mut bits);
        self.data.write_bits_le(&mut bits);
        self.nonce.to_x_coordinate().write_bits_le(&mut bits);
        self.mac.write_bits_le(&mut bits);
        self.bcm.to_x_coordinate().write_bits_le(&mut bits);
        assert(bits@ =~= self.commitment_input());
        bits
    }

    /// Where `c` is a commitment that `hash` may give for the record: what it
    /// returns on the commitment input.
    pub open spec fn commitment_by<H: Fn(Vec<bool>) -> Field>(self, hash: H, c: Field) -> bool {
        exists|input: Vec<bool>| input@ == self.commitment_input() && #[trigger] call_ensures(hash, (input,), c)
    }

    /// Returns the record commitment: the BHP hash (over 1024-bit windows) of
    /// the commitment input, computed by `hash_bhp1024`.
    pub fn to_commitment<H: Fn(Vec<bool>) -> Field>(&self, hash_bhp1024: H) -> (r: Field)
        requires
            forall|input: Vec<bool>| input@ == self.commitment_input() ==> call_requires(hash_bhp1024, (input,)),
        ensures
            self.commitment_by(hash_bhp1024, r),
    {
        let input = self.commitment_input_bits();
        let ghost spec_input = input;
        let r = hash_bhp1024(input);
        assert(spec_input@ == self.commitment_input() && call_ensures(hash_bhp1024, (spec_input,), r));
        r
    }
}

/// Where `hash` is a function of the bits it is given: equal bits give equal results.
pub open spec fn hash_is_function<H: Fn(Vec<bool>) -> Field>(hash: H) -> bool {
    forall|a: Vec<bool>, b: Vec<bool>, x: Field, y: Field|
        #[trigger] call_ensures(hash, (a,), x) && #[trigger] call_ensures(hash, (b,), y) && a@ == b@ ==> x == y
}

/// The commitment of a record reads only its owner, balance, data and MAC and
/// the x-coordinates of its nonce and balance commitment: where the hash is a
/// function, two records that agree on those have the same commitment.
pub proof fn law_commitment_reads_x_coordinates<H: Fn(Vec<bool>) -> Field>(
    r1: Record,
    r2: Record,
    hash: H,
    c1: Field,
    c2: Field,
)
    requires
        r1.owner == r2.owner,
        r1.balance == r2.balance,
        r1.data == r2.data,
        r1.mac == r2.mac,
        r1.nonce.x == r2.nonce.x,
        r1.bcm.x == r2.bcm.x,
        hash_is_function(hash),
        r1.commitment_by(hash, c1),
        r2.commitment_by(hash, c2),
    ensures
        c1 == c2,
{
    let a = choose|input: Vec<bool>| input@ == r1.commitment_input() && #[trigger] call_ensures(hash, (input,), c1);
    let b = choose|input: Vec<bool>| input@ == r2.commitment_input() && #[trigger] call_ensures(hash, (input,), c2);
    assert(a@ == b@);
}

} // verus!
