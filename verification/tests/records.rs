use snarkvm_program::field::{Field, Group, FIELD_BITS};
use snarkvm_program::record::Record;
use snarkvm_program::state::State;
use snarkvm_program::values::{Ciphertext, Plaintext};

fn f(v: u64) -> Field {
    Field::from_limbs(v, 0, 0, 0).unwrap()
}

fn point(x: u64, y: u64) -> Group {
    Group { x: f(x), y: f(y) }
}

/// Packs the bits at `start..start + 64` back into a number.
fn bits_at(bits: &[bool], start: usize) -> u64 {
    (0..64).filter(|i| bits[start + i]).map(|i| 1u64 << i).sum()
}

#[test]
fn field_limits() {
    // The modulus itself is refused; one below it is accepted.
    assert!(Field::from_limbs(0x0a11800000000001, 0x59aa76fed0000001, 0x60b44d1e5c37b001, 0x12ab655e9a2ca556).is_none());
    assert!(Field::from_limbs(0x0a11800000000000, 0x59aa76fed0000001, 0x60b44d1e5c37b001, 0x12ab655e9a2ca556).is_some());
    assert!(Field::from_limbs(u64::MAX, u64::MAX, u64::MAX, 0x12ab655e9a2ca555).is_some());
    assert!(Field::from_limbs(0, 0, 0, u64::MAX).is_none());
    assert_eq!(Field::zero(), f(0));
    assert_eq!(Field::one(), f(1));
    assert_eq!(f(7).limb(0), 7);
    assert_eq!(f(7).limb(3), 0);
}

#[test]
fn field_bits() {
    let x = Field::from_limbs(5, 0, 1, 1 << 60).unwrap();
    let bits = x.to_bits_le();
    assert_eq!(bits.len(), FIELD_BITS);
    assert_eq!(bits_at(&bits, 0), 5);
    assert!(bits[128]);
    assert!(bits[252]);
    assert_eq!(bits.iter().filter(|b| **b).count(), 4);
}

#[test]
fn record_commitment_input() {
    let record = Record { owner: f(1), balance: f(2), data: f(3), nonce: point(4, 40), mac: f(5), bcm: point(6, 60) };
    let bits = record.commitment_input_bits();
    assert_eq!(bits.len(), 6 * FIELD_BITS);
    for (k, expected) in [1u64, 2, 3, 4, 5, 6].iter().enumerate() {
        assert_eq!(bits_at(&bits, k * FIELD_BITS), *expected);
    }
    // The commitment is the hash of exactly those bits.
    let commitment = record.to_commitment(|input: Vec<bool>| {
        let ones = input.iter().filter(|b| **b).count() as u64;
        Field::from_limbs(input.len() as u64, ones, 0, 0).unwrap()
    });
    assert_eq!(commitment, Field::from_limbs(6 * FIELD_BITS as u64, 1 + 1 + 2 + 1 + 2 + 2, 0, 0).unwrap());
}

#[test]
fn value_bits() {
    let plaintext = Plaintext { bits: vec![true, false, true] };
    assert_eq!(plaintext.to_bits_le(), vec![true, false, true]);
    let ciphertext = Ciphertext { fields: vec![f(1), f(2)] };
    let bits = ciphertext.to_bits_le();
    assert_eq!(bits.len(), 2 * FIELD_BITS);
    assert_eq!(bits_at(&bits, 0), 1);
    assert_eq!(bits_at(&bits, FIELD_BITS), 2);
    assert!(Ciphertext { fields: vec![] }.to_bits_le().is_empty());
}

#[test]
fn state_getters() {
    let state = State::new(point(1, 2), 500, f(3), point(4, 5));
    assert_eq!(state.owner(), point(1, 2));
    assert_eq!(state.balance(), 500);
    assert_eq!(state.data(), f(3));
    assert_eq!(state.nonce(), point(4, 5));
}

#[test]
fn commitment_reads_only_x_coordinates() {
    let a = Record { owner: f(1), balance: f(2), data: f(3), nonce: point(4, 40), mac: f(5), bcm: point(6, 60) };
    let b = Record { nonce: point(4, 41), bcm: point(6, 61), ..a };
    assert_eq!(a.commitment_input_bits(), b.commitment_input_bits());
    let hash = |input: Vec<bool>| Field::from_limbs(input.iter().filter(|b| **b).count() as u64, 0, 0, 0).unwrap();
    assert_eq!(a.to_commitment(hash), b.to_commitment(hash));
}
