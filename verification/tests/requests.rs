use snarkvm_program::field::{Field, Group};
use snarkvm_program::identifier::Identifier;
use snarkvm_program::program_id::ProgramID;
use snarkvm_program::request::{
    balance_in_bounds, InputEvidence, InputID, RecordValue, Request, SerialNumberEvidence, Signature, Value,
};
use snarkvm_program::outcomes::function_id_input;
use snarkvm_program::values::{Ciphertext, HashError, Plaintext};

fn f(v: u64) -> Field {
    Field::from_limbs(v, 0, 0, 0).unwrap()
}

fn point(x: u64, y: u64) -> Group {
    Group { x: f(x), y: f(y) }
}

fn id(name: &str) -> Identifier {
    Identifier::new(name.as_bytes().to_vec()).unwrap()
}

fn request(owner: Group, balance: u64) -> Request {
    Request {
        caller: point(1, 1),
        program_id: ProgramID::new(id("token"), Some(id("aleo"))),
        function_name: id("transfer"),
        input_ids: vec![InputID::Public(f(11)), InputID::Record(point(3, 30), f(13))],
        inputs: vec![
            Value::Plaintext(Plaintext { bits: vec![true] }),
            Value::Record(RecordValue { owner, balance, data: Plaintext { bits: vec![] }, nonce: point(0, 0) }),
        ],
        signature: Signature { bytes: vec![5] },
        tvk: f(99),
    }
}

fn evidence(serial_number: u64) -> Vec<InputEvidence> {
    vec![
        InputEvidence::Hash(Ok(f(11))),
        InputEvidence::SerialNumber(Ok(SerialNumberEvidence { h: point(6, 60), h_r: point(7, 70), serial_number: f(serial_number) })),
    ]
}

/// The message of the sample request: `[tvk, function ID, input hash, H.x, (r*H).x, gamma.x]`.
fn expected_message() -> Vec<Field> {
    vec![f(99), f(1000), f(11), f(6), f(7), f(3)]
}

/// A stand-in hash: the number of set bits plus 100 times the length.
fn toy_hash(bits: Vec<bool>) -> Result<Field, HashError> {
    Ok(f(bits.iter().filter(|b| **b).count() as u64 + 100 * bits.len() as u64))
}

/// A stand-in keyed hash: the index of the preimage `[tvk, index]`.
fn view_key(preimage: Vec<Field>) -> Result<Field, HashError> {
    Ok(preimage[1])
}

/// A stand-in encryption: the ciphertext holds the key.
fn encrypt(_: &Plaintext, key: Field) -> Result<Ciphertext, HashError> {
    Ok(Ciphertext { fields: vec![key] })
}

/// The request of the original test: `transfer` of `token.aleo` on a constant,
/// a public and a private plaintext and a record of the caller, with the
/// cryptography and the signature standing in as functions.
#[test]
fn test_sign_and_verify() {
    let amount = Plaintext { bits: vec![true, false, true, true] };
    let caller = point(8, 80);
    let program_id = ProgramID::new(id("token"), Some(id("aleo")));
    let function_name = id("transfer");
    // The private input (index 2) is encrypted under the key of [tvk, 2].
    let private_hash = toy_hash(Ciphertext { fields: vec![f(2)] }.to_bits_le()).unwrap();
    let request = Request {
        caller,
        program_id: program_id.clone(),
        function_name: function_name.clone(),
        input_ids: vec![
            InputID::Constant(f(403)),
            InputID::Public(f(403)),
            InputID::Private(private_hash),
            InputID::Record(point(9, 90), f(34)),
        ],
        inputs: vec![
            Value::Plaintext(amount.clone()),
            Value::Plaintext(amount.clone()),
            Value::Plaintext(amount),
            Value::Record(RecordValue { owner: caller, balance: 5, data: Plaintext { bits: vec![] }, nonce: point(0, 0) }),
        ],
        signature: Signature { bytes: vec![1] },
        tvk: f(77),
    };
    // The record input (index 3) is keyed from [tvk, 3].
    let serial_number = |_: &RecordValue, preimage: Vec<Field>, gamma: &Group, _: &Signature| {
        assert_eq!(preimage, vec![f(77), f(3)]);
        assert_eq!(*gamma, point(9, 90));
        Ok(SerialNumberEvidence { h: point(4, 40), h_r: point(5, 50), serial_number: f(34) })
    };
    let function_id = toy_hash(function_id_input(3, &program_id, &function_name)).unwrap();
    let expected = vec![f(77), function_id, f(403), f(403), private_hash, f(4), f(5), f(9)];
    let check = |_: &Signature, signer: &Group, message: &Vec<Field>| *signer == caller && *message == expected;
    assert!(request.verify(3, &toy_hash, &view_key, &encrypt, &serial_number, &check));
    // Signed for another function, the same message does not verify.
    let mut other = request.clone();
    other.function_name = id("mint");
    assert!(!other.verify(3, &toy_hash, &view_key, &encrypt, &serial_number, &check));
}

#[test]
fn verify_message_order() {
    let r = request(point(1, 1), 5);
    let check = |signature: &Signature, caller: &Group, message: &Vec<Field>| {
        signature.bytes == vec![5] && *caller == point(1, 1) && *message == expected_message()
    };
    assert!(r.verify_with_evidence(Ok(f(1000)), &evidence(13), &check));
    // A record balance of exactly 2^52 is within the bound.
    assert!(request(point(1, 1), 1 << 52).verify_with_evidence(Ok(f(1000)), &evidence(13), &check));
    // A signature that does not verify.
    let refuse = |_: &Signature, _: &Group, _: &Vec<Field>| false;
    assert!(!r.verify_with_evidence(Ok(f(1000)), &evidence(13), &refuse));
}

#[test]
fn request_refusals() {
    let never = |_: &Signature, _: &Group, _: &Vec<Field>| -> bool { panic!("the signature is not checked") };
    // The function ID could not be computed.
    assert!(!request(point(1, 1), 5).verify_with_evidence(Err(HashError), &evidence(13), &never));
    // The serial number does not match.
    assert!(!request(point(1, 1), 5).verify_with_evidence(Ok(f(1000)), &evidence(14), &never));
    // The record belongs to someone else.
    assert!(!request(point(2, 2), 5).verify_with_evidence(Ok(f(1000)), &evidence(13), &never));
    // The balance is too large.
    assert!(!request(point(1, 1), (1 << 52) + 1).verify_with_evidence(Ok(f(1000)), &evidence(13), &never));
    // The inputs and their IDs differ in number.
    let mut unmatched = request(point(1, 1), 5);
    unmatched.input_ids.pop();
    assert!(!unmatched.verify_with_evidence(Ok(f(1000)), &evidence(13), &never));
    // The public input does not hash to its ID.
    let mut wrong = evidence(13);
    wrong[0] = InputEvidence::Hash(Ok(f(12)));
    assert!(!request(point(1, 1), 5).verify_with_evidence(Ok(f(1000)), &wrong, &never));
    // A hash that failed.
    let mut failed = evidence(13);
    failed[0] = InputEvidence::Hash(Err(HashError));
    assert!(!request(point(1, 1), 5).verify_with_evidence(Ok(f(1000)), &failed, &never));
    // Evidence of the wrong kind.
    let mut swapped = evidence(13);
    swapped[1] = InputEvidence::Hash(Ok(f(13)));
    assert!(!request(point(1, 1), 5).verify_with_evidence(Ok(f(1000)), &swapped, &never));
}

#[test]
fn balance_bound() {
    assert!(balance_in_bounds(0));
    assert!(balance_in_bounds((1 << 52) - 1));
    assert!(balance_in_bounds(1 << 52));
    assert!(!balance_in_bounds((1 << 52) + 1));
    assert!(!balance_in_bounds(u64::MAX));
}
