use snarkvm_program::field::{Field, Group};
use snarkvm_program::identifier::Identifier;
use snarkvm_program::program_id::ProgramID;
use snarkvm_program::request::{InputID, OutputID, RecordValue, Request, Response, Signature, Value};
use snarkvm_program::transition::{Input, Output, Proof, Transition, TransitionError, ValueEvidence};
use snarkvm_program::values::{Ciphertext, HashError, Plaintext};

fn f(v: u64) -> Field {
    Field::from_limbs(v, 0, 0, 0).unwrap()
}

fn point(x: u64, y: u64) -> Group {
    Group { x: f(x), y: f(y) }
}

fn id(name: &str) -> Identifier {
    Identifier::new(name.as_bytes().to_vec()).unwrap()
}

/// A stand-in hash: the number of set bits plus 100 times the length.
fn toy_hash(bits: Vec<bool>) -> Result<Field, HashError> {
    if bits.len() > 10_000 {
        return Err(HashError);
    }
    Ok(f(bits.iter().filter(|b| **b).count() as u64 + 100 * bits.len() as u64))
}

fn plaintext(bits: &[bool]) -> Plaintext {
    Plaintext { bits: bits.to_vec() }
}

#[test]
fn output_ids() {
    assert_eq!(Output::Constant(f(1), None).id(), vec![f(1)]);
    assert_eq!(Output::Public(f(2), None).id(), vec![f(2)]);
    assert_eq!(Output::Private(f(3), None).id(), vec![f(3)]);
    assert_eq!(Output::Record(f(4), f(5), f(6), None).id(), vec![f(4), f(5), f(6)]);
    assert_eq!(Input::Record(f(7)).id(), f(7));
}

#[test]
fn output_verify() {
    let p = plaintext(&[true, true, false]);
    // 2 set bits, 3 bits long.
    assert!(Output::Constant(f(302), Some(p.clone())).verify(&toy_hash));
    assert!(!Output::Public(f(301), Some(p.clone())).verify(&toy_hash));
    // Without a value there is nothing to check.
    assert!(Output::Public(f(0), None).verify(&toy_hash));
    // A record output is checked by its checksum.
    let c = Ciphertext { fields: vec![f(1)] };
    assert!(Output::Record(f(0), f(0), f(25301), Some(c.clone())).verify(&toy_hash));
    assert!(!Output::Record(f(25301), f(0), f(0), Some(c)).verify(&toy_hash));
    // A hash that fails makes the output invalid.
    let long = Plaintext { bits: vec![false; 10_001] };
    assert!(!Output::Constant(f(0), Some(long)).verify(&toy_hash));
    assert!(Output::Constant(f(302), None).check(Err(HashError)));
    assert!(!Output::Private(f(1), Some(Ciphertext { fields: vec![] })).check(Err(HashError)));
}

#[test]
fn input_verify() {
    let p = plaintext(&[true]);
    assert!(Input::Constant(f(101), Some(p.clone())).verify(&toy_hash));
    assert!(!Input::Private(f(100), Some(Ciphertext { fields: vec![f(1)] })).verify(&toy_hash));
    assert!(Input::Record(f(1)).verify(&toy_hash));
    assert!(Input::Public(f(5), Some(p)).check(Ok(f(5))));
}

fn sample_transition() -> Transition {
    Transition::new(
        ProgramID::new(id("token"), Some(id("aleo"))),
        id("transfer"),
        vec![Input::Constant(f(101), Some(plaintext(&[true]))), Input::Record(f(9))],
        vec![Output::Record(f(4), f(5), f(0), Some(Ciphertext { fields: vec![] }))],
        Proof { bytes: vec![1, 2, 3] },
        point(7, 8),
        10,
    )
}

#[test]
fn transition_public_inputs() {
    let t = sample_transition();
    assert_eq!(t.to_public_inputs(), vec![Field::one(), f(7), f(8), f(101), f(9), f(4), f(5), f(0)]);
}

#[test]
fn transition_verify() {
    let t = sample_transition();
    let expected = t.to_public_inputs();
    let accept = |public: &Vec<Field>, proof: &Proof| *public == expected && proof.bytes == vec![1, 2, 3];
    assert!(t.verify(&toy_hash, &accept));
    let reject = |_: &Vec<Field>, _: &Proof| false;
    assert!(!t.verify(&toy_hash, &reject));

    let mut bad = sample_transition();
    bad.outputs = vec![Output::Public(f(1), Some(plaintext(&[true])))];
    // The proof verifier is not reached: an output is malformed.
    let never = |_: &Vec<Field>, _: &Proof| -> bool { panic!("the proof is not checked") };
    assert!(!bad.verify(&toy_hash, &never));
}

fn record_value(owner: Group, balance: u64) -> RecordValue {
    RecordValue { owner, balance, data: plaintext(&[]), nonce: point(0, 0) }
}

fn sample_request() -> Request {
    Request {
        caller: point(1, 1),
        program_id: ProgramID::new(id("token"), Some(id("aleo"))),
        function_name: id("transfer"),
        input_ids: vec![InputID::Constant(f(11)), InputID::Private(f(12)), InputID::Record(point(3, 3), f(13))],
        inputs: vec![
            Value::Plaintext(plaintext(&[true])),
            Value::Plaintext(plaintext(&[false])),
            Value::Record(record_value(point(1, 1), 5)),
        ],
        signature: Signature { bytes: vec![] },
        tvk: f(99),
    }
}

fn sample_response() -> Response {
    Response {
        output_ids: vec![OutputID::Public(f(21)), OutputID::Record(f(22), f(23), f(24))],
        outputs: vec![Value::Plaintext(plaintext(&[true])), Value::Record(record_value(point(2, 2), 1))],
    }
}

fn input_evidence() -> Vec<ValueEvidence> {
    vec![
        ValueEvidence::Hash(Ok(f(11))),
        ValueEvidence::Encryption(Ok((Ciphertext { fields: vec![f(5)] }, f(12)))),
        ValueEvidence::Nothing,
    ]
}

fn output_evidence() -> Vec<ValueEvidence> {
    vec![
        ValueEvidence::Hash(Ok(f(21))),
        ValueEvidence::RecordOutput(Ok(f(22)), f(23), Ok((Ciphertext { fields: vec![f(6)] }, f(24)))),
    ]
}

#[test]
fn transition_from_request() {
    let t = Transition::from_evidence(sample_request(), sample_response(), Proof { bytes: vec![7] }, 3, point(4, 4), input_evidence(), output_evidence())
        .unwrap();
    assert_eq!(t.program_id, ProgramID::new(id("token"), Some(id("aleo"))));
    assert_eq!(t.function_name, id("transfer"));
    assert_eq!(t.fee, 3);
    assert_eq!(t.tpk, point(4, 4));
    assert_eq!(
        t.inputs,
        vec![
            Input::Constant(f(11), Some(plaintext(&[true]))),
            Input::Private(f(12), Some(Ciphertext { fields: vec![f(5)] })),
            Input::Record(f(13)),
        ]
    );
    assert_eq!(
        t.outputs,
        vec![
            Output::Public(f(21), Some(plaintext(&[true]))),
            Output::Record(f(22), f(23), f(24), Some(Ciphertext { fields: vec![f(6)] })),
        ]
    );
}

#[test]
fn transition_from_errors() {
    let from = |request: Request, response: Response, inputs: Vec<ValueEvidence>, outputs: Vec<ValueEvidence>| {
        Transition::from_evidence(request, response, Proof { bytes: vec![] }, 0, point(0, 0), inputs, outputs)
    };
    // The first failing input decides, before any output.
    let mut inputs = input_evidence();
    inputs[0] = ValueEvidence::Hash(Ok(f(0)));
    let mut outputs = output_evidence();
    outputs[0] = ValueEvidence::Hash(Err(HashError));
    assert_eq!(from(sample_request(), sample_response(), inputs, outputs), Err(TransitionError::ConstantInputHash));

    let mut inputs = input_evidence();
    inputs[1] = ValueEvidence::Encryption(Ok((Ciphertext { fields: vec![] }, f(0))));
    assert_eq!(from(sample_request(), sample_response(), inputs, output_evidence()), Err(TransitionError::PrivateInputHash));

    let mut request = sample_request();
    request.inputs[2] = Value::Plaintext(plaintext(&[]));
    assert_eq!(from(request, sample_response(), input_evidence(), output_evidence()), Err(TransitionError::MalformedInput));

    let mut outputs = output_evidence();
    outputs[0] = ValueEvidence::Hash(Err(HashError));
    assert_eq!(from(sample_request(), sample_response(), input_evidence(), outputs), Err(TransitionError::HashFailed));

    let mut outputs = output_evidence();
    outputs[1] = ValueEvidence::RecordOutput(Ok(f(0)), f(23), Ok((Ciphertext { fields: vec![] }, f(24))));
    assert_eq!(from(sample_request(), sample_response(), input_evidence(), outputs), Err(TransitionError::OutputCommitment));

    let mut outputs = output_evidence();
    outputs[1] = ValueEvidence::RecordOutput(Ok(f(22)), f(0), Ok((Ciphertext { fields: vec![] }, f(24))));
    assert_eq!(from(sample_request(), sample_response(), input_evidence(), outputs), Err(TransitionError::OutputNonce));

    let mut outputs = output_evidence();
    outputs[1] = ValueEvidence::RecordOutput(Ok(f(22)), f(23), Ok((Ciphertext { fields: vec![] }, f(0))));
    assert_eq!(from(sample_request(), sample_response(), input_evidence(), outputs), Err(TransitionError::OutputChecksum));

    let mut response = sample_response();
    response.outputs[1] = Value::Plaintext(plaintext(&[]));
    assert_eq!(from(sample_request(), response, input_evidence(), output_evidence()), Err(TransitionError::MalformedOutput));
}

#[test]
fn built_transition_verifies_with_the_same_hashes() {
    // A hasher that returns, for each value, the hash the evidence holds for it.
    let hash = |bits: Vec<bool>| -> Result<Field, HashError> {
        if bits == vec![true] {
            Ok(f(11))
        } else if bits == (Ciphertext { fields: vec![f(5)] }).to_bits_le() {
            Ok(f(12))
        } else if bits == (Ciphertext { fields: vec![f(6)] }).to_bits_le() {
            Ok(f(24))
        } else {
            Err(HashError)
        }
    };
    let mut response = sample_response();
    response.output_ids[0] = OutputID::Public(f(11));
    let mut outputs = output_evidence();
    outputs[0] = ValueEvidence::Hash(Ok(f(11)));
    let t = Transition::from_evidence(sample_request(), response, Proof { bytes: vec![] }, 0, point(0, 0), input_evidence(), outputs)
        .unwrap();
    assert!(t.inputs.iter().all(|input| input.verify(&hash)));
    assert!(t.outputs.iter().all(|output| output.verify(&hash)));
    assert!(t.verify(&hash, &|_: &Vec<Field>, _: &Proof| true));
}

#[test]
fn record_output_verdict_reads_only_the_checksum() {
    let c = Ciphertext { fields: vec![f(1)] };
    let a = Output::Record(f(1), f(2), f(25301), Some(c.clone()));
    let b = Output::Record(f(7), f(8), f(25301), Some(c.clone()));
    assert_eq!(a.verify(&toy_hash), b.verify(&toy_hash));
    let a = Output::Record(f(1), f(2), f(9), Some(c.clone()));
    let b = Output::Record(f(7), f(8), f(9), Some(c));
    assert_eq!(a.verify(&toy_hash), b.verify(&toy_hash));
    assert!(!a.verify(&toy_hash));
}

/// Stand-ins for the keyed hash, the encryption and the record output: each
/// records its arguments in what it returns, so that the test sees which
/// preimage each value was keyed from.
fn view_key(preimage: Vec<Field>) -> Result<Field, HashError> {
    Ok(preimage[1])
}

fn encrypt(_: &Plaintext, key: Field) -> Result<Ciphertext, HashError> {
    Ok(Ciphertext { fields: vec![key] })
}

fn record_output(_: &RecordValue, preimage: Vec<Field>) -> (Result<Field, HashError>, Field, Result<Ciphertext, HashError>) {
    (Ok(preimage[1]), preimage[0], Ok(Ciphertext { fields: vec![preimage[1]] }))
}

/// The hash of the bits of a ciphertext of one element: its number, plus 1000.
fn keyed_toy_hash(bits: Vec<bool>) -> Result<Field, HashError> {
    if bits.len() == snarkvm_program::field::FIELD_BITS {
        let v: u64 = (0..64).filter(|i| bits[*i]).map(|i| 1u64 << i).sum();
        Ok(f(v + 1000))
    } else {
        toy_hash(bits)
    }
}

#[test]
fn transition_from_computes_with_the_request_keys() {
    // Input 1 is private: keyed from [tvk, 1]. Output 1 is a record: keyed
    // from [tvk, n + 1] with n = 3 inputs, so from index 4.
    let mut request = sample_request();
    request.input_ids[0] = InputID::Constant(f(101));
    request.input_ids[1] = InputID::Private(f(1001));
    let response = Response {
        output_ids: vec![OutputID::Public(f(101)), OutputID::Record(f(4), f(99), f(1004))],
        outputs: vec![Value::Plaintext(plaintext(&[true])), Value::Record(record_value(point(2, 2), 1))],
    };
    let t = Transition::from(request, response, Proof { bytes: vec![] }, 0, point(0, 0), &keyed_toy_hash, &view_key, &encrypt, &record_output)
        .unwrap();
    assert_eq!(t.inputs[1], Input::Private(f(1001), Some(Ciphertext { fields: vec![f(1)] })));
    assert_eq!(t.outputs[1], Output::Record(f(4), f(99), f(1004), Some(Ciphertext { fields: vec![f(4)] })));
    assert!(t.outputs.iter().all(|output| output.verify(&keyed_toy_hash)));
    assert!(t.inputs.iter().all(|input| input.verify(&keyed_toy_hash)));

    // A plaintext that does not hash to its ID is refused.
    let mut request = sample_request();
    request.input_ids[0] = InputID::Constant(f(100));
    let r = Transition::from(request, sample_response(), Proof { bytes: vec![] }, 0, point(0, 0), &keyed_toy_hash, &view_key, &encrypt, &record_output);
    assert_eq!(r, Err(TransitionError::ConstantInputHash));
}
