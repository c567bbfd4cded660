//! Transitions: the inputs and outputs of one function call, with the proof
//! that the call was carried out, and their verification.

use vstd::prelude::*;

use crate::field::{Field, Group};
use crate::identifier::Identifier;
use crate::program_id::ProgramID;
use crate::request::{InputID, OutputID, RecordValue, Request, Response, Value};
use crate::outcomes::{
    encrypt_and_hash, encrypt_total, encryption_outcome, hash_outcome, hash_total, index_preimage, index_preimage_of,
    keyed_total,
};
use crate::values::{Ciphertext, HashError, Plaintext};

verus! {

/// An input of a transition.
#[derive(Clone, Debug, PartialEq, Eq)]
pub enum Input {
    /// The plaintext hash and (optional) plaintext.
    Constant(Field, Option<Plaintext>),
    /// The plaintext hash and (optional) plaintext.
    Public(Field, Option<Plaintext>),
    /// The ciphertext hash and (optional) ciphertext.
    Private(Field, Option<Ciphertext>),
    /// The serial number of the record spent.
    Record(Field),
}

impl Input {
    pub open spec fn spec_id(self) -> Field {
        match self {
            Input::Constant(id, _) => id,
            Input::Public(id, _) => id,
            Input::Private(id, _) => id,
            Input::Record(serial_number) => serial_number,
        }
    }

    /// The bits of the value the input carries, where it carries one.
    pub open spec fn payload_bits(self) -> Option<Seq<bool>> {
        match self {
            Input::Constant(_, Some(value)) => Some(value.spec_bits()),
            Input::Public(_, Some(value)) => Some(value.spec_bits()),
            Input::Private(_, Some(value)) => Some(value.spec_bits()),
            _ => None,
        }
    }

    /// Whether the input is well formed, given the hash of the value it
    /// carries: the hash was computed and equals the input's ID.
    pub open spec fn accepts(self, candidate: Result<Field, HashError>) -> bool {
        match self.payload_bits() {
            None => true,
            Some(_) => candidate matches Ok(hash) && hash == self.spec_id(),
        }
    }

    /// Where `verdict` is what verifying the input with `hash` may give.
    pub open spec fn verified_by<H: Fn(Vec<bool>) -> Result<Field, HashError>>(self, hash: H, verdict: bool) -> bool {
        match self.payload_bits() {
            None => verdict,
            Some(bits) => exists|out: Result<Field, HashError>| #[trigger]
                hash_outcome(hash, bits, out) && verdict == self.accepts(out),
        }
    }

    /// Returns the ID of the input.
    pub fn id(&self) -> (r: Field)
        ensures
            r == self.spec_id(),
    {
        match self {
            Input::Constant(id, _) => *id,
            Input::Public(id, _) => *id,
            Input::Private(id, _) => *id,
            Input::Record(serial_number) => *serial_number,
        }
    }

    /// Returns whether the input is well formed, given the hash of the value it carries.
    pub fn check(&self, candidate: Result<Field, HashError>) -> (r: bool)
        ensures
            r == self.accepts(candidate),
    {
        match self {
            Input::Constant(id, Some(_)) | Input::Public(id, Some(_)) | Input::Private(id, Some(_)) => {
                match candidate {
                    Ok(hash) => hash == *id,
                    Err(_) => false,
                }
            },
            _ => true,
        }
    }

    /// Returns whether the input is well formed: where it carries a value,
    /// that value hashes (with `hash_bhp1024`) to the input's ID.
    pub fn verify<H: Fn(Vec<bool>) -> Result<Field, HashError>>(&self, hash_bhp1024: &H) -> (r: bool)
        requires
            hash_total(*hash_bhp1024),
        ensures
            self.verified_by(*hash_bhp1024, r),
    {
        let bits = match self {
            Input::Constant(_, Some(value)) => value.to_bits_le(),
            Input::Public(_, Some(value)) => value.to_bits_le(),
            Input::Private(_, Some(value)) => value.to_bits_le(),
            _ => {
                return true;
            },
        };
        let candidate = hash_bhp1024(bits);
        let r = self.check(candidate);
        assert(hash_outcome(*hash_bhp1024, self.payload_bits().unwrap(), candidate));
        r
    }
}

/// An output of a transition.
#[derive(Clone, Debug, PartialEq, Eq)]
pub enum Output {
    /// The plaintext hash and (optional) plaintext.
    Constant(Field, Option<Plaintext>),
    /// The plaintext hash and (optional) plaintext.
    Public(Field, Option<Plaintext>),
    /// The ciphertext hash and (optional) ciphertext.
    Private(Field, Option<Ciphertext>),
    /// The commitment, nonce, checksum and (optional) record ciphertext.
    Record(Field, Field, Field, Option<Ciphertext>),
}

impl Output {
    /// The IDs of the output.
    pub open spec fn spec_ids(self) -> Seq<Field> {
        match self {
            Output::Constant(id, _) => seq![id],
            Output::Public(id, _) => seq![id],
            Output::Private(id, _) => seq![id],
            Output::Record(commitment, nonce, checksum, _) => seq![commitment, nonce, checksum],
        }
    }

    /// The bits of the value the output carries, where it carries one.
    pub open spec fn payload_bits(self) -> Option<Seq<bool>> {
        match self {
            Output::Constant(_, Some(value)) => Some(value.spec_bits()),
            Output::Public(_, Some(value)) => Some(value.spec_bits()),
            Output::Private(_, Some(value)) => Some(value.spec_bits()),
            Output::Record(_, _, _, Some(value)) => Some(value.spec_bits()),
            _ => None,
        }
    }

    /// Whether the output is well formed, given the hash of the value it
    /// carries: the hash was computed and equals the output's ID (for a
    /// record, its checksum).
    pub open spec fn accepts(self, candidate: Result<Field, HashError>) -> bool {
        match self.payload_bits() {
            None => true,
            Some(_) => candidate matches Ok(hash) && hash == match self {
                Output::Record(_, _, checksum, _) => checksum,
                _ => self.spec_ids()[0],
            },
        }
    }

    /// Where `verdict` is what verifying the output with `hash` may give.
    pub open spec fn verified_by<H: Fn(Vec<bool>) -> Result<Field, HashError>>(self, hash: H, verdict: bool) -> bool {
        match self.payload_bits() {
            None => verdict,
            Some(bits) => exists|out: Result<Field, HashError>| #[trigger]
                hash_outcome(hash, bits, out) && verdict == self.accepts(out),
        }
    }

    /// Returns the IDs of the output: one field element, or for a record its
    /// commitment, nonce and checksum.
    pub fn id(&self) -> (r: Vec<Field>)
        ensures
            r@ == self.spec_ids(),
    {
        let mut ids: Vec<Field> = Vec::new();
        match self {
            Output::Constant(id, ..) => ids.push(*id),
            Output::Public(id, ..) => ids.push(*id),
            Output::Private(id, ..) => ids.push(*id),
            Output::Record(commitment, nonce, checksum, _) => {
                ids.push(*commitment);
                ids.push(*nonce);
                ids.push(*checksum);
            },
        }
        assert(ids@ =~= self.spec_ids());
        ids
    }

    /// Returns whether the output is well formed, given the hash of the value it carries.
    pub fn check(&self, candidate: Result<Field, HashError>) -> (r: bool)
        ensures
            r == self.accepts(candidate),
    {
        match self {
            Output::Constant(hash, Some(_)) | Output::Public(hash, Some(_)) | Output::Private(hash, Some(_))
            | Output::Record(_, _, hash, Some(_)) => {
                match candidate {
                    Ok(candidate_hash) => candidate_hash == *hash,
                    Err(_) => false,
                }
            },
            _ => true,
        }
    }

    /// Returns whether the output is well formed: where it carries a value,
    /// that value hashes (with `hash_bhp1024`) to the output's ID (for a
    /// record, its checksum).
    pub fn verify<H: Fn(Vec<bool>) -> Result<Field, HashError>>(&self, hash_bhp1024: &H) -> (r: bool)
        requires
            hash_total(*hash_bhp1024),
        ensures
            self.verified_by(*hash_bhp1024, r),
    {
        let bits = match self {
            Output::Constant(_, Some(value)) => value.to_bits_le(),
            Output::Public(_, Some(value)) => value.to_bits_le(),
            Output::Private(_, Some(value)) => value.to_bits_le(),
            Output::Record(_, _, _, Some(value)) => value.to_bits_le(),
            _ => {
                return true;
            },
        };
        let candidate = hash_bhp1024(bits);
        let r = self.check(candidate);
        assert(hash_outcome(*hash_bhp1024, self.payload_bits().unwrap(), candidate));
        r
    }
}

/// The IDs of the inputs, in order.
pub open spec fn input_ids(inputs: Seq<Input>) -> Seq<Field> {
    inputs.map_values(|input: Input| input.spec_id())
}

/// The IDs of the outputs, in order, each output's IDs together.
pub open spec fn output_ids(outputs: Seq<Output>) -> Seq<Field>
    decreases outputs.len(),
{
    if outputs.len() == 0 {
        Seq::empty()
    } else {
        output_ids(outputs.drop_last()) + outputs.last().spec_ids()
    }
}

/// The proof of a transition, as bytes.
#[derive(Clone, Debug, PartialEq, Eq)]
pub struct Proof {
    pub bytes: Vec<u8>,
}

/// A transition: the call of a function of a program, with its inputs and
/// outputs, the proof that it was carried out, the transition public key and
/// the network fee.
#[derive(Clone, Debug, PartialEq, Eq)]
pub struct Transition {
    pub program_id: ProgramID,
    pub function_name: Identifier,
    pub inputs: Vec<Input>,
    pub outputs: Vec<Output>,
    pub proof: Proof,
    pub tpk: Group,
    pub fee: u64,
}

impl Transition {
    /// The public inputs against which the proof is verified: one, the
    /// coordinates of the transition public key, the input IDs and the output IDs.
    pub open spec fn public_inputs(self) -> Seq<Field> {
        seq![Field::spec_one(), self.tpk.x, self.tpk.y] + input_ids(self.inputs@) + output_ids(self.outputs@)
    }

    /// Where `verdict` is what `verify_proof` may answer on the public inputs and the proof.
    pub open spec fn proof_verified_by<V: Fn(&Vec<Field>, &Proof) -> bool>(self, verify_proof: V, verdict: bool) -> bool {
        exists|public: Vec<Field>| public@ == self.public_inputs() && #[trigger] call_ensures(
            verify_proof,
            (&public, &self.proof),
            verdict,
        )
    }

    /// Returns a new transition.
    pub fn new(
        program_id: ProgramID,
        function_name: Identifier,
        inputs: Vec<Input>,
        outputs: Vec<Output>,
        proof: Proof,
        tpk: Group,
        fee: u64,
    ) -> (r: Transition)
        ensures
            r == (Transition { program_id, function_name, inputs, outputs, proof, tpk, fee }),
    {
        Transition { program_id, function_name, inputs, outputs, proof, tpk, fee }
    }

    /// Returns the public inputs against which the proof is verified.
    pub fn to_public_inputs(&self) -> (r: Vec<Field>)
        ensures
            r@ == self.public_inputs(),
    {
        let mut public: Vec<Field> = Vec::new();
        public.push(Field::one());
        public.push(self.tpk.x);
        public.push(self.tpk.y);
        let ghost head = public@;
        let mut i: usize = 0;
        while i < self.inputs.len()
            invariant
                i <= self.inputs@.len(),
                public@ == head + input_ids(self.inputs@.subrange(0, i as int)),
            decreases self.inputs@.len() - i,
        {
            public.push(self.inputs[i].id());
            assert(input_ids(self.inputs@.subrange(0, i + 1)) =~= input_ids(self.inputs@.subrange(0, i as int)).push(
                self.inputs@[i as int].spec_id(),
            ));
            i = i + 1;
        }
        assert(self.inputs@.subrange(0, self.inputs@.len() as int) =~= self.inputs@);
        let ghost middle = public@;
        let mut j: usize = 0;
        while j < self.outputs.len()
            invariant
                j <= self.outputs@.len(),
                public@ == middle + output_ids(self.outputs@.subrange(0, j as int)),
            decreases self.outputs@.len() - j,
        {
            let ids = self.outputs[j].id();
            let mut k: usize = 0;
            let ghost before = public@;
            while k < ids.len()
                invariant
                    k <= ids@.len(),
                    public@ == before + ids@.subrange(0, k as int),
                decreases ids@.len() - k,
            {
                public.push(ids[k]);
                assert(ids@.subrange(0, k + 1) =~= ids@.subrange(0, k as int).push(ids@[k as int]));
                k = k + 1;
            }
            assert(ids@.subrange(0, ids@.len() as int) =~= ids@);
            assert(self.outputs@.subrange(0, j + 1).drop_last() =~= self.outputs@.subrange(0, j as int));
            j = j + 1;
        }
        assert(self.outputs@.subrange(0, self.outputs@.len() as int) =~= self.outputs@);
        assert(public@ =~= self.public_inputs());
        public
    }

    /// Returns whether the transition is valid: every input and output is
    /// well formed (checked with `hash_bhp1024`), and the proof verifies
    /// against the public inputs (checked with `verify_proof`).
    pub fn verify<H: Fn(Vec<bool>) -> Result<Field, HashError>, V: Fn(&Vec<Field>, &Proof) -> bool>(
        &self,
        hash_bhp1024: &H,
        verify_proof: &V,
    ) -> (r: bool)
        requires
            hash_total(*hash_bhp1024),
            forall|public: Vec<Field>| #[trigger] call_requires(*verify_proof, (&public, &self.proof)),
        ensures
            r ==> forall|i: int| 0 <= i < self.inputs@.len() ==> #[trigger] self.inputs@[i].verified_by(*hash_bhp1024, true),
            r ==> forall|j: int| 0 <= j < self.outputs@.len() ==> #[trigger] self.outputs@[j].verified_by(*hash_bhp1024, true),
            r ==> self.proof_verified_by(*verify_proof, true),
            !r ==> (exists|i: int| 0 <= i < self.inputs@.len() && #[trigger] self.inputs@[i].verified_by(*hash_bhp1024, false))
                || (exists|j: int| 0 <= j < self.outputs@.len() && #[trigger] self.outputs@[j].verified_by(*hash_bhp1024, false))
                || self.proof_verified_by(*verify_proof, false),
    {
        let mut i: usize = 0;
        while i < self.inputs.len()
            invariant
                i <= self.inputs@.len(),
                hash_total(*hash_bhp1024),
                forall|k: int| 0 <= k < i ==> #[trigger] self.inputs@[k].verified_by(*hash_bhp1024, true),
            decreases self.inputs@.len() - i,
        {
            if !self.inputs[i].verify(hash_bhp1024) {
                assert(self.inputs@[i as int].verified_by(*hash_bhp1024, false));
                return false;
            }
            i = i + 1;
        }
        let mut j: usize = 0;
        while j < self.outputs.len()
            invariant
                j <= self.outputs@.len(),
                hash_total(*hash_bhp1024),
                forall|k: int| 0 <= k < j ==> #[trigger] self.outputs@[k].verified_by(*hash_bhp1024, true),
            decreases self.outputs@.len() - j,
        {
            if !self.outputs[j].verify(hash_bhp1024) {
                assert(self.outputs@[j as int].verified_by(*hash_bhp1024, false));
                return false;
            }
            j = j + 1;
        }
        let public = self.to_public_inputs();
        let r = verify_proof(&public, &self.proof);
        assert(call_ensures(*verify_proof, (&public, &self.proof), r));
        r
    }
}

/// Why a transition could not be built from a request and its response.
#[derive(Clone, Copy, Debug, PartialEq, Eq)]
pub enum TransitionError {
    /// A hash, encryption or commitment could not be computed.
    HashFailed,
    /// A constant input's plaintext does not hash to its ID.
    ConstantInputHash,
    /// A public input's plaintext does not hash to its ID.
    PublicInputHash,
    /// A private input's ciphertext does not hash to its ID.
    PrivateInputHash,
    /// An input's value is not of the kind its ID calls for.
    MalformedInput,
    /// A constant output's plaintext does not hash to its ID.
    ConstantOutputHash,
    /// A public output's plaintext does not hash to its ID.
    PublicOutputHash,
    /// A private output's ciphertext does not hash to its ID.
    PrivateOutputHash,
    /// A record output's commitment is not the one computed.
    OutputCommitment,
    /// A record output's nonce is not the one computed.
    OutputNonce,
    /// A record output's checksum is not the hash of its ciphertext.
    OutputChecksum,
    /// An output's value is not of the kind its ID calls for.
    MalformedOutput,
}

/// What the network computed for one input or output value, to build a transition.
#[derive(Debug, PartialEq, Eq)]
pub enum ValueEvidence {
    /// For a constant or public value: the hash of its plaintext.
    Hash(Result<Field, HashError>),
    /// For a private value: its ciphertext under the value's view key, and
    /// the hash of that ciphertext.
    Encryption(Result<(Ciphertext, Field), HashError>),
    /// For a record output: the record commitment, the record nonce, and the
    /// record's ciphertext with its hash.
    RecordOutput(Result<Field, HashError>, Field, Result<(Ciphertext, Field), HashError>),
    /// For a record input: nothing is computed.
    Nothing,
}

/// The first error of a list of results, or the list of their values.
pub open spec fn first_error<T>(results: Seq<Result<T, TransitionError>>) -> Result<Seq<T>, TransitionError>
    decreases results.len(),
{
    if results.len() == 0 {
        Ok(Seq::empty())
    } else {
        match first_error(results.drop_last()) {
            Err(e) => Err(e),
            Ok(values) => match results.last() {
                Err(e) => Err(e),
                Ok(v) => Ok(values.push(v)),
            },
        }
    }
}

/// The transition input built from an input ID, its value and the evidence.
pub open spec fn input_result(id: InputID, value: Value, evidence: ValueEvidence) -> Result<Input, TransitionError> {
    match (id, value) {
        (InputID::Constant(hash), Value::Plaintext(plaintext)) => match evidence {
            ValueEvidence::Hash(Ok(candidate)) => if candidate == hash {
                Ok(Input::Constant(hash, Some(plaintext)))
            } else {
                Err(TransitionError::ConstantInputHash)
            },
            _ => Err(TransitionError::HashFailed),
        },
        (InputID::Public(hash), Value::Plaintext(plaintext)) => match evidence {
            ValueEvidence::Hash(Ok(candidate)) => if candidate == hash {
                Ok(Input::Public(hash, Some(plaintext)))
            } else {
                Err(TransitionError::PublicInputHash)
            },
            _ => Err(TransitionError::HashFailed),
        },
        (InputID::Private(hash), Value::Plaintext(_)) => match evidence {
            ValueEvidence::Encryption(Ok((ciphertext, candidate))) => if candidate == hash {
                Ok(Input::Private(hash, Some(ciphertext)))
            } else {
                Err(TransitionError::PrivateInputHash)
            },
            _ => Err(TransitionError::HashFailed),
        },
        (InputID::Record(_, serial_number), Value::Record(_)) => Ok(Input::Record(serial_number)),
        _ => Err(TransitionError::MalformedInput),
    }
}

/// The transition output built from an output ID, its value and the evidence.
pub open spec fn output_result(id: OutputID, value: Value, evidence: ValueEvidence) -> Result<Output, TransitionError> {
    match (id, value) {
        (OutputID::Constant(hash), Value::Plaintext(plaintext)) => match evidence {
            ValueEvidence::Hash(Ok(candidate)) => if candidate == hash {
                Ok(Output::Constant(hash, Some(plaintext)))
            } else {
                Err(TransitionError::ConstantOutputHash)
            },
            _ => Err(TransitionError::HashFailed),
        },
        (OutputID::Public(hash), Value::Plaintext(plaintext)) => match evidence {
            ValueEvidence::Hash(Ok(candidate)) => if candidate == hash {
                Ok(Output::Public(hash, Some(plaintext)))
            } else {
                Err(TransitionError::PublicOutputHash)
            },
            _ => Err(TransitionError::HashFailed),
        },
        (OutputID::Private(hash), Value::Plaintext(_)) => match evidence {
            ValueEvidence::Encryption(Ok((ciphertext, candidate))) => if candidate == hash {
                Ok(Output::Private(hash, Some(ciphertext)))
            } else {
                Err(TransitionError::PrivateOutputHash)
            },
            _ => Err(TransitionError::HashFailed),
        },
        (OutputID::Record(commitment, nonce, checksum), Value::Record(_)) => match evidence {
            ValueEvidence::RecordOutput(Ok(candidate_cm), candidate_nonce, encryption) => if candidate_cm
                != commitment {
                Err(TransitionError::OutputCommitment)
            } else if candidate_nonce != nonce {
                Err(TransitionError::OutputNonce)
            } else {
                match encryption {
                    Ok((ciphertext, candidate_checksum)) => if candidate_checksum == checksum {
                        Ok(Output::Record(commitment, nonce, checksum, Some(ciphertext)))
                    } else {
                        Err(TransitionError::OutputChecksum)
                    },
                    Err(_) => Err(TransitionError::HashFailed),
                }
            },
            _ => Err(TransitionError::HashFailed),
        },
        _ => Err(TransitionError::MalformedOutput),
    }
}

/// The transition inputs built from a request and the evidence, or the first error.
pub open spec fn request_inputs(ids: Seq<InputID>, values: Seq<Value>, evidence: Seq<ValueEvidence>) -> Result<Seq<Input>, TransitionError> {
    first_error(Seq::new(values.len(), |i: int| input_result(ids[i], values[i], evidence[i])))
}

/// The transition outputs built from a response and the evidence, or the first error.
pub open spec fn response_outputs(ids: Seq<OutputID>, values: Seq<Value>, evidence: Seq<ValueEvidence>) -> Result<Seq<Output>, TransitionError> {
    first_error(Seq::new(values.len(), |i: int| output_result(ids[i], values[i], evidence[i])))
}

/// Extending a list of results by one keeps the first error, or adds the new value.
proof fn lemma_first_error_push<T>(results: Seq<Result<T, TransitionError>>, next: Result<T, TransitionError>)
    ensures
        first_error(results.push(next)) == match first_error(results) {
            Err(e) => Err(e),
            Ok(values) => match next {
                Err(e) => Err(e),
                Ok(v) => Ok(values.push(v)),
            },
        },
{
    assert(results.push(next).drop_last() =~= results);
}

/// Builds the transition input for one input ID and value.
fn build_input(id: &InputID, value: Value, evidence: ValueEvidence) -> (r: Result<Input, TransitionError>)
    ensures
        r == input_result(*id, value, evidence),
{
    match (id, value) {
        (InputID::Constant(hash), Value::Plaintext(plaintext)) => match evidence {
            ValueEvidence::Hash(Ok(candidate)) => if candidate == *hash {
                Ok(Input::Constant(*hash, Some(plaintext)))
            } else {
                Err(TransitionError::ConstantInputHash)
            },
            _ => Err(TransitionError::HashFailed),
        },
        (InputID::Public(hash), Value::Plaintext(plaintext)) => match evidence {
            ValueEvidence::Hash(Ok(candidate)) => if candidate == *hash {
                Ok(Input::Public(*hash, Some(plaintext)))
            } else {
                Err(TransitionError::PublicInputHash)
            },
            _ => Err(TransitionError::HashFailed),
        },
        (InputID::Private(hash), Value::Plaintext(_)) => match evidence {
            ValueEvidence::Encryption(Ok((ciphertext, candidate))) => if candidate == *hash {
                Ok(Input::Private(*hash, Some(ciphertext)))
            } else {
                Err(TransitionError::PrivateInputHash)
            },
            _ => Err(TransitionError::HashFailed),
        },
        (InputID::Record(_, serial_number), Value::Record(_)) => Ok(Input::Record(*serial_number)),
        _ => Err(TransitionError::MalformedInput),
    }
}

/// Builds the transition output for one output ID and value.
fn build_output(id: &OutputID, value: Value, evidence: ValueEvidence) -> (r: Result<Output, TransitionError>)
    ensures
        r == output_result(*id, value, evidence),
{
    match (id, value) {
        (OutputID::Constant(hash), Value::Plaintext(plaintext)) => match evidence {
            ValueEvidence::Hash(Ok(candidate)) => if candidate == *hash {
                Ok(Output::Constant(*hash, Some(plaintext)))
            } else {
                Err(TransitionError::ConstantOutputHash)
            },
            _ => Err(TransitionError::HashFailed),
        },
        (OutputID::Public(hash), Value::Plaintext(plaintext)) => match evidence {
            ValueEvidence::Hash(Ok(candidate)) => if candidate == *hash {
                Ok(Output::Public(*hash, Some(plaintext)))
            } else {
                Err(TransitionError::PublicOutputHash)
            },
            _ => Err(TransitionError::HashFailed),
        },
        (OutputID::Private(hash), Value::Plaintext(_)) => match evidence {
            ValueEvidence::Encryption(Ok((ciphertext, candidate))) => if candidate == *hash {
                Ok(Output::Private(*hash, Some(ciphertext)))
            } else {
                Err(TransitionError::PrivateOutputHash)
            },
            _ => Err(TransitionError::HashFailed),
        },
        (OutputID::Record(commitment, nonce, checksum), Value::Record(_)) => match evidence {
            ValueEvidence::RecordOutput(Ok(candidate_cm), candidate_nonce, encryption) => {
                if candidate_cm != *commitment {
                    Err(TransitionError::OutputCommitment)
                } else if candidate_nonce != *nonce {
                    Err(TransitionError::OutputNonce)
                } else {
                    match encryption {
                        Ok((ciphertext, candidate_checksum)) => if candidate_checksum == *checksum {
                            Ok(Output::Record(*commitment, *nonce, *checksum, Some(ciphertext)))
                        } else {
                            Err(TransitionError::OutputChecksum)
                        },
                        Err(_) => Err(TransitionError::HashFailed),
                    }
                }
            },
            _ => Err(TransitionError::HashFailed),
        },
        _ => Err(TransitionError::MalformedOutput),
    }
}

impl Transition {
    /// Builds the transition of a request and its response on what was
    /// computed for them: each input (and then each output) is checked
    /// against its ID with what was computed for it (`input_evidence`,
    /// `output_evidence`), and the first that fails decides the error. `tpk`
    /// is the transition public key of the request.
    pub fn from_evidence(
        request: Request,
        response: Response,
        proof: Proof,
        fee: u64,
        tpk: Group,
        input_evidence: Vec<ValueEvidence>,
        output_evidence: Vec<ValueEvidence>,
    ) -> (r: Result<Transition, TransitionError>)
        requires
            request.input_ids@.len() == request.inputs@.len(),
            input_evidence@.len() == request.inputs@.len(),
            response.output_ids@.len() == response.outputs@.len(),
            output_evidence@.len() == response.outputs@.len(),
        ensures
            built_from(request, response, proof, fee, tpk, input_evidence@, output_evidence@, r),
    {
        let ghost all_inputs = Seq::new(
            request.inputs@.len(),
            |i: int| input_result(request.input_ids@[i], request.inputs@[i], input_evidence@[i]),
        );
        let ghost built_inputs = request_inputs(request.input_ids@, request.inputs@, input_evidence@);
        let ghost built_outputs = response_outputs(response.output_ids@, response.outputs@, output_evidence@);
        assert(built_inputs == first_error(all_inputs));
        let Request { caller: _, program_id, function_name, input_ids, inputs: mut values, signature: _, tvk: _ } = request;
        let mut evidence = input_evidence;
        let ghost values0 = values@;
        let ghost evidence0 = evidence@;
        let n = input_ids.len();
        let mut inputs: Vec<Input> = Vec::new();
        let mut i: usize = 0;
        while i < n
            invariant
                n == input_ids@.len(),
                n == values0.len(),
                n == evidence0.len(),
                i <= n,
                values@ == values0.subrange(i as int, n as int),
                evidence@ == evidence0.subrange(i as int, n as int),
                all_inputs == Seq::new(n as nat, |k: int| input_result(input_ids@[k], values0[k], evidence0[k])),
                built_inputs == first_error(all_inputs),
                built_inputs == request_inputs(request.input_ids@, request.inputs@, input_evidence@),
                first_error(all_inputs.subrange(0, i as int)) == Ok::<Seq<Input>, TransitionError>(inputs@),
            decreases n - i,
        {
            let value = values.remove(0);
            let e = evidence.remove(0);
            let input = build_input(&input_ids[i], value, e);
            proof {
                lemma_first_error_push(all_inputs.subrange(0, i as int), input);
                assert(all_inputs.subrange(0, i as int).push(input) =~= all_inputs.subrange(0, i + 1));
            }
            match input {
                Ok(input) => inputs.push(input),
                Err(e) => {
                    proof {
                        lemma_first_error_stays(all_inputs, i as int + 1);
                    }
                    return Err(e);
                },
            }
            i = i + 1;
        }
        assert(all_inputs.subrange(0, n as int) =~= all_inputs);

        let ghost all_outputs = Seq::new(
            response.outputs@.len(),
            |i: int| output_result(response.output_ids@[i], response.outputs@[i], output_evidence@[i]),
        );
        assert(built_outputs == first_error(all_outputs));
        let Response { output_ids, outputs: mut out_values } = response;
        let mut out_evidence = output_evidence;
        let ghost out_values0 = out_values@;
        let ghost out_evidence0 = out_evidence@;
        let m = output_ids.len();
        let mut outputs: Vec<Output> = Vec::new();
        let mut j: usize = 0;
        while j < m
            invariant
                m == output_ids@.len(),
                m == out_values0.len(),
                m == out_evidence0.len(),
                j <= m,
                out_values@ == out_values0.subrange(j as int, m as int),
                out_evidence@ == out_evidence0.subrange(j as int, m as int),
                all_outputs == Seq::new(m as nat, |k: int| output_result(output_ids@[k], out_values0[k], out_evidence0[k])),
                built_outputs == first_error(all_outputs),
                built_inputs == request_inputs(request.input_ids@, request.inputs@, input_evidence@),
                built_outputs == response_outputs(response.output_ids@, response.outputs@, output_evidence@),
                built_inputs == Ok::<Seq<Input>, TransitionError>(inputs@),
                first_error(all_outputs.subrange(0, j as int)) == Ok::<Seq<Output>, TransitionError>(outputs@),
            decreases m - j,
        {
            let value = out_values.remove(0);
            let e = out_evidence.remove(0);
            let output = build_output(&output_ids[j], value, e);
            proof {
                lemma_first_error_push(all_outputs.subrange(0, j as int), output);
                assert(all_outputs.subrange(0, j as int).push(output) =~= all_outputs.subrange(0, j + 1));
            }
            match output {
                Ok(output) => outputs.push(output),
                Err(e) => {
                    proof {
                        lemma_first_error_stays(all_outputs, j as int + 1);
                    }
                    return Err(e);
                },
            }
            j = j + 1;
        }
        assert(all_outputs.subrange(0, m as int) =~= all_outputs);
        Ok(Transition { program_id, function_name, inputs, outputs, proof, tpk, fee })
    }
}

/// What building a transition from a request and its response gives, on the
/// evidence computed for its inputs and outputs: the first error, inputs
/// before outputs, or the transition of the request's program and function
/// with the built inputs and outputs.
pub open spec fn built_from(
    request: Request,
    response: Response,
    proof: Proof,
    fee: u64,
    tpk: Group,
    input_evidence: Seq<ValueEvidence>,
    output_evidence: Seq<ValueEvidence>,
    r: Result<Transition, TransitionError>,
) -> bool {
    match (
        request_inputs(request.input_ids@, request.inputs@, input_evidence),
        response_outputs(response.output_ids@, response.outputs@, output_evidence),
    ) {
        (Err(e), _) => r == Err::<Transition, TransitionError>(e),
        (Ok(_), Err(e)) => r == Err::<Transition, TransitionError>(e),
        (Ok(inputs), Ok(outputs)) => r matches Ok(t) && t.inputs@ == inputs && t.outputs@ == outputs
            && t.program_id == request.program_id && t.function_name == request.function_name && t.proof == proof
            && t.tpk == tpk && t.fee == fee,
    }
}

/// Where `record_output` may be called on any record and preimage.
pub open spec fn record_output_total<
    R: Fn(&RecordValue, Vec<Field>) -> (Result<Field, HashError>, Field, Result<Ciphertext, HashError>),
>(record_output: R) -> bool {
    forall|record: &RecordValue, pre: Vec<Field>| #[trigger] call_requires(record_output, (record, pre))
}

/// Where `e` is what the functions handed in may give for the value of
/// input `index`: the hash of a constant or public plaintext; for a private
/// plaintext, its ciphertext under the key hashed from `[tvk, index]`, with
/// the ciphertext's hash; nothing for a record or a value of the wrong kind.
pub open spec fn input_value_outcome<
    H: Fn(Vec<bool>) -> Result<Field, HashError>,
    K: Fn(Vec<Field>) -> Result<Field, HashError>,
    E: Fn(&Plaintext, Field) -> Result<Ciphertext, HashError>,
>(hash: H, view_key: K, encrypt: E, tvk: Field, index: int, id: InputID, value: Value, e: ValueEvidence) -> bool {
    match (id, value) {
        (InputID::Constant(_), Value::Plaintext(p)) => e matches ValueEvidence::Hash(out) && hash_outcome(
            hash,
            p.spec_bits(),
            out,
        ),
        (InputID::Public(_), Value::Plaintext(p)) => e matches ValueEvidence::Hash(out) && hash_outcome(
            hash,
            p.spec_bits(),
            out,
        ),
        (InputID::Private(_), Value::Plaintext(p)) => e matches ValueEvidence::Encryption(out)
            && encryption_outcome(view_key, encrypt, hash, index_preimage(tvk, index), p, out),
        _ => e is Nothing,
    }
}

/// Where `e` is what the functions handed in may give for the value of
/// output `index` (the outputs are numbered after the inputs): as for an
/// input; and for a record, the commitment, nonce and ciphertext that
/// `record_output` gives from `[tvk, index]`, with the ciphertext's hash.
pub open spec fn output_value_outcome<
    H: Fn(Vec<bool>) -> Result<Field, HashError>,
    K: Fn(Vec<Field>) -> Result<Field, HashError>,
    E: Fn(&Plaintext, Field) -> Result<Ciphertext, HashError>,
    R: Fn(&RecordValue, Vec<Field>) -> (Result<Field, HashError>, Field, Result<Ciphertext, HashError>),
>(
    hash: H,
    view_key: K,
    encrypt: E,
    record_output: R,
    tvk: Field,
    index: int,
    id: OutputID,
    value: Value,
    e: ValueEvidence,
) -> bool {
    match (id, value) {
        (OutputID::Constant(_), Value::Plaintext(p)) => e matches ValueEvidence::Hash(out) && hash_outcome(
            hash,
            p.spec_bits(),
            out,
        ),
        (OutputID::Public(_), Value::Plaintext(p)) => e matches ValueEvidence::Hash(out) && hash_outcome(
            hash,
            p.spec_bits(),
            out,
        ),
        (OutputID::Private(_), Value::Plaintext(p)) => e matches ValueEvidence::Encryption(out)
            && encryption_outcome(view_key, encrypt, hash, index_preimage(tvk, index), p, out),
        (OutputID::Record(_, _, _), Value::Record(record)) => e matches ValueEvidence::RecordOutput(
            commitment,
            nonce,
            encryption,
        ) && exists|pre: Vec<Field>, ciphertext: Result<Ciphertext, HashError>|
            pre@ == index_preimage(tvk, index) && #[trigger] call_ensures(
                record_output,
                (&record, pre),
                (commitment, nonce, ciphertext),
            ) && match ciphertext {
                Err(_) => encryption is Err,
                Ok(c) => exists|h: Result<Field, HashError>| #[trigger]
                    hash_outcome(hash, c.spec_bits(), h) && match h {
                        Err(_) => encryption is Err,
                        Ok(x) => encryption == Ok::<(Ciphertext, Field), HashError>((c, x)),
                    },
            },
        _ => e is Nothing,
    }
}

/// Where the evidence is what the functions handed in may give for the
/// inputs of a request (input `i` keyed from `[tvk, i]`) and the outputs of
/// its response (output `j` keyed from `[tvk, n + j]`, `n` the number of inputs).
pub open spec fn transition_evidence_computed_by<
    H: Fn(Vec<bool>) -> Result<Field, HashError>,
    K: Fn(Vec<Field>) -> Result<Field, HashError>,
    E: Fn(&Plaintext, Field) -> Result<Ciphertext, HashError>,
    R: Fn(&RecordValue, Vec<Field>) -> (Result<Field, HashError>, Field, Result<Ciphertext, HashError>),
>(
    request: Request,
    response: Response,
    hash: H,
    view_key: K,
    encrypt: E,
    record_output: R,
    input_evidence: Seq<ValueEvidence>,
    output_evidence: Seq<ValueEvidence>,
) -> bool {
    &&& input_evidence.len() == request.inputs@.len()
    &&& output_evidence.len() == response.outputs@.len()
    &&& forall|i: int|
        0 <= i < input_evidence.len() ==> #[trigger] input_value_outcome(
            hash,
            view_key,
            encrypt,
            request.tvk,
            i,
            request.input_ids@[i],
            request.inputs@[i],
            input_evidence[i],
        )
    &&& forall|j: int|
        0 <= j < output_evidence.len() ==> #[trigger] output_value_outcome(
            hash,
            view_key,
            encrypt,
            record_output,
            request.tvk,
            request.inputs@.len() + j,
            response.output_ids@[j],
            response.outputs@[j],
            output_evidence[j],
        )
}

/// Computes what the value of input `index` needs to be checked.
fn input_value_evidence<
    H: Fn(Vec<bool>) -> Result<Field, HashError>,
    K: Fn(Vec<Field>) -> Result<Field, HashError>,
    E: Fn(&Plaintext, Field) -> Result<Ciphertext, HashError>,
>(hash: &H, view_key: &K, encrypt: &E, tvk: Field, index: u128, id: &InputID, value: &Value) -> (r: ValueEvidence)
    requires
        hash_total(*hash),
        keyed_total(*view_key),
        encrypt_total(*encrypt),
    ensures
        input_value_outcome(*hash, *view_key, *encrypt, tvk, index as int, *id, *value, r),
{
    match (id, value) {
        (InputID::Constant(_), Value::Plaintext(p)) | (InputID::Public(_), Value::Plaintext(p)) => {
            let bits = p.to_bits_le();
            let ghost b = bits;
            let out = hash(bits);
            assert(hash_outcome(*hash, p.spec_bits(), out)) by {
                assert(call_ensures(*hash, (b,), out));
            }
            ValueEvidence::Hash(out)
        },
        (InputID::Private(_), Value::Plaintext(p)) => ValueEvidence::Encryption(
            encrypt_and_hash(view_key, encrypt, hash, tvk, index, p),
        ),
        _ => ValueEvidence::Nothing,
    }
}

/// Computes what the value of output `index` needs to be checked.
fn output_value_evidence<
    H: Fn(Vec<bool>) -> Result<Field, HashError>,
    K: Fn(Vec<Field>) -> Result<Field, HashError>,
    E: Fn(&Plaintext, Field) -> Result<Ciphertext, HashError>,
    R: Fn(&RecordValue, Vec<Field>) -> (Result<Field, HashError>, Field, Result<Ciphertext, HashError>),
>(
    hash: &H,
    view_key: &K,
    encrypt: &E,
    record_output: &R,
    tvk: Field,
    index: u128,
    id: &OutputID,
    value: &Value,
) -> (r: ValueEvidence)
    requires
        hash_total(*hash),
        keyed_total(*view_key),
        encrypt_total(*encrypt),
        record_output_total(*record_output),
    ensures
        output_value_outcome(*hash, *view_key, *encrypt, *record_output, tvk, index as int, *id, *value, r),
{
    match (id, value) {
        (OutputID::Constant(_), Value::Plaintext(p)) | (OutputID::Public(_), Value::Plaintext(p)) => {
            let bits = p.to_bits_le();
            let ghost b = bits;
            let out = hash(bits);
            assert(hash_outcome(*hash, p.spec_bits(), out)) by {
                assert(call_ensures(*hash, (b,), out));
            }
            ValueEvidence::Hash(out)
        },
        (OutputID::Private(_), Value::Plaintext(p)) => ValueEvidence::Encryption(
            encrypt_and_hash(view_key, encrypt, hash, tvk, index, p),
        ),
        (OutputID::Record(_, _, _), Value::Record(record)) => {
            let pre = index_preimage_of(tvk, index);
            let ghost pre_g = pre;
            let (commitment, nonce, ciphertext) = record_output(record, pre);
            let ghost c_g = ciphertext;
            assert(call_ensures(*record_output, (record, pre_g), (commitment, nonce, c_g)));
            let encryption = match ciphertext {
                Err(e) => Err(e),
                Ok(c) => {
                    let bits = c.to_bits_le();
                    let ghost b = bits;
                    let h = hash(bits);
                    assert(hash_outcome(*hash, c.spec_bits(), h)) by {
                        assert(call_ensures(*hash, (b,), h));
                    }
                    match h {
                        Err(e) => Err(e),
                        Ok(x) => Ok((c, x)),
                    }
                },
            };
            ValueEvidence::RecordOutput(commitment, nonce, encryption)
        },
        _ => ValueEvidence::Nothing,
    }
}

impl Transition {
    /// Builds the transition of a request and its response: computes what
    /// each input and output needs to be checked with the functions handed
    /// in (a private input `i` keyed from `[tvk, i]`, a private or record
    /// output `j` from `[tvk, n + j]` with `n` the number of inputs), then
    /// builds it as `from_evidence` does. `tpk` is the transition public key
    /// of the request.
    pub fn from<
        H: Fn(Vec<bool>) -> Result<Field, HashError>,
        K: Fn(Vec<Field>) -> Result<Field, HashError>,
        E: Fn(&Plaintext, Field) -> Result<Ciphertext, HashError>,
        R: Fn(&RecordValue, Vec<Field>) -> (Result<Field, HashError>, Field, Result<Ciphertext, HashError>),
    >(
        request: Request,
        response: Response,
        proof: Proof,
        fee: u64,
        tpk: Group,
        hash_bhp1024: &H,
        view_key: &K,
        encrypt: &E,
        record_output: &R,
    ) -> (r: Result<Transition, TransitionError>)
        requires
            request.input_ids@.len() == request.inputs@.len(),
            response.output_ids@.len() == response.outputs@.len(),
            hash_total(*hash_bhp1024),
            keyed_total(*view_key),
            encrypt_total(*encrypt),
            record_output_total(*record_output),
        ensures
            exists|input_evidence: Seq<ValueEvidence>, output_evidence: Seq<ValueEvidence>| #[trigger]
                transition_evidence_computed_by(
                    request,
                    response,
                    *hash_bhp1024,
                    *view_key,
                    *encrypt,
                    *record_output,
                    input_evidence,
                    output_evidence,
                ) && built_from(request, response, proof, fee, tpk, input_evidence, output_evidence, r),
    {
        let n = request.inputs.len();
        let mut input_evidence: Vec<ValueEvidence> = Vec::new();
        let mut i: usize = 0;
        while i < n
            invariant
                n == request.inputs@.len(),
                n == request.input_ids@.len(),
                i <= n,
                input_evidence@.len() == i,
                hash_total(*hash_bhp1024),
                keyed_total(*view_key),
                encrypt_total(*encrypt),
                forall|k: int| 0 <= k < i ==> #[trigger] input_value_outcome(
                    *hash_bhp1024,
                    *view_key,
                    *encrypt,
                    request.tvk,
                    k,
                    request.input_ids@[k],
                    request.inputs@[k],
                    input_evidence@[k],
                ),
            decreases n - i,
        {
            let e = input_value_evidence(
                hash_bhp1024,
                view_key,
                encrypt,
                request.tvk,
                i as u128,
                &request.input_ids[i],
                &request.inputs[i],
            );
            input_evidence.push(e);
            i = i + 1;
        }
        let m = response.outputs.len();
        let mut output_evidence: Vec<ValueEvidence> = Vec::new();
        let mut j: usize = 0;
        while j < m
            invariant
                n == request.inputs@.len(),
                m == response.outputs@.len(),
                m == response.output_ids@.len(),
                j <= m,
                output_evidence@.len() == j,
                hash_total(*hash_bhp1024),
                keyed_total(*view_key),
                encrypt_total(*encrypt),
                record_output_total(*record_output),
                forall|k: int| 0 <= k < j ==> #[trigger] output_value_outcome(
                    *hash_bhp1024,
                    *view_key,
                    *encrypt,
                    *record_output,
                    request.tvk,
                    n + k,
                    response.output_ids@[k],
                    response.outputs@[k],
                    output_evidence@[k],
                ),
            decreases m - j,
        {
            let e = output_value_evidence(
                hash_bhp1024,
                view_key,
                encrypt,
                record_output,
                request.tvk,
                n as u128 + j as u128,
                &response.output_ids[j],
                &response.outputs[j],
            );
            output_evidence.push(e);
            j = j + 1;
        }
        let ghost ie = input_evidence@;
        let ghost oe = output_evidence@;
        assert(transition_evidence_computed_by(
            request,
            response,
            *hash_bhp1024,
            *view_key,
            *encrypt,
            *record_output,
            ie,
            oe,
        ));
        Transition::from_evidence(request, response, proof, fee, tpk, input_evidence, output_evidence)
    }
}

/// The hash of the value that the evidence holds.
pub open spec fn evidence_hash(evidence: ValueEvidence) -> Result<Field, HashError> {
    match evidence {
        ValueEvidence::Hash(h) => h,
        ValueEvidence::Encryption(Ok((_, h))) => Ok(h),
        ValueEvidence::RecordOutput(_, _, Ok((_, h))) => Ok(h),
        _ => Err(HashError),
    }
}

/// A transition input built from a request input is well formed by the very
/// hash it was built with, and keeps the ID of the request input.
pub proof fn law_built_input_accepted(id: InputID, value: Value, evidence: ValueEvidence)
    requires
        input_result(id, value, evidence) is Ok,
    ensures
        input_result(id, value, evidence)->Ok_0.accepts(evidence_hash(evidence)),
        input_result(id, value, evidence)->Ok_0.spec_id() == match id {
            InputID::Constant(h) => h,
            InputID::Public(h) => h,
            InputID::Private(h) => h,
            InputID::Record(_, serial_number) => serial_number,
        },
{
}

/// A transition output built from a response output is well formed by the
/// very hash it was built with, and keeps the IDs of the response output.
pub proof fn law_built_output_accepted(id: OutputID, value: Value, evidence: ValueEvidence)
    requires
        output_result(id, value, evidence) is Ok,
    ensures
        output_result(id, value, evidence)->Ok_0.accepts(evidence_hash(evidence)),
        output_result(id, value, evidence)->Ok_0.spec_ids() == match id {
            OutputID::Constant(h) => seq![h],
            OutputID::Public(h) => seq![h],
            OutputID::Private(h) => seq![h],
            OutputID::Record(commitment, nonce, checksum) => seq![commitment, nonce, checksum],
        },
{
}

/// Once a prefix of the results holds an error, so does every longer prefix, the same one.
proof fn lemma_first_error_stays<T>(results: Seq<Result<T, TransitionError>>, n: int)
    requires
        0 <= n <= results.len(),
        first_error(results.subrange(0, n)) is Err,
    ensures
        first_error(results) == first_error(results.subrange(0, n)),
    decreases results.len() - n,
{
    if n < results.len() {
        lemma_first_error_push(results.subrange(0, n), results[n]);
        assert(results.subrange(0, n).push(results[n]) =~= results.subrange(0, n + 1));
        lemma_first_error_stays(results, n + 1);
    } else {
        assert(results.subrange(0, n) =~= results);
    }
}

/// Where `hash` is a function of the bits it is given: it has at most one
/// outcome on any bits.
pub open spec fn hash_outcome_unique<H: Fn(Vec<bool>) -> Result<Field, HashError>>(hash: H) -> bool {
    forall|bits: Seq<bool>, x: Result<Field, HashError>, y: Result<Field, HashError>|
        #[trigger] hash_outcome(hash, bits, x) && #[trigger] hash_outcome(hash, bits, y) ==> x == y
}

/// Verifying a record output reads only its checksum and the ciphertext it
/// carries, not its commitment or nonce: where the hash is a function, two
/// record outputs that agree on those get the same verdict.
pub proof fn law_record_output_verdict_reads_checksum<H: Fn(Vec<bool>) -> Result<Field, HashError>>(
    o1: Output,
    o2: Output,
    hash: H,
    v1: bool,
    v2: bool,
)
    requires
        o1 matches Output::Record(_, _, k1, c1) && o2 matches Output::Record(_, _, k2, c2) && k1 == k2 && c1 == c2,
        hash_outcome_unique(hash),
        o1.verified_by(hash, v1),
        o2.verified_by(hash, v2),
    ensures
        v1 == v2,
{
    if let Some(bits) = o1.payload_bits() {
        let x = choose|out: Result<Field, HashError>| #[trigger] hash_outcome(hash, bits, out) && v1 == o1.accepts(out);
        let y = choose|out: Result<Field, HashError>| #[trigger] hash_outcome(hash, bits, out) && v2 == o2.accepts(out);
        assert(x == y);
    }
}

/// Where a list of results has no error, it holds each value in order.
proof fn lemma_first_error_values<T>(results: Seq<Result<T, TransitionError>>, values: Seq<T>)
    requires
        first_error(results) == Ok::<Seq<T>, TransitionError>(values),
    ensures
        values.len() == results.len(),
        forall|j: int| 0 <= j < results.len() ==> #[trigger] results[j] == Ok::<T, TransitionError>(values[j]),
    decreases results.len(),
{
    if results.len() > 0 {
        let prefix = results.drop_last();
        match first_error(prefix) {
            Ok(front) => {
                lemma_first_error_values(prefix, front);
                assert forall|j: int| 0 <= j < results.len() implies #[trigger] results[j] == Ok::<T, TransitionError>(
                    values[j],
                ) by {
                    if j < results.len() - 1 {
                        assert(prefix[j] == results[j]);
                    }
                }
            },
            Err(_) => {},
        }
    }
}

/// The outputs of a transition built from a response verify with the hash
/// the network computed them with: where each hash in the evidence is one
/// that `hash` gives on the value the output carries, every built output is
/// verified by `hash` as well formed.
pub proof fn law_built_outputs_verify<H: Fn(Vec<bool>) -> Result<Field, HashError>>(
    ids: Seq<OutputID>,
    values: Seq<Value>,
    evidence: Seq<ValueEvidence>,
    outputs: Seq<Output>,
    hash: H,
)
    requires
        ids.len() == values.len(),
        evidence.len() == values.len(),
        response_outputs(ids, values, evidence) == Ok::<Seq<Output>, TransitionError>(outputs),
        forall|j: int|
            0 <= j < values.len() ==> (#[trigger] output_result(ids[j], values[j], evidence[j]) matches Ok(o) ==> (
            o.payload_bits() matches Some(bits) ==> hash_outcome(hash, bits, evidence_hash(evidence[j])))),
    ensures
        forall|j: int| 0 <= j < outputs.len() ==> #[trigger] outputs[j].verified_by(hash, true),
{
    let all = Seq::new(values.len(), |i: int| output_result(ids[i], values[i], evidence[i]));
    lemma_first_error_values(all, outputs);
    assert forall|j: int| 0 <= j < outputs.len() implies #[trigger] outputs[j].verified_by(hash, true) by {
        assert(all[j] == output_result(ids[j], values[j], evidence[j]));
        law_built_output_accepted(ids[j], values[j], evidence[j]);
        if let Some(bits) = outputs[j].payload_bits() {
            assert(hash_outcome(hash, bits, evidence_hash(evidence[j])));
        }
    }
}

/// The inputs of a transition built from a request verify with the hash the
/// network computed them with: where each hash in the evidence is one that
/// `hash` gives on the value the input carries, every built input is
/// verified by `hash` as well formed.
pub proof fn law_built_inputs_verify<H: Fn(Vec<bool>) -> Result<Field, HashError>>(
    ids: Seq<InputID>,
    values: Seq<Value>,
    evidence: Seq<ValueEvidence>,
    inputs: Seq<Input>,
    hash: H,
)
    requires
        ids.len() == values.len(),
        evidence.len() == values.len(),
        request_inputs(ids, values, evidence) == Ok::<Seq<Input>, TransitionError>(inputs),
        forall|j: int|
            0 <= j < values.len() ==> (#[trigger] input_result(ids[j], values[j], evidence[j]) matches Ok(i) ==> (
            i.payload_bits() matches Some(bits) ==> hash_outcome(hash, bits, evidence_hash(evidence[j])))),
    ensures
        forall|j: int| 0 <= j < inputs.len() ==> #[trigger] inputs[j].verified_by(hash, true),
{
    let all = Seq::new(values.len(), |i: int| input_result(ids[i], values[i], evidence[i]));
    lemma_first_error_values(all, inputs);
    assert forall|j: int| 0 <= j < inputs.len() implies #[trigger] inputs[j].verified_by(hash, true) by {
        assert(all[j] == input_result(ids[j], values[j], evidence[j]));
        law_built_input_accepted(ids[j], values[j], evidence[j]);
        if let Some(bits) = inputs[j].payload_bits() {
            assert(hash_outcome(hash, bits, evidence_hash(evidence[j])));
        }
    }
}

/// Evidence computed by the functions handed in holds, for a built output,
/// a hash that `hash` gives on the value the output carries.
proof fn lemma_output_evidence_hash<
    H: Fn(Vec<bool>) -> Result<Field, HashError>,
    K: Fn(Vec<Field>) -> Result<Field, HashError>,
    E: Fn(&Plaintext, Field) -> Result<Ciphertext, HashError>,
    R: Fn(&RecordValue, Vec<Field>) -> (Result<Field, HashError>, Field, Result<Ciphertext, HashError>),
>(
    hash: H,
    view_key: K,
    encrypt: E,
    record_output: R,
    tvk: Field,
    index: int,
    id: OutputID,
    value: Value,
    e: ValueEvidence,
)
    requires
        output_value_outcome(hash, view_key, encrypt, record_output, tvk, index, id, value, e),
        output_result(id, value, e) is Ok,
    ensures
        output_result(id, value, e)->Ok_0.payload_bits() matches Some(bits) ==> hash_outcome(hash, bits, evidence_hash(e)),
{
}

/// Evidence computed by the functions handed in holds, for a built input,
/// a hash that `hash` gives on the value the input carries.
proof fn lemma_input_evidence_hash<
    H: Fn(Vec<bool>) -> Result<Field, HashError>,
    K: Fn(Vec<Field>) -> Result<Field, HashError>,
    E: Fn(&Plaintext, Field) -> Result<Ciphertext, HashError>,
>(hash: H, view_key: K, encrypt: E, tvk: Field, index: int, id: InputID, value: Value, e: ValueEvidence)
    requires
        input_value_outcome(hash, view_key, encrypt, tvk, index, id, value, e),
        input_result(id, value, e) is Ok,
    ensures
        input_result(id, value, e)->Ok_0.payload_bits() matches Some(bits) ==> hash_outcome(hash, bits, evidence_hash(e)),
{
}

/// The inputs and outputs of a transition built by `Transition::from` verify
/// with the same hash: each is verified by `hash_bhp1024` as well formed.
pub proof fn law_from_verifies<
    H: Fn(Vec<bool>) -> Result<Field, HashError>,
    K: Fn(Vec<Field>) -> Result<Field, HashError>,
    E: Fn(&Plaintext, Field) -> Result<Ciphertext, HashError>,
    R: Fn(&RecordValue, Vec<Field>) -> (Result<Field, HashError>, Field, Result<Ciphertext, HashError>),
>(
    request: Request,
    response: Response,
    proof: Proof,
    fee: u64,
    tpk: Group,
    hash_bhp1024: H,
    view_key: K,
    encrypt: E,
    record_output: R,
    input_evidence: Seq<ValueEvidence>,
    output_evidence: Seq<ValueEvidence>,
    t: Transition,
)
    requires
        request.input_ids@.len() == request.inputs@.len(),
        response.output_ids@.len() == response.outputs@.len(),
        transition_evidence_computed_by(
            request,
            response,
            hash_bhp1024,
            view_key,
            encrypt,
            record_output,
            input_evidence,
            output_evidence,
        ),
        built_from(request, response, proof, fee, tpk, input_evidence, output_evidence, Ok(t)),
    ensures
        forall|i: int| 0 <= i < t.inputs@.len() ==> #[trigger] t.inputs@[i].verified_by(hash_bhp1024, true),
        forall|j: int| 0 <= j < t.outputs@.len() ==> #[trigger] t.outputs@[j].verified_by(hash_bhp1024, true),
{
    let n = request.inputs@.len() as int;
    assert forall|i: int| 0 <= i < request.inputs@.len() implies (#[trigger] input_result(
        request.input_ids@[i],
        request.inputs@[i],
        input_evidence[i],
    ) matches Ok(x) ==> (x.payload_bits() matches Some(bits) ==> hash_outcome(
        hash_bhp1024,
        bits,
        evidence_hash(input_evidence[i]),
    ))) by {
        if input_result(request.input_ids@[i], request.inputs@[i], input_evidence[i]) is Ok {
            lemma_input_evidence_hash(
                hash_bhp1024,
                view_key,
                encrypt,
                request.tvk,
                i,
                request.input_ids@[i],
                request.inputs@[i],
                input_evidence[i],
            );
        }
    }
    assert forall|j: int| 0 <= j < response.outputs@.len() implies (#[trigger] output_result(
        response.output_ids@[j],
        response.outputs@[j],
        output_evidence[j],
    ) matches Ok(o) ==> (o.payload_bits() matches Some(bits) ==> hash_outcome(
        hash_bhp1024,
        bits,
        evidence_hash(output_evidence[j]),
    ))) by {
        if output_result(response.output_ids@[j], response.outputs@[j], output_evidence[j]) is Ok {
            lemma_output_evidence_hash(
                hash_bhp1024,
                view_key,
                encrypt,
                record_output,
                request.tvk,
                n + j,
                response.output_ids@[j],
                response.outputs@[j],
                output_evidence[j],
            );
        }
    }
    law_built_inputs_verify(request.input_ids@, request.inputs@, input_evidence, t.inputs@, hash_bhp1024);
    law_built_outputs_verify(response.output_ids@, response.outputs@, output_evidence, t.outputs@, hash_bhp1024);
}

/// An input that carries a value is well formed exactly where the hash of
/// that value was computed and equals the input's own ID; one that carries
/// none is well formed whatever the hash.
pub proof fn law_input_accepts_its_own_hash(input: Input, candidate: Result<Field, HashError>)
    ensures
        match input {
            Input::Constant(id, Some(_)) => input.accepts(candidate) <==> candidate == Ok::<Field, HashError>(id),
            Input::Public(id, Some(_)) => input.accepts(candidate) <==> candidate == Ok::<Field, HashError>(id),
            Input::Private(id, Some(_)) => input.accepts(candidate) <==> candidate == Ok::<Field, HashError>(id),
            _ => input.accepts(candidate),
        },
{
}

/// An output that carries a value is well formed exactly where the hash of
/// that value was computed and equals the output's own ID, or for a record
/// its checksum (not its commitment or nonce); one that carries none is well
/// formed whatever the hash.
pub proof fn law_output_accepts_its_own_hash(output: Output, candidate: Result<Field, HashError>)
    ensures
        match output {
            Output::Constant(id, Some(_)) => output.accepts(candidate) <==> candidate == Ok::<Field, HashError>(id),
            Output::Public(id, Some(_)) => output.accepts(candidate) <==> candidate == Ok::<Field, HashError>(id),
            Output::Private(id, Some(_)) => output.accepts(candidate) <==> candidate == Ok::<Field, HashError>(id),
            Output::Record(_, _, checksum, Some(_)) => output.accepts(candidate) <==> candidate == Ok::<
                Field,
                HashError,
            >(checksum),
            _ => output.accepts(candidate),
        },
{
}

/// A built transition input keeps the kind and the ID of its request input
/// and the value it was checked with: a constant or public plaintext whose
/// computed hash is the ID, a private input's ciphertext whose computed hash
/// is the ID, or a record's serial number; a value of the wrong kind is refused.
pub proof fn law_built_input_keeps_its_kind(id: InputID, value: Value, evidence: ValueEvidence)
    ensures
        match (id, value) {
            (InputID::Constant(h), Value::Plaintext(p)) => input_result(id, value, evidence) is Ok ==> (
            input_result(id, value, evidence) == Ok::<Input, TransitionError>(Input::Constant(h, Some(p)))
                && evidence == ValueEvidence::Hash(Ok(h))),
            (InputID::Public(h), Value::Plaintext(p)) => input_result(id, value, evidence) is Ok ==> (
            input_result(id, value, evidence) == Ok::<Input, TransitionError>(Input::Public(h, Some(p)))
                && evidence == ValueEvidence::Hash(Ok(h))),
            (InputID::Private(h), Value::Plaintext(_)) => input_result(id, value, evidence) is Ok ==> (
            evidence matches ValueEvidence::Encryption(Ok((c, x))) && x == h && input_result(id, value, evidence)
                == Ok::<Input, TransitionError>(Input::Private(h, Some(c)))),
            (InputID::Record(_, serial_number), Value::Record(_)) => input_result(id, value, evidence) == Ok::<
                Input,
                TransitionError,
            >(Input::Record(serial_number)),
            _ => input_result(id, value, evidence) == Err::<Input, TransitionError>(TransitionError::MalformedInput),
        },
{
}

/// A built transition output keeps the kind and the IDs of its response
/// output and the value it was checked with: a constant or public plaintext
/// whose computed hash is the ID, a private output's ciphertext whose
/// computed hash is the ID, or a record's ciphertext whose computed
/// commitment, nonce and hash are the output's commitment, nonce and
/// checksum; a value of the wrong kind is refused.
pub proof fn law_built_output_keeps_its_kind(id: OutputID, value: Value, evidence: ValueEvidence)
    ensures
        match (id, value) {
            (OutputID::Constant(h), Value::Plaintext(p)) => output_result(id, value, evidence) is Ok ==> (
            output_result(id, value, evidence) == Ok::<Output, TransitionError>(Output::Constant(h, Some(p)))
                && evidence == ValueEvidence::Hash(Ok(h))),
            (OutputID::Public(h), Value::Plaintext(p)) => output_result(id, value, evidence) is Ok ==> (
            output_result(id, value, evidence) == Ok::<Output, TransitionError>(Output::Public(h, Some(p)))
                && evidence == ValueEvidence::Hash(Ok(h))),
            (OutputID::Private(h), Value::Plaintext(_)) => output_result(id, value, evidence) is Ok ==> (
            evidence matches ValueEvidence::Encryption(Ok((c, x))) && x == h && output_result(id, value, evidence)
                == Ok::<Output, TransitionError>(Output::Private(h, Some(c)))),
            (OutputID::Record(commitment, nonce, checksum), Value::Record(_)) => output_result(id, value, evidence)
                is Ok ==> (evidence matches ValueEvidence::RecordOutput(Ok(cm), n, Ok((c, x))) && cm == commitment
                && n == nonce && x == checksum && output_result(id, value, evidence) == Ok::<Output, TransitionError>(
                Output::Record(commitment, nonce, checksum, Some(c)),
            )),
            _ => output_result(id, value, evidence) == Err::<Output, TransitionError>(TransitionError::MalformedOutput),
        },
{
}

/// The IDs of a list of outputs: each constant, public or private output
/// gives its one ID, each record output its commitment, nonce and checksum.
proof fn lemma_output_ids_len(outputs: Seq<Output>)
    ensures
        output_ids(outputs).len() >= outputs.len(),
    decreases outputs.len(),
{
    if outputs.len() > 0 {
        lemma_output_ids_len(outputs.drop_last());
    }
}

/// The public inputs a transition's proof is verified against: one, the
/// x- and y-coordinates of the transition public key, then the ID of each
/// input in order (for a record input, its serial number), then at least one
/// ID for each output.
pub proof fn law_public_inputs_layout(t: Transition)
    ensures
        t.public_inputs().len() >= 3 + t.inputs@.len() + t.outputs@.len(),
        t.public_inputs()[0] == Field::spec_one(),
        t.public_inputs()[1] == t.tpk.x,
        t.public_inputs()[2] == t.tpk.y,
        forall|i: int|
            0 <= i < t.inputs@.len() ==> #[trigger] t.public_inputs()[3 + i] == match t.inputs@[i] {
                Input::Constant(id, _) => id,
                Input::Public(id, _) => id,
                Input::Private(id, _) => id,
                Input::Record(serial_number) => serial_number,
            },
{
    lemma_output_ids_len(t.outputs@);
}

} // verus!
