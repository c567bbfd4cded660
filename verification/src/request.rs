//! Requests to call a program function, and the checks that a request is
//! valid: every input agrees with its ID, and the signature covers them.

use vstd::prelude::*;

use crate::field::{Field, Group};
use crate::identifier::Identifier;
use crate::program_id::ProgramID;
use crate::outcomes::{
    encrypt_and_hash, encrypt_total, encryption_outcome, function_id_bits, function_id_input, hash_outcome,
    hash_total, index_preimage, index_preimage_of, keyed_total,
};
use crate::values::{Ciphertext, HashError, Plaintext};

verus! {

/// The largest balance a record input may hold: 2^52.
pub const BALANCE_BOUND: u64 = 0x10_0000_0000_0000;

/// A record in plaintext form, as far as requests read it.
#[derive(Clone, Debug, PartialEq, Eq)]
pub struct RecordValue {
    /// The address of the owner.
    pub owner: Group,
    /// The balance.
    pub balance: u64,
    /// The data of the record.
    pub data: Plaintext,
    /// The nonce of the record.
    pub nonce: Group,
}

/// A value handed to a function: a plaintext or a record.
#[derive(Clone, Debug, PartialEq, Eq)]
pub enum Value {
    Plaintext(Plaintext),
    Record(RecordValue),
}

/// The ID of a request input.
#[derive(Clone, Copy, Debug, PartialEq, Eq)]
pub enum InputID {
    /// The hash of a constant input.
    Constant(Field),
    /// The hash of a public input.
    Public(Field),
    /// The hash of the ciphertext of a private input.
    Private(Field),
    /// The `gamma` point and the serial number of a record input.
    Record(Group, Field),
}

/// The signature of a request, as bytes.
#[derive(Clone, Debug, PartialEq, Eq)]
pub struct Signature {
    pub bytes: Vec<u8>,
}

/// A request by `caller` to call `function_name` of `program_id` on `inputs`.
#[derive(Clone, Debug, PartialEq, Eq)]
pub struct Request {
    pub caller: Group,
    pub program_id: ProgramID,
    pub function_name: Identifier,
    pub input_ids: Vec<InputID>,
    pub inputs: Vec<Value>,
    pub signature: Signature,
    /// The transition view key.
    pub tvk: Field,
}

/// What the network computed for a record input: the generator `H` hashed
/// from the record commitment, `r * H` recovered from the signature, and the
/// serial number committed to from the commitment.
#[derive(Clone, Copy, Debug, PartialEq, Eq)]
pub struct SerialNumberEvidence {
    pub h: Group,
    pub h_r: Group,
    pub serial_number: Field,
}

/// What the network computed for one input of a request.
#[derive(Clone, Copy, Debug, PartialEq, Eq)]
pub enum InputEvidence {
    /// For a constant or public input, the hash of its plaintext; for a
    /// private input, the hash of its ciphertext under the input view key.
    Hash(Result<Field, HashError>),
    /// For a record input.
    SerialNumber(Result<SerialNumberEvidence, HashError>),
}

/// The ID of a response output.
#[derive(Clone, Copy, Debug, PartialEq, Eq)]
pub enum OutputID {
    /// The hash of a constant output.
    Constant(Field),
    /// The hash of a public output.
    Public(Field),
    /// The hash of the ciphertext of a private output.
    Private(Field),
    /// The commitment, nonce and checksum of a record output.
    Record(Field, Field, Field),
}

/// The response to a request: the outputs of the call with their IDs.
#[derive(Clone, Debug, PartialEq, Eq)]
pub struct Response {
    pub output_ids: Vec<OutputID>,
    pub outputs: Vec<Value>,
}

impl Request {
    /// What an input adds to the signed message, or `None` where it fails its checks.
    pub open spec fn input_message(self, id: InputID, value: Value, evidence: InputEvidence) -> Option<Seq<Field>> {
        match (id, value, evidence) {
            (InputID::Constant(hash), Value::Plaintext(_), InputEvidence::Hash(Ok(candidate))) => if candidate == hash {
                Some(seq![candidate])
            } else {
                None
            },
            (InputID::Public(hash), Value::Plaintext(_), InputEvidence::Hash(Ok(candidate))) => if candidate == hash {
                Some(seq![candidate])
            } else {
                None
            },
            (InputID::Private(hash), Value::Plaintext(_), InputEvidence::Hash(Ok(candidate))) => if candidate == hash {
                Some(seq![candidate])
            } else {
                None
            },
            (
                InputID::Record(gamma, serial_number),
                Value::Record(record),
                InputEvidence::SerialNumber(Ok(e)),
            ) => if record.owner == self.caller && record.balance <= BALANCE_BOUND && e.serial_number
                == serial_number {
                Some(seq![e.h.x, e.h_r.x, gamma.x])
            } else {
                None
            },
            _ => None,
        }
    }

    /// What the first `n` inputs add to the signed message, or `None` where
    /// one of them fails its checks.
    pub open spec fn inputs_message(self, evidence: Seq<InputEvidence>, n: int) -> Option<Seq<Field>>
        decreases n,
    {
        if n <= 0 {
            Some(Seq::empty())
        } else {
            match (
                self.inputs_message(evidence, n - 1),
                self.input_message(self.input_ids@[n - 1], self.inputs@[n - 1], evidence[n - 1]),
            ) {
                (Some(a), Some(b)) => Some(a + b),
                _ => None,
            }
        }
    }

    /// The message the signature must cover: the transition view key, the
    /// function ID and what each input adds; `None` where the function ID
    /// could not be computed, the inputs and their IDs differ in number, or an
    /// input fails its checks.
    pub open spec fn message(self, function_id: Result<Field, HashError>, evidence: Seq<InputEvidence>) -> Option<Seq<Field>> {
        if self.input_ids@.len() != self.inputs@.len() {
            None
        } else {
            match (function_id, self.inputs_message(evidence, self.inputs@.len() as int)) {
                (Ok(id), Some(m)) => Some(seq![self.tvk, id] + m),
                _ => None,
            }
        }
    }

    /// Where `verdict` is what `verify_signature` may answer on the
    /// signature, the caller and the message.
    pub open spec fn signature_verified_by<S: Fn(&Signature, &Group, &Vec<Field>) -> bool>(
        self,
        verify_signature: S,
        message: Seq<Field>,
        verdict: bool,
    ) -> bool {
        exists|m: Vec<Field>| m@ == message && #[trigger] call_ensures(
            verify_signature,
            (&self.signature, &self.caller, &m),
            verdict,
        )
    }

    /// Returns what an input adds to the signed message, or `None` where it
    /// fails its checks.
    fn check_input(&self, id: &InputID, value: &Value, evidence: &InputEvidence) -> (r: Option<Vec<Field>>)
        ensures
            match (r, self.input_message(*id, *value, *evidence)) {
                (Some(v), Some(m)) => v@ == m,
                (None, None) => true,
                _ => false,
            },
    {
        match (id, value, evidence) {
            (InputID::Constant(hash), Value::Plaintext(_), InputEvidence::Hash(Ok(candidate)))
            | (InputID::Public(hash), Value::Plaintext(_), InputEvidence::Hash(Ok(candidate)))
            | (InputID::Private(hash), Value::Plaintext(_), InputEvidence::Hash(Ok(candidate))) => {
                if *candidate == *hash {
                    let mut v: Vec<Field> = Vec::new();
                    v.push(*candidate);
                    assert(v@ =~= seq![*candidate]);
                    Some(v)
                } else {
                    None
                }
            },
            (InputID::Record(gamma, serial_number), Value::Record(record), InputEvidence::SerialNumber(Ok(e))) => {
                if record.owner == self.caller && balance_in_bounds(record.balance) && e.serial_number
                    == *serial_number {
                    let mut v: Vec<Field> = Vec::new();
                    v.push(e.h.to_x_coordinate());
                    v.push(e.h_r.to_x_coordinate());
                    v.push(gamma.to_x_coordinate());
                    assert(v@ =~= seq![e.h.x, e.h_r.x, gamma.x]);
                    Some(v)
                } else {
                    None
                }
            },
            _ => None,
        }
    }

    /// Decides a request on what was computed for it: returns `true` where
    /// the inputs and their IDs agree in number, the function ID was
    /// computed, every input agrees with its ID (checked against what was
    /// computed for it, in `evidence`), every record input belongs to the
    /// caller and holds a balance of at most 2^52, and the signature verifies
    /// (with `verify_signature`) on the message `[tvk, function ID, input
    /// hashes and record points]`.
    pub fn verify_with_evidence<S: Fn(&Signature, &Group, &Vec<Field>) -> bool>(
        &self,
        function_id: Result<Field, HashError>,
        evidence: &Vec<InputEvidence>,
        verify_signature: &S,
    ) -> (r: bool)
        requires
            evidence@.len() == self.inputs@.len(),
            forall|m: Vec<Field>| #[trigger] call_requires(*verify_signature, (&self.signature, &self.caller, &m)),
        ensures
            match self.message(function_id, evidence@) {
                Some(message) => self.signature_verified_by(*verify_signature, message, r),
                None => !r,
            },
    {
        if self.input_ids.len() != self.inputs.len() {
            return false;
        }
        let id = match function_id {
            Ok(id) => id,
            Err(_) => {
                return false;
            },
        };
        let mut message: Vec<Field> = Vec::new();
        message.push(self.tvk);
        message.push(id);
        let n = self.inputs.len();
        let mut i: usize = 0;
        while i < n
            invariant
                n == self.inputs@.len(),
                n == self.input_ids@.len(),
                n == evidence@.len(),
                i <= n,
                self.inputs_message(evidence@, i as int) matches Some(m) && message@ == seq![self.tvk, id] + m,
            decreases n - i,
        {
            match self.check_input(&self.input_ids[i], &self.inputs[i], &evidence[i]) {
                Some(part) => {
                    let ghost before = message@;
                    let mut k: usize = 0;
                    while k < part.len()
                        invariant
                            k <= part@.len(),
                            message@ == before + part@.subrange(0, k as int),
                        decreases part@.len() - k,
                    {
                        message.push(part[k]);
                        assert(part@.subrange(0, k + 1) =~= part@.subrange(0, k as int).push(part@[k as int]));
                        k = k + 1;
                    }
                    assert(part@.subrange(0, part@.len() as int) =~= part@);
                    let ghost m = self.inputs_message(evidence@, i as int).unwrap();
                    assert(message@ =~= seq![self.tvk, id] + (m + part@));
                },
                None => {
                    proof {
                        lemma_inputs_message_fails(*self, evidence@, i as int + 1, self.inputs@.len() as int);
                    }
                    return false;
                },
            }
            i = i + 1;
        }
        let r = verify_signature(&self.signature, &self.caller, &message);
        assert(call_ensures(*verify_signature, (&self.signature, &self.caller, &message), r));
        r
    }
}

/// Where `serial_number` may give `out` for a record input: the record, the
/// preimage `[tvk, index]` of its randomizer, its `gamma` and the signature
/// (whose challenge and response recover `r * H`).
pub open spec fn serial_number_outcome<
    S: Fn(&RecordValue, Vec<Field>, &Group, &Signature) -> Result<SerialNumberEvidence, HashError>,
>(
    serial_number: S,
    record: RecordValue,
    preimage: Seq<Field>,
    gamma: Group,
    signature: Signature,
    out: Result<SerialNumberEvidence, HashError>,
) -> bool {
    exists|pre: Vec<Field>| pre@ == preimage && #[trigger] call_ensures(
        serial_number,
        (&record, pre, &gamma, &signature),
        out,
    )
}

/// Where `serial_number` may be called on any arguments.
pub open spec fn serial_number_total<
    S: Fn(&RecordValue, Vec<Field>, &Group, &Signature) -> Result<SerialNumberEvidence, HashError>,
>(serial_number: S) -> bool {
    forall|record: &RecordValue, pre: Vec<Field>, gamma: &Group, signature: &Signature| #[trigger]
        call_requires(serial_number, (record, pre, gamma, signature))
}

impl Request {
    /// Where `e` is what the functions handed in may give for input `j`:
    /// the hash of a constant or public plaintext; the hash of a private
    /// plaintext's ciphertext under the key hashed from `[tvk, j]`; the
    /// serial-number evidence of a record from `[tvk, j]`, its `gamma` and the
    /// signature. An input whose value is not of the kind its ID calls for
    /// fails whatever `e` is.
    pub open spec fn input_evidence_outcome<
        H: Fn(Vec<bool>) -> Result<Field, HashError>,
        K: Fn(Vec<Field>) -> Result<Field, HashError>,
        E: Fn(&Plaintext, Field) -> Result<Ciphertext, HashError>,
        S: Fn(&RecordValue, Vec<Field>, &Group, &Signature) -> Result<SerialNumberEvidence, HashError>,
    >(self, hash: H, view_key: K, encrypt: E, serial_number: S, j: int, e: InputEvidence) -> bool {
        match (self.input_ids@[j], self.inputs@[j]) {
            (InputID::Constant(_), Value::Plaintext(p)) => e matches InputEvidence::Hash(out) && hash_outcome(
                hash,
                p.spec_bits(),
                out,
            ),
            (InputID::Public(_), Value::Plaintext(p)) => e matches InputEvidence::Hash(out) && hash_outcome(
                hash,
                p.spec_bits(),
                out,
            ),
            (InputID::Private(_), Value::Plaintext(p)) => e matches InputEvidence::Hash(out) && exists|
                o: Result<(Ciphertext, Field), HashError>,
            | #[trigger]
                encryption_outcome(view_key, encrypt, hash, index_preimage(self.tvk, j), p, o) && out == match o {
                    Ok((_, x)) => Ok::<Field, HashError>(x),
                    Err(err) => Err(err),
                },
            (InputID::Record(gamma, _), Value::Record(record)) => e matches InputEvidence::SerialNumber(out)
                && serial_number_outcome(serial_number, record, index_preimage(self.tvk, j), gamma, self.signature, out),
            _ => true,
        }
    }

    /// Where `function_id` and `evidence` are what the functions handed in
    /// may give for this request: the function ID is a hash of the bits of
    /// the network ID, this request's program ID and function name; and,
    /// where it was computed and the inputs agree with their IDs in number,
    /// each input's evidence is what was computed for that input.
    pub open spec fn computed_by<
        H: Fn(Vec<bool>) -> Result<Field, HashError>,
        K: Fn(Vec<Field>) -> Result<Field, HashError>,
        E: Fn(&Plaintext, Field) -> Result<Ciphertext, HashError>,
        S: Fn(&RecordValue, Vec<Field>, &Group, &Signature) -> Result<SerialNumberEvidence, HashError>,
    >(
        self,
        network_id: u16,
        hash: H,
        view_key: K,
        encrypt: E,
        serial_number: S,
        function_id: Result<Field, HashError>,
        evidence: Seq<InputEvidence>,
    ) -> bool {
        &&& hash_outcome(hash, function_id_bits(network_id, self.program_id@, self.function_name@), function_id)
        &&& evidence.len() == self.inputs@.len()
        &&& (function_id is Ok && self.input_ids@.len() == self.inputs@.len()) ==> forall|j: int|
            0 <= j < evidence.len() ==> #[trigger] self.input_evidence_outcome(
                hash,
                view_key,
                encrypt,
                serial_number,
                j,
                evidence[j],
            )
    }

    /// Computes what an input needs to be checked: the hash of its
    /// plaintext, of its ciphertext, or its serial-number evidence.
    fn input_evidence<
        H: Fn(Vec<bool>) -> Result<Field, HashError>,
        K: Fn(Vec<Field>) -> Result<Field, HashError>,
        E: Fn(&Plaintext, Field) -> Result<Ciphertext, HashError>,
        S: Fn(&RecordValue, Vec<Field>, &Group, &Signature) -> Result<SerialNumberEvidence, HashError>,
    >(&self, j: usize, hash: &H, view_key: &K, encrypt: &E, serial_number: &S) -> (r: InputEvidence)
        requires
            j < self.inputs@.len(),
            j < self.input_ids@.len(),
            hash_total(*hash),
            keyed_total(*view_key),
            encrypt_total(*encrypt),
            serial_number_total(*serial_number),
        ensures
            self.input_evidence_outcome(*hash, *view_key, *encrypt, *serial_number, j as int, r),
    {
        match (&self.input_ids[j], &self.inputs[j]) {
            (InputID::Constant(_), Value::Plaintext(p)) | (InputID::Public(_), Value::Plaintext(p)) => {
                let bits = p.to_bits_le();
                let ghost b = bits;
                let out = hash(bits);
                assert(hash_outcome(*hash, p.spec_bits(), out)) by {
                    assert(call_ensures(*hash, (b,), out));
                }
                InputEvidence::Hash(out)
            },
            (InputID::Private(_), Value::Plaintext(p)) => {
                let o = encrypt_and_hash(view_key, encrypt, hash, self.tvk, j as u128, p);
                let out = match o {
                    Ok((_, x)) => Ok(x),
                    Err(err) => Err(err),
                };
                InputEvidence::Hash(out)
            },
            (InputID::Record(gamma, _), Value::Record(record)) => {
                let pre = index_preimage_of(self.tvk, j as u128);
                let ghost pre_g = pre;
                let out = serial_number(record, pre, gamma, &self.signature);
                assert(call_ensures(*serial_number, (record, pre_g, gamma, &self.signature), out));
                InputEvidence::SerialNumber(out)
            },
            _ => InputEvidence::Hash(Err(HashError)),
        }
    }

    /// Returns `true` where the request is valid for its own program,
    /// function and inputs: the function ID is computed (with
    /// `hash_bhp1024`) from the network ID, the program ID and the function
    /// name; every input is checked against its ID with what is computed for
    /// it (see `input_evidence_outcome`: each private input and record input
    /// `j` keyed from `[tvk, j]`); and the request is then decided as
    /// `verify_with_evidence` does.
    pub fn verify<
        H: Fn(Vec<bool>) -> Result<Field, HashError>,
        K: Fn(Vec<Field>) -> Result<Field, HashError>,
        E: Fn(&Plaintext, Field) -> Result<Ciphertext, HashError>,
        S: Fn(&RecordValue, Vec<Field>, &Group, &Signature) -> Result<SerialNumberEvidence, HashError>,
        V: Fn(&Signature, &Group, &Vec<Field>) -> bool,
    >(
        &self,
        network_id: u16,
        hash_bhp1024: &H,
        view_key: &K,
        encrypt: &E,
        serial_number: &S,
        verify_signature: &V,
    ) -> (r: bool)
        requires
            hash_total(*hash_bhp1024),
            keyed_total(*view_key),
            encrypt_total(*encrypt),
            serial_number_total(*serial_number),
            forall|m: Vec<Field>| #[trigger] call_requires(*verify_signature, (&self.signature, &self.caller, &m)),
        ensures
            exists|function_id: Result<Field, HashError>, evidence: Seq<InputEvidence>| #[trigger]
                self.computed_by(
                    network_id,
                    *hash_bhp1024,
                    *view_key,
                    *encrypt,
                    *serial_number,
                    function_id,
                    evidence,
                ) && match self.message(function_id, evidence) {
                    Some(message) => self.signature_verified_by(*verify_signature, message, r),
                    None => !r,
                },
    {
        let bits = function_id_input(network_id, &self.program_id, &self.function_name);
        let ghost b = bits;
        let function_id = hash_bhp1024(bits);
        assert(hash_outcome(*hash_bhp1024, function_id_bits(network_id, self.program_id@, self.function_name@), function_id)) by {
            assert(call_ensures(*hash_bhp1024, (b,), function_id));
        }
        let n = self.inputs.len();
        if function_id.is_err() || self.input_ids.len() != n {
            let ghost evidence = Seq::new(n as nat, |j: int| InputEvidence::Hash(Err(HashError)));
            assert(self.computed_by(network_id, *hash_bhp1024, *view_key, *encrypt, *serial_number, function_id, evidence));
            assert(self.message(function_id, evidence) is None);
            return false;
        }
        let mut evidence: Vec<InputEvidence> = Vec::new();
        let mut j: usize = 0;
        while j < n
            invariant
                n == self.inputs@.len(),
                n == self.input_ids@.len(),
                j <= n,
                evidence@.len() == j,
                hash_total(*hash_bhp1024),
                keyed_total(*view_key),
                encrypt_total(*encrypt),
                serial_number_total(*serial_number),
                forall|k: int| 0 <= k < j ==> #[trigger] self.input_evidence_outcome(
                    *hash_bhp1024,
                    *view_key,
                    *encrypt,
                    *serial_number,
                    k,
                    evidence@[k],
                ),
            decreases n - j,
        {
            let e = self.input_evidence(j, hash_bhp1024, view_key, encrypt, serial_number);
            evidence.push(e);
            j = j + 1;
        }
        let r = self.verify_with_evidence(function_id, &evidence, verify_signature);
        assert(self.computed_by(network_id, *hash_bhp1024, *view_key, *encrypt, *serial_number, function_id, evidence@));
        r
    }
}

/// Once an input fails its checks, the message of any longer prefix fails too.
proof fn lemma_inputs_message_fails(request: Request, evidence: Seq<InputEvidence>, n: int, m: int)
    requires
        0 < n <= m,
        request.inputs_message(evidence, n) is None,
    ensures
        request.inputs_message(evidence, m) is None,
    decreases m - n,
{
    if n < m {
        lemma_inputs_message_fails(request, evidence, n + 1, m);
    }
}

/// A request with a record input that does not belong to the caller, or
/// that holds a balance above 2^52, is never valid.
pub proof fn law_foreign_or_overfull_record_refused(
    request: Request,
    function_id: Result<Field, HashError>,
    evidence: Seq<InputEvidence>,
    i: int,
)
    requires
        0 <= i < request.inputs@.len(),
        request.inputs@[i] matches Value::Record(record) && (record.owner != request.caller || record.balance
            > BALANCE_BOUND),
    ensures
        request.message(function_id, evidence) is None,
{
    assert(request.input_message(request.input_ids@[i], request.inputs@[i], evidence[i]) is None);
    lemma_inputs_message_fails(request, evidence, i + 1, request.inputs@.len() as int);
}

/// A request whose input does not hash to its ID is never valid.
pub proof fn law_mismatched_hash_refused(
    request: Request,
    function_id: Result<Field, HashError>,
    evidence: Seq<InputEvidence>,
    i: int,
    hash: Field,
)
    requires
        0 <= i < request.inputs@.len(),
        match request.input_ids@[i] {
            InputID::Constant(h) => h != hash,
            InputID::Public(h) => h != hash,
            InputID::Private(h) => h != hash,
            InputID::Record(..) => false,
        },
        evidence[i] == InputEvidence::Hash(Ok(hash)),
    ensures
        request.message(function_id, evidence) is None,
{
    assert(request.input_message(request.input_ids@[i], request.inputs@[i], evidence[i]) is None);
    lemma_inputs_message_fails(request, evidence, i + 1, request.inputs@.len() as int);
}

/// What an input adds to the signed message: a constant, public or private
/// plaintext input adds its hash, and only where the hash computed for it is
/// its ID; a record input adds the x-coordinates of `H`, `r * H` and `gamma`,
/// and only where the record belongs to the caller, holds at most 2^52 and
/// its computed serial number is the one in its ID; any other input, or
/// evidence that failed or is of the wrong kind, fails.
pub proof fn law_input_message(request: Request, id: InputID, value: Value, evidence: InputEvidence)
    ensures
        match (id, value, evidence) {
            (InputID::Constant(h), Value::Plaintext(_), InputEvidence::Hash(Ok(c))) => request.input_message(
                id,
                value,
                evidence,
            ) == (if c == h {
                Some(seq![h])
            } else {
                None
            }),
            (InputID::Public(h), Value::Plaintext(_), InputEvidence::Hash(Ok(c))) => request.input_message(
                id,
                value,
                evidence,
            ) == (if c == h {
                Some(seq![h])
            } else {
                None
            }),
            (InputID::Private(h), Value::Plaintext(_), InputEvidence::Hash(Ok(c))) => request.input_message(
                id,
                value,
                evidence,
            ) == (if c == h {
                Some(seq![h])
            } else {
                None
            }),
            (InputID::Record(gamma, sn), Value::Record(record), InputEvidence::SerialNumber(Ok(e))) => {
                &&& request.input_message(id, value, evidence) is Some <==> (record.owner == request.caller
                    && record.balance <= 0x10_0000_0000_0000u64 && e.serial_number == sn)
                &&& request.input_message(id, value, evidence) is Some ==> request.input_message(id, value, evidence)
                    == Some(seq![e.h.x, e.h_r.x, gamma.x])
            },
            _ => request.input_message(id, value, evidence) is None,
        },
{
}

/// A signed message starts with the transition view key and the function
/// ID, and is formed only where the function ID was computed and the inputs
/// agree with their IDs in number.
pub proof fn law_message_starts_with_tvk_and_function_id(
    request: Request,
    function_id: Result<Field, HashError>,
    evidence: Seq<InputEvidence>,
)
    ensures
        request.message(function_id, evidence) matches Some(m) ==> {
            &&& m.len() >= 2
            &&& m[0] == request.tvk
            &&& function_id == Ok::<Field, HashError>(m[1])
            &&& request.input_ids@.len() == request.inputs@.len()
        },
{
}

/// Returns whether the balance is at most 2^52.
pub fn balance_in_bounds(balance: u64) -> (r: bool)
    ensures
        r == (balance <= BALANCE_BOUND),
{
    balance <= BALANCE_BOUND
}

} // verus!
