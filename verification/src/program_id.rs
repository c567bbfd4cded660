use vstd::prelude::*;

use crate::identifier::{is_valid_identifier, Identifier};

verus! {

/// Why bytes could not be read as an identifier or a program ID.
#[derive(Clone, Copy, Debug, PartialEq, Eq)]
pub enum CodecError {
    /// The bytes end before the value does.
    UnexpectedEnd,
    /// The name that was read is not a valid identifier.
    InvalidIdentifier,
    /// The byte that tells whether a network follows is neither 0 nor 1.
    InvalidVariant(u8),
}

/// An identifier is written as its length in one byte, then its bytes.
pub open spec fn encode_identifier(name: Seq<u8>) -> Seq<u8> {
    seq![name.len() as u8] + name
}

/// Reads an identifier from the front of `bytes`: its name and the number of
/// bytes it takes.
pub open spec fn parse_identifier(bytes: Seq<u8>) -> Result<(Seq<u8>, int), CodecError> {
    if bytes.len() == 0 {
        Err(CodecError::UnexpectedEnd)
    } else if bytes.len() < 1 + bytes[0] {
        Err(CodecError::UnexpectedEnd)
    } else if !is_valid_identifier(bytes.subrange(1, 1 + bytes[0])) {
        Err(CodecError::InvalidIdentifier)
    } else {
        Ok((bytes.subrange(1, 1 + bytes[0]), 1 + bytes[0]))
    }
}

/// The model of a program ID: the name and, where there is one, the network.
pub type ProgramIdView = (Seq<u8>, Option<Seq<u8>>);

/// A program ID is written as its name, then the byte 0 where it has no
/// network, or the byte 1 and the network.
pub open spec fn encode_program_id(id: ProgramIdView) -> Seq<u8> {
    encode_identifier(id.0) + match id.1 {
        None => seq![0u8],
        Some(network) => seq![1u8] + encode_identifier(network),
    }
}

/// Reads a program ID from the front of `bytes`: its model and the number of
/// bytes it takes.
pub open spec fn parse_program_id(bytes: Seq<u8>) -> Result<(ProgramIdView, int), CodecError> {
    match parse_identifier(bytes) {
        Err(e) => Err(e),
        Ok((name, n)) => {
            if bytes.len() <= n {
                Err(CodecError::UnexpectedEnd)
            } else if bytes[n] == 0 {
                Ok(((name, None), n + 1))
            } else if bytes[n] == 1 {
                match parse_identifier(bytes.subrange(n + 1, bytes.len() as int)) {
                    Err(e) => Err(e),
                    Ok((network, m)) => Ok(((name, Some(network)), n + 1 + m)),
                }
            } else {
                Err(CodecError::InvalidVariant(bytes[n]))
            }
        },
    }
}

/// Where a program ID is valid: its name and network are valid identifiers.
pub open spec fn is_valid_program_id(id: ProgramIdView) -> bool {
    &&& is_valid_identifier(id.0)
    &&& (id.1 matches Some(network) ==> is_valid_identifier(network))
}

impl Identifier {
    /// Appends the identifier to `out`.
    pub fn write_le(&self, out: &mut Vec<u8>)
        ensures
            final(out)@ == old(out)@ + encode_identifier(self@),
    {
        let len = self.len();
        out.push(len as u8);
        let bytes = self.as_bytes();
        let mut i: usize = 0;
        while i < len
            invariant
                len == bytes@.len(),
                bytes@ == self@,
                i <= len,
                out@ == old(out)@ + seq![len as u8] + bytes@.subrange(0, i as int),
            decreases len - i,
        {
            out.push(bytes[i]);
            i = i + 1;
            assert(bytes@.subrange(0, i as int) == bytes@.subrange(0, i - 1).push(bytes@[i - 1]));
        }
        assert(bytes@.subrange(0, len as int) == bytes@);
    }

    /// Reads an identifier from the front of `bytes`, and returns it with the
    /// number of bytes it takes.
    pub fn read_le(bytes: &[u8]) -> (r: Result<(Identifier, usize), CodecError>)
        ensures
            match (r, parse_identifier(bytes@)) {
                (Ok((id, n)), Ok((name, m))) => id@ == name && n == m,
                (Err(e), Err(f)) => e == f,
                _ => false,
            },
    {
        if bytes.len() == 0 {
            return Err(CodecError::UnexpectedEnd);
        }
        let size = bytes[0] as usize;
        if bytes.len() - 1 < size {
            return Err(CodecError::UnexpectedEnd);
        }
        let mut name: Vec<u8> = Vec::new();
        let mut i: usize = 0;
        while i < size
            invariant
                size == bytes@[0],
                1 + size <= bytes@.len(),
                i <= size,
                name@ == bytes@.subrange(1, 1 + i),
            decreases size - i,
        {
            name.push(bytes[1 + i]);
            i = i + 1;
            assert(bytes@.subrange(1, 1 + i) == bytes@.subrange(1, i as int).push(bytes@[i as int]));
        }
        match Identifier::new(name) {
            Some(id) => Ok((id, 1 + size)),
            None => Err(CodecError::InvalidIdentifier),
        }
    }
}

/// The ID of a program: its name and, optionally, the network it belongs to
/// (as in `token.aleo`).
#[derive(Clone, Debug, PartialEq, Eq, Hash)]
pub struct ProgramID {
    name: Identifier,
    network: Option<Identifier>,
}

impl View for ProgramID {
    type V = ProgramIdView;

    closed spec fn view(&self) -> ProgramIdView {
        (self.name@, match self.network {
            None => None,
            Some(network) => Some(network@),
        })
    }
}

impl ProgramID {
    /// Returns the program ID with the given name and network.
    pub fn new(name: Identifier, network: Option<Identifier>) -> (r: ProgramID)
        ensures
            r@.0 == name@,
            r@.1 == (match network {
                None => None,
                Some(n) => Some(n@),
            }),
            is_valid_program_id(r@),
    {
        let r = ProgramID { name, network };
        r.confirm_valid();
        r
    }

    /// Returns the name of the program.
    pub fn name(&self) -> (r: &Identifier)
        ensures
            r@ == self@.0,
            is_valid_program_id(self@),
    {
        self.confirm_valid();
        &self.name
    }

    /// Returns the network of the program, where it has one.
    pub fn network(&self) -> (r: &Option<Identifier>)
        ensures
            r matches Some(n) ==> self@.1 == Some(n@),
            r is None ==> self@.1 is None,
            is_valid_program_id(self@),
    {
        self.confirm_valid();
        &self.network
    }

    /// Establishes that the program ID is valid: its name and network are
    /// valid identifiers.
    fn confirm_valid(&self)
        ensures
            is_valid_program_id(self@),
    {
        let _ = self.name.as_bytes();
        if let Some(network) = &self.network {
            let _ = network.as_bytes();
        }
    }

    /// Appends the program ID to `out`.
    pub fn write_le(&self, out: &mut Vec<u8>)
        ensures
            final(out)@ == old(out)@ + encode_program_id(self@),
            is_valid_program_id(self@),
    {
        self.confirm_valid();
        self.name.write_le(out);
        match &self.network {
            None => {
                out.push(0u8);
            },
            Some(network) => {
                out.push(1u8);
                network.write_le(out);
            },
        }
    }

    /// Returns the bytes of the program ID.
    pub fn to_bytes_le(&self) -> (r: Vec<u8>)
        ensures
            r@ == encode_program_id(self@),
            is_valid_program_id(self@),
    {
        let mut out: Vec<u8> = Vec::new();
        self.write_le(&mut out);
        out
    }

    /// Reads a program ID from the front of `bytes`, and returns it with the
    /// number of bytes it takes.
    pub fn read_le(bytes: &[u8]) -> (r: Result<(ProgramID, usize), CodecError>)
        ensures
            match (r, parse_program_id(bytes@)) {
                (Ok((id, n)), Ok((v, m))) => id@ == v && n == m,
                (Err(e), Err(f)) => e == f,
                _ => false,
            },
    {
        let (name, n) = match Identifier::read_le(bytes) {
            Ok(pair) => pair,
            Err(e) => {
                return Err(e);
            },
        };
        if bytes.len() <= n {
            return Err(CodecError::UnexpectedEnd);
        }
        let variant = bytes[n];
        if variant == 0 {
            Ok((ProgramID { name, network: None }, n + 1))
        } else if variant == 1 {
            let rest = slice_from(bytes, n + 1);
            match Identifier::read_le(rest) {
                Ok((network, m)) => Ok((ProgramID { name, network: Some(network) }, n + 1 + m)),
                Err(e) => Err(e),
            }
        } else {
            Err(CodecError::InvalidVariant(variant))
        }
    }
}

/// Returns the bytes of `bytes` from `start` on.
fn slice_from(bytes: &[u8], start: usize) -> (r: &[u8])
    requires
        start <= bytes@.len(),
    ensures
        r@ == bytes@.subrange(start as int, bytes@.len() as int),
{
    bytes.split_at(start).1
}

/// Reading what was written gives back the identifier, whatever follows it.
pub proof fn lemma_identifier_round_trip(name: Seq<u8>, rest: Seq<u8>)
    requires
        is_valid_identifier(name),
    ensures
        parse_identifier(encode_identifier(name) + rest) == Ok::<(Seq<u8>, int), CodecError>(
            (name, encode_identifier(name).len() as int),
        ),
{
    let bytes = encode_identifier(name) + rest;
    assert(name.len() as u8 == name.len());
    assert(bytes[0] == name.len());
    assert(bytes.subrange(1, 1 + bytes[0]) =~= name);
}

/// Reading what was written gives back the program ID, whatever follows it.
pub proof fn lemma_program_id_round_trip(id: ProgramIdView, rest: Seq<u8>)
    requires
        is_valid_program_id(id),
    ensures
        parse_program_id(encode_program_id(id) + rest) == Ok::<(ProgramIdView, int), CodecError>(
            (id, encode_program_id(id).len() as int),
        ),
{
    let bytes = encode_program_id(id) + rest;
    let tail = match id.1 {
        None => seq![0u8],
        Some(network) => seq![1u8] + encode_identifier(network),
    };
    assert(bytes =~= encode_identifier(id.0) + (tail + rest));
    lemma_identifier_round_trip(id.0, tail + rest);
    let n = encode_identifier(id.0).len() as int;
    assert(bytes[n] == tail[0]);
    match id.1 {
        None => {},
        Some(network) => {
            assert(bytes.subrange(n + 1, bytes.len() as int) =~= encode_identifier(network) + rest);
            lemma_identifier_round_trip(network, rest);
        },
    }
}

/// Distinct valid program IDs are written as distinct bytes.
pub proof fn law_program_id_encoding_injective(a: ProgramIdView, b: ProgramIdView)
    requires
        is_valid_program_id(a),
        is_valid_program_id(b),
        encode_program_id(a) == encode_program_id(b),
    ensures
        a == b,
{
    lemma_program_id_round_trip(a, Seq::empty());
    lemma_program_id_round_trip(b, Seq::empty());
    assert(encode_program_id(a) + Seq::<u8>::empty() =~= encode_program_id(a));
    assert(encode_program_id(b) + Seq::<u8>::empty() =~= encode_program_id(b));
}

/// Whatever is read is written back as the very bytes it was read from.
pub proof fn lemma_program_id_canonical(bytes: Seq<u8>)
    ensures
        parse_program_id(bytes) matches Ok((id, n)) ==> {
            &&& is_valid_program_id(id)
            &&& n <= bytes.len()
            &&& bytes.subrange(0, n) == encode_program_id(id)
        },
{
    if let Ok((id, n)) = parse_program_id(bytes) {
        let k = 1 + bytes[0];
        let name = bytes.subrange(1, k);
        assert(bytes.subrange(0, k) =~= encode_identifier(name));
        if bytes[k] == 0 {
            assert(bytes.subrange(0, n) =~= encode_identifier(name) + seq![0u8]);
        } else {
            let rest = bytes.subrange(k + 1, bytes.len() as int);
            let m = 1 + rest[0];
            assert(rest.subrange(0, m) =~= encode_identifier(rest.subrange(1, m)));
            assert(bytes.subrange(0, n) =~= encode_identifier(name) + (seq![1u8] + rest.subrange(0, m)));
        }
    }
}

} // verus!
