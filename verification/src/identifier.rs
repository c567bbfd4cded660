use vstd::prelude::*;

verus! {

/// The largest number of bytes in an identifier: the data capacity of one
/// field element, rounded down to whole bytes.
pub const MAX_IDENTIFIER_BYTES: usize = 31;

pub open spec fn is_ascii_letter(b: u8) -> bool {
    (65 <= b && b <= 90) || (97 <= b && b <= 122)
}

pub open spec fn is_ascii_digit(b: u8) -> bool {
    48 <= b && b <= 57
}

/// A byte that may appear in an identifier: a letter, a digit or `_`.
pub open spec fn is_identifier_byte(b: u8) -> bool {
    is_ascii_letter(b) || is_ascii_digit(b) || b == 95
}

/// An identifier is a non-empty ASCII name of at most 31 bytes that starts
/// with a letter and holds only letters, digits and underscores.
pub open spec fn is_valid_identifier(name: Seq<u8>) -> bool {
    &&& 0 < name.len() <= MAX_IDENTIFIER_BYTES
    &&& is_ascii_letter(name[0])
    &&& forall|i: int| 0 <= i < name.len() ==> #[trigger] is_identifier_byte(name[i])
}

/// A name in a program: of an interface, record, closure, function, member or program.
#[derive(Debug, PartialEq, Eq, Hash)]
pub struct Identifier {
    name: Vec<u8>,
}

impl View for Identifier {
    type V = Seq<u8>;

    closed spec fn view(&self) -> Seq<u8> {
        self.name@
    }
}

impl Identifier {
    #[verifier::type_invariant]
    spec fn inv(&self) -> bool {
        is_valid_identifier(self.name@)
    }

    /// Returns the identifier with the given name, or `None` where the name is
    /// not a valid identifier.
    pub fn new(name: Vec<u8>) -> (r: Option<Identifier>)
        ensures
            r is Some <==> is_valid_identifier(name@),
            r matches Some(id) ==> id@ == name@,
    {
        let len = name.len();
        if len == 0 || len > MAX_IDENTIFIER_BYTES {
            return None;
        }
        let first = name[0];
        if !((65 <= first && first <= 90) || (97 <= first && first <= 122)) {
            return None;
        }
        let mut i: usize = 0;
        while i < len
            invariant
                len == name@.len(),
                i <= len,
                forall|j: int| 0 <= j < i ==> #[trigger] is_identifier_byte(name@[j]),
            decreases len - i,
        {
            let b = name[i];
            if !((65 <= b && b <= 90) || (97 <= b && b <= 122) || (48 <= b && b <= 57) || b == 95) {
                assert(!is_identifier_byte(name@[i as int]));
                return None;
            }
            i = i + 1;
        }
        Some(Identifier { name })
    }

    /// Returns the bytes of the name.
    pub fn as_bytes(&self) -> (r: &[u8])
        ensures
            r@ == self@,
            is_valid_identifier(r@),
    {
        proof {
            use_type_invariant(self);
        }
        self.name.as_slice()
    }

    /// Returns the number of bytes in the name.
    pub fn len(&self) -> (r: usize)
        ensures
            r == self@.len(),
            0 < r <= MAX_IDENTIFIER_BYTES,
    {
        proof {
            use_type_invariant(self);
        }
        self.name.len()
    }

    /// Returns a copy of the name, as a key for lookups.
    pub fn to_key(&self) -> (r: Vec<u8>)
        ensures
            r@ == self@,
            is_valid_identifier(r@),
    {
        proof {
            use_type_invariant(self);
        }
        let mut out: Vec<u8> = Vec::new();
        let mut i: usize = 0;
        while i < self.name.len()
            invariant
                i <= self.name@.len(),
                out@ == self.name@.subrange(0, i as int),
            decreases self.name@.len() - i,
        {
            out.push(self.name[i]);
            i = i + 1;
        }
        out
    }
}

impl Clone for Identifier {
    fn clone(&self) -> (r: Self)
        ensures
            r@ == self@,
    {
        proof {
            use_type_invariant(self);
        }
        Identifier { name: self.to_key() }
    }
}

} // verus!
