//! What the cryptographic functions that callers hand in may give, and the
//! inputs the library hands them: the bits of a function ID, and the
//! preimage `[tvk, index]` from which the key of a value is derived.

use vstd::prelude::*;

use crate::field::{limb_bit, Field};
use crate::identifier::Identifier;
use crate::program_id::{is_valid_program_id, ProgramID, ProgramIdView};
use crate::values::{Ciphertext, HashError, Plaintext};

verus! {

/// Where `hash` may return `out` on the given bits.
pub open spec fn hash_outcome<H: Fn(Vec<bool>) -> Result<Field, HashError>>(
    hash: H,
    bits: Seq<bool>,
    out: Result<Field, HashError>,
) -> bool {
    exists|input: Vec<bool>| input@ == bits && #[trigger] call_ensures(hash, (input,), out)
}

/// Where `hash` may be called on any bits.
pub open spec fn hash_total<H: Fn(Vec<bool>) -> Result<Field, HashError>>(hash: H) -> bool {
    forall|input: Vec<bool>| #[trigger] call_requires(hash, (input,))
}

/// Where the keyed hash `f` may return `out` on the field elements `preimage`.
pub open spec fn keyed_outcome<K: Fn(Vec<Field>) -> Result<Field, HashError>>(
    f: K,
    preimage: Seq<Field>,
    out: Result<Field, HashError>,
) -> bool {
    exists|input: Vec<Field>| input@ == preimage && #[trigger] call_ensures(f, (input,), out)
}

/// Where the keyed hash `f` may be called on any field elements.
pub open spec fn keyed_total<K: Fn(Vec<Field>) -> Result<Field, HashError>>(f: K) -> bool {
    forall|input: Vec<Field>| #[trigger] call_requires(f, (input,))
}

/// Where `encrypt` may be called on any plaintext and key.
pub open spec fn encrypt_total<E: Fn(&Plaintext, Field) -> Result<Ciphertext, HashError>>(encrypt: E) -> bool {
    forall|p: &Plaintext, key: Field| #[trigger] call_requires(encrypt, (p, key))
}

/// The preimage from which the key of the value at `index` is derived: the
/// transition view key, then the index as a field element (taken modulo 2^16).
pub open spec fn index_preimage(tvk: Field, index: int) -> Seq<Field> {
    seq![tvk, Field::spec_from_u16(index as u16)]
}

/// Where encrypting `plaintext` under the key hashed (with `view_key`) from
/// `preimage`, then hashing the ciphertext (with `hash`), may give `out`:
/// the ciphertext with its hash, or the error of the first step that failed.
pub open spec fn encryption_outcome<
    K: Fn(Vec<Field>) -> Result<Field, HashError>,
    E: Fn(&Plaintext, Field) -> Result<Ciphertext, HashError>,
    H: Fn(Vec<bool>) -> Result<Field, HashError>,
>(
    view_key: K,
    encrypt: E,
    hash: H,
    preimage: Seq<Field>,
    plaintext: Plaintext,
    out: Result<(Ciphertext, Field), HashError>,
) -> bool {
    exists|key: Result<Field, HashError>| #[trigger]
        keyed_outcome(view_key, preimage, key) && match key {
            Err(_) => out is Err,
            Ok(k) => exists|c: Result<Ciphertext, HashError>| #[trigger]
                call_ensures(encrypt, (&plaintext, k), c) && match c {
                    Err(_) => out is Err,
                    Ok(ct) => exists|h: Result<Field, HashError>| #[trigger]
                        hash_outcome(hash, ct.spec_bits(), h) && match h {
                            Err(_) => out is Err,
                            Ok(x) => out == Ok::<(Ciphertext, Field), HashError>((ct, x)),
                        },
                },
        }
}

/// Returns the preimage `[tvk, index]` of the value at `index`.
pub fn index_preimage_of(tvk: Field, index: u128) -> (r: Vec<Field>)
    ensures
        r@ == index_preimage(tvk, index as int),
{
    let mut r: Vec<Field> = Vec::new();
    r.push(tvk);
    r.push(Field::from_u16(index as u16));
    assert(r@ =~= index_preimage(tvk, index as int));
    r
}

/// Encrypts `plaintext` under the key hashed from `[tvk, index]`, and
/// returns the ciphertext with its hash.
pub fn encrypt_and_hash<
    K: Fn(Vec<Field>) -> Result<Field, HashError>,
    E: Fn(&Plaintext, Field) -> Result<Ciphertext, HashError>,
    H: Fn(Vec<bool>) -> Result<Field, HashError>,
>(view_key: &K, encrypt: &E, hash: &H, tvk: Field, index: u128, plaintext: &Plaintext) -> (r: Result<
    (Ciphertext, Field),
    HashError,
>)
    requires
        keyed_total(*view_key),
        encrypt_total(*encrypt),
        hash_total(*hash),
    ensures
        encryption_outcome(*view_key, *encrypt, *hash, index_preimage(tvk, index as int), *plaintext, r),
{
    let preimage = index_preimage_of(tvk, index);
    let ghost pre = preimage;
    let key = view_key(preimage);
    assert(keyed_outcome(*view_key, index_preimage(tvk, index as int), key)) by {
        assert(call_ensures(*view_key, (pre,), key));
    }
    match key {
        Err(e) => Err(e),
        Ok(k) => {
            let c = encrypt(plaintext, k);
            assert(call_ensures(*encrypt, (plaintext, k), c));
            match c {
                Err(e) => Err(e),
                Ok(ct) => {
                    let bits = ct.to_bits_le();
                    let ghost b = bits;
                    let h = hash(bits);
                    assert(hash_outcome(*hash, ct.spec_bits(), h)) by {
                        assert(call_ensures(*hash, (b,), h));
                    }
                    match h {
                        Err(e) => Err(e),
                        Ok(x) => Ok((ct, x)),
                    }
                },
            }
        },
    }
}

/// The `n` low bits of a number, least significant first.
pub open spec fn number_bits(v: u64, n: nat) -> Seq<bool> {
    Seq::new(n, |i: int| limb_bit(v, i))
}

/// The bits of some bytes: each byte's eight bits, least significant first.
pub open spec fn bytes_bits(bytes: Seq<u8>) -> Seq<bool>
    decreases bytes.len(),
{
    if bytes.len() == 0 {
        Seq::empty()
    } else {
        bytes_bits(bytes.drop_last()) + number_bits(bytes.last() as u64, 8)
    }
}

/// The bits hashed to the ID of a function: the network ID (16 bits), the
/// program's name, its network (where it has one) and the function's name,
/// each name by the bits of its bytes.
pub open spec fn function_id_bits(network_id: u16, program: ProgramIdView, function: Seq<u8>) -> Seq<bool> {
    number_bits(network_id as u64, 16) + bytes_bits(program.0) + match program.1 {
        Some(network) => bytes_bits(network),
        None => Seq::empty(),
    } + bytes_bits(function)
}

/// Appends the `n` low bits of `v` to `out`, least significant first.
fn write_number_bits(v: u64, n: usize, out: &mut Vec<bool>)
    requires
        n <= 64,
    ensures
        final(out)@ == old(out)@ + number_bits(v, n as nat),
{
    let mut i: usize = 0;
    while i < n
        invariant
            i <= n <= 64,
            out@ == old(out)@ + number_bits(v, n as nat).subrange(0, i as int),
        decreases n - i,
    {
        let bit = (v >> (i as u64)) & 1 == 1;
        out.push(bit);
        assert(number_bits(v, n as nat).subrange(0, i + 1) =~= number_bits(v, n as nat).subrange(0, i as int).push(
            bit,
        ));
        i = i + 1;
    }
    assert(number_bits(v, n as nat).subrange(0, n as int) =~= number_bits(v, n as nat));
}

/// Appends the bits of `bytes` to `out`.
fn write_bytes_bits(bytes: &[u8], out: &mut Vec<bool>)
    ensures
        final(out)@ == old(out)@ + bytes_bits(bytes@),
{
    let mut i: usize = 0;
    while i < bytes.len()
        invariant
            i <= bytes@.len(),
            out@ == old(out)@ + bytes_bits(bytes@.subrange(0, i as int)),
        decreases bytes@.len() - i,
    {
        write_number_bits(bytes[i] as u64, 8, out);
        assert(bytes@.subrange(0, i + 1).drop_last() =~= bytes@.subrange(0, i as int));
        i = i + 1;
    }
    assert(bytes@.subrange(0, bytes@.len() as int) =~= bytes@);
}

/// Returns the bits hashed to the ID of the function `function_name` of
/// `program_id` on the network `network_id`.
pub fn function_id_input(network_id: u16, program_id: &ProgramID, function_name: &Identifier) -> (r: Vec<bool>)
    ensures
        r@ == function_id_bits(network_id, program_id@, function_name@),
{
    let mut out: Vec<bool> = Vec::new();
    write_number_bits(network_id as u64, 16, &mut out);
    write_bytes_bits(program_id.name().as_bytes(), &mut out);
    match program_id.network() {
        Some(network) => write_bytes_bits(network.as_bytes(), &mut out),
        None => {},
    }
    write_bytes_bits(function_name.as_bytes(), &mut out);
    assert(out@ =~= function_id_bits(network_id, program_id@, function_name@));
    out
}

/// A byte is given by its eight low bits.
proof fn lemma_byte_bits_determine(x: u64, y: u64)
    requires
        x < 256,
        y < 256,
        limb_bit(x, 0) == limb_bit(y, 0),
        limb_bit(x, 1) == limb_bit(y, 1),
        limb_bit(x, 2) == limb_bit(y, 2),
        limb_bit(x, 3) == limb_bit(y, 3),
        limb_bit(x, 4) == limb_bit(y, 4),
        limb_bit(x, 5) == limb_bit(y, 5),
        limb_bit(x, 6) == limb_bit(y, 6),
        limb_bit(x, 7) == limb_bit(y, 7),
    ensures
        x == y,
{
    assert(x == y) by (bit_vector)
        requires
            x < 256,
            y < 256,
            limb_bit(x, 0) == limb_bit(y, 0),
            limb_bit(x, 1) == limb_bit(y, 1),
            limb_bit(x, 2) == limb_bit(y, 2),
            limb_bit(x, 3) == limb_bit(y, 3),
            limb_bit(x, 4) == limb_bit(y, 4),
            limb_bit(x, 5) == limb_bit(y, 5),
            limb_bit(x, 6) == limb_bit(y, 6),
            limb_bit(x, 7) == limb_bit(y, 7),
    ;
}

/// A 16-bit number is given by its sixteen low bits.
proof fn lemma_u16_bits_determine(x: u64, y: u64)
    requires
        x < 65536,
        y < 65536,
        limb_bit(x, 0) == limb_bit(y, 0),
        limb_bit(x, 1) == limb_bit(y, 1),
        limb_bit(x, 2) == limb_bit(y, 2),
        limb_bit(x, 3) == limb_bit(y, 3),
        limb_bit(x, 4) == limb_bit(y, 4),
        limb_bit(x, 5) == limb_bit(y, 5),
        limb_bit(x, 6) == limb_bit(y, 6),
        limb_bit(x, 7) == limb_bit(y, 7),
        limb_bit(x, 8) == limb_bit(y, 8),
        limb_bit(x, 9) == limb_bit(y, 9),
        limb_bit(x, 10) == limb_bit(y, 10),
        limb_bit(x, 11) == limb_bit(y, 11),
        limb_bit(x, 12) == limb_bit(y, 12),
        limb_bit(x, 13) == limb_bit(y, 13),
        limb_bit(x, 14) == limb_bit(y, 14),
        limb_bit(x, 15) == limb_bit(y, 15),
    ensures
        x == y,
{
    assert(x == y) by (bit_vector)
        requires
            x < 65536,
            y < 65536,
            limb_bit(x, 0) == limb_bit(y, 0),
            limb_bit(x, 1) == limb_bit(y, 1),
            limb_bit(x, 2) == limb_bit(y, 2),
            limb_bit(x, 3) == limb_bit(y, 3),
            limb_bit(x, 4) == limb_bit(y, 4),
            limb_bit(x, 5) == limb_bit(y, 5),
            limb_bit(x, 6) == limb_bit(y, 6),
            limb_bit(x, 7) == limb_bit(y, 7),
            limb_bit(x, 8) == limb_bit(y, 8),
            limb_bit(x, 9) == limb_bit(y, 9),
            limb_bit(x, 10) == limb_bit(y, 10),
            limb_bit(x, 11) == limb_bit(y, 11),
            limb_bit(x, 12) == limb_bit(y, 12),
            limb_bit(x, 13) == limb_bit(y, 13),
            limb_bit(x, 14) == limb_bit(y, 14),
            limb_bit(x, 15) == limb_bit(y, 15),
    ;
}

/// The bits of some bytes: eight per byte, bit `k` of byte `i` at `8 * i + k`.
proof fn lemma_bytes_bits_index(bytes: Seq<u8>)
    ensures
        bytes_bits(bytes).len() == 8 * bytes.len(),
        forall|i: int, k: int|
            0 <= i < bytes.len() && 0 <= k < 8 ==> #[trigger] bytes_bits(bytes)[8 * i + k] == limb_bit(
                bytes[i] as u64,
                k,
            ),
    decreases bytes.len(),
{
    if bytes.len() > 0 {
        let front = bytes.drop_last();
        lemma_bytes_bits_index(front);
        assert forall|i: int, k: int| 0 <= i < bytes.len() && 0 <= k < 8 implies #[trigger] bytes_bits(bytes)[8 * i
            + k] == limb_bit(bytes[i] as u64, k) by {
            if i < front.len() {
                assert(front[i] == bytes[i]);
                assert(bytes_bits(front)[8 * i + k] == limb_bit(front[i] as u64, k));
            }
        }
    }
}

/// Different bytes have different bits.
proof fn lemma_bytes_bits_injective(a: Seq<u8>, b: Seq<u8>)
    requires
        a != b,
    ensures
        bytes_bits(a) != bytes_bits(b),
{
    lemma_bytes_bits_index(a);
    lemma_bytes_bits_index(b);
    if a.len() == b.len() {
        assert(!(a =~= b));
        let i = choose|i: int| 0 <= i < a.len() && a[i] != b[i];
        if bytes_bits(a) == bytes_bits(b) {
            assert(bytes_bits(a)[8 * i + 0] == bytes_bits(b)[8 * i + 0]);
            assert(bytes_bits(a)[8 * i + 1] == bytes_bits(b)[8 * i + 1]);
            assert(bytes_bits(a)[8 * i + 2] == bytes_bits(b)[8 * i + 2]);
            assert(bytes_bits(a)[8 * i + 3] == bytes_bits(b)[8 * i + 3]);
            assert(bytes_bits(a)[8 * i + 4] == bytes_bits(b)[8 * i + 4]);
            assert(bytes_bits(a)[8 * i + 5] == bytes_bits(b)[8 * i + 5]);
            assert(bytes_bits(a)[8 * i + 6] == bytes_bits(b)[8 * i + 6]);
            assert(bytes_bits(a)[8 * i + 7] == bytes_bits(b)[8 * i + 7]);
            let x = a[i] as u64;
            let y = b[i] as u64;
            assert(limb_bit(x, 0) == limb_bit(y, 0));
            assert(limb_bit(x, 1) == limb_bit(y, 1));
            assert(limb_bit(x, 2) == limb_bit(y, 2));
            assert(limb_bit(x, 3) == limb_bit(y, 3));
            assert(limb_bit(x, 4) == limb_bit(y, 4));
            assert(limb_bit(x, 5) == limb_bit(y, 5));
            assert(limb_bit(x, 6) == limb_bit(y, 6));
            assert(limb_bit(x, 7) == limb_bit(y, 7));
            lemma_byte_bits_determine(x, y);
        }
    }
}

/// Changing one part of a concatenation changes the whole.
proof fn lemma_concat_differs(x: Seq<bool>, a: Seq<bool>, b: Seq<bool>, y: Seq<bool>)
    requires
        a != b,
    ensures
        x + a + y != x + b + y,
{
    if a.len() != b.len() {
        assert((x + a + y).len() != (x + b + y).len());
    } else {
        assert(!(a =~= b));
        let i = choose|i: int| 0 <= i < a.len() && a[i] != b[i];
        assert((x + a + y)[x.len() + i] == a[i]);
        assert((x + b + y)[x.len() + i] == b[i]);
    }
}

/// The bits of a function ID tell apart requests that differ in any one part:
/// the network ID, the program's name, its network, or the function's name.
/// So a request signed for one function of one program is never taken for
/// another.
pub proof fn law_function_id_bits_separate(
    n1: u16,
    n2: u16,
    p1: ProgramIdView,
    p2: ProgramIdView,
    f1: Seq<u8>,
    f2: Seq<u8>,
)
    ensures
        n1 != n2 ==> function_id_bits(n1, p1, f1) != function_id_bits(n2, p1, f1),
        p1.0 != p2.0 && p1.1 == p2.1 ==> function_id_bits(n1, p1, f1) != function_id_bits(n1, p2, f1),
        p1.0 == p2.0 && p1.1 != p2.1 && is_valid_program_id(p1) && is_valid_program_id(p2) ==> function_id_bits(
            n1,
            p1,
            f1,
        ) != function_id_bits(n1, p2, f1),
        f1 != f2 ==> function_id_bits(n1, p1, f1) != function_id_bits(n1, p1, f2),
{
    let net1: Seq<bool> = match p1.1 {
        Some(network) => bytes_bits(network),
        None => Seq::empty(),
    };
    let net2: Seq<bool> = match p2.1 {
        Some(network) => bytes_bits(network),
        None => Seq::empty(),
    };
    if n1 != n2 {
        let a = number_bits(n1 as u64, 16);
        let b = number_bits(n2 as u64, 16);
        if a == b {
            let x = n1 as u64;
            let y = n2 as u64;
            assert(a[0] == b[0]);
            assert(a[1] == b[1]);
            assert(a[2] == b[2]);
            assert(a[3] == b[3]);
            assert(a[4] == b[4]);
            assert(a[5] == b[5]);
            assert(a[6] == b[6]);
            assert(a[7] == b[7]);
            assert(a[8] == b[8]);
            assert(a[9] == b[9]);
            assert(a[10] == b[10]);
            assert(a[11] == b[11]);
            assert(a[12] == b[12]);
            assert(a[13] == b[13]);
            assert(a[14] == b[14]);
            assert(a[15] == b[15]);
            assert(limb_bit(x, 0) == limb_bit(y, 0));
            assert(limb_bit(x, 1) == limb_bit(y, 1));
            assert(limb_bit(x, 2) == limb_bit(y, 2));
            assert(limb_bit(x, 3) == limb_bit(y, 3));
            assert(limb_bit(x, 4) == limb_bit(y, 4));
            assert(limb_bit(x, 5) == limb_bit(y, 5));
            assert(limb_bit(x, 6) == limb_bit(y, 6));
            assert(limb_bit(x, 7) == limb_bit(y, 7));
            assert(limb_bit(x, 8) == limb_bit(y, 8));
            assert(limb_bit(x, 9) == limb_bit(y, 9));
            assert(limb_bit(x, 10) == limb_bit(y, 10));
            assert(limb_bit(x, 11) == limb_bit(y, 11));
            assert(limb_bit(x, 12) == limb_bit(y, 12));
            assert(limb_bit(x, 13) == limb_bit(y, 13));
            assert(limb_bit(x, 14) == limb_bit(y, 14));
            assert(limb_bit(x, 15) == limb_bit(y, 15));
            lemma_u16_bits_determine(x, y);
        }
        lemma_concat_differs(Seq::empty(), a, b, bytes_bits(p1.0) + net1 + bytes_bits(f1));
        assert(function_id_bits(n1, p1, f1) =~= Seq::empty() + a + (bytes_bits(p1.0) + net1 + bytes_bits(f1)));
        assert(function_id_bits(n2, p1, f1) =~= Seq::empty() + b + (bytes_bits(p1.0) + net1 + bytes_bits(f1)));
    }
    if p1.0 != p2.0 && p1.1 == p2.1 {
        lemma_bytes_bits_injective(p1.0, p2.0);
        lemma_concat_differs(number_bits(n1 as u64, 16), bytes_bits(p1.0), bytes_bits(p2.0), net1 + bytes_bits(f1));
        assert(function_id_bits(n1, p1, f1) =~= number_bits(n1 as u64, 16) + bytes_bits(p1.0) + (net1 + bytes_bits(
            f1,
        )));
        assert(function_id_bits(n1, p2, f1) =~= number_bits(n1 as u64, 16) + bytes_bits(p2.0) + (net1 + bytes_bits(
            f1,
        )));
    }
    if p1.0 == p2.0 && p1.1 != p2.1 && is_valid_program_id(p1) && is_valid_program_id(p2) {
        match (p1.1, p2.1) {
            (Some(a), Some(b)) => {
                lemma_bytes_bits_injective(a, b);
            },
            (Some(a), None) => {
                lemma_bytes_bits_index(a);
            },
            (None, Some(b)) => {
                lemma_bytes_bits_index(b);
            },
            _ => {},
        }
        assert(net1 != net2);
        lemma_concat_differs(number_bits(n1 as u64, 16) + bytes_bits(p1.0), net1, net2, bytes_bits(f1));
    }
    if f1 != f2 {
        lemma_bytes_bits_injective(f1, f2);
        lemma_concat_differs(number_bits(n1 as u64, 16) + bytes_bits(p1.0) + net1, bytes_bits(f1), bytes_bits(f2), Seq::empty());
        assert(function_id_bits(n1, p1, f1) =~= number_bits(n1 as u64, 16) + bytes_bits(p1.0) + net1 + bytes_bits(f1)
            + Seq::empty());
        assert(function_id_bits(n1, p1, f2) =~= number_bits(n1 as u64, 16) + bytes_bits(p1.0) + net1 + bytes_bits(f2)
            + Seq::empty());
    }
}

} // verus!
