use vstd::prelude::*;
use vstd::string::StringSliceAdditionalSpecFns;

verus! {

/// The words that no name in a program may take: modes, literal types,
/// boolean constants, statement and program keywords, and words reserved for
/// later use.
pub const KEYWORDS: [&'static str; 51] = [
    "const", "constant", "public", "private", "address", "boolean", "field", "group", "i8",
    "i16", "i32", "i64", "i128", "u8", "u16", "u32", "u64", "u128", "scalar", "string", "true",
    "false", "input", "output", "as", "into", "function", "interface", "record", "closure",
    "program", "global", "return", "break", "assert", "continue", "let", "if", "else", "while",
    "for", "switch", "case", "default", "match", "enum", "struct", "union", "trait", "impl",
    "type",
];
/// The opcodes of the instruction set. A name may not be the part of an
/// opcode before its first `.` (so neither `add` nor `hash` is a free name).
pub const OPCODES: [&'static str; 56] = [
    "abs", "abs.w", "add", "add.w", "and", "assert.eq", "assert.neq", "call", "cast",
    "commit.bhp256", "commit.bhp512", "commit.bhp768", "commit.bhp1024", "commit.ped64",
    "commit.ped128", "div", "div.w", "double", "gt", "gte", "hash.bhp256", "hash.bhp512",
    "hash.bhp768", "hash.bhp1024", "hash.ped64", "hash.ped128", "hash.psd2", "hash.psd4",
    "hash.psd8", "inv", "is.eq", "is.neq", "lt", "lte", "mod", "mul", "mul.w", "nand", "neg",
    "nor", "not", "or", "pow", "pow.w", "rem", "rem.w", "shl", "shl.w", "shr", "shr.w", "sqrt",
    "square", "sub", "sub.w", "ternary", "xor",
];
/// Where `name` is one of the reserved keywords.
pub open spec fn is_keyword(name: Seq<u8>) -> bool {
    exists|i: int| 0 <= i < KEYWORDS@.len() && #[trigger] KEYWORDS@[i].spec_bytes() == name
}

/// Where `name` is the part of `opcode` before its first `.`.
pub open spec fn is_opcode_root(opcode: Seq<u8>, name: Seq<u8>) -> bool {
    &&& name.len() <= opcode.len()
    &&& opcode.subrange(0, name.len() as int) == name
    &&& (name.len() == opcode.len() || opcode[name.len() as int] == 46)
    &&& forall|j: int| 0 <= j < name.len() ==> #[trigger] name[j] != 46
}

/// Where `name` is the part before the first `.` of one of the opcodes.
pub open spec fn is_opcode_name(name: Seq<u8>) -> bool {
    exists|i: int| 0 <= i < OPCODES@.len() && #[trigger] is_opcode_root(OPCODES@[i].spec_bytes(), name)
}

/// Returns whether the two byte strings are equal.
pub fn bytes_eq(a: &[u8], b: &[u8]) -> (r: bool)
    ensures
        r == (a@ == b@),
{
    if a.len() != b.len() {
        return false;
    }
    let mut i: usize = 0;
    while i < a.len()
        invariant
            a@.len() == b@.len(),
            i <= a@.len(),
            forall|j: int| 0 <= j < i ==> a@[j] == b@[j],
        decreases a@.len() - i,
    {
        if a[i] != b[i] {
            return false;
        }
        i = i + 1;
    }
    assert(a@ =~= b@);
    true
}

/// Returns whether `name` is the part of `opcode` before its first `.`.
pub fn opcode_root_eq(opcode: &[u8], name: &[u8]) -> (r: bool)
    ensures
        r == is_opcode_root(opcode@, name@),
{
    if name.len() > opcode.len() {
        return false;
    }
    let mut i: usize = 0;
    while i < name.len()
        invariant
            name@.len() <= opcode@.len(),
            i <= name@.len(),
            forall|j: int| 0 <= j < i ==> opcode@[j] == name@[j] && name@[j] != 46,
        decreases name@.len() - i,
    {
        if opcode[i] != name[i] || name[i] == 46 {
            return false;
        }
        i = i + 1;
    }
    assert(opcode@.subrange(0, name@.len() as int) =~= name@);
    name.len() == opcode.len() || opcode[name.len()] == 46
}

/// Returns whether `name` is a reserved keyword.
pub fn is_keyword_exec(name: &[u8]) -> (r: bool)
    ensures
        r == is_keyword(name@),
{
    let mut i: usize = 0;
    while i < KEYWORDS.len()
        invariant
            i <= KEYWORDS@.len(),
            forall|j: int| 0 <= j < i ==> #[trigger] KEYWORDS@[j].spec_bytes() != name@,
        decreases KEYWORDS@.len() - i,
    {
        let keyword: &'static str = KEYWORDS[i];
        if bytes_eq(keyword.as_bytes(), name) {
            return true;
        }
        i = i + 1;
    }
    false
}

/// Returns whether `name` is the part before the first `.` of an opcode.
pub fn is_opcode_name_exec(name: &[u8]) -> (r: bool)
    ensures
        r == is_opcode_name(name@),
{
    let mut i: usize = 0;
    while i < OPCODES.len()
        invariant
            i <= OPCODES@.len(),
            forall|j: int| 0 <= j < i ==> !#[trigger] is_opcode_root(OPCODES@[j].spec_bytes(), name@),
        decreases OPCODES@.len() - i,
    {
        let opcode: &'static str = OPCODES[i];
        if opcode_root_eq(opcode.as_bytes(), name) {
            return true;
        }
        i = i + 1;
    }
    false
}

} // verus!
