use snarkvm_program::identifier::Identifier;
use snarkvm_program::program_id::{CodecError, ProgramID};
use snarkvm_program::reserved::{bytes_eq, is_keyword_exec, is_opcode_name_exec, opcode_root_eq};

fn id(name: &str) -> Identifier {
    Identifier::new(name.as_bytes().to_vec()).unwrap()
}

#[test]
fn identifier_rules() {
    assert!(Identifier::new(b"token".to_vec()).is_some());
    assert!(Identifier::new(b"a_1".to_vec()).is_some());
    assert!(Identifier::new(b"".to_vec()).is_none());
    assert!(Identifier::new(b"1abc".to_vec()).is_none());
    assert!(Identifier::new(b"_abc".to_vec()).is_none());
    assert!(Identifier::new(b"ab.c".to_vec()).is_none());
    assert!(Identifier::new(vec![b'a'; 31]).is_some());
    assert!(Identifier::new(vec![b'a'; 32]).is_none());
    assert_eq!(id("message").len(), 7);
    assert_eq!(id("message").as_bytes(), b"message");
    assert_eq!(id("message").to_key(), b"message".to_vec());
    assert_eq!(id("message").clone(), id("message"));
}

#[test]
fn identifier_bytes() {
    let mut out = vec![9u8];
    id("abc").write_le(&mut out);
    assert_eq!(out, vec![9, 3, b'a', b'b', b'c']);
    assert_eq!(Identifier::read_le(&[3, b'a', b'b', b'c', 7]), Ok((id("abc"), 4)));
    assert_eq!(Identifier::read_le(&[]), Err(CodecError::UnexpectedEnd));
    assert_eq!(Identifier::read_le(&[4, b'a', b'b', b'c']), Err(CodecError::UnexpectedEnd));
    assert_eq!(Identifier::read_le(&[2, b'1', b'b']), Err(CodecError::InvalidIdentifier));
    assert_eq!(Identifier::read_le(&[0]), Err(CodecError::InvalidIdentifier));
}

#[test]
fn program_id_round_trip() {
    let with_network = ProgramID::new(id("token"), Some(id("aleo")));
    let bytes = with_network.to_bytes_le();
    assert_eq!(bytes, vec![5, b't', b'o', b'k', b'e', b'n', 1, 4, b'a', b'l', b'e', b'o']);
    let mut longer = bytes.clone();
    longer.extend_from_slice(&[42, 43]);
    assert_eq!(ProgramID::read_le(&longer), Ok((with_network.clone(), bytes.len())));

    let plain = ProgramID::new(id("unknown"), None);
    let bytes = plain.to_bytes_le();
    assert_eq!(bytes, vec![7, b'u', b'n', b'k', b'n', b'o', b'w', b'n', 0]);
    assert_eq!(ProgramID::read_le(&bytes), Ok((plain.clone(), 9)));
    assert_eq!(plain.name(), &id("unknown"));
    assert_eq!(plain.network(), &None);
    assert_eq!(with_network.network(), &Some(id("aleo")));

    let mut out = Vec::new();
    plain.write_le(&mut out);
    assert_eq!(out, bytes);
}

#[test]
fn program_id_errors() {
    assert_eq!(ProgramID::read_le(&[1, b'a', 2]), Err(CodecError::InvalidVariant(2)));
    assert_eq!(ProgramID::read_le(&[1, b'a']), Err(CodecError::UnexpectedEnd));
    assert_eq!(ProgramID::read_le(&[1, b'a', 1]), Err(CodecError::UnexpectedEnd));
    assert_eq!(ProgramID::read_le(&[1, b'a', 1, 1, b'9']), Err(CodecError::InvalidIdentifier));
    assert_eq!(ProgramID::read_le(&[1, b'?', 0]), Err(CodecError::InvalidIdentifier));
}

#[test]
fn reserved_words() {
    assert!(is_keyword_exec(b"record"));
    assert!(is_keyword_exec(b"u128"));
    assert!(!is_keyword_exec(b"records"));
    assert!(is_opcode_name_exec(b"hash"));
    assert!(is_opcode_name_exec(b"assert"));
    assert!(is_opcode_name_exec(b"xor"));
    assert!(!is_opcode_name_exec(b"bhp256"));
    assert!(!is_opcode_name_exec(b"has"));
    assert!(opcode_root_eq(b"hash.bhp256", b"hash"));
    assert!(opcode_root_eq(b"add", b"add"));
    assert!(!opcode_root_eq(b"add.w", b"ad"));
    assert!(!opcode_root_eq(b"add", b"add.w"));
    assert!(bytes_eq(b"abc", b"abc"));
    assert!(!bytes_eq(b"abc", b"abd"));
    assert!(!bytes_eq(b"abc", b"ab"));
}
