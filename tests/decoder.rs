use fs_tools::decoder::{parse_bytecode_info, read_varint};
use fs_tools::error::FormatError;

fn minimal(version: u8, types: Option<u8>) -> Vec<u8> {
    with_name(version, types, 1)
}

fn with_name(version: u8, types: Option<u8>, name_index: u8) -> Vec<u8> {
    let mut b = vec![version];
    if let Some(t) = types {
        b.push(t);
    }
    b.extend_from_slice(&[1, 3, b'F', b'o', b'o']);
    if types == Some(3) {
        b.extend_from_slice(&[5, 0]);
    }
    b.push(1);
    b.extend_from_slice(&[1, 1, 0, 0]);
    if version >= 4 {
        b.extend_from_slice(&[0, 0]);
    }
    b.extend_from_slice(&[2, 1, 2, 3, 4, 5, 6, 7, 8]);
    b.extend_from_slice(&[2, 0, 3, 1]);
    b.push(0);
    b.push(7);
    b.push(name_index);
    b.extend_from_slice(&[1, 0, 0, 0]);
    b.extend_from_slice(&[1, 0, 0, 0, 44, 0, 0, 0]);
    b.push(0);
    b.push(0);
    b
}

#[test]
fn version_two_is_unsupported() {
    let mut b = minimal(3, None);
    b[0] = 0x02;
    assert_eq!(parse_bytecode_info(&b).err(), Some(FormatError::UnsupportedVersion(2)));
    assert_eq!(parse_bytecode_info(&vec![7u8]).err(), Some(FormatError::UnsupportedVersion(7)));
}

#[test]
fn versions_three_four_six_decode() {
    for (v, t) in [(3u8, None), (4, Some(0)), (6, Some(3)), (6, Some(1))] {
        let (main, protos, syms) = parse_bytecode_info(&minimal(v, t)).unwrap();
        assert_eq!(main, 0);
        assert_eq!(syms, vec![b"Foo".to_vec()]);
        assert_eq!(protos.len(), 1);
        assert_eq!(protos[0].name, Some(b"Foo".to_vec()));
        assert_eq!(protos[0].file_scope, Some((44, 45)));
        assert!(protos[0].locals.is_empty());
    }
}

#[test]
fn types_version_above_three_is_unsupported() {
    assert_eq!(parse_bytecode_info(&minimal(4, Some(4))).err(), Some(FormatError::UnsupportedTypesVersion(4)));
}

#[test]
fn truncated_stream_fails() {
    let b = minimal(3, None);
    for cut in 0..b.len() {
        assert!(parse_bytecode_info(&b[..cut].to_vec()).is_err(), "cut at {}", cut);
    }
    assert_eq!(parse_bytecode_info(&vec![]).err(), Some(FormatError::Truncated(0)));
}

#[test]
fn symbol_index_out_of_range_fails() {
    let b = with_name(3, None, 5);
    assert!(matches!(parse_bytecode_info(&b), Err(FormatError::SymbolOutOfRange(_))));
}

#[test]
fn unknown_constant_tag_fails() {
    let mut b = vec![3u8, 0, 1, 0, 0, 0, 0, 0, 1, 9];
    b.extend_from_slice(&[0, 0, 0, 0, 0, 0]);
    assert_eq!(parse_bytecode_info(&b).err(), Some(FormatError::InvalidConstant(9)));
}

#[test]
fn varint_groups_low_first() {
    assert_eq!(read_varint(&vec![0xE5, 0x8E, 0x26], 0).unwrap(), (624485, 3));
    assert_eq!(read_varint(&vec![0x7F], 0).unwrap(), (127, 1));
    assert!(read_varint(&vec![0x80], 0).is_err());
    assert!(read_varint(&vec![0x80; 11], 0).is_err());
}

#[test]
fn debug_info_names_and_order() {
    let mut b = vec![3u8];
    b.extend_from_slice(&[4, 1, b'a', 1, b'b', 1, 0xFF, 2, b'u', b'v']);
    b.push(1);
    b.extend_from_slice(&[0, 1, 1, 0]);
    b.extend_from_slice(&[0, 0, 0, 0, 0]);
    b.push(0);
    b.push(1);
    b.push(4);
    b.extend_from_slice(&[1, 2, 3, 1]);
    b.extend_from_slice(&[0, 0, 3, 2]);
    b.extend_from_slice(&[3, 0, 3, 0]);
    b.extend_from_slice(&[2, 1, 9, 3]);
    b.extend_from_slice(&[2, 0, 4]);
    b.push(0);
    let (_, protos, syms) = parse_bytecode_info(&b).unwrap();
    assert_eq!(syms[2], b"INVALID_UTF8".to_vec());
    assert_eq!(protos[0].name, None);
    assert_eq!(protos[0].file_scope, None);
    assert_eq!(protos[0].locals.len(), 3);
    assert_eq!(protos[0].locals[1].name, b"NOT_FOUND".to_vec());
    assert_eq!(protos[0].get_parameters(), vec![b"NOT_FOUND".to_vec()]);
    assert_eq!(protos[0].get_locals(), vec![b"b".to_vec(), b"a".to_vec()]);
    assert_eq!(protos[0].upvalues, vec![b"uv".to_vec()]);
}

#[test]
fn errors_name_their_offset() {
    assert_eq!(parse_bytecode_info(&vec![3u8, 1, 5, b'a']).err(), Some(FormatError::Truncated(3)));
    assert_eq!(parse_bytecode_info(&vec![4u8]).err(), Some(FormatError::Truncated(1)));
    assert_eq!(parse_bytecode_info(&with_name(3, None, 5)).err(), Some(FormatError::SymbolOutOfRange(26)));
    let full = minimal(3, None);
    assert_eq!(parse_bytecode_info(&full[..full.len() - 1].to_vec()).err(), Some(FormatError::Truncated(full.len() - 1)));
}
