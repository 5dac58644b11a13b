use fs_tools::buffer::BufferExtension;
use fs_tools::catalog::{byte_array_hex_string, executable_patterns, get_optional_path, platform_from_lowercase, PatchType, Platform};
use fs_tools::container::{decode, get_version};
use fs_tools::error::FormatError;
use fs_tools::patch::{apply_patch, locate_patches};
use fs_tools::shapes::{is_locked, unlock};
use fs_tools::shift::{luajit_decode_table, luau_decode_table, shift_bytes, shift_bytes_reversed};

#[test]
fn shift_then_reverse_restores() {
    let table = luau_decode_table(6, true).unwrap();
    let original: Vec<u8> = (0..=255u8).chain(0..40).collect();
    let mut b = original.clone();
    shift_bytes(&mut b, &table.bytes, table.offset, table.mask);
    assert_ne!(b, original);
    shift_bytes_reversed(&mut b, &table.bytes, table.offset, table.mask);
    assert_eq!(b, original);
}

#[test]
fn shift_exact_values() {
    let table = vec![5u8, 250];
    let mut b = vec![1u8, 2, 3, 4];
    b.shift_bytes(&table, 1, 1);
    assert_eq!(b, vec![1, 253, 10, 1]);
    b.shift_bytes_reversed(&table, 1, 1);
    assert_eq!(b, vec![1, 2, 3, 4]);
}

#[test]
fn tables_by_key() {
    assert_eq!(luau_decode_table(3, false).unwrap().bytes, vec![0x02, 0x13, 0x0A, 0x08, 0x01, 0x07, 0x02, 0x02]);
    assert_eq!(luau_decode_table(6, true).unwrap().mask, 0x0f);
    assert!(luau_decode_table(4, false).is_none());
    assert_eq!(luajit_decode_table(3).unwrap().offset, 4);
    assert!(luajit_decode_table(5).is_none());
}

#[test]
fn version_detection() {
    assert_eq!(get_version(&vec![0x02, 0xEF]), (3, true, false));
    assert_eq!(get_version(&vec![0x03, 0xFD]), (3, true, true));
    assert_eq!(get_version(&vec![0x02, 0xF0]), (4, true, false));
    assert_eq!(get_version(&vec![0x02, 0xF2]), (6, true, false));
    assert_eq!(get_version(&vec![0x06, 0x03]), (6, false, true));
    assert_eq!(get_version(&vec![0x03, 0x00]), (3, false, false));
    assert_eq!(get_version(&vec![0x04, 0x00]), (4, false, false));
    assert_eq!(get_version(&vec![0x09, 0x00]), (0, false, false));
}

#[test]
fn decode_removes_shift_and_marker() {
    let table = luau_decode_table(3, false).unwrap();
    let mut plain = vec![0x02u8, 0x03, 0x01, 0x41, 0x00];
    plain.shift_bytes_reversed(&table.bytes, table.offset, table.mask);
    let mut b = plain.clone();
    decode(&mut b, 3, false).unwrap();
    assert_eq!(b, vec![0x03, 0x01, 0x41, 0x00]);
    let mut c = plain.clone();
    assert_eq!(decode(&mut c, 4, false), Err(FormatError::NoByteshiftTable));
    assert_eq!(c, plain);
}

#[test]
fn luajit_header_checks() {
    let b = vec![0x1B, 0x4C, 0x4A, 0x03, 0xFC, 0x10];
    assert!(fs_tools::luajit::is_valid(&b));
    assert!(fs_tools::luajit::is_encoded(&b));
    assert!(!fs_tools::luajit::is_valid(&vec![0x1B, 0x4C, 0x4B]));
    let mut d = b.clone();
    fs_tools::luajit::decode(&mut d).unwrap();
    assert_eq!(d[3], 0x02);
    assert_eq!(d[4], 0x08);
    assert_eq!(d[5], 0x18);
    assert_eq!(&d[..3], &b[..3]);
    let mut e = vec![0x1B, 0x4C, 0x4A, 0x07, 0xFC];
    assert_eq!(fs_tools::luajit::decode(&mut e), Err(FormatError::NoByteshiftTable));
}

#[test]
fn shapes_lock_states() {
    assert_eq!(is_locked(&vec![0x0A, 1, 5, 0]), Ok(true));
    assert_eq!(is_locked(&vec![0x07, 0, 5, 0]), Ok(false));
    assert_eq!(is_locked(&vec![0x01, 9, 2, 0]), Ok(true));
    assert_eq!(is_locked(&vec![0x09, 0, 0, 0]), Err(FormatError::UnknownFormat));
    let mut b = vec![0x05, 1, 0x05, 7];
    unlock(&mut b).unwrap();
    assert_eq!(b, vec![0x05, 0, 0xF8, 0]);
    let mut c = vec![0x01, 0x20, 3, 9];
    unlock(&mut c).unwrap();
    assert_eq!(c, vec![0, 0x13, 0, 9]);
    let mut d = vec![0x02, 1, 2, 3];
    assert_eq!(unlock(&mut d), Err(FormatError::UnknownFormat));
    assert_eq!(d, vec![0x02, 1, 2, 3]);
}

#[test]
fn buffer_reads_little_endian() {
    let b = vec![0x01u8, 0x02, 0x03, 0x04, 0x05, 0x06, 0x07, 0x08, 0x09];
    assert_eq!(b.read_u8(8), 9);
    assert_eq!(b.read_u16(0), 0x0201);
    assert_eq!(b.read_u32(1), 0x05040302);
    assert_eq!(b.read_u64(1), 0x0908070605040302);
}

#[test]
fn find_and_replace_resumes_after_replacement() {
    let mut b = b"aaa xa a".to_vec();
    b.find_and_replace(&b"a".to_vec(), &b"aa".to_vec(), 4);
    assert_eq!(b, b"aaa xaa aa".to_vec());
    let mut c = b"abab".to_vec();
    c.find_and_replace(&b"ab".to_vec(), &b"".to_vec(), 0);
    assert_eq!(c, b"".to_vec());
    let mut d = b"ab".to_vec();
    d.find_and_replace(&b"abc".to_vec(), &b"x".to_vec(), 0);
    assert_eq!(d, b"ab".to_vec());
}

#[test]
fn find_bytes_positions() {
    let b = b"xxabcab".to_vec();
    assert_eq!(b.find_bytes(&b"ab".to_vec()), Some(2));
    assert_eq!(b.find_bytes_from(&b"ab".to_vec(), 3), Some(2));
    assert_eq!(b.find_bytes(&b"q".to_vec()), None);
    let mut c = b.clone();
    c.replace_bytes(&b"ZZ".to_vec(), 5);
    assert_eq!(c, b"xxabcZZ".to_vec());
}

#[test]
fn hex_strings() {
    assert_eq!(byte_array_hex_string(&[0x0A, 0xFF, 0x00]), b"0x0A, 0xFF, 0x00".to_vec());
    assert_eq!(byte_array_hex_string(&[]), b"".to_vec());
    assert_eq!(vec![0x74u8].to_hex_string(), b"0x74".to_vec());
}

#[test]
fn optional_path_fallback() {
    assert_eq!(get_optional_path(Some("a"), "b"), "a");
    assert_eq!(get_optional_path(None, "b"), "b");
}

#[test]
fn platform_names() {
    assert_eq!(platform_from_lowercase(b"steam"), Some(Platform::Steam));
    assert_eq!(platform_from_lowercase(b"giants"), Some(Platform::Giants));
    assert_eq!(platform_from_lowercase(b"epic"), None);
}

#[test]
fn patches_are_located_and_applied() {
    let items = executable_patterns(Platform::Steam);
    let mut exe = vec![0u8; 4];
    exe.extend_from_slice(&items[0].find);
    exe.extend_from_slice(&items[1].replace);
    exe.extend_from_slice(&items[2].find);
    let patches = locate_patches(&exe, &items).unwrap();
    assert_eq!(patches[0].offset, 4);
    assert!(!patches[0].is_applied);
    assert!(patches[1].is_applied);
    let before = exe.clone();
    assert!(apply_patch(&mut exe, &patches[0], false));
    assert_eq!(exe[4], 0x75);
    assert!(!apply_patch(&mut exe, &patches[1], false));
    assert!(apply_patch(&mut exe, &patches[1], true));
    assert_eq!(exe[11], 0x75);
    assert_ne!(exe, before);
    assert_eq!(locate_patches(&vec![0u8; 8], &items).err(), Some(PatchType::ArchiveCheck));
}

#[test]
fn prepare_structural_bytecode() {
    let table = luau_decode_table(6, false).unwrap();
    let mut encoded = vec![0x02u8, 0xF2, 0x05, 0x00];
    let original = encoded.clone();
    encoded.shift_bytes_reversed(&table.bytes, table.offset, table.mask);
    encoded[0] = original[0];
    encoded[1] = original[1];
    let mut expected = encoded.clone();
    expected.shift_bytes(&table.bytes, table.offset, table.mask);
    expected.remove(0);
    let mut b = encoded.clone();
    assert_eq!(fs_tools::container::prepare_bytecode(&mut b), Ok(true));
    assert_eq!(b, expected);
    let mut plain = vec![0x03u8, 0x00, 0x01];
    assert_eq!(fs_tools::container::prepare_bytecode(&mut plain), Ok(false));
    assert_eq!(plain, vec![0x03, 0x00, 0x01]);
    assert_eq!(fs_tools::container::prepare_bytecode(&mut vec![0x09u8, 0x00]), Err(FormatError::UnknownFormat));
    assert_eq!(fs_tools::container::prepare_bytecode(&mut vec![0x03u8]), Err(FormatError::UnknownFormat));
    assert_eq!(fs_tools::container::prepare_bytecode(&mut vec![0x02u8, 0xF0, 0x00]), Err(FormatError::NoByteshiftTable));
}

#[test]
fn prepare_older_bytecode() {
    let mut b = vec![0x1B, 0x4C, 0x4A, 0x04, 0xFC, 0x00];
    assert_eq!(fs_tools::luajit::prepare_bytecode(&mut b), Ok(true));
    assert_eq!(b[3], 0x02);
    let mut plain = vec![0x1B, 0x4C, 0x4A, 0x04, 0x00];
    assert_eq!(fs_tools::luajit::prepare_bytecode(&mut plain), Ok(false));
    assert_eq!(fs_tools::luajit::prepare_bytecode(&mut vec![0x1B, 0x4C, 0x4A, 0x04]), Err(FormatError::UnknownFormat));
    assert_eq!(fs_tools::luajit::prepare_bytecode(&mut vec![0x1B, 0x4C, 0x4A, 0x09, 0xFC]), Err(FormatError::NoByteshiftTable));
}

#[test]
fn unlock_only_when_locked() {
    let mut locked = vec![0x0A, 1, 0x20, 1];
    assert_eq!(fs_tools::shapes::unlock_if_locked(&mut locked), Ok(true));
    assert_eq!(locked, vec![0x0A, 0, 0x13, 0]);
    let mut open = vec![0x0A, 0, 0x20, 0];
    assert_eq!(fs_tools::shapes::unlock_if_locked(&mut open), Ok(false));
    assert_eq!(open, vec![0x0A, 0, 0x20, 0]);
    assert_eq!(fs_tools::shapes::unlock_if_locked(&mut vec![0x0A, 1]), Err(FormatError::UnknownFormat));
}

#[test]
fn encode_then_decode_restores_compiled_bytecode() {
    let compiled = vec![0x06u8, 0x03, 0x02, 0x01, 0x46, 0x6F, 0x6F, 0x00];
    let mut b = compiled.clone();
    fs_tools::container::encode(&mut b).unwrap();
    assert_eq!(b.len(), compiled.len() + 1);
    assert_eq!(b[0], 0x02);
    assert_ne!(&b[1..], &compiled[..]);
    assert_eq!(get_version(&b), (6, true, false));
    decode(&mut b, 6, false).unwrap();
    assert_eq!(b, compiled);
    let mut unknown = vec![0x05u8, 0x00];
    assert_eq!(fs_tools::container::encode(&mut unknown), Err(FormatError::NoByteshiftTable));
    assert_eq!(unknown, vec![0x05, 0x00]);
}

#[test]
fn shift_with_mask_beyond_table_on_short_buffer() {
    let table = vec![7u8, 9];
    let mut b = vec![1u8, 2];
    shift_bytes(&mut b, &table, 0, 0xFF);
    assert_eq!(b, vec![8, 12]);
    shift_bytes_reversed(&mut b, &table, 0, 0xFF);
    assert_eq!(b, vec![1, 2]);
}

#[test]
fn decode_without_table_leaves_empty_buffer() {
    let mut b: Vec<u8> = vec![];
    assert_eq!(decode(&mut b, 4, false), Err(FormatError::NoByteshiftTable));
    assert!(b.is_empty());
}
