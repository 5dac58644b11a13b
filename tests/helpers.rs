use fs_tools::buffer::read_cstring;
use fs_tools::catalog::{create_indent_string, keys_list, Indent};
use fs_tools::parser::FunctionParser;
use fs_tools::text::{class_path, decimal_bytes, split_commas_bytes, trim_bytes};

fn site(definition: &str, params: &[&str], names: &[&str], position: usize) -> FunctionParser {
    let dps = definition[definition.find('(').unwrap() + 1..definition.find(')').unwrap()].to_string();
    FunctionParser {
        name: b"f".to_vec(),
        position,
        initial_size: definition.len(),
        parameters: names.iter().map(|n| n.as_bytes().to_vec()).collect(),
        definition: definition.as_bytes().to_vec(),
        definition_parameters: params.iter().map(|p| p.as_bytes().to_vec()).collect(),
        definition_parameters_str: dps.into_bytes(),
        has_self: false,
    }
}

#[test]
fn cstring_reads_up_to_zero() {
    let b = b"abc\0def\0".to_vec();
    assert_eq!(read_cstring(&b, 0), Some(b"abc".to_vec()));
    assert_eq!(read_cstring(&b, 4), Some(b"def".to_vec()));
    assert_eq!(read_cstring(&b"xyz".to_vec(), 0), None);
    assert_eq!(read_cstring(&vec![0xFF, 0], 0), None);
}

#[test]
fn indent_strings() {
    assert_eq!(create_indent_string(&Indent::Space, 4), b"    ".to_vec());
    assert_eq!(create_indent_string(&Indent::Tab, 2), b"\t\t".to_vec());
    assert_eq!(create_indent_string(&Indent::Tab, 0), b"".to_vec());
}

#[test]
fn archive_keys() {
    let keys = keys_list();
    assert_eq!(keys.len(), 3);
    assert_eq!(keys[2], [0x30D0D6B6, 0x14B281C4, 0x2F28AC14, 0x29F53CB9]);
}

#[test]
fn class_paths() {
    assert_eq!(class_path(&b"function M.doThing(self)".to_vec()), Some(b"M.doThing".to_vec()));
    assert_eq!(class_path(&b"function a.b.c(self)".to_vec()), Some(b"b.c".to_vec()));
    assert_eq!(class_path(&b"function doThing(self)".to_vec()), None);
}

#[test]
fn text_pieces() {
    assert_eq!(trim_bytes(&b" \t a b \r\n".to_vec()), b"a b".to_vec());
    assert_eq!(trim_bytes(&b"   ".to_vec()), b"".to_vec());
    assert_eq!(split_commas_bytes(&b"a, b,,c".to_vec()), vec![b"a".to_vec(), b" b".to_vec(), b"".to_vec(), b"c".to_vec()]);
    assert_eq!(split_commas_bytes(&b"".to_vec()), vec![b"".to_vec()]);
    assert_eq!(decimal_bytes(0), b"0".to_vec());
    assert_eq!(decimal_bytes(4096), b"4096".to_vec());
}

#[test]
fn rename_parameters_marks_self() {
    let mut buffer = b"\r\nfunction T.f(self, v)\n  return v\nend".to_vec();
    let mut p = site("function T.f(self, v)", &["self", " v"], &["self", "w"], 2);
    p.rename_parameters(&mut buffer);
    assert!(p.has_self);
    assert_eq!(buffer, b"\r\nfunction T.f(self, w)\n  return w\nend".to_vec());
    p.rename_self(&mut buffer);
    assert_eq!(buffer, b"\r\nfunction T:f(w)\n  return w\nend".to_vec());
}

#[test]
fn rename_self_needs_self() {
    let mut buffer = b"function T.f(a)\nend".to_vec();
    let mut p = site("function T.f(a)", &["a"], &["b"], 0);
    p.rename_self(&mut buffer);
    assert_eq!(buffer, b"function T.f(a)\nend".to_vec());
    p.rename_parameters(&mut buffer);
    assert!(!p.has_self);
    assert_eq!(buffer, b"function T.f(b)\nend".to_vec());
}
