use fs_tools::annotate::{format_luau_buffer, DecompileOptions};
use fs_tools::locate::find_position_of_function;
use fs_tools::parser::FunctionParser;
use fs_tools::prototype::{Local, Prototype};

fn local(name: &str, scope_start: usize, register: u8) -> Local {
    Local { name: name.as_bytes().to_vec(), scope_start, scope_end: 10, register }
}

fn proto(name: Option<&str>, locals: Vec<Local>) -> Prototype {
    Prototype {
        name: name.map(|n| n.as_bytes().to_vec()),
        locals,
        upvalues: vec![],
        file_scope: None,
    }
}

fn no_options() -> DecompileOptions {
    DecompileOptions { use_symbol_table: false, use_line_numbers: false, use_variables: false }
}

fn run(text: &str, main: usize, protos: &Vec<Prototype>, syms: &[&str], opts: &DecompileOptions) -> String {
    let mut buffer = text.as_bytes().to_vec();
    let symbols: Vec<Vec<u8>> = syms.iter().map(|s| s.as_bytes().to_vec()).collect();
    format_luau_buffer(&mut buffer, main, protos, &symbols, opts);
    String::from_utf8(buffer).unwrap()
}

#[test]
fn arity_mismatch_is_skipped() {
    let protos = vec![proto(Some("Foo"), vec![local("a", 0, 0), local("b", 0, 1)])];
    let text = "function Foo(x, y, z)\n  return x\nend";
    assert_eq!(run(text, 0, &protos, &[], &no_options()), text);
}

#[test]
fn method_rewrite_drops_self_and_renames() {
    let protos = vec![proto(
        Some("doThing"),
        vec![local("self", 0, 0), local("a", 0, 1), local("b", 0, 2)],
    )];
    let out = run("function M.doThing(self, x, y)\n  return x + y\nend", 0, &protos, &[], &no_options());
    assert_eq!(out, "\r\nfunction M:doThing(a, b)\n  return a + b\nend");
    assert!(out.contains("function M:doThing(a, b)"));
}

#[test]
fn method_rewrite_single_self_parameter() {
    let protos = vec![proto(Some("doThing"), vec![local("self", 0, 0)])];
    let out = run("function M.doThing(self)\n  return self\nend", 0, &protos, &[], &no_options());
    assert_eq!(out, "\r\nfunction M:doThing()\n  return self\nend");
}

#[test]
fn underscore_parameter_is_not_renamed() {
    let protos = vec![proto(Some("Foo"), vec![local("p", 0, 0), local("q", 0, 1)])];
    let out = run("function Foo(_, y)\n  local _ = 1\n  return y\nend", 0, &protos, &[], &no_options());
    assert_eq!(out, "\r\nfunction Foo(p, q)\n  local _ = 1\n  return q\nend");
}

fn round_trip_bytecode() -> Vec<u8> {
    let mut b = vec![3u8];
    b.extend_from_slice(&[4, 3, b'F', b'o', b'o', 2, b'p', b'1', 2, b'p', b'2', 1, b'x']);
    b.push(1);
    b.extend_from_slice(&[2, 2, 0, 0]);
    b.extend_from_slice(&[1, 0, 0, 0, 0]);
    b.push(0);
    b.push(0);
    b.push(1);
    b.push(1);
    b.push(0);
    b.push(1);
    b.push(3);
    b.extend_from_slice(&[2, 0, 5, 0]);
    b.extend_from_slice(&[3, 0, 5, 1]);
    b.extend_from_slice(&[4, 3, 5, 2]);
    b.push(0);
    b.push(0);
    b
}

#[test]
fn round_trip_renames_and_lists_locals() {
    let (main, protos, syms) = fs_tools::decoder::parse_bytecode_info(&round_trip_bytecode()).unwrap();
    assert_eq!(main, 0);
    assert_eq!(protos.len(), 1);
    assert_eq!(protos[0].name, Some(b"Foo".to_vec()));
    assert_eq!(protos[0].get_parameters(), vec![b"p1".to_vec(), b"p2".to_vec()]);
    assert_eq!(protos[0].get_locals(), vec![b"x".to_vec()]);
    let opts = DecompileOptions { use_symbol_table: false, use_line_numbers: false, use_variables: true };
    let symbols: Vec<&str> = syms.iter().map(|s| std::str::from_utf8(s).unwrap()).collect();
    let out = run("function Foo(p1, p2)\n  return p1+p2\nend", main, &protos, &symbols, &opts);
    assert_eq!(out, "\r\n-- Local values: x\r\nfunction Foo(p1, p2)\n  return p1+p2\nend");
}

#[test]
fn parameters_take_bytecode_names() {
    let protos = vec![proto(Some("Foo"), vec![local("first", 0, 0), local("second", 0, 1)])];
    let out = run("function Foo(p1, p2)\n  return p1+p2\nend", 0, &protos, &[], &no_options());
    assert_eq!(out, "\r\nfunction Foo(first, second)\n  return first+second\nend");
}

#[test]
fn line_number_comment_is_inserted() {
    let mut p = proto(Some("Foo"), vec![local("a", 0, 0)]);
    p.file_scope = Some((12, 13));
    let opts = DecompileOptions { use_symbol_table: false, use_line_numbers: true, use_variables: false };
    let out = run("function Foo(a)\nend", 0, &vec![p], &[], &opts);
    assert_eq!(out, "\r\n-- Starts at line 12\nfunction Foo(a)\nend");
}

#[test]
fn upvalues_and_locals_comments() {
    let mut p = proto(Some("Foo"), vec![local("a", 0, 0), local("t", 4, 1), local("s", 2, 2)]);
    p.upvalues = vec![b"u1".to_vec(), b"u2".to_vec()];
    let opts = DecompileOptions { use_symbol_table: false, use_line_numbers: false, use_variables: true };
    let out = run("function Foo(a)\nend", 0, &vec![p], &[], &opts);
    assert_eq!(out, "\r\n-- Upvalues: u1, u2\r\n-- Local values: s, t\r\nfunction Foo(a)\nend");
}

#[test]
fn symbol_table_preamble() {
    let opts = DecompileOptions { use_symbol_table: true, use_line_numbers: false, use_variables: false };
    let out = run("print(1)\n", 0, &vec![proto(None, vec![])], &["a", "b"], &opts);
    assert_eq!(out, "--[[ Symbol table:\r\n\ta\r\n\tb\r\n]]\r\nprint(1)\n");
}

#[test]
fn empty_symbol_table_adds_nothing() {
    let opts = DecompileOptions { use_symbol_table: true, use_line_numbers: false, use_variables: false };
    assert_eq!(run("x\n", 0, &vec![proto(None, vec![])], &[], &opts), "x\n");
}

#[test]
fn placeholders_before_first_function_take_main_locals() {
    let protos = vec![
        proto(Some("Foo"), vec![local("p", 0, 0)]),
        proto(None, vec![local("total", 5, 1), local("count", 2, 0)]),
    ];
    let out = run("local v_u_1_ = 0\nlocal v_u_2_ = 0\nfunction Foo(a)\nend\n", 1, &protos, &[], &no_options());
    assert_eq!(out, "local count = 0\nlocal total = 0\n\r\nfunction Foo(p)\nend\n");
}

#[test]
fn main_chunk_locals_go_first() {
    let protos = vec![proto(None, vec![local("x", 1, 0)])];
    let opts = DecompileOptions { use_symbol_table: false, use_line_numbers: false, use_variables: true };
    assert_eq!(run("print(x)\n", 0, &protos, &[], &opts), "-- Local values: x\r\nprint(x)\n");
}

#[test]
fn anonymous_and_parameterless_functions_are_skipped() {
    let mut buffer = b"function Foo()\nend".to_vec();
    assert!(FunctionParser::from(&mut buffer, &proto(Some("Foo"), vec![])).is_none());
    assert!(FunctionParser::from(&mut buffer, &proto(None, vec![local("a", 0, 0)])).is_none());
    assert_eq!(buffer, b"function Foo()\nend".to_vec());
}

#[test]
fn site_is_located_after_qualified_prefix() {
    let text = b"local x = 1\nfunction  A.b.Foo(x)\nend".to_vec();
    assert_eq!(find_position_of_function(&text, &b"Foo".to_vec(), 0), Some(12));
    assert_eq!(find_position_of_function(&text, &b"Bar".to_vec(), 0), None);
    assert_eq!(find_position_of_function(&text, &b"Foo".to_vec(), 13), None);
}

#[test]
fn non_utf8_text_is_not_searched() {
    let text = vec![b'f', 0xFF, b'\n'];
    let mut with_site = b"function Foo(a)\n".to_vec();
    with_site.push(0xC3);
    assert_eq!(find_position_of_function(&text, &b"Foo".to_vec(), 0), None);
    assert_eq!(find_position_of_function(&with_site, &b"Foo".to_vec(), 0), None);
}

#[test]
fn parser_reads_definition_parameters() {
    let mut buffer = b"x\nfunction Foo(a, b)\nend".to_vec();
    let p = FunctionParser::from(&mut buffer, &proto(Some("Foo"), vec![local("m", 0, 0), local("n", 0, 1)])).unwrap();
    assert_eq!(p.position, 4);
    assert_eq!(p.definition, b"function Foo(a, b)".to_vec());
    assert_eq!(p.definition_parameters_str, b"a, b".to_vec());
    assert_eq!(p.definition_parameters, vec![b"a".to_vec(), b" b".to_vec()]);
    assert_eq!(p.get_class_path(), None);
    assert_eq!(buffer, b"x\n\r\nfunction Foo(a, b)\nend".to_vec());
}

#[test]
fn signature_is_replaced_only_at_the_site() {
    let protos = vec![proto(Some("Foo"), vec![local("p", 0, 0), local("q", 0, 1)])];
    let text = "call(_, y)\nfunction Foo(_, y)\n  g(_, y)\nend";
    let out = run(text, 0, &protos, &[], &no_options());
    assert_eq!(out, "call(_, y)\n\r\nfunction Foo(p, q)\n  g(_, q)\nend");
}

#[test]
fn underscore_copy_of_signature_in_body_is_kept() {
    let protos = vec![proto(Some("Foo"), vec![local("p", 0, 0)])];
    let out = run("function Foo(_)\n  h(_)\nend", 0, &protos, &[], &no_options());
    assert_eq!(out, "\r\nfunction Foo(p)\n  h(_)\nend");
}

#[test]
fn prefix_takes_only_identifier_bytes_and_dots() {
    let text = b"function [Foo(a)\nfunction x_y.Foo(a)\n".to_vec();
    assert_eq!(find_position_of_function(&text, &b"Foo".to_vec(), 0), Some(17));
    assert_eq!(find_position_of_function(&b"function ^Foo(a)".to_vec(), &b"Foo".to_vec(), 0), None);
}
