use vstd::prelude::*;
use vstd::utf8::valid_utf8;

use crate::bytes::{copy_range, find_and_replace, insert_bytes, inserted, push_all, replaced_from};
use crate::decoder::seq_views;
use crate::parser::{
    FunctionParser, SiteView, mentions_self, spec_from, spec_rename_parameters, spec_rename_self,
};
use crate::prototype::{ProtoView, Prototype, protos_view, spec_get_locals};
use crate::text::{decimal, decimal_bytes, is_word, join, join_bytes};
use crate::utf8::is_valid_utf8;

verus! {

/// Which annotations the reattachment adds.
#[derive(Debug, Clone, Copy)]
pub struct DecompileOptions {
    /// Prepend the symbol table.
    pub use_symbol_table: bool,
    /// Note the starting line of each located function.
    pub use_line_numbers: bool,
    /// List the locals and upvalues of each located function.
    pub use_variables: bool,
}

/// `-- <prefix>: a, b, c` and a CRLF line break.
pub open spec fn spec_string_list(list: Seq<Seq<u8>>, prefix: Seq<u8>) -> Seq<u8> {
    seq![0x2Du8, 0x2D, 0x20] + prefix + seq![0x3Au8, 0x20] + join(list, seq![0x2Cu8, 0x20]) + seq![
        0x0Du8,
        0x0A,
    ]
}

/// A block comment headed `<prefix>:` with each item on its own indented line.
pub open spec fn spec_symbol_list(list: Seq<Seq<u8>>, prefix: Seq<u8>) -> Seq<u8> {
    seq![0x2Du8, 0x2D, 0x5B, 0x5B, 0x20] + prefix + seq![0x3Au8, 0x0D, 0x0A, 0x09] + join(
        list,
        seq![0x0Du8, 0x0A, 0x09],
    ) + seq![0x0Du8, 0x0A, 0x5D, 0x5D, 0x0D, 0x0A]
}

/// `-- Starts at line <n>` and a line feed.
pub open spec fn line_comment(n: nat) -> Seq<u8> {
    seq![
        0x2Du8, 0x2D, 0x20, 0x53, 0x74, 0x61, 0x72, 0x74, 0x73, 0x20, 0x61, 0x74, 0x20, 0x6C, 0x69,
        0x6E, 0x65, 0x20,
    ] + decimal(n) + seq![0x0Au8]
}

pub open spec fn local_values_label() -> Seq<u8> {
    seq![0x4Cu8, 0x6F, 0x63, 0x61, 0x6C, 0x20, 0x76, 0x61, 0x6C, 0x75, 0x65, 0x73]
}

pub open spec fn upvalues_label() -> Seq<u8> {
    seq![0x55u8, 0x70, 0x76, 0x61, 0x6C, 0x75, 0x65, 0x73]
}

pub open spec fn symbol_table_label() -> Seq<u8> {
    seq![0x53u8, 0x79, 0x6D, 0x62, 0x6F, 0x6C, 0x20, 0x74, 0x61, 0x62, 0x6C, 0x65]
}

pub open spec fn is_digit(c: u8) -> bool {
    0x30 <= c && c <= 0x39
}

/// The end of the run of decimal digits that starts at `i`.
pub open spec fn digit_end(s: Seq<u8>, i: int) -> int
    decreases s.len() - i,
{
    if 0 <= i < s.len() && is_digit(s[i]) {
        digit_end(s, i + 1)
    } else {
        i
    }
}

/// The end of a captured-variable placeholder `v_u_<digits>_` standing as a
/// whole word at `p`.
pub open spec fn placeholder_end(t: Seq<u8>, p: int) -> Option<int> {
    if 0 <= p && p + 4 <= t.len() && (p == 0 || !is_word(t[p - 1])) && t[p] == 0x76 && t[p + 1]
        == 0x5F && t[p + 2] == 0x75 && t[p + 3] == 0x5F {
        let q = digit_end(t, p + 4);
        if q > p + 4 && q < t.len() && t[q] == 0x5F && (q + 1 == t.len() || !is_word(t[q + 1])) {
            Some(q + 1)
        } else {
            None
        }
    } else {
        None
    }
}

/// The placeholders of `t` from `p` on, in order of appearance.
pub open spec fn placeholders(t: Seq<u8>, p: int) -> Seq<Seq<u8>>
    decreases t.len() - p,
{
    if p < 0 || p >= t.len() {
        seq![]
    } else {
        match placeholder_end(t, p) {
            Some(e) => if p < e <= t.len() {
                seq![t.subrange(p, e)] + placeholders(t, e)
            } else {
                seq![]
            },
            None => placeholders(t, p + 1),
        }
    }
}

/// The first `k` placeholder renames, each over the whole text.
pub open spec fn apply_renames(b: Seq<u8>, caps: Seq<Seq<u8>>, names: Seq<Seq<u8>>, k: int) -> Seq<u8>
    decreases k,
{
    if k <= 0 {
        b
    } else {
        let prev = apply_renames(b, caps, names, k - 1);
        if caps[k - 1].len() == 0 {
            prev
        } else {
            replaced_from(prev, caps[k - 1], names[k - 1], 0)
        }
    }
}

pub open spec fn min(a: int, b: int) -> int {
    if a < b {
        a
    } else {
        b
    }
}

/// The placeholder pass: placeholders before `nearest` are renamed in order
/// after the main function's locals, as far as both lists go.
pub open spec fn spec_rename_nearest(b: Seq<u8>, main: usize, ps: Seq<ProtoView>, nearest: usize) -> Seq<u8> {
    if ps.len() == 1 || main >= ps.len() {
        b
    } else {
        let prefix = b.subrange(0, min(nearest as int, b.len() as int));
        if !valid_utf8(prefix) {
            b
        } else {
            let caps = placeholders(prefix, 0);
            let names = spec_get_locals(ps[main as int]);
            apply_renames(b, caps, names, min(caps.len() as int, names.len() as int))
        }
    }
}

/// The variable comments at a located site: locals first, then upvalues
/// inserted before them.
pub open spec fn site_comments(b: Seq<u8>, pos: int, proto: ProtoView) -> Seq<u8> {
    let ln = spec_get_locals(proto);
    let b1 = if ln.len() > 0 {
        inserted(b, pos, spec_string_list(ln, local_values_label()))
    } else {
        b
    };
    if proto.upvalues.len() > 0 {
        inserted(b1, pos, spec_string_list(proto.upvalues, upvalues_label()))
    } else {
        b1
    }
}

/// One step of the reattachment: the text and nearest-site anchor after
/// function `i`.
pub open spec fn format_step(st: (Seq<u8>, usize), i: int, main: usize, proto: ProtoView, opts: DecompileOptions) -> (Seq<u8>, usize) {
    match spec_from(st.0, proto) {
        Some((sv, b1)) => {
            let b2 = spec_rename_parameters(b1, sv);
            let sv2 = SiteView {
                has_self: sv.has_self || mentions_self(sv.definition_parameters, sv.parameters),
                ..sv
            };
            let b3 = spec_rename_self(b2, sv2);
            let near = if st.1 == 0 { sv.position } else { st.1 };
            let pos = sv.position as int;
            let b4 = if opts.use_variables { site_comments(b3, pos, proto) } else { b3 };
            let b5 = if opts.use_line_numbers && proto.file_scope is Some {
                inserted(b4, pos, line_comment(proto.file_scope.unwrap().0 as nat))
            } else {
                b4
            };
            (b5, near)
        },
        None => if opts.use_variables && i == main && proto.locals.len() > 0 {
            let l = spec_string_list(spec_get_locals(proto), local_values_label());
            let near = if st.1 + l.len() <= usize::MAX {
                (st.1 + l.len()) as usize
            } else {
                usize::MAX
            };
            (inserted(st.0, 0, l), near)
        } else {
            st
        },
    }
}

/// The text and anchor after the first `k` functions.
pub open spec fn format_fold(b: Seq<u8>, ps: Seq<ProtoView>, main: usize, opts: DecompileOptions, k: int) -> (Seq<u8>, usize)
    decreases k,
{
    if k <= 0 {
        (b, 0usize)
    } else {
        format_step(format_fold(b, ps, main, opts, k - 1), k - 1, main, ps[k - 1], opts)
    }
}

/// The fully annotated text.
pub open spec fn spec_format(b: Seq<u8>, main: usize, ps: Seq<ProtoView>, syms: Seq<Seq<u8>>, opts: DecompileOptions) -> Seq<u8> {
    let (b1, near) = format_fold(b, ps, main, opts, ps.len() as int);
    let b2 = spec_rename_nearest(b1, main, ps, near);
    if opts.use_symbol_table && syms.len() > 0 {
        inserted(b2, 0, spec_symbol_list(syms, symbol_table_label()))
    } else {
        b2
    }
}

/// `-- <prefix>: a, b, c` and a CRLF line break.
pub fn gen_string_list(list: &Vec<Vec<u8>>, prefix: &[u8]) -> (r: Vec<u8>)
    ensures
        r@ == spec_string_list(seq_views(list@), prefix@),
{
    let mut r: Vec<u8> = vec![0x2D, 0x2D, 0x20];
    push_all(&mut r, prefix);
    push_all(&mut r, &[0x3A, 0x20]);
    let joined = join_bytes(list, &[0x2C, 0x20]);
    push_all(&mut r, joined.as_slice());
    push_all(&mut r, &[0x0D, 0x0A]);
    assert(r@ =~= spec_string_list(seq_views(list@), prefix@));
    r
}

/// A block comment headed `<prefix>:` with each item on its own indented line.
pub fn gen_symbol_list(list: &Vec<Vec<u8>>, prefix: &[u8]) -> (r: Vec<u8>)
    ensures
        r@ == spec_symbol_list(seq_views(list@), prefix@),
{
    let mut r: Vec<u8> = vec![0x2D, 0x2D, 0x5B, 0x5B, 0x20];
    push_all(&mut r, prefix);
    push_all(&mut r, &[0x3A, 0x0D, 0x0A, 0x09]);
    let joined = join_bytes(list, &[0x0D, 0x0A, 0x09]);
    push_all(&mut r, joined.as_slice());
    push_all(&mut r, &[0x0D, 0x0A, 0x5D, 0x5D, 0x0D, 0x0A]);
    assert(r@ =~= spec_symbol_list(seq_views(list@), prefix@));
    r
}

fn gen_line_comment(n: usize) -> (r: Vec<u8>)
    ensures
        r@ == line_comment(n as nat),
{
    let mut r: Vec<u8> = vec![
        0x2D, 0x2D, 0x20, 0x53, 0x74, 0x61, 0x72, 0x74, 0x73, 0x20, 0x61, 0x74, 0x20, 0x6C, 0x69,
        0x6E, 0x65, 0x20,
    ];
    let digits = decimal_bytes(n);
    push_all(&mut r, digits.as_slice());
    r.push(0x0A);
    assert(r@ =~= line_comment(n as nat));
    r
}

fn is_word_byte(c: u8) -> (r: bool)
    ensures
        r == is_word(c),
{
    (0x41 <= c && c <= 0x5A) || (0x61 <= c && c <= 0x7A) || (0x30 <= c && c <= 0x39) || c == 0x5F
}

fn placeholder_end_exec(t: &Vec<u8>, p: usize) -> (r: Option<usize>)
    requires
        p < t@.len(),
    ensures
        placeholder_end(t@, p as int) == match r {
            Some(e) => Some(e as int),
            None => None::<int>,
        },
        r is Some ==> p < r.unwrap() <= t@.len(),
{
    let n = t.len();
    if !(4 <= n - p && (p == 0 || !is_word_byte(t[p - 1])) && t[p] == 0x76 && t[p + 1] == 0x5F
        && t[p + 2] == 0x75 && t[p + 3] == 0x5F) {
        return None;
    }
    let mut q = p + 4;
    while q < n && 0x30 <= t[q] && t[q] <= 0x39
        invariant
            p + 4 <= q <= n,
            n == t@.len(),
            digit_end(t@, p + 4) == digit_end(t@, q as int),
        decreases n - q,
    {
        q = q + 1;
    }
    if q > p + 4 && q < n && t[q] == 0x5F && (q + 1 == n || !is_word_byte(t[q + 1])) {
        Some(q + 1)
    } else {
        None
    }
}

/// The placeholders of `t`, in order of appearance.
fn find_placeholders(t: &Vec<u8>) -> (r: Vec<Vec<u8>>)
    ensures
        seq_views(r@) == placeholders(t@, 0),
{
    let n = t.len();
    let mut out: Vec<Vec<u8>> = Vec::new();
    let mut p: usize = 0;
    while p < n
        invariant
            p <= n,
            n == t@.len(),
            placeholders(t@, 0) == seq_views(out@) + placeholders(t@, p as int),
        decreases n - p,
    {
        match placeholder_end_exec(t, p) {
            Some(e) => {
                let cap = copy_range(t, p, e);
                let ghost before = out@;
                out.push(cap);
                assert(seq_views(out@) =~= seq_views(before) + seq![t@.subrange(p as int, e as int)]);
                assert(seq_views(before) + (seq![t@.subrange(p as int, e as int)] + placeholders(t@, e as int)) =~= seq_views(out@) + placeholders(t@, e as int));
                p = e;
            },
            None => {
                p = p + 1;
            },
        }
    }
    assert(seq_views(out@) + seq![] =~= seq_views(out@));
    out
}

/// Renames captured-variable placeholders that appear before the first
/// located function, in order, after the main function's locals.
pub fn rename_nearest_upvalues(buffer: &mut Vec<u8>, main: usize, functions: &Vec<Prototype>, nearest_proto_position: usize)
    ensures
        final(buffer)@ == spec_rename_nearest(old(buffer)@, main, protos_view(functions@), nearest_proto_position),
{
    if functions.len() == 1 || main >= functions.len() {
        return;
    }
    let n = buffer.len();
    let end = if nearest_proto_position < n { nearest_proto_position } else { n };
    let prefix = copy_range(buffer, 0, end);
    if !is_valid_utf8(prefix.as_slice()) {
        return;
    }
    let caps = find_placeholders(&prefix);
    let locals = functions[main].get_locals();
    let ghost b0 = buffer@;
    let ghost cv = seq_views(caps@);
    let ghost nv = seq_views(locals@);
    assert(nv == spec_get_locals(protos_view(functions@)[main as int]));
    let count = if caps.len() < locals.len() { caps.len() } else { locals.len() };
    let mut i: usize = 0;
    while i < count
        invariant
            i <= count,
            count <= caps@.len(),
            count <= locals@.len(),
            cv == seq_views(caps@),
            nv == seq_views(locals@),
            buffer@ == apply_renames(b0, cv, nv, i as int),
        decreases count - i,
    {
        if caps[i].len() > 0 {
            find_and_replace(buffer, &caps[i], &locals[i], 0);
        }
        i = i + 1;
    }
}

/// Reattaches recovered debug information onto decompiled text: for each
/// function in order, locates its definition and renames its parameters,
/// switches `Table.member(self, ...)` to method syntax, and adds the
/// comments that `opts` asks for; then renames placeholders before the first
/// located function and prepends the symbol table when asked.
pub fn format_luau_buffer(
    buffer: &mut Vec<u8>,
    main: usize,
    prototypes: &Vec<Prototype>,
    symbol_table: &Vec<Vec<u8>>,
    opts: &DecompileOptions,
)
    ensures
        final(buffer)@ == spec_format(old(buffer)@, main, protos_view(prototypes@), seq_views(symbol_table@), *opts),
{
    let ghost ps = protos_view(prototypes@);
    let ghost b0 = buffer@;
    let local_label: [u8; 12] = [0x4C, 0x6F, 0x63, 0x61, 0x6C, 0x20, 0x76, 0x61, 0x6C, 0x75, 0x65, 0x73];
    let upvalue_label: [u8; 8] = [0x55, 0x70, 0x76, 0x61, 0x6C, 0x75, 0x65, 0x73];
    assert(local_label@ =~= local_values_label());
    assert(upvalue_label@ =~= upvalues_label());
    let mut nearest: usize = 0;
    let mut i: usize = 0;
    while i < prototypes.len()
        invariant
            i <= prototypes@.len(),
            ps == protos_view(prototypes@),
            local_label@ == local_values_label(),
            upvalue_label@ == upvalues_label(),
            (buffer@, nearest) == format_fold(b0, ps, main, *opts, i as int),
        decreases prototypes@.len() - i,
    {
        let proto = &prototypes[i];
        let ghost pv = ps[i as int];
        assert(proto@ == pv);
        let ghost st = (buffer@, nearest);
        let parser = FunctionParser::from(buffer, proto);
        match parser {
            Some(mut parser) => {
                let ghost sv = parser@;
                parser.rename_parameters(buffer);
                parser.rename_self(buffer);
                if nearest == 0 {
                    nearest = parser.position;
                }
                if opts.use_variables {
                    let local_names = proto.get_locals();
                    if local_names.len() > 0 {
                        let line = gen_string_list(&local_names, &local_label);
                        insert_bytes(buffer, parser.position, line.as_slice());
                    }
                    if proto.upvalues.len() > 0 {
                        let line = gen_string_list(&proto.upvalues, &upvalue_label);
                        insert_bytes(buffer, parser.position, line.as_slice());
                    }
                }
                if opts.use_line_numbers {
                    match proto.file_scope {
                        Some((line_start, _)) => {
                            let line = gen_line_comment(line_start);
                            insert_bytes(buffer, parser.position, line.as_slice());
                        },
                        None => {},
                    }
                }
            },
            None => {
                if opts.use_variables && i == main && proto.locals.len() > 0 {
                    let local_names = proto.get_locals();
                    let line = gen_string_list(&local_names, &local_label);
                    insert_bytes(buffer, 0, line.as_slice());
                    nearest = if nearest <= usize::MAX - line.len() {
                        nearest + line.len()
                    } else {
                        usize::MAX
                    };
                }
            },
        }
        i = i + 1;
    }
    rename_nearest_upvalues(buffer, main, prototypes, nearest);
    if opts.use_symbol_table && symbol_table.len() > 0 {
        let label: [u8; 12] = [0x53, 0x79, 0x6D, 0x62, 0x6F, 0x6C, 0x20, 0x74, 0x61, 0x62, 0x6C, 0x65];
        assert(label@ =~= symbol_table_label());
        let symbols = gen_symbol_list(symbol_table, &label);
        insert_bytes(buffer, 0, symbols.as_slice());
    }
}


/// A function that cannot be located, or whose definition lists a different
/// number of parameters than the bytecode gives, leaves the text untouched
/// (unless it is the main function and variable comments are on).
pub proof fn lemma_skipped_function_leaves_text(
    st: (Seq<u8>, usize),
    i: int,
    main: usize,
    proto: ProtoView,
    opts: DecompileOptions,
)
    requires
        spec_from(st.0, proto) is None,
        i != main || !opts.use_variables,
    ensures
        format_step(st, i, main, proto, opts) == st,
{
}

} // verus!
