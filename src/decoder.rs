use vstd::prelude::*;

use vstd::utf8::valid_utf8;

use crate::bytes::{copy_bytes, copy_range};
use crate::error::FormatError;
use crate::prototype::{Local, LocalView, ProtoView, Prototype, protos_view};
use crate::utf8::is_valid_utf8;

verus! {

/// Longest variable-length integer accepted, in bytes.
pub const MAX_VARINT_BYTES: usize = 10;

/// What reading a value of type `T` at some position gives: the value and
/// the position after it, or the error and where it was found.
pub type Parsed<T> = Result<(T, int), FormatError>;

/// One byte at `pos`, and the position after it.
pub open spec fn spec_u8(b: Seq<u8>, pos: int) -> Parsed<u8> {
    if 0 <= pos < b.len() {
        Ok((b[pos], pos + 1))
    } else {
        Err(FormatError::Truncated(pos as usize))
    }
}

/// The position after `n` bytes from `pos`, if they are there.
pub open spec fn spec_skip(b: Seq<u8>, pos: int, n: int) -> Result<int, FormatError> {
    if 0 <= pos && 0 <= n && pos + n <= b.len() {
        Ok(pos + n)
    } else {
        Err(FormatError::Truncated(pos as usize))
    }
}

/// An unsigned base-128 integer at `pos` (low group first, high bit set on
/// every byte but the last), of at most `budget` bytes and fitting in usize.
pub open spec fn spec_varint_within(b: Seq<u8>, pos: int, budget: nat) -> Parsed<nat>
    decreases budget,
{
    if budget == 0 || pos < 0 || pos >= b.len() {
        Err(FormatError::Truncated(pos as usize))
    } else if b[pos] < 128 {
        Ok((b[pos] as nat, pos + 1))
    } else {
        match spec_varint_within(b, pos + 1, (budget - 1) as nat) {
            Ok((v, e)) => {
                let x = (b[pos] - 128) + 128 * v;
                if x <= usize::MAX {
                    Ok((x as nat, e))
                } else {
                    Err(FormatError::Truncated(pos as usize))
                }
            },
            Err(err) => Err(err),
        }
    }
}

/// A variable-length integer at `pos`.
pub open spec fn spec_varint(b: Seq<u8>, pos: int) -> Parsed<nat> {
    spec_varint_within(b, pos, MAX_VARINT_BYTES as nat)
}

/// A little-endian u32 at `pos`.
pub open spec fn le_u32_at(b: Seq<u8>, pos: int) -> u32 {
    (b[pos] as int + 256 * b[pos + 1] as int + 65536 * b[pos + 2] as int + 16777216 * b[pos
        + 3] as int) as u32
}

/// A byte string prefixed by its length.
pub open spec fn spec_string(b: Seq<u8>, pos: int) -> Parsed<Seq<u8>> {
    match spec_varint(b, pos) {
        Ok((n, p)) => if p + n <= b.len() {
            Ok((b.subrange(p, p + n), p + n))
        } else {
            Err(FormatError::Truncated(p as usize))
        },
        Err(err) => Err(err),
    }
}

/// `count` length-prefixed byte strings in a row.
pub open spec fn spec_strings(b: Seq<u8>, pos: int, count: nat) -> Parsed<Seq<Seq<u8>>>
    decreases count,
{
    if count == 0 {
        Ok((seq![], pos))
    } else {
        match spec_string(b, pos) {
            Ok((s, p)) => match spec_strings(b, p, (count - 1) as nat) {
                Ok((rest, e)) => Ok((seq![s] + rest, e)),
                Err(err) => Err(err),
            },
            Err(err) => Err(err),
        }
    }
}

/// The symbol table: a count, then that many byte strings.
pub open spec fn spec_symbol_table(b: Seq<u8>, pos: int) -> Parsed<Seq<Seq<u8>>> {
    match spec_varint(b, pos) {
        Ok((n, p)) => spec_strings(b, p, n),
        Err(err) => Err(err),
    }
}

/// `count` variable-length integers in a row; their values are not kept.
pub open spec fn spec_skip_varints(b: Seq<u8>, pos: int, count: nat) -> Result<int, FormatError>
    decreases count,
{
    if count == 0 {
        Ok(pos)
    } else {
        match spec_varint(b, pos) {
            Ok((_, p)) => spec_skip_varints(b, p, (count - 1) as nat),
            Err(err) => Err(err),
        }
    }
}

/// The result of a reader that returns a value and a `usize` position, as a
/// `Parsed` value.
pub open spec fn as_parsed<T>(r: Result<(T, usize), FormatError>) -> Parsed<T> {
    match r {
        Ok((v, p)) => Ok((v, p as int)),
        Err(err) => Err(err),
    }
}

/// The result of a reader that returns a `usize` position.
pub open spec fn as_position(r: Result<usize, FormatError>) -> Result<int, FormatError> {
    match r {
        Ok(p) => Ok(p as int),
        Err(err) => Err(err),
    }
}

pub open spec fn seq_views(v: Seq<Vec<u8>>) -> Seq<Seq<u8>> {
    v.map_values(|x: Vec<u8>| x@)
}

pub fn read_u8(b: &Vec<u8>, pos: usize) -> (r: Result<(u8, usize), FormatError>)
    ensures
        spec_u8(b@, pos as int) == as_parsed(r),
{
    if pos < b.len() {
        Ok((b[pos], pos + 1))
    } else {
        Err(FormatError::Truncated(pos))
    }
}

pub fn skip(b: &Vec<u8>, pos: usize, n: usize) -> (r: Result<usize, FormatError>)
    requires
        pos <= b@.len(),
    ensures
        spec_skip(b@, pos as int, n as int) == as_position(r),
        r.is_ok() ==> r.unwrap() <= b@.len(),
{
    if n <= b.len() - pos {
        Ok(pos + n)
    } else {
        Err(FormatError::Truncated(pos))
    }
}

fn read_varint_within(b: &Vec<u8>, pos: usize, budget: usize) -> (r: Result<(usize, usize), FormatError>)
    ensures
        spec_varint_within(b@, pos as int, budget as nat) == match r {
            Ok((v, p)) => Ok((v as nat, p as int)),
            Err(err) => Err(err),
        },
        r.is_ok() ==> pos < r.unwrap().1 <= b@.len(),
    decreases budget,
{
    if budget == 0 || pos >= b.len() {
        return Err(FormatError::Truncated(pos));
    }
    let byte = b[pos];
    if byte < 128 {
        return Ok((byte as usize, pos + 1));
    }
    let (v, e) = read_varint_within(b, pos + 1, budget - 1)?;
    let low = (byte - 128) as usize;
    if v > (usize::MAX - low) / 128 {
        return Err(FormatError::Truncated(pos));
    }
    Ok((low + 128 * v, e))
}

/// Reads a variable-length integer at `pos`.
pub fn read_varint(b: &Vec<u8>, pos: usize) -> (r: Result<(usize, usize), FormatError>)
    ensures
        spec_varint(b@, pos as int) == match r {
            Ok((v, p)) => Ok((v as nat, p as int)),
            Err(err) => Err(err),
        },
        r.is_ok() ==> pos < r.unwrap().1 <= b@.len(),
{
    read_varint_within(b, pos, MAX_VARINT_BYTES)
}

/// Reads a length-prefixed byte string at `pos`.
pub fn read_string(b: &Vec<u8>, pos: usize) -> (r: Result<(Vec<u8>, usize), FormatError>)
    ensures
        spec_string(b@, pos as int) == match r {
            Ok((v, p)) => Ok((v@, p as int)),
            Err(err) => Err(err),
        },
        r.is_ok() ==> r.unwrap().1 <= b@.len(),
{
    let (n, p) = read_varint(b, pos)?;
    if n > b.len() - p {
        return Err(FormatError::Truncated(p));
    }
    let s = copy_range(b, p, p + n);
    Ok((s, p + n))
}

/// Reads the symbol table at `pos`.
pub fn read_symbol_table(b: &Vec<u8>, pos: usize) -> (r: Result<(Vec<Vec<u8>>, usize), FormatError>)
    ensures
        spec_symbol_table(b@, pos as int) == match r {
            Ok((v, p)) => Ok((seq_views(v@), p as int)),
            Err(err) => Err(err),
        },
        r.is_ok() ==> r.unwrap().1 <= b@.len(),
{
    let (n, p0) = read_varint(b, pos)?;
    let mut table: Vec<Vec<u8>> = Vec::new();
    let mut p = p0;
    let mut i: usize = 0;
    while i < n
        invariant
            i <= n,
            p <= b@.len(),
            spec_varint(b@, pos as int) == Ok::<(nat, int), FormatError>((n as nat, p0 as int)),
            spec_strings(b@, p0 as int, n as nat) == match spec_strings(b@, p as int, (n - i) as nat) {
                Ok((rest, e)) => Ok((seq_views(table@) + rest, e)),
                Err(err) => Err(err),
            },
        decreases n - i,
    {
        let (s, q) = match read_string(b, p) {
            Ok(x) => x,
            Err(e) => {
                assert(spec_strings(b@, p as int, (n - i) as nat) == Err::<(Seq<Seq<u8>>, int), FormatError>(e));
                return Err(e);
            },
        };
        proof {
            assert(seq_views(table@.push(s)) =~= seq_views(table@) + seq![s@]);
            match spec_strings(b@, q as int, (n - i - 1) as nat) {
                Ok((rest, e)) => {
                    assert(seq_views(table@) + (seq![s@] + rest) =~= seq_views(table@.push(s)) + rest);
                },
                Err(_) => {},
            }
        }
        table.push(s);
        p = q;
        i = i + 1;
    }
    assert(seq_views(table@) + seq![] =~= seq_views(table@));
    Ok((table, p))
}

/// Skips `count` variable-length integers from `pos`.
pub fn skip_varints(b: &Vec<u8>, pos: usize, count: usize) -> (r: Result<usize, FormatError>)
    requires
        pos <= b@.len(),
    ensures
        spec_skip_varints(b@, pos as int, count as nat) == as_position(r),
        r.is_ok() ==> r.unwrap() <= b@.len(),
{
    let mut p = pos;
    let mut i: usize = 0;
    while i < count
        invariant
            i <= count,
            p <= b@.len(),
            spec_skip_varints(b@, pos as int, count as nat) == spec_skip_varints(b@, p as int, (count - i) as nat),
        decreases count - i,
    {
        let (_, q) = read_varint(b, p)?;
        p = q;
        i = i + 1;
    }
    Ok(p)
}


/// One constant-table entry; its value is not kept.
pub open spec fn spec_constant(b: Seq<u8>, pos: int) -> Result<int, FormatError> {
    match spec_u8(b, pos) {
        Ok((tag, p)) => if tag == 0 {
            Ok(p)
        } else if tag == 1 {
            spec_skip(b, p, 1)
        } else if tag == 2 {
            spec_skip(b, p, 8)
        } else if tag == 3 || tag == 6 {
            match spec_varint(b, p) {
                Ok((_, q)) => Ok(q),
                Err(err) => Err(err),
            }
        } else if tag == 4 {
            spec_skip(b, p, 4)
        } else if tag == 5 {
            match spec_varint(b, p) {
                Ok((n, q)) => spec_skip_varints(b, q, n),
                Err(err) => Err(err),
            }
        } else if tag == 7 {
            spec_skip(b, p, 16)
        } else {
            Err(FormatError::InvalidConstant(pos as usize))
        },
        Err(err) => Err(err),
    }
}

/// `count` constant-table entries in a row.
pub open spec fn spec_constants(b: Seq<u8>, pos: int, count: nat) -> Result<int, FormatError>
    decreases count,
{
    if count == 0 {
        Ok(pos)
    } else {
        match spec_constant(b, pos) {
            Ok(p) => spec_constants(b, p, (count - 1) as nat),
            Err(err) => Err(err),
        }
    }
}

/// Number of absolute line values for `n` instructions grouped by `2^log2`.
pub open spec fn intervals_of(n: usize, log2: u8) -> int {
    if n == 0 {
        0
    } else if log2 >= 64 {
        1
    } else {
        ((((n - 1) as u64) >> (log2 as u64)) + 1) as int
    }
}

/// The line-info block of a function with `n_ins` instructions: its
/// starting-line anchor (the last absolute line value, 0 when absent).
pub open spec fn spec_line_info(b: Seq<u8>, pos: int, n_ins: usize) -> Parsed<usize> {
    match spec_u8(b, pos) {
        Ok((has, p)) => if has == 0 {
            Ok((0usize, p))
        } else {
            match spec_u8(b, p) {
                Ok((log2, p2)) => match spec_skip(b, p2, n_ins as int) {
                    Ok(p3) => {
                        let k = intervals_of(n_ins, log2);
                        match spec_skip(b, p3, 4 * k) {
                            Ok(p4) => Ok(
                                (
                                    if k > 0 {
                                        le_u32_at(b, p3 + 4 * (k - 1)) as usize
                                    } else {
                                        0usize
                                    },
                                    p4,
                                ),
                            ),
                            Err(err) => Err(err),
                        }
                    },
                    Err(err) => Err(err),
                },
                Err(err) => Err(err),
            }
        },
        Err(err) => Err(err),
    }
}

/// The name that a local or upvalue gets from symbol `idx` (1-based).
pub open spec fn symbol_name(syms: Seq<Seq<u8>>, idx: nat) -> Seq<u8> {
    if valid_utf8(syms[idx - 1]) {
        syms[idx - 1]
    } else {
        not_found_name()
    }
}

pub open spec fn not_found_name() -> Seq<u8> {
    seq![78u8, 79, 84, 95, 70, 79, 85, 78, 68]
}

pub open spec fn invalid_utf8_name() -> Seq<u8> {
    seq![73u8, 78, 86, 65, 76, 73, 68, 95, 85, 84, 70, 56]
}

/// One local entry; an entry without a name yields none.
pub open spec fn spec_local(b: Seq<u8>, pos: int, syms: Seq<Seq<u8>>) -> Parsed<Option<LocalView>> {
    match spec_varint(b, pos) {
        Ok((idx, p1)) => if idx > syms.len() {
            Err(FormatError::SymbolOutOfRange(pos as usize))
        } else {
            match spec_varint(b, p1) {
                Ok((ss, p2)) => match spec_varint(b, p2) {
                    Ok((se, p3)) => match spec_u8(b, p3) {
                        Ok((reg, p4)) => Ok(
                            (
                                if idx == 0 {
                                    None
                                } else {
                                    Some(
                                        LocalView {
                                            name: symbol_name(syms, idx),
                                            scope_start: ss as usize,
                                            scope_end: se as usize,
                                            register: reg,
                                        },
                                    )
                                },
                                p4,
                            ),
                        ),
                        Err(err) => Err(err),
                    },
                    Err(err) => Err(err),
                },
                Err(err) => Err(err),
            }
        },
        Err(err) => Err(err),
    }
}

/// `count` local entries; the named ones, in order.
pub open spec fn spec_locals(b: Seq<u8>, pos: int, count: nat, syms: Seq<Seq<u8>>) -> Parsed<Seq<LocalView>>
    decreases count,
{
    if count == 0 {
        Ok((seq![], pos))
    } else {
        match spec_local(b, pos, syms) {
            Ok((ol, p)) => match spec_locals(b, p, (count - 1) as nat, syms) {
                Ok((rest, e)) => Ok(
                    (
                        match ol {
                            Some(l) => seq![l] + rest,
                            None => rest,
                        },
                        e,
                    ),
                ),
                Err(err) => Err(err),
            },
            Err(err) => Err(err),
        }
    }
}

/// `count` upvalue entries; the names of the named ones, in order.
pub open spec fn spec_upvalues(b: Seq<u8>, pos: int, count: nat, syms: Seq<Seq<u8>>) -> Parsed<Seq<Seq<u8>>>
    decreases count,
{
    if count == 0 {
        Ok((seq![], pos))
    } else {
        match spec_varint(b, pos) {
            Ok((idx, p)) => if idx > syms.len() {
                Err(FormatError::SymbolOutOfRange(pos as usize))
            } else {
                match spec_upvalues(b, p, (count - 1) as nat, syms) {
                    Ok((rest, e)) => Ok(
                        (if idx == 0 { rest } else { seq![symbol_name(syms, idx)] + rest }, e),
                    ),
                    Err(err) => Err(err),
                }
            },
            Err(err) => Err(err),
        }
    }
}

/// The debug-info block: named locals and upvalue names.
pub open spec fn spec_debug_info(b: Seq<u8>, pos: int, syms: Seq<Seq<u8>>) -> Parsed<(Seq<LocalView>, Seq<Seq<u8>>)> {
    match spec_u8(b, pos) {
        Ok((flag, p)) => if flag == 0 {
            Ok(((seq![], seq![]), p))
        } else {
            match spec_varint(b, p) {
                Ok((nl, p1)) => match spec_locals(b, p1, nl, syms) {
                    Ok((ls, p2)) => match spec_varint(b, p2) {
                        Ok((nu, p3)) => match spec_upvalues(b, p3, nu, syms) {
                            Ok((us, p4)) => Ok(((ls, us), p4)),
                            Err(err) => Err(err),
                        },
                        Err(err) => Err(err),
                    },
                    Err(err) => Err(err),
                },
                Err(err) => Err(err),
            }
        },
        Err(err) => Err(err),
    }
}

/// The part of a function record up to its line-defined field: the fixed
/// header, type info (version 4 and later), instructions, constants and
/// child indices. Yields the instruction count.
pub open spec fn spec_proto_body(b: Seq<u8>, pos: int, version: u8) -> Parsed<usize> {
    match spec_skip(b, pos, 4) {
        Ok(p1) => {
            let p2 = if version >= 4 {
                match spec_u8(b, p1) {
                    Ok((_, p)) => match spec_varint(b, p) {
                        Ok((n, q)) => spec_skip(b, q, n as int),
                        Err(err) => Err(err),
                    },
                    Err(err) => Err(err),
                }
            } else {
                Ok(p1)
            };
            match p2 {
                Ok(p2) => match spec_varint(b, p2) {
                    Ok((n_ins, p3)) => match spec_skip(b, p3, 4 * n_ins as int) {
                        Ok(p4) => match spec_varint(b, p4) {
                            Ok((nc, p5)) => match spec_constants(b, p5, nc) {
                                Ok(p6) => match spec_varint(b, p6) {
                                    Ok((nf, p7)) => match spec_skip_varints(b, p7, nf) {
                                        Ok(p8) => Ok((n_ins as usize, p8)),
                                        Err(err) => Err(err),
                                    },
                                    Err(err) => Err(err),
                                },
                                Err(err) => Err(err),
                            },
                            Err(err) => Err(err),
                        },
                        Err(err) => Err(err),
                    },
                    Err(err) => Err(err),
                },
                Err(err) => Err(err),
            }
        },
        Err(err) => Err(err),
    }
}

/// One function record.
pub open spec fn spec_proto(b: Seq<u8>, pos: int, version: u8, syms: Seq<Seq<u8>>) -> Parsed<ProtoView> {
    match spec_proto_body(b, pos, version) {
        Ok((n_ins, p8)) => match spec_varint(b, p8) {
            Ok((_, p9)) => match spec_varint(b, p9) {
                Ok((idx, p10)) => if idx > syms.len() {
                    Err(FormatError::SymbolOutOfRange(p9 as usize))
                } else {
                    let name = if idx == 0 || !valid_utf8(syms[idx - 1]) {
                        None
                    } else {
                        Some(syms[idx - 1])
                    };
                    match spec_line_info(b, p10, n_ins) {
                        Ok((start, p11)) => match spec_debug_info(b, p11, syms) {
                            Ok(((ls, us), p12)) => Ok(
                                (
                                    ProtoView {
                                        name,
                                        locals: ls,
                                        upvalues: us,
                                        file_scope: if name is Some {
                                            Some((start, if start < usize::MAX { (start + 1) as usize } else { start }))
                                        } else {
                                            None
                                        },
                                    },
                                    p12,
                                ),
                            ),
                            Err(err) => Err(err),
                        },
                        Err(err) => Err(err),
                    }
                },
                Err(err) => Err(err),
            },
            Err(err) => Err(err),
        },
        Err(err) => Err(err),
    }
}

/// `count` function records in a row.
pub open spec fn spec_protos(b: Seq<u8>, pos: int, count: nat, version: u8, syms: Seq<Seq<u8>>) -> Parsed<Seq<ProtoView>>
    decreases count,
{
    if count == 0 {
        Ok((seq![], pos))
    } else {
        match spec_proto(b, pos, version, syms) {
            Ok((pv, p)) => match spec_protos(b, p, (count - 1) as nat, version, syms) {
                Ok((rest, e)) => Ok((seq![pv] + rest, e)),
                Err(err) => Err(err),
            },
            Err(err) => Err(err),
        }
    }
}

/// The type-annotation block: variable-length integers up to a zero byte.
pub open spec fn spec_type_block(b: Seq<u8>, pos: int) -> Result<int, FormatError>
    decreases b.len() - pos,
{
    if pos < 0 || pos >= b.len() {
        Err(FormatError::Truncated(pos as usize))
    } else if b[pos] == 0 {
        Ok(pos + 1)
    } else {
        match spec_varint(b, pos) {
            Ok((_, p)) => if pos < p <= b.len() {
                spec_type_block(b, p)
            } else {
                Err(FormatError::Truncated(pos as usize))
            },
            Err(err) => Err(err),
        }
    }
}

pub open spec fn supported_version(v: u8) -> bool {
    v == 3 || v == 4 || v == 6
}

/// The symbol table as text: entries that are not UTF-8 are replaced.
pub open spec fn decoded_symbols(syms: Seq<Seq<u8>>) -> Seq<Seq<u8>> {
    syms.map_values(|s: Seq<u8>| if valid_utf8(s) { s } else { invalid_utf8_name() })
}

/// A whole bytecode container: `(main index, functions, symbol table)`, or
/// the error met first and where.
pub open spec fn spec_bytecode(b: Seq<u8>) -> Result<(nat, Seq<ProtoView>, Seq<Seq<u8>>), FormatError> {
    match spec_u8(b, 0) {
        Ok((version, p1)) => if !supported_version(version) {
            Err(FormatError::UnsupportedVersion(version))
        } else {
            let types = if version >= 4 {
                spec_u8(b, p1)
            } else {
                Ok((0u8, p1))
            };
            match types {
                Ok((t, p2)) => if t > 3 {
                    Err(FormatError::UnsupportedTypesVersion(t))
                } else {
                    match spec_symbol_table(b, p2) {
                        Ok((syms, p3)) => {
                            let p4 = if t == 3 {
                                spec_type_block(b, p3)
                            } else {
                                Ok(p3)
                            };
                            match p4 {
                                Ok(p4) => match spec_varint(b, p4) {
                                    Ok((np, p5)) => match spec_protos(b, p5, np, version, syms) {
                                        Ok((ps, p6)) => match spec_varint(b, p6) {
                                            Ok((main, _)) => Ok((main, ps, decoded_symbols(syms))),
                                            Err(err) => Err(err),
                                        },
                                        Err(err) => Err(err),
                                    },
                                    Err(err) => Err(err),
                                },
                                Err(err) => Err(err),
                            }
                        },
                        Err(err) => Err(err),
                    }
                },
                Err(err) => Err(err),
            }
        },
        Err(err) => Err(err),
    }
}

pub open spec fn local_views(v: Seq<Local>) -> Seq<LocalView> {
    v.map_values(|l: Local| l@)
}

pub open spec fn opt_local_view(o: Option<Local>) -> Option<LocalView> {
    match o {
        Some(l) => Some(l@),
        None => None,
    }
}

/// Skips one constant-table entry at `pos`.
pub fn read_constant(b: &Vec<u8>, pos: usize) -> (r: Result<usize, FormatError>)
    requires
        pos <= b@.len(),
    ensures
        spec_constant(b@, pos as int) == as_position(r),
        r.is_ok() ==> r.unwrap() <= b@.len(),
{
    let (tag, p) = read_u8(b, pos)?;
    if tag == 0 {
        Ok(p)
    } else if tag == 1 {
        skip(b, p, 1)
    } else if tag == 2 {
        skip(b, p, 8)
    } else if tag == 3 || tag == 6 {
        let (_, q) = read_varint(b, p)?;
        Ok(q)
    } else if tag == 4 {
        skip(b, p, 4)
    } else if tag == 5 {
        let (n, q) = read_varint(b, p)?;
        skip_varints(b, q, n)
    } else if tag == 7 {
        skip(b, p, 16)
    } else {
        Err(FormatError::InvalidConstant(pos))
    }
}

/// Skips `count` constant-table entries from `pos`.
pub fn read_constants(b: &Vec<u8>, pos: usize, count: usize) -> (r: Result<usize, FormatError>)
    requires
        pos <= b@.len(),
    ensures
        spec_constants(b@, pos as int, count as nat) == as_position(r),
        r.is_ok() ==> r.unwrap() <= b@.len(),
{
    let mut p = pos;
    let mut i: usize = 0;
    while i < count
        invariant
            i <= count,
            p <= b@.len(),
            spec_constants(b@, pos as int, count as nat) == spec_constants(b@, p as int, (count - i) as nat),
        decreases count - i,
    {
        let q = read_constant(b, p)?;
        p = q;
        i = i + 1;
    }
    Ok(p)
}

/// Reads the line-info block at `pos` of a function with `n_ins` instructions.
pub fn read_line_info(b: &Vec<u8>, pos: usize, n_ins: usize) -> (r: Result<(usize, usize), FormatError>)
    requires
        pos <= b@.len(),
    ensures
        spec_line_info(b@, pos as int, n_ins) == as_parsed(r),
        r.is_ok() ==> r.unwrap().1 <= b@.len(),
        r.is_ok() ==> r.unwrap().0 <= 0xffff_ffff,
{
    let (has, p) = read_u8(b, pos)?;
    if has == 0 {
        return Ok((0, p));
    }
    let (log2, p2) = read_u8(b, p)?;
    let p3 = skip(b, p2, n_ins)?;
    let k: usize = if n_ins == 0 {
        0
    } else if log2 >= 64 {
        1
    } else {
        let m = (n_ins - 1) as u64;
        let g = log2 as u64;
        proof {
            assert(m >> g <= m) by (bit_vector);
        }
        ((m >> g) + 1) as usize
    };
    if k > (b.len() - p3) / 4 {
        return Err(FormatError::Truncated(p3));
    }
    let p4 = p3 + 4 * k;
    let start: usize = if k > 0 {
        let q = p3 + 4 * (k - 1);
        let v = b[q] as u32 + 256 * (b[q + 1] as u32) + 65536 * (b[q + 2] as u32) + 16777216 * (b[q + 3] as u32);
        v as usize
    } else {
        0
    };
    Ok((start, p4))
}

/// The name that symbol `idx` (1-based) gives a local or upvalue.
fn symbol_name_of(syms: &Vec<Vec<u8>>, idx: usize) -> (r: Vec<u8>)
    requires
        1 <= idx <= syms@.len(),
    ensures
        r@ == symbol_name(seq_views(syms@), idx as nat),
{
    if is_valid_utf8(syms[idx - 1].as_slice()) {
        copy_bytes(&syms[idx - 1])
    } else {
        let r = vec![78u8, 79, 84, 95, 70, 79, 85, 78, 68];
        assert(r@ =~= not_found_name());
        r
    }
}

/// Reads one local entry at `pos`.
pub fn read_local(b: &Vec<u8>, pos: usize, syms: &Vec<Vec<u8>>) -> (r: Result<(Option<Local>, usize), FormatError>)
    requires
        pos <= b@.len(),
    ensures
        spec_local(b@, pos as int, seq_views(syms@)) == match r {
            Ok((v, p)) => Ok((opt_local_view(v), p as int)),
            Err(err) => Err(err),
        },
        r.is_ok() ==> r.unwrap().1 <= b@.len(),
{
    let (idx, p1) = read_varint(b, pos)?;
    if idx > syms.len() {
        return Err(FormatError::SymbolOutOfRange(pos));
    }
    let (ss, p2) = read_varint(b, p1)?;
    let (se, p3) = read_varint(b, p2)?;
    let (reg, p4) = read_u8(b, p3)?;
    if idx == 0 {
        Ok((None, p4))
    } else {
        let name = symbol_name_of(syms, idx);
        Ok((Some(Local { name, scope_start: ss, scope_end: se, register: reg }), p4))
    }
}

/// Reads `count` local entries from `pos`, keeping the named ones.
pub fn read_locals(b: &Vec<u8>, pos: usize, count: usize, syms: &Vec<Vec<u8>>) -> (r: Result<(Vec<Local>, usize), FormatError>)
    requires
        pos <= b@.len(),
    ensures
        spec_locals(b@, pos as int, count as nat, seq_views(syms@)) == match r {
            Ok((v, p)) => Ok((local_views(v@), p as int)),
            Err(err) => Err(err),
        },
        r.is_ok() ==> r.unwrap().1 <= b@.len(),
{
    let ghost sv = seq_views(syms@);
    let mut locals: Vec<Local> = Vec::new();
    let mut p = pos;
    let mut i: usize = 0;
    while i < count
        invariant
            i <= count,
            p <= b@.len(),
            sv == seq_views(syms@),
            spec_locals(b@, pos as int, count as nat, sv) == match spec_locals(b@, p as int, (count - i) as nat, sv) {
                Ok((rest, e)) => Ok((local_views(locals@) + rest, e)),
                Err(err) => Err(err),
            },
        decreases count - i,
    {
        let (ol, q) = match read_local(b, p, syms) {
            Ok(x) => x,
            Err(e) => {
                assert(spec_locals(b@, p as int, (count - i) as nat, sv) == Err::<(Seq<LocalView>, int), FormatError>(e));
                return Err(e);
            },
        };
        let ghost before = locals@;
        let ghost olv = opt_local_view(ol);
        match ol {
            Some(l) => {
                locals.push(l);
            },
            None => {},
        }
        proof {
            match spec_locals(b@, q as int, (count - i - 1) as nat, sv) {
                Ok((rest, e)) => {
                    match olv {
                        Some(lv) => {
                            assert(local_views(before) + (seq![lv] + rest) =~= local_views(locals@) + rest);
                        },
                        None => {
                            assert(locals@ == before);
                        },
                    }
                },
                Err(_) => {},
            }
        }
        p = q;
        i = i + 1;
    }
    assert(local_views(locals@) + seq![] =~= local_views(locals@));
    Ok((locals, p))
}

/// Reads `count` upvalue entries from `pos`, keeping the named ones.
pub fn read_upvalues(b: &Vec<u8>, pos: usize, count: usize, syms: &Vec<Vec<u8>>) -> (r: Result<(Vec<Vec<u8>>, usize), FormatError>)
    requires
        pos <= b@.len(),
    ensures
        spec_upvalues(b@, pos as int, count as nat, seq_views(syms@)) == match r {
            Ok((v, p)) => Ok((seq_views(v@), p as int)),
            Err(err) => Err(err),
        },
        r.is_ok() ==> r.unwrap().1 <= b@.len(),
{
    let ghost sv = seq_views(syms@);
    let mut ups: Vec<Vec<u8>> = Vec::new();
    let mut p = pos;
    let mut i: usize = 0;
    while i < count
        invariant
            i <= count,
            p <= b@.len(),
            sv == seq_views(syms@),
            spec_upvalues(b@, pos as int, count as nat, sv) == match spec_upvalues(b@, p as int, (count - i) as nat, sv) {
                Ok((rest, e)) => Ok((seq_views(ups@) + rest, e)),
                Err(err) => Err(err),
            },
        decreases count - i,
    {
        let (idx, q) = match read_varint(b, p) {
            Ok(x) => x,
            Err(e) => {
                assert(spec_upvalues(b@, p as int, (count - i) as nat, sv) == Err::<(Seq<Seq<u8>>, int), FormatError>(e));
                return Err(e);
            },
        };
        if idx > syms.len() {
            return Err(FormatError::SymbolOutOfRange(p));
        }
        let ghost before = ups@;
        if idx > 0 {
            let name = symbol_name_of(syms, idx);
            ups.push(name);
        }
        proof {
            match spec_upvalues(b@, q as int, (count - i - 1) as nat, sv) {
                Ok((rest, e)) => {
                    if idx > 0 {
                        assert(seq_views(before) + (seq![symbol_name(sv, idx as nat)] + rest) =~= seq_views(ups@) + rest);
                    }
                },
                Err(_) => {},
            }
        }
        p = q;
        i = i + 1;
    }
    assert(seq_views(ups@) + seq![] =~= seq_views(ups@));
    Ok((ups, p))
}

/// Reads the debug-info block at `pos`.
pub fn read_debug_info(b: &Vec<u8>, pos: usize, syms: &Vec<Vec<u8>>) -> (r: Result<(Vec<Local>, Vec<Vec<u8>>, usize), FormatError>)
    requires
        pos <= b@.len(),
    ensures
        spec_debug_info(b@, pos as int, seq_views(syms@)) == match r {
            Ok((ls, us, p)) => Ok(((local_views(ls@), seq_views(us@)), p as int)),
            Err(err) => Err(err),
        },
        r.is_ok() ==> r.unwrap().2 <= b@.len(),
{
    let (flag, p) = read_u8(b, pos)?;
    if flag == 0 {
        let ls: Vec<Local> = Vec::new();
        let us: Vec<Vec<u8>> = Vec::new();
        assert(local_views(ls@) =~= seq![]);
        assert(seq_views(us@) =~= seq![]);
        return Ok((ls, us, p));
    }
    let (nl, p1) = read_varint(b, p)?;
    let (ls, p2) = read_locals(b, p1, nl, syms)?;
    let (nu, p3) = read_varint(b, p2)?;
    let (us, p4) = read_upvalues(b, p3, nu, syms)?;
    Ok((ls, us, p4))
}


/// Reads a function record up to its line-defined field; yields the
/// instruction count.
pub fn read_proto_body(b: &Vec<u8>, pos: usize, version: u8) -> (r: Result<(usize, usize), FormatError>)
    requires
        pos <= b@.len(),
    ensures
        spec_proto_body(b@, pos as int, version) == as_parsed(r),
        r.is_ok() ==> r.unwrap().1 <= b@.len(),
{
    let p1 = skip(b, pos, 4)?;
    let p2 = if version >= 4 {
        let (_, p) = read_u8(b, p1)?;
        let (n, q) = read_varint(b, p)?;
        skip(b, q, n)?
    } else {
        p1
    };
    let (n_ins, p3) = read_varint(b, p2)?;
    if n_ins > (b.len() - p3) / 4 {
        return Err(FormatError::Truncated(p3));
    }
    let p4 = p3 + 4 * n_ins;
    let (nc, p5) = read_varint(b, p4)?;
    let p6 = read_constants(b, p5, nc)?;
    let (nf, p7) = read_varint(b, p6)?;
    let p8 = skip_varints(b, p7, nf)?;
    Ok((n_ins, p8))
}

impl Prototype {
    /// Reads one function record at `pos`.
    pub fn parse_bytecode(b: &Vec<u8>, pos: usize, version: u8, syms: &Vec<Vec<u8>>) -> (r: Result<(Prototype, usize), FormatError>)
        requires
            pos <= b@.len(),
        ensures
            spec_proto(b@, pos as int, version, seq_views(syms@)) == match r {
                Ok((v, p)) => Ok((v@, p as int)),
                Err(err) => Err(err),
            },
            r.is_ok() ==> r.unwrap().1 <= b@.len(),
    {
        let (n_ins, p8) = read_proto_body(b, pos, version)?;
        let (_, p9) = read_varint(b, p8)?;
        let (idx, p10) = read_varint(b, p9)?;
        if idx > syms.len() {
            return Err(FormatError::SymbolOutOfRange(p9));
        }
        let name: Option<Vec<u8>> = if idx == 0 {
            None
        } else if is_valid_utf8(syms[idx - 1].as_slice()) {
            Some(copy_bytes(&syms[idx - 1]))
        } else {
            None
        };
        let (start, p11) = read_line_info(b, p10, n_ins)?;
        let (locals, upvalues, p12) = read_debug_info(b, p11, syms)?;
        let file_scope = match name {
            Some(_) => Some((start, if start < usize::MAX { start + 1 } else { start })),
            None => None,
        };
        let proto = Prototype { name, locals, upvalues, file_scope };
        assert(proto@.locals == local_views(locals@));
        Ok((proto, p12))
    }
}

/// Reads `count` function records from `pos`.
pub fn read_protos(b: &Vec<u8>, pos: usize, count: usize, version: u8, syms: &Vec<Vec<u8>>) -> (r: Result<(Vec<Prototype>, usize), FormatError>)
    requires
        pos <= b@.len(),
    ensures
        spec_protos(b@, pos as int, count as nat, version, seq_views(syms@)) == match r {
            Ok((v, p)) => Ok((protos_view(v@), p as int)),
            Err(err) => Err(err),
        },
        r.is_ok() ==> r.unwrap().1 <= b@.len(),
{
    let ghost sv = seq_views(syms@);
    let mut protos: Vec<Prototype> = Vec::new();
    let mut p = pos;
    let mut i: usize = 0;
    while i < count
        invariant
            i <= count,
            p <= b@.len(),
            sv == seq_views(syms@),
            spec_protos(b@, pos as int, count as nat, version, sv) == match spec_protos(b@, p as int, (count - i) as nat, version, sv) {
                Ok((rest, e)) => Ok((protos_view(protos@) + rest, e)),
                Err(err) => Err(err),
            },
        decreases count - i,
    {
        let (proto, q) = match Prototype::parse_bytecode(b, p, version, syms) {
            Ok(x) => x,
            Err(e) => {
                assert(spec_protos(b@, p as int, (count - i) as nat, version, sv) == Err::<(Seq<ProtoView>, int), FormatError>(e));
                return Err(e);
            },
        };
        let ghost before = protos@;
        let ghost pv = proto@;
        protos.push(proto);
        proof {
            match spec_protos(b@, q as int, (count - i - 1) as nat, version, sv) {
                Ok((rest, e)) => {
                    assert(protos_view(before) + (seq![pv] + rest) =~= protos_view(protos@) + rest);
                },
                Err(_) => {},
            }
        }
        p = q;
        i = i + 1;
    }
    assert(protos_view(protos@) + seq![] =~= protos_view(protos@));
    Ok((protos, p))
}

/// Skips the type-annotation block at `pos`.
pub fn read_type_block(b: &Vec<u8>, pos: usize) -> (r: Result<usize, FormatError>)
    requires
        pos <= b@.len(),
    ensures
        spec_type_block(b@, pos as int) == as_position(r),
        r.is_ok() ==> r.unwrap() <= b@.len(),
{
    let mut p = pos;
    loop
        invariant
            pos <= p <= b@.len(),
            spec_type_block(b@, pos as int) == spec_type_block(b@, p as int),
        decreases b@.len() - p,
    {
        if p >= b.len() {
            return Err(FormatError::Truncated(p));
        }
        if b[p] == 0 {
            return Ok(p + 1);
        }
        let (_, q) = read_varint(b, p)?;
        p = q;
    }
}

/// Symbol-table entries as text; an entry that is not UTF-8 is replaced by
/// a marker.
pub fn u8_vec_to_string_vec(input: &Vec<Vec<u8>>) -> (r: Vec<Vec<u8>>)
    ensures
        seq_views(r@) == decoded_symbols(seq_views(input@)),
{
    let mut out: Vec<Vec<u8>> = Vec::new();
    let mut i: usize = 0;
    while i < input.len()
        invariant
            i <= input@.len(),
            seq_views(out@) == decoded_symbols(seq_views(input@)).subrange(0, i as int),
        decreases input@.len() - i,
    {
        let valid = is_valid_utf8(input[i].as_slice());
        let entry = if valid {
            copy_bytes(&input[i])
        } else {
            let v = vec![73u8, 78, 86, 65, 76, 73, 68, 95, 85, 84, 70, 56];
            assert(v@ =~= invalid_utf8_name());
            v
        };
        assert(seq_views(input@)[i as int] == input@[i as int]@);
        assert(entry@ == decoded_symbols(seq_views(input@))[i as int]);
        let ghost before = out@;
        let ghost ev = entry@;
        out.push(entry);
        i = i + 1;
        assert(seq_views(out@) =~= seq_views(before).push(ev));
        assert(decoded_symbols(seq_views(input@)).subrange(0, i as int) =~= decoded_symbols(
            seq_views(input@),
        ).subrange(0, i - 1).push(ev));
    }
    assert(decoded_symbols(seq_views(input@)).subrange(0, i as int) =~= decoded_symbols(seq_views(input@)));
    out
}

/// Decodes a de-obfuscated bytecode container into the index of its main
/// function, its functions in order, and its symbol table as text; on
/// malformed input, the error met first and the offset where it was met.
pub fn parse_bytecode_info(bytecode_buffer: &Vec<u8>) -> (r: Result<(usize, Vec<Prototype>, Vec<Vec<u8>>), FormatError>)
    ensures
        spec_bytecode(bytecode_buffer@) == match r {
            Ok((main, protos, symbols)) => Ok((main as nat, protos_view(protos@), seq_views(symbols@))),
            Err(err) => Err(err),
        },
        bytecode_buffer@.len() > 0 && !supported_version(bytecode_buffer@[0]) ==> r == Err::<
            (usize, Vec<Prototype>, Vec<Vec<u8>>),
            FormatError,
        >(FormatError::UnsupportedVersion(bytecode_buffer@[0])),
{
    let b = bytecode_buffer;
    let (version, p1) = read_u8(b, 0)?;
    if !(version == 3 || version == 4 || version == 6) {
        return Err(FormatError::UnsupportedVersion(version));
    }
    let (types, p2) = if version >= 4 {
        read_u8(b, p1)?
    } else {
        (0u8, p1)
    };
    if types > 3 {
        return Err(FormatError::UnsupportedTypesVersion(types));
    }
    let (syms, p3) = read_symbol_table(b, p2)?;
    let p4 = if types == 3 {
        read_type_block(b, p3)?
    } else {
        p3
    };
    let (np, p5) = read_varint(b, p4)?;
    let (protos, p6) = read_protos(b, p5, np, version, &syms)?;
    let (main, _) = read_varint(b, p6)?;
    let symbols = u8_vec_to_string_vec(&syms);
    Ok((main, protos, symbols))
}

} // verus!
