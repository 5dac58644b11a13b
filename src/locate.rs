use vstd::prelude::*;
use vstd::utf8::valid_utf8;

use crate::bytes::{bytes_at, occurs_at};
use crate::utf8::is_valid_utf8;

verus! {

/// ASCII whitespace: tab, line feed, vertical tab, form feed, carriage
/// return and space.
pub open spec fn is_space(c: u8) -> bool {
    (0x09 <= c && c <= 0x0D) || c == 0x20
}

/// A byte that may stand in the qualified prefix of a function name: ASCII
/// letters, digits, `_` and `.`.
pub open spec fn is_prefix_byte(c: u8) -> bool {
    (0x41 <= c && c <= 0x5A) || (0x61 <= c && c <= 0x7A) || (0x30 <= c && c <= 0x39) || c == 0x5F
        || c == 0x2E
}

/// The keyword that opens a function definition, with its space.
pub open spec fn function_keyword() -> Seq<u8> {
    seq![102u8, 117, 110, 99, 116, 105, 111, 110, 32]
}

pub open spec fn all_space(t: Seq<u8>, a: int, b: int) -> bool {
    forall|k: int| a <= k < b ==> is_space(#[trigger] t[k])
}

pub open spec fn all_prefix(t: Seq<u8>, a: int, b: int) -> bool {
    forall|k: int| a <= k < b ==> is_prefix_byte(#[trigger] t[k])
}

/// `name(` stands at `b`.
pub open spec fn name_call_at(t: Seq<u8>, name: Seq<u8>, b: int) -> bool {
    occurs_at(t, name, b) && b + name.len() < t.len() && t[b + name.len()] == 0x28
}

/// A definition site of `name` starts at `p`: `function `, whitespace,
/// an optional qualified prefix, the name, then `(`.
pub open spec fn site_at(t: Seq<u8>, name: Seq<u8>, p: int) -> bool {
    occurs_at(t, function_keyword(), p) && exists|a: int, b: int|
        p + 9 <= a <= b && all_space(t, p + 9, a) && all_prefix(t, a, b) && #[trigger] name_call_at(
            t,
            name,
            b,
        ) && #[trigger] all_space(t, p + 9, a)
}

/// The first site of `name` at or after `p`.
pub open spec fn first_site(t: Seq<u8>, name: Seq<u8>, p: int) -> Option<int>
    decreases t.len() - p,
{
    if p < 0 || p >= t.len() {
        None
    } else if site_at(t, name, p) {
        Some(p)
    } else {
        first_site(t, name, p + 1)
    }
}

/// Where the definition of `name` begins, searching from `offset`; none when
/// the text is not UTF-8.
pub open spec fn spec_locate(t: Seq<u8>, name: Seq<u8>, offset: int) -> Option<int> {
    if !valid_utf8(t) {
        None
    } else {
        first_site(t, name, offset)
    }
}

fn is_space_byte(c: u8) -> (r: bool)
    ensures
        r == is_space(c),
{
    (0x09 <= c && c <= 0x0D) || c == 0x20
}

fn is_prefix(c: u8) -> (r: bool)
    ensures
        r == is_prefix_byte(c),
{
    (0x41 <= c && c <= 0x5A) || (0x61 <= c && c <= 0x7A) || (0x30 <= c && c <= 0x39) || c == 0x5F
        || c == 0x2E
}

fn name_call(t: &Vec<u8>, name: &Vec<u8>, b: usize) -> (r: bool)
    ensures
        r == name_call_at(t@, name@, b as int),
{
    let tl = t.len();
    if !bytes_at(t.as_slice(), name.as_slice(), b) {
        return false;
    }
    let e = b + name.len();
    e < t.len() && t[e] == 0x28
}

/// Whether a definition site of `name` starts at `p`.
pub fn is_site(t: &Vec<u8>, name: &Vec<u8>, p: usize) -> (r: bool)
    ensures
        r == site_at(t@, name@, p as int),
{
    let kw: Vec<u8> = vec![102u8, 117, 110, 99, 116, 105, 111, 110, 32];
    assert(kw@ =~= function_keyword());
    if !bytes_at(t.as_slice(), kw.as_slice(), p) {
        return false;
    }
    let n = t.len();
    let mut a = p + 9;
    loop
        invariant
            p + 9 <= a <= n,
            n == t@.len(),
            occurs_at(t@, function_keyword(), p as int),
            all_space(t@, p + 9, a as int),
            forall|a2: int, b2: int|
                p + 9 <= a2 < a && a2 <= b2 && #[trigger] all_space(t@, p + 9, a2) && all_prefix(t@, a2, b2)
                    ==> !#[trigger] name_call_at(t@, name@, b2),
        decreases n - a,
    {
        let mut b = a;
        loop
            invariant
                p + 9 <= a <= b <= n,
                n == t@.len(),
                occurs_at(t@, function_keyword(), p as int),
                all_space(t@, p + 9, a as int),
                all_prefix(t@, a as int, b as int),
                forall|b2: int| a <= b2 < b ==> !#[trigger] name_call_at(t@, name@, b2),
            ensures
                a <= b <= n,
                all_prefix(t@, a as int, b as int),
                forall|b2: int| a <= b2 <= b ==> !#[trigger] name_call_at(t@, name@, b2),
                b == n || !is_prefix_byte(t@[b as int]),
            decreases n - b,
        {
            if name_call(t, name, b) {
                assert(all_space(t@, p + 9, a as int) && all_prefix(t@, a as int, b as int) && name_call_at(t@, name@, b as int));
                return true;
            }
            if b < n && is_prefix(t[b]) {
                b = b + 1;
            } else {
                break;
            }
        }
        assert forall|b2: int| a <= b2 && all_prefix(t@, a as int, b2) implies !#[trigger] name_call_at(t@, name@, b2) by {
            if b2 > b && b < n {
                assert(is_prefix_byte(t@[b as int]));
            }
        }
        if a < n && is_space_byte(t[a]) {
            a = a + 1;
        } else {
            assert forall|a2: int, b2: int|
                p + 9 <= a2 <= b2 && #[trigger] all_space(t@, p + 9, a2) && all_prefix(t@, a2, b2)
                    implies !#[trigger] name_call_at(t@, name@, b2) by {
                if a2 > a && a < n {
                    assert(is_space(t@[a as int]));
                }
            }
            return false;
        }
    }
}

/// The start of the first definition site of `name` at or after `offset`;
/// none when the text is not UTF-8 or has no such site.
pub fn find_position_of_function(buffer: &Vec<u8>, name: &Vec<u8>, offset: usize) -> (r: Option<usize>)
    ensures
        spec_locate(buffer@, name@, offset as int) == match r {
            Some(p) => Some(p as int),
            None => None::<int>,
        },
        r is Some ==> offset <= r.unwrap() < buffer@.len(),
{
    if !is_valid_utf8(buffer.as_slice()) {
        return None;
    }
    let n = buffer.len();
    let mut p = offset;
    while p < n
        invariant
            offset <= p,
            n == buffer@.len(),
            valid_utf8(buffer@),
            first_site(buffer@, name@, offset as int) == first_site(buffer@, name@, p as int),
        decreases n - p,
    {
        if is_site(buffer, name, p) {
            return Some(p);
        }
        p = p + 1;
    }
    None
}

} // verus!
