use vstd::prelude::*;

use vstd::utf8::valid_utf8;

use crate::bytes::{copy_range, first_occurrence, replaced_from};
use crate::catalog::hex_list;
use crate::shift::{apply, masks_in_table, undo};

verus! {

/// A little-endian unsigned integer of `n` bytes at `pos`.
pub open spec fn le_value(b: Seq<u8>, pos: int, n: nat) -> nat
    decreases n,
{
    if n == 0 {
        0
    } else {
        b[pos] as nat + 256 * le_value(b, pos + 1, (n - 1) as nat)
    }
}

/// Byte-level reads, searches and edits on a buffer.
pub trait BufferExtension {
    /// The bytes of the buffer.
    spec fn bytes(&self) -> Seq<u8>;

    fn to_hex_string(&self) -> (r: Vec<u8>)
        ensures
            r@ == hex_list(self.bytes()),
    ;

    fn read_u8(&self, offset: usize) -> (r: u8)
        requires
            offset < self.bytes().len(),
        ensures
            r == self.bytes()[offset as int],
    ;

    fn read_u16(&self, offset: usize) -> (r: u16)
        requires
            offset + 2 <= self.bytes().len(),
        ensures
            r as nat == le_value(self.bytes(), offset as int, 2),
    ;

    fn read_u32(&self, offset: usize) -> (r: u32)
        requires
            offset + 4 <= self.bytes().len(),
        ensures
            r as nat == le_value(self.bytes(), offset as int, 4),
    ;

    fn read_u64(&self, offset: usize) -> (r: u64)
        requires
            offset + 8 <= self.bytes().len(),
        ensures
            r as nat == le_value(self.bytes(), offset as int, 8),
    ;

    fn find_bytes(&self, bytes: &Vec<u8>) -> (r: Option<usize>)
        requires
            bytes@.len() > 0,
        ensures
            first_occurrence(self.bytes(), bytes@, 0) == match r {
                Some(k) => Some(k as int),
                None => None::<int>,
            },
    ;

    fn find_bytes_from(&self, bytes: &Vec<u8>, offset: usize) -> (r: Option<usize>)
        requires
            bytes@.len() > 0,
        ensures
            first_occurrence(self.bytes(), bytes@, offset as int) == match r {
                Some(k) => Some(offset + k),
                None => None::<int>,
            },
    ;

    fn replace_bytes(&mut self, bytes: &Vec<u8>, offset: usize)
        requires
            offset + bytes@.len() <= old(self).bytes().len(),
        ensures
            final(self).bytes() == old(self).bytes().subrange(0, offset as int) + bytes@ + old(
                self,
            ).bytes().skip(offset + bytes@.len()),
    ;

    fn find_and_replace(&mut self, find: &Vec<u8>, replace: &Vec<u8>, offset: usize)
        requires
            find@.len() > 0,
        ensures
            final(self).bytes() == replaced_from(old(self).bytes(), find@, replace@, offset as int),
    ;

    fn shift_bytes(&mut self, table: &Vec<u8>, offset: usize, mask: usize)
        requires
            masks_in_table(old(self).bytes().len() as int, offset, mask, table@.len() as int),
        ensures
            final(self).bytes() == apply(old(self).bytes(), table@, offset, mask),
    ;

    fn shift_bytes_reversed(&mut self, table: &Vec<u8>, offset: usize, mask: usize)
        requires
            masks_in_table(old(self).bytes().len() as int, offset, mask, table@.len() as int),
        ensures
            final(self).bytes() == undo(old(self).bytes(), table@, offset, mask),
    ;
}

impl BufferExtension for Vec<u8> {
    open spec fn bytes(&self) -> Seq<u8> {
        self@
    }

    fn to_hex_string(&self) -> (r: Vec<u8>) {
        crate::catalog::byte_array_hex_string(self.as_slice())
    }

    fn read_u8(&self, offset: usize) -> (r: u8) {
        self[offset]
    }

    fn read_u16(&self, offset: usize) -> (r: u16) {
        let n = self.len();
        let lo = self[offset] as u16;
        let hi = self[offset + 1] as u16;
        proof {
            reveal_with_fuel(le_value, 3);
            assert(256 * hi <= 65280) by (nonlinear_arith)
                requires hi <= 255;
        }
        lo + 256 * hi
    }

    fn read_u32(&self, offset: usize) -> (r: u32) {
        let mut v: u32 = 0;
        let mut k: usize = 4;
        let n = self.len();
        proof { reveal_with_fuel(pow256, 1); reveal_with_fuel(le_value, 1); }
        while k > 0
            invariant
                n == self@.len(),
                k <= 4,
                offset + 4 <= self@.len(),
                v as nat == le_value(self@, offset + k, (4 - k) as nat),
                v as nat <= pow256(4 - k),
            decreases k,
        {
            k = k - 1;
            proof {
                lemma_le_step(self@, offset + k, (3 - k) as nat, v as nat);
                lemma_pow256_values();
            }
            v = (v * 256) + self[offset + k] as u32;
        }
        v
    }

    fn read_u64(&self, offset: usize) -> (r: u64) {
        let mut v: u64 = 0;
        let mut k: usize = 8;
        let n = self.len();
        proof { reveal_with_fuel(pow256, 1); reveal_with_fuel(le_value, 1); }
        while k > 0
            invariant
                n == self@.len(),
                k <= 8,
                offset + 8 <= self@.len(),
                v as nat == le_value(self@, offset + k, (8 - k) as nat),
                v as nat <= pow256(8 - k),
            decreases k,
        {
            k = k - 1;
            proof {
                lemma_le_step(self@, offset + k, (7 - k) as nat, v as nat);
                lemma_pow256_values();
            }
            v = (v * 256) + self[offset + k] as u64;
        }
        v
    }

    fn find_bytes(&self, bytes: &Vec<u8>) -> (r: Option<usize>) {
        crate::bytes::find_bytes(self, bytes)
    }

    fn find_bytes_from(&self, bytes: &Vec<u8>, offset: usize) -> (r: Option<usize>) {
        crate::bytes::find_bytes_from(self, bytes, offset)
    }

    fn replace_bytes(&mut self, bytes: &Vec<u8>, offset: usize) {
        crate::bytes::replace_bytes(self, bytes, offset)
    }

    fn find_and_replace(&mut self, find: &Vec<u8>, replace: &Vec<u8>, offset: usize) {
        crate::bytes::find_and_replace(self, find, replace, offset)
    }

    fn shift_bytes(&mut self, table: &Vec<u8>, offset: usize, mask: usize) {
        crate::shift::shift_bytes(self, table, offset, mask)
    }

    fn shift_bytes_reversed(&mut self, table: &Vec<u8>, offset: usize, mask: usize) {
        crate::shift::shift_bytes_reversed(self, table, offset, mask)
    }
}

/// `256^k`, less one: the largest value of `k` bytes.
pub open spec fn pow256(k: int) -> nat
    decreases k,
{
    if k <= 0 {
        0
    } else {
        (256 * (pow256(k - 1) + 1) - 1) as nat
    }
}

proof fn lemma_pow256_values()
    ensures
        pow256(3) == 0xff_ffff,
        pow256(7) == 0xff_ffff_ffff_ffff,
        forall|k: int| k <= 0 ==> pow256(k) == 0,
{
    reveal_with_fuel(pow256, 8);
}

proof fn lemma_le_step(b: Seq<u8>, pos: int, n: nat, v: nat)
    requires
        v == le_value(b, pos + 1, n),
        v <= pow256(n as int),
        0 <= pos < b.len(),
    ensures
        le_value(b, pos, n + 1) == b[pos] as nat + 256 * v,
        b[pos] as nat + 256 * v <= pow256(n + 1 as int),
{
}


/// The zero-terminated text at `offset`: the bytes before the first zero
/// from there, when there is one and they are UTF-8.
pub fn read_cstring(buffer: &Vec<u8>, offset: usize) -> (r: Option<Vec<u8>>)
    requires
        offset <= buffer@.len(),
    ensures
        match first_occurrence(buffer@, seq![0u8], offset as int) {
            Some(z) => if valid_utf8(buffer@.subrange(offset as int, z)) {
                r is Some && r.unwrap()@ == buffer@.subrange(offset as int, z)
            } else {
                r is None
            },
            None => r is None,
        },
{
    let zero: Vec<u8> = vec![0];
    assert(zero@ =~= seq![0u8]);
    let end = match crate::bytes::find_bytes_from(buffer, &zero, offset) {
        Some(k) => k,
        None => {
            return None;
        },
    };
    proof { crate::bytes::lemma_first_occurrence(buffer@, seq![0u8], offset as int); }
    let len = buffer.len();
    assert(offset + end < len);
    let s = copy_range(buffer, offset, offset + end);
    if crate::utf8::is_valid_utf8(s.as_slice()) {
        Some(s)
    } else {
        None
    }
}

} // verus!
