use vstd::prelude::*;

verus! {

/// A key table for the additive byte shift: byte `i` (from `offset` on) is
/// shifted by `bytes[i & mask]` and by `i` itself, modulo 256.
pub struct ByteshiftTable {
    pub bytes: Vec<u8>,
    pub offset: usize,
    pub mask: usize,
}

impl ByteshiftTable {
    /// Every index that the mask can produce falls inside the table.
    pub open spec fn wf(&self) -> bool {
        self.mask < self.bytes@.len()
    }
}

/// The key index used at index `i`.
pub open spec fn masked(i: int, mask: usize) -> int {
    (i as usize & mask) as int
}

/// Every key index used from `offset` up to `n` falls inside a table of
/// length `len`.
pub open spec fn masks_in_table(n: int, offset: usize, mask: usize, len: int) -> bool {
    forall|i: int| offset <= i < n ==> #[trigger] masked(i, mask) < len
}

/// The key byte used at index `i`.
pub open spec fn key_at(table: Seq<u8>, mask: usize, i: int) -> int {
    table[masked(i, mask)] as int
}

/// The byte at index `i` after the forward shift.
pub open spec fn shifted_byte(b: u8, table: Seq<u8>, mask: usize, i: int) -> u8 {
    ((b as int + key_at(table, mask, i) + i) % 256) as u8
}

/// The byte at index `i` after the backward shift.
pub open spec fn unshifted_byte(b: u8, table: Seq<u8>, mask: usize, i: int) -> u8 {
    ((b as int - key_at(table, mask, i) - i) % 256) as u8
}

/// The forward shift of `b`: bytes before `offset` are kept.
pub open spec fn apply(b: Seq<u8>, table: Seq<u8>, offset: usize, mask: usize) -> Seq<u8> {
    Seq::new(
        b.len(),
        |i: int| if i < offset { b[i] } else { shifted_byte(b[i], table, mask, i) },
    )
}

/// The backward shift of `b`: bytes before `offset` are kept.
pub open spec fn undo(b: Seq<u8>, table: Seq<u8>, offset: usize, mask: usize) -> Seq<u8> {
    Seq::new(
        b.len(),
        |i: int| if i < offset { b[i] } else { unshifted_byte(b[i], table, mask, i) },
    )
}

proof fn lemma_byte_round_trip(b: u8, k: int, i: int)
    requires
        0 <= k < 256,
        0 <= i,
    ensures
        ((((b as int + k + i) % 256) as u8) as int - k - i) % 256 == b as int,
        ((((b as int - k - i) % 256) as u8) as int + k + i) % 256 == b as int,
{
    assert(((((b as int + k + i) % 256) as u8) as int - k - i) % 256 == b as int) by (nonlinear_arith)
        requires 0 <= k < 256, 0 <= i, 0 <= b < 256;
    assert(((((b as int - k - i) % 256) as u8) as int + k + i) % 256 == b as int) by (nonlinear_arith)
        requires 0 <= k < 256, 0 <= i, 0 <= b < 256;
}

/// Undoing the forward shift with the same table, offset and mask gives the
/// original bytes back, and so does the reverse order.
pub proof fn lemma_undo_apply(b: Seq<u8>, table: Seq<u8>, offset: usize, mask: usize)
    requires
        masks_in_table(b.len() as int, offset, mask, table.len() as int),
    ensures
        undo(apply(b, table, offset, mask), table, offset, mask) == b,
        apply(undo(b, table, offset, mask), table, offset, mask) == b,
{
    assert forall|i: int| 0 <= i < b.len() && i >= offset implies
        #[trigger] unshifted_byte(shifted_byte(b[i], table, mask, i), table, mask, i) == b[i]
        && shifted_byte(unshifted_byte(b[i], table, mask, i), table, mask, i) == b[i] by {
        let k = key_at(table, mask, i);
        lemma_byte_round_trip(b[i], k, i);
    }
    assert(undo(apply(b, table, offset, mask), table, offset, mask) =~= b);
    assert(apply(undo(b, table, offset, mask), table, offset, mask) =~= b);
}

proof fn lemma_mask_in_range(i: usize, mask: usize)
    ensures
        i & mask <= mask,
{
    assert(i & mask <= mask) by (bit_vector);
}

/// A mask below the table's length keeps every key index inside it.
pub proof fn lemma_mask_below_len(n: int, offset: usize, mask: usize, len: int)
    requires
        mask < len,
    ensures
        masks_in_table(n, offset, mask, len),
{
    assert forall|i: int| offset <= i < n implies #[trigger] masked(i, mask) < len by {
        lemma_mask_in_range(i as usize, mask);
    }
}

/// Shifts every byte from `offset` on forward by the key table.
pub fn shift_bytes(buffer: &mut Vec<u8>, table: &Vec<u8>, offset: usize, mask: usize)
    requires
        masks_in_table(old(buffer)@.len() as int, offset, mask, table@.len() as int),
    ensures
        final(buffer)@ == apply(old(buffer)@, table@, offset, mask),
{
    let ghost start = buffer@;
    let n = buffer.len();
    let mut i: usize = offset;
    if i >= n {
        assert(buffer@ =~= apply(start, table@, offset, mask));
        return;
    }
    while i < n
        invariant
            offset <= i <= n,
            n == buffer@.len(),
            masks_in_table(n as int, offset, mask, table@.len() as int),
            start.len() == n,
            forall|j: int| 0 <= j < n ==> #[trigger] buffer@[j] == if j < i {
                apply(start, table@, offset, mask)[j]
            } else {
                start[j]
            },
        decreases n - i,
    {
        assert(masked(i as int, mask) < table@.len());
        let value = buffer[i];
        let key = table[i & mask];
        let w = value.wrapping_add(key);
        let v = w.wrapping_add((i % 256) as u8);
        proof {
            let a = value as int + key as int;
            let c = i as int;
            assert(w as int == a % 256);
            assert(((i % 256) as u8) as int == c % 256);
            assert(v as int == (w as int + ((i % 256) as u8) as int) % 256);
            assert((a % 256 + c % 256) % 256 == (a + c) % 256) by (nonlinear_arith);
        }
        buffer.set(i, v);
        i = i + 1;
    }
    assert(buffer@ =~= apply(start, table@, offset, mask));
}

/// Shifts every byte from `offset` on backward by the key table: the exact
/// inverse of `shift_bytes` with the same arguments.
pub fn shift_bytes_reversed(buffer: &mut Vec<u8>, table: &Vec<u8>, offset: usize, mask: usize)
    requires
        masks_in_table(old(buffer)@.len() as int, offset, mask, table@.len() as int),
    ensures
        final(buffer)@ == undo(old(buffer)@, table@, offset, mask),
{
    let ghost start = buffer@;
    let n = buffer.len();
    let mut i: usize = offset;
    if i >= n {
        assert(buffer@ =~= undo(start, table@, offset, mask));
        return;
    }
    while i < n
        invariant
            offset <= i <= n,
            n == buffer@.len(),
            masks_in_table(n as int, offset, mask, table@.len() as int),
            start.len() == n,
            forall|j: int| 0 <= j < n ==> #[trigger] buffer@[j] == if j < i {
                undo(start, table@, offset, mask)[j]
            } else {
                start[j]
            },
        decreases n - i,
    {
        assert(masked(i as int, mask) < table@.len());
        let value = buffer[i];
        let key = table[i & mask];
        let w = value.wrapping_sub(key);
        let v = w.wrapping_sub((i % 256) as u8);
        proof {
            let a = value as int - key as int;
            let c = i as int;
            assert(w as int == a % 256);
            assert(((i % 256) as u8) as int == c % 256);
            assert(v as int == (w as int - ((i % 256) as u8) as int) % 256);
            assert((a % 256 - c % 256) % 256 == (a - c) % 256) by (nonlinear_arith);
        }
        buffer.set(i, v);
        i = i + 1;
    }
    assert(buffer@ =~= undo(start, table@, offset, mask));
}

} // verus!

verus! {

/// Key bytes of the table for base-game scripts.
pub open spec fn base_script_key() -> Seq<u8> {
    seq![0x02u8, 0x13, 0x0A, 0x08, 0x01, 0x07, 0x02, 0x02]
}

/// Key bytes of the table for downloadable-content scripts.
pub open spec fn dlc_script_key() -> Seq<u8> {
    seq![0x14u8, 0x05, 0x0F, 0x0B, 0x01, 0x08, 0x02, 0x03, 0x03, 0x08, 0x04, 0x03, 0x01, 0x04, 0x07, 0x08]
}

/// Key bytes of the table for the older format, version 3.
pub open spec fn legacy_v3_key() -> Seq<u8> {
    seq![0x14u8, 0x0B, 0x09, 0x02, 0x08, 0x03, 0x03, 0x03]
}

/// Key bytes of the table for the older format, version 4.
pub open spec fn legacy_v4_key() -> Seq<u8> {
    seq![0x06u8, 0x10, 0x0C, 0x02, 0x09, 0x03, 0x04, 0x04, 0x09, 0x05, 0x04, 0x02, 0x05, 0x08, 0x09, 0x15]
}

/// The catalog of the structural format, keyed by version and variant:
/// `(key bytes, offset, mask)`, or none for an unknown key.
pub open spec fn spec_luau_table(version: u8, is_dlc: bool) -> Option<(Seq<u8>, usize, usize)> {
    if version == 3 || version == 6 {
        if is_dlc {
            Some((dlc_script_key(), 0usize, 0x0fusize))
        } else {
            Some((base_script_key(), 0usize, 0x07usize))
        }
    } else {
        None
    }
}

/// The catalog of the older format, keyed by version alone.
pub open spec fn spec_luajit_table(version: u8) -> Option<(Seq<u8>, usize, usize)> {
    if version == 3 {
        Some((legacy_v3_key(), 4usize, 0x07usize))
    } else if version == 4 {
        Some((legacy_v4_key(), 4usize, 0x0fusize))
    } else {
        None
    }
}

impl ByteshiftTable {
    pub open spec fn spec_parts(&self) -> (Seq<u8>, usize, usize) {
        (self.bytes@, self.offset, self.mask)
    }
}

/// Looks up the table of the structural format for a version and variant.
pub fn luau_decode_table(version: u8, is_dlc: bool) -> (r: Option<ByteshiftTable>)
    ensures
        r.is_some() == spec_luau_table(version, is_dlc).is_some(),
        r.is_some() ==> r.unwrap().wf() && r.unwrap().spec_parts() == spec_luau_table(version, is_dlc).unwrap(),
{
    if version == 3 || version == 6 {
        if is_dlc {
            let bytes = vec![0x14u8, 0x05, 0x0F, 0x0B, 0x01, 0x08, 0x02, 0x03, 0x03, 0x08, 0x04, 0x03, 0x01, 0x04, 0x07, 0x08];
            assert(bytes@ =~= dlc_script_key());
            Some(ByteshiftTable { bytes, offset: 0, mask: 0x0f })
        } else {
            let bytes = vec![0x02u8, 0x13, 0x0A, 0x08, 0x01, 0x07, 0x02, 0x02];
            assert(bytes@ =~= base_script_key());
            Some(ByteshiftTable { bytes, offset: 0, mask: 0x07 })
        }
    } else {
        None
    }
}

/// Looks up the table of the older format for a version.
pub fn luajit_decode_table(version: u8) -> (r: Option<ByteshiftTable>)
    ensures
        r.is_some() == spec_luajit_table(version).is_some(),
        r.is_some() ==> r.unwrap().wf() && r.unwrap().spec_parts() == spec_luajit_table(version).unwrap(),
{
    if version == 3 {
        let bytes = vec![0x14u8, 0x0B, 0x09, 0x02, 0x08, 0x03, 0x03, 0x03];
        assert(bytes@ =~= legacy_v3_key());
        Some(ByteshiftTable { bytes, offset: 4, mask: 0x07 })
    } else if version == 4 {
        let bytes = vec![0x06u8, 0x10, 0x0C, 0x02, 0x09, 0x03, 0x04, 0x04, 0x09, 0x05, 0x04, 0x02, 0x05, 0x08, 0x09, 0x15];
        assert(bytes@ =~= legacy_v4_key());
        Some(ByteshiftTable { bytes, offset: 4, mask: 0x0f })
    } else {
        None
    }
}

} // verus!
