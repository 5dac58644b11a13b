use vstd::prelude::*;

use crate::error::FormatError;
use crate::shift::{
    apply, lemma_mask_below_len, lemma_undo_apply, masks_in_table, luau_decode_table, shift_bytes, shift_bytes_reversed, spec_luau_table, undo,
};

verus! {

/// `(version, is_encoded, is_dlc)` as read from the first two bytes of a
/// bytecode file; version 0 stands for an unknown file.
pub open spec fn spec_version(b0: u8, b1: u8) -> (u8, bool, bool) {
    if b0 == 0x02 && b1 == 0xEF {
        (3, true, false)
    } else if b0 == 0x03 && b1 == 0xFD {
        (3, true, true)
    } else if b0 == 0x02 && b1 == 0xF0 {
        (4, true, false)
    } else if b0 == 0x02 && b1 == 0xF2 {
        (6, true, false)
    } else if b0 == 0x06 && b1 == 0x03 {
        (6, false, true)
    } else if b0 == 0x03 {
        (3, false, false)
    } else if b0 == 0x04 {
        (4, false, false)
    } else {
        (0, false, false)
    }
}

/// Identifies a bytecode file by its first two bytes.
pub fn get_version(buffer: &Vec<u8>) -> (r: (u8, bool, bool))
    requires
        buffer@.len() >= 2,
    ensures
        r == spec_version(buffer@[0], buffer@[1]),
{
    let b0 = buffer[0];
    let b1 = buffer[1];
    if b0 == 0x02 && b1 == 0xEF {
        (3, true, false)
    } else if b0 == 0x03 && b1 == 0xFD {
        (3, true, true)
    } else if b0 == 0x02 && b1 == 0xF0 {
        (4, true, false)
    } else if b0 == 0x02 && b1 == 0xF2 {
        (6, true, false)
    } else if b0 == 0x06 && b1 == 0x03 {
        (6, false, true)
    } else if b0 == 0x03 {
        (3, false, false)
    } else if b0 == 0x04 {
        (4, false, false)
    } else {
        (0, false, false)
    }
}

/// Removes the byte shift of an encoded bytecode file and drops its leading
/// marker byte. Without a table for the key, fails and leaves the buffer.
pub fn decode(buffer: &mut Vec<u8>, version: u8, is_dlc: bool) -> (r: Result<(), FormatError>)
    requires
        spec_luau_table(version, is_dlc) is Some ==> old(buffer)@.len() >= 1,
    ensures
        r.is_ok() == spec_luau_table(version, is_dlc).is_some(),
        r.is_err() ==> r == Err::<(), FormatError>(FormatError::NoByteshiftTable)
            && final(buffer)@ == old(buffer)@,
        r.is_ok() ==> ({
            let (key, offset, mask) = spec_luau_table(version, is_dlc).unwrap();
            final(buffer)@ == apply(old(buffer)@, key, offset, mask).drop_first()
        }),
{
    let table = match luau_decode_table(version, is_dlc) {
        Some(t) => t,
        None => {
            return Err(FormatError::NoByteshiftTable);
        },
    };
    proof { lemma_mask_below_len(buffer@.len() as int, table.offset, table.mask, table.bytes@.len() as int); }
    shift_bytes(buffer, &table.bytes, table.offset, table.mask);
    buffer.remove(0);
    assert(buffer@ =~= apply(old(buffer)@, table.bytes@, table.offset, table.mask).drop_first());
    Ok(())
}


/// Prepares a bytecode file for decompiling: identifies it and, when it is
/// encoded, removes the byte shift. Returns whether the buffer changed.
pub fn prepare_bytecode(buffer: &mut Vec<u8>) -> (r: Result<bool, FormatError>)
    ensures
        old(buffer)@.len() < 2 || spec_version(old(buffer)@[0], old(buffer)@[1]).0 == 0 ==> r == Err::<
            bool,
            FormatError,
        >(FormatError::UnknownFormat) && final(buffer)@ == old(buffer)@,
        old(buffer)@.len() >= 2 && spec_version(old(buffer)@[0], old(buffer)@[1]).0 != 0 ==> ({
            let (version, encoded, dlc) = spec_version(old(buffer)@[0], old(buffer)@[1]);
            if !encoded {
                r == Ok::<bool, FormatError>(false) && final(buffer)@ == old(buffer)@
            } else {
                match spec_luau_table(version, dlc) {
                    Some((key, offset, mask)) => r == Ok::<bool, FormatError>(true) && final(buffer)@
                        == apply(old(buffer)@, key, offset, mask).drop_first(),
                    None => r == Err::<bool, FormatError>(FormatError::NoByteshiftTable)
                        && final(buffer)@ == old(buffer)@,
                }
            }
        }),
{
    if buffer.len() < 2 {
        return Err(FormatError::UnknownFormat);
    }
    let (version, is_encoded, is_dlc) = get_version(buffer);
    if version == 0 {
        return Err(FormatError::UnknownFormat);
    }
    if !is_encoded {
        return Ok(false);
    }
    match decode(buffer, version, is_dlc) {
        Ok(()) => Ok(true),
        Err(e) => Err(e),
    }
}


/// The encoded form of compiled bytecode `b` under a key table: a marker
/// byte is put in front, the whole is shifted backward, and the marker
/// becomes 2.
pub open spec fn spec_encoded(b: Seq<u8>, key: Seq<u8>, offset: usize, mask: usize) -> Seq<u8> {
    undo(seq![0u8] + b, key, offset, mask).update(0, 0x02)
}

/// Encodes freshly compiled bytecode with the base-script table of its
/// version (its first byte); without such a table, fails and leaves it.
pub fn encode(buffer: &mut Vec<u8>) -> (r: Result<(), FormatError>)
    requires
        old(buffer)@.len() >= 1,
    ensures
        r.is_ok() == spec_luau_table(old(buffer)@[0], false).is_some(),
        r.is_err() ==> r == Err::<(), FormatError>(FormatError::NoByteshiftTable)
            && final(buffer)@ == old(buffer)@,
        r.is_ok() ==> ({
            let (key, offset, mask) = spec_luau_table(old(buffer)@[0], false).unwrap();
            final(buffer)@ == spec_encoded(old(buffer)@, key, offset, mask)
        }),
{
    let table = match luau_decode_table(buffer[0], false) {
        Some(t) => t,
        None => {
            return Err(FormatError::NoByteshiftTable);
        },
    };
    buffer.insert(0, 0);
    assert(buffer@ =~= seq![0u8] + old(buffer)@);
    proof { lemma_mask_below_len(buffer@.len() as int, table.offset, table.mask, table.bytes@.len() as int); }
    shift_bytes_reversed(buffer, &table.bytes, table.offset, table.mask);
    buffer.set(0, 0x02);
    Ok(())
}

/// Decoding undoes encoding: the forward shift of an encoded buffer, without
/// its marker byte, is the compiled bytecode again, whatever the key table.
pub proof fn lemma_decode_encoded(b: Seq<u8>, key: Seq<u8>, offset: usize, mask: usize)
    requires
        masks_in_table(b.len() + 1 as int, offset, mask, key.len() as int),
    ensures
        apply(spec_encoded(b, key, offset, mask), key, offset, mask).drop_first() == b,
{
    let c = seq![0u8] + b;
    lemma_undo_apply(c, key, offset, mask);
    let e = spec_encoded(b, key, offset, mask);
    assert(apply(e, key, offset, mask).drop_first() =~= apply(undo(c, key, offset, mask), key, offset, mask).drop_first());
    assert(c.drop_first() =~= b);
}

} // verus!
