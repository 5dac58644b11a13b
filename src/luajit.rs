use vstd::prelude::*;

use crate::error::FormatError;
use crate::shift::{apply, lemma_mask_below_len, luajit_decode_table, shift_bytes, spec_luajit_table};

verus! {

/// Whether the buffer starts with the signature of the older bytecode format.
pub fn is_valid(buffer: &Vec<u8>) -> (r: bool)
    requires
        buffer@.len() >= 3,
    ensures
        r == (buffer@[0] == 0x1B && buffer@[1] == 0x4C && buffer@[2] == 0x4A),
{
    buffer[0] == 0x1B && buffer[1] == 0x4C && buffer[2] == 0x4A
}

/// Whether an older-format file carries the byte shift (marker at byte 4).
pub fn is_encoded(buffer: &Vec<u8>) -> (r: bool)
    requires
        buffer@.len() >= 5,
    ensures
        r == (buffer@[4] == 0xFC),
{
    buffer[4] == 0xFC
}

/// Removes the byte shift of an older-format file, keyed by its version byte
/// (byte 3), and sets that byte to 2. Without a table, fails and leaves the
/// buffer.
pub fn decode(buffer: &mut Vec<u8>) -> (r: Result<(), FormatError>)
    requires
        old(buffer)@.len() >= 4,
    ensures
        r.is_ok() == spec_luajit_table(old(buffer)@[3]).is_some(),
        r.is_err() ==> r == Err::<(), FormatError>(FormatError::NoByteshiftTable)
            && final(buffer)@ == old(buffer)@,
        r.is_ok() ==> ({
            let (key, offset, mask) = spec_luajit_table(old(buffer)@[3]).unwrap();
            final(buffer)@ == apply(old(buffer)@, key, offset, mask).update(3, 0x02)
        }),
{
    let table = match luajit_decode_table(buffer[3]) {
        Some(t) => t,
        None => {
            return Err(FormatError::NoByteshiftTable);
        },
    };
    proof { lemma_mask_below_len(buffer@.len() as int, table.offset, table.mask, table.bytes@.len() as int); }
    shift_bytes(buffer, &table.bytes, table.offset, table.mask);
    buffer.set(3, 0x02);
    Ok(())
}


/// Prepares an older-format file for decompiling: checks its signature and,
/// when it is encoded, removes the byte shift. Returns whether the buffer
/// changed.
pub fn prepare_bytecode(buffer: &mut Vec<u8>) -> (r: Result<bool, FormatError>)
    ensures
        ({
            let b = old(buffer)@;
            if b.len() < 5 || !(b[0] == 0x1B && b[1] == 0x4C && b[2] == 0x4A) {
                r == Err::<bool, FormatError>(FormatError::UnknownFormat) && final(buffer)@ == b
            } else if b[4] != 0xFC {
                r == Ok::<bool, FormatError>(false) && final(buffer)@ == b
            } else {
                match spec_luajit_table(b[3]) {
                    Some((key, offset, mask)) => r == Ok::<bool, FormatError>(true) && final(buffer)@
                        == apply(b, key, offset, mask).update(3, 0x02),
                    None => r == Err::<bool, FormatError>(FormatError::NoByteshiftTable) && final(buffer)@ == b,
                }
            }
        }),
{
    if buffer.len() < 5 || !is_valid(buffer) {
        return Err(FormatError::UnknownFormat);
    }
    if !is_encoded(buffer) {
        return Ok(false);
    }
    match decode(buffer) {
        Ok(()) => Ok(true),
        Err(e) => Err(e),
    }
}

} // verus!
