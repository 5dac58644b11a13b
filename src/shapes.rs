use vstd::prelude::*;

use crate::error::FormatError;

verus! {

/// Whether a shapes file header marks the file as locked; the first byte
/// selects the layout.
pub fn is_locked(buffer: &Vec<u8>) -> (r: Result<bool, FormatError>)
    requires
        buffer@.len() >= 4,
    ensures
        r == if buffer@[0] == 0x05 || buffer@[0] == 0x07 || buffer@[0] == 0x0A {
            Ok::<bool, FormatError>(buffer@[1] != 0 || buffer@[3] != 0)
        } else if buffer@[0] == 0x00 || buffer@[0] == 0x01 {
            Ok(buffer@[2] != 0)
        } else {
            Err(FormatError::UnknownFormat)
        },
{
    let b0 = buffer[0];
    if b0 == 0x05 || b0 == 0x07 || b0 == 0x0A {
        Ok(buffer[1] != 0 || buffer[3] != 0)
    } else if b0 == 0x00 || b0 == 0x01 {
        Ok(buffer[2] != 0)
    } else {
        Err(FormatError::UnknownFormat)
    }
}

/// Clears the lock of a shapes file header: the lock bytes become zero and
/// the key byte between them drops by 0x0D (wrapping).
pub fn unlock(buffer: &mut Vec<u8>) -> (r: Result<(), FormatError>)
    requires
        old(buffer)@.len() >= 4,
    ensures
        ({
            let b = old(buffer)@;
            if b[0] == 0x05 || b[0] == 0x07 || b[0] == 0x0A {
                r is Ok && final(buffer)@ == b.update(1, 0).update(2, ((b[2] as int - 0x0D) % 256) as u8).update(3, 0)
            } else if b[0] == 0x00 || b[0] == 0x01 {
                r is Ok && final(buffer)@ == b.update(0, 0).update(1, ((b[1] as int - 0x0D) % 256) as u8).update(2, 0)
            } else {
                r == Err::<(), FormatError>(FormatError::UnknownFormat) && final(buffer)@ == b
            }
        }),
{
    let b0 = buffer[0];
    if b0 == 0x05 || b0 == 0x07 || b0 == 0x0A {
        let k = buffer[2].wrapping_sub(0x0D);
        buffer.set(1, 0);
        buffer.set(2, k);
        buffer.set(3, 0);
        Ok(())
    } else if b0 == 0x00 || b0 == 0x01 {
        let k = buffer[1].wrapping_sub(0x0D);
        buffer.set(0, 0);
        buffer.set(1, k);
        buffer.set(2, 0);
        Ok(())
    } else {
        Err(FormatError::UnknownFormat)
    }
}


/// Unlocks a shapes file header when it is locked. Returns whether the
/// buffer changed; a header too short or of an unknown layout is an error.
pub fn unlock_if_locked(buffer: &mut Vec<u8>) -> (r: Result<bool, FormatError>)
    ensures
        ({
            let b = old(buffer)@;
            if b.len() < 4 || !(b[0] == 0x05 || b[0] == 0x07 || b[0] == 0x0A || b[0] == 0x00 || b[0] == 0x01) {
                r == Err::<bool, FormatError>(FormatError::UnknownFormat) && final(buffer)@ == b
            } else {
                let locked = if b[0] == 0x00 || b[0] == 0x01 {
                    b[2] != 0
                } else {
                    b[1] != 0 || b[3] != 0
                };
                if !locked {
                    r == Ok::<bool, FormatError>(false) && final(buffer)@ == b
                } else if b[0] == 0x00 || b[0] == 0x01 {
                    r == Ok::<bool, FormatError>(true) && final(buffer)@ == b.update(0, 0).update(1, ((b[1] as int - 0x0D) % 256) as u8).update(2, 0)
                } else {
                    r == Ok::<bool, FormatError>(true) && final(buffer)@ == b.update(1, 0).update(2, ((b[2] as int - 0x0D) % 256) as u8).update(3, 0)
                }
            }
        }),
{
    if buffer.len() < 4 {
        return Err(FormatError::UnknownFormat);
    }
    match is_locked(buffer) {
        Err(e) => Err(e),
        Ok(false) => Ok(false),
        Ok(true) => match unlock(buffer) {
            Ok(()) => Ok(true),
            Err(e) => Err(e),
        },
    }
}

} // verus!
