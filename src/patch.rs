use vstd::prelude::*;

use crate::bytes::{copy_bytes, find_bytes, first_occurrence, replace_bytes};
use crate::catalog::{PatchType, PatternItem};

verus! {

/// A pattern located in an executable: where, and whether the patched bytes
/// are the ones found there.
pub struct Patch {
    pub offset: usize,
    pub find: Vec<u8>,
    pub replace: Vec<u8>,
    pub patch_type: PatchType,
    pub is_applied: bool,
}

/// Where a pattern stands in `buf`: the original bytes first, else the
/// patched bytes (then the patch is applied), else nowhere.
pub open spec fn spec_locate_patch(buf: Seq<u8>, item: PatternItem) -> Option<(int, bool)> {
    match first_occurrence(buf, item.find@, 0) {
        Some(o) => Some((o, false)),
        None => match first_occurrence(buf, item.replace@, 0) {
            Some(o) => Some((o, true)),
            None => None,
        },
    }
}

/// The patch matches what was located for `item`.
pub open spec fn patch_for(p: Patch, buf: Seq<u8>, item: PatternItem) -> bool {
    spec_locate_patch(buf, item) == Some((p.offset as int, p.is_applied)) && p.find@ == item.find@
        && p.replace@ == item.replace@ && p.patch_type == item.patch_type
}

/// Locates every pattern in the executable, in order; fails with the type of
/// the first pattern found in neither form.
pub fn locate_patches(buffer: &Vec<u8>, items: &Vec<PatternItem>) -> (r: Result<Vec<Patch>, PatchType>)
    requires
        forall|i: int| 0 <= i < items@.len() ==> #[trigger] items@[i].find@.len() > 0 && items@[i].replace@.len() > 0,
    ensures
        match r {
            Ok(ps) => ps@.len() == items@.len() && forall|i: int| 0 <= i < items@.len() ==> #[trigger] patch_for(ps@[i], buffer@, items@[i]),
            Err(t) => exists|i: int| 0 <= i < items@.len() && (#[trigger] spec_locate_patch(buffer@, items@[i])) is None
                && items@[i].patch_type == t
                && forall|j: int| 0 <= j < i ==> (#[trigger] spec_locate_patch(buffer@, items@[j])) is Some,
        },
{
    let mut patches: Vec<Patch> = Vec::new();
    let mut i: usize = 0;
    while i < items.len()
        invariant
            i <= items@.len(),
            patches@.len() == i,
            forall|k: int| 0 <= k < items@.len() ==> #[trigger] items@[k].find@.len() > 0 && items@[k].replace@.len() > 0,
            forall|k: int| 0 <= k < i ==> #[trigger] patch_for(patches@[k], buffer@, items@[k]),
        decreases items@.len() - i,
    {
        let item = &items[i];
        let (offset, is_applied) = match find_bytes(buffer, &item.find) {
            Some(o) => (o, false),
            None => match find_bytes(buffer, &item.replace) {
                Some(o) => (o, true),
                None => {
                    assert(spec_locate_patch(buffer@, items@[i as int]) is None);
                    assert forall|j: int| 0 <= j < i implies (#[trigger] spec_locate_patch(buffer@, items@[j])) is Some by {
                        assert(patch_for(patches@[j], buffer@, items@[j]));
                    }
                    return Err(item.patch_type);
                },
            },
        };
        let p = Patch {
            offset,
            find: copy_bytes(&item.find),
            replace: copy_bytes(&item.replace),
            patch_type: item.patch_type,
            is_applied,
        };
        assert(patch_for(p, buffer@, items@[i as int]));
        patches.push(p);
        i = i + 1;
    }
    Ok(patches)
}

/// Applies a located patch (or, with `revert`, puts the original bytes
/// back); returns whether the buffer changed. A patch already in the wanted
/// state leaves it.
pub fn apply_patch(buffer: &mut Vec<u8>, patch: &Patch, revert: bool) -> (r: bool)
    requires
        patch.offset + patch.find@.len() <= old(buffer)@.len(),
        patch.offset + patch.replace@.len() <= old(buffer)@.len(),
    ensures
        r == (revert == patch.is_applied),
        !r ==> final(buffer)@ == old(buffer)@,
        r && !revert ==> final(buffer)@ == old(buffer)@.subrange(0, patch.offset as int) + patch.replace@
            + old(buffer)@.skip(patch.offset + patch.replace@.len()),
        r && revert ==> final(buffer)@ == old(buffer)@.subrange(0, patch.offset as int) + patch.find@
            + old(buffer)@.skip(patch.offset + patch.find@.len()),
{
    if !revert {
        if patch.is_applied {
            false
        } else {
            replace_bytes(buffer, &patch.replace, patch.offset);
            true
        }
    } else {
        if patch.is_applied {
            replace_bytes(buffer, &patch.find, patch.offset);
            true
        } else {
            false
        }
    }
}

} // verus!
