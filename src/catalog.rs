use vstd::prelude::*;

use crate::bytes::push_all;

verus! {

/// What an executable patch disables.
#[derive(Debug, Clone, Copy, PartialEq, Eq, Hash, Structural)]
pub enum PatchType {
    ArchiveCheck,
    CompileError,
    CorruptFile,
    RenameArchive,
}

/// A byte pattern to look for in an executable and what to put in its place.
pub struct PatternItem {
    pub find: Vec<u8>,
    pub replace: Vec<u8>,
    pub patch_type: PatchType,
}

/// The distribution an executable comes from.
#[derive(Debug, Clone, Copy, PartialEq, Eq, Hash, Structural)]
pub enum Platform {
    Steam,
    Giants,
}

/// The platform named by a lower-case name.
pub fn platform_from_lowercase(s: &[u8]) -> (r: Option<Platform>)
    ensures
        r == if s@ == seq![0x73u8, 0x74, 0x65, 0x61, 0x6D] {
            Some(Platform::Steam)
        } else if s@ == seq![0x67u8, 0x69, 0x61, 0x6E, 0x74, 0x73] {
            Some(Platform::Giants)
        } else {
            None::<Platform>
        },
{
    let steam: [u8; 5] = [0x73, 0x74, 0x65, 0x61, 0x6D];
    let giants: [u8; 6] = [0x67, 0x69, 0x61, 0x6E, 0x74, 0x73];
    assert(steam@ =~= seq![0x73u8, 0x74, 0x65, 0x61, 0x6D]);
    assert(giants@ =~= seq![0x67u8, 0x69, 0x61, 0x6E, 0x74, 0x73]);
    if crate::bytes::eq_bytes(s, steam.as_slice()) {
        Some(Platform::Steam)
    } else if crate::bytes::eq_bytes(s, giants.as_slice()) {
        Some(Platform::Giants)
    } else {
        None
    }
}

/// The upper-case hexadecimal digit of `n` (below 16).
pub open spec fn hex_digit(n: int) -> u8 {
    if n < 10 {
        (0x30 + n) as u8
    } else {
        (0x41 + n - 10) as u8
    }
}

/// `0x` and two upper-case hexadecimal digits.
pub open spec fn hex_item(b: u8) -> Seq<u8> {
    seq![0x30u8, 0x78, hex_digit(b as int / 16), hex_digit(b as int % 16)]
}

/// The items of `v` as `0xAB`, joined by `, `.
pub open spec fn hex_list(v: Seq<u8>) -> Seq<u8>
    decreases v.len(),
{
    if v.len() == 0 {
        seq![]
    } else if v.len() == 1 {
        hex_item(v[0])
    } else {
        hex_list(v.drop_last()) + seq![0x2Cu8, 0x20] + hex_item(v.last())
    }
}

fn hex_digit_exec(n: u8) -> (r: u8)
    requires
        n < 16,
    ensures
        r == hex_digit(n as int),
{
    if n < 10 {
        0x30 + n
    } else {
        0x41 + n - 10
    }
}

/// The bytes as `0xAB, 0xCD, ...` text.
pub fn byte_array_hex_string(v: &[u8]) -> (r: Vec<u8>)
    ensures
        r@ == hex_list(v@),
{
    let mut out: Vec<u8> = Vec::new();
    let mut i: usize = 0;
    while i < v.len()
        invariant
            i <= v@.len(),
            out@ == hex_list(v@.subrange(0, i as int)),
        decreases v@.len() - i,
    {
        if i > 0 {
            push_all(&mut out, &[0x2C, 0x20]);
        }
        let b = v[i];
        let item: [u8; 4] = [0x30, 0x78, hex_digit_exec(b / 16), hex_digit_exec(b % 16)];
        push_all(&mut out, item.as_slice());
        i = i + 1;
        assert(v@.subrange(0, i as int).drop_last() =~= v@.subrange(0, i - 1));
        assert(item@ =~= hex_item(v@[i - 1]));
        if i == 1 {
            assert(out@ =~= hex_item(v@[0]));
        } else {
            assert(out@ =~= hex_list(v@.subrange(0, i - 1)) + seq![0x2Cu8, 0x20] + hex_item(v@[i - 1]));
        }
    }
    assert(v@.subrange(0, i as int) =~= v@);
    out
}

/// The given path, or the fallback when there is none.
pub fn get_optional_path<P>(path: Option<P>, fallback: P) -> (r: P)
    ensures
        r == match path {
            Some(p) => p,
            None => fallback,
        },
{
    match path {
        Some(p) => p,
        None => fallback,
    }
}

fn pattern(find: Vec<u8>, replace: Vec<u8>, patch_type: PatchType) -> (r: PatternItem)
    ensures
        r.find@ == find@,
        r.replace@ == replace@,
        r.patch_type == patch_type,
{
    PatternItem { find, replace, patch_type }
}

/// Every pattern of the catalog has a find and a replace part of one length.
pub open spec fn patterns_wf(items: Seq<PatternItem>) -> bool {
    forall|i: int|
        0 <= i < items.len() ==> #[trigger] items[i].find@.len() > 0 && items[i].find@.len()
            == items[i].replace@.len()
}

/// The executable patches of a platform as `(find, replace, type)`.
pub open spec fn spec_patterns(platform: Platform) -> Seq<(Seq<u8>, Seq<u8>, PatchType)> {
    match platform {
        Platform::Steam => seq![
            (seq![0x74u8, 0x16, 0x48, 0x8B, 0x41, 0x18, 0x48], seq![0x75u8, 0x16, 0x48, 0x8B, 0x41, 0x18, 0x48], PatchType::ArchiveCheck),
            (seq![0x75u8, 0x27, 0x84, 0xC0, 0x74, 0x23, 0x48], seq![0x71u8, 0x27, 0x84, 0xC0, 0x74, 0x23, 0x48], PatchType::CompileError),
            (seq![0x0Fu8, 0x84, 0xD4, 0x16, 0x00, 0x00, 0x41, 0x8B, 0xDE, 0x48], seq![0x90u8, 0x90, 0x90, 0x90, 0x90, 0x90, 0x41, 0x8B, 0xDE, 0x48], PatchType::CorruptFile),
        ],
        Platform::Giants => seq![
            (seq![0x74u8, 0x16, 0x48, 0x8B, 0x84, 0x24, 0xB8], seq![0x75u8, 0x16, 0x48, 0x8B, 0x84, 0x24, 0xB8], PatchType::ArchiveCheck),
            (seq![0x75u8, 0x27, 0x84, 0xC0, 0x74, 0x23, 0x48], seq![0x71u8, 0x27, 0x84, 0xC0, 0x74, 0x23, 0x48], PatchType::CompileError),
            (seq![0x0Fu8, 0x84, 0x7C, 0x12, 0x00, 0x00, 0x41, 0x8B, 0xDE, 0x48], seq![0x90u8, 0x90, 0x90, 0x90, 0x90, 0x90, 0x41, 0x8B, 0xDE, 0x48], PatchType::CorruptFile),
        ],
    }
}

pub open spec fn pattern_views(items: Seq<PatternItem>) -> Seq<(Seq<u8>, Seq<u8>, PatchType)> {
    items.map_values(|p: PatternItem| (p.find@, p.replace@, p.patch_type))
}

fn push_pattern(items: &mut Vec<PatternItem>, find: Vec<u8>, replace: Vec<u8>, patch_type: PatchType)
    ensures
        pattern_views(final(items)@) == pattern_views(old(items)@).push((find@, replace@, patch_type)),
{
    let ghost before = items@;
    items.push(pattern(find, replace, patch_type));
    assert(pattern_views(items@) =~= pattern_views(before).push((find@, replace@, patch_type)));
}

/// The executable patches known for a platform.
pub fn executable_patterns(platform: Platform) -> (r: Vec<PatternItem>)
    ensures
        pattern_views(r@) == spec_patterns(platform),
        patterns_wf(r@),
{
    let mut items: Vec<PatternItem> = Vec::new();
    assert(pattern_views(items@) =~= seq![]);
    match platform {
        Platform::Steam => {
            push_pattern(&mut items, vec![0x74, 0x16, 0x48, 0x8B, 0x41, 0x18, 0x48], vec![0x75, 0x16, 0x48, 0x8B, 0x41, 0x18, 0x48], PatchType::ArchiveCheck);
            push_pattern(&mut items, vec![0x75, 0x27, 0x84, 0xC0, 0x74, 0x23, 0x48], vec![0x71, 0x27, 0x84, 0xC0, 0x74, 0x23, 0x48], PatchType::CompileError);
            push_pattern(&mut items, vec![0x0F, 0x84, 0xD4, 0x16, 0x00, 0x00, 0x41, 0x8B, 0xDE, 0x48], vec![0x90, 0x90, 0x90, 0x90, 0x90, 0x90, 0x41, 0x8B, 0xDE, 0x48], PatchType::CorruptFile);
        },
        Platform::Giants => {
            push_pattern(&mut items, vec![0x74, 0x16, 0x48, 0x8B, 0x84, 0x24, 0xB8], vec![0x75, 0x16, 0x48, 0x8B, 0x84, 0x24, 0xB8], PatchType::ArchiveCheck);
            push_pattern(&mut items, vec![0x75, 0x27, 0x84, 0xC0, 0x74, 0x23, 0x48], vec![0x71, 0x27, 0x84, 0xC0, 0x74, 0x23, 0x48], PatchType::CompileError);
            push_pattern(&mut items, vec![0x0F, 0x84, 0x7C, 0x12, 0x00, 0x00, 0x41, 0x8B, 0xDE, 0x48], vec![0x90, 0x90, 0x90, 0x90, 0x90, 0x90, 0x41, 0x8B, 0xDE, 0x48], PatchType::CorruptFile);
        },
    }
    assert(pattern_views(items@) =~= spec_patterns(platform));
    assert forall|i: int| 0 <= i < items@.len() implies #[trigger] items@[i].find@.len() > 0 && items@[i].find@.len() == items@[i].replace@.len() by {
        assert(pattern_views(items@)[i] == spec_patterns(platform)[i]);
    }
    items
}

/// Candidate key sets for archive decryption, tried in order.
pub fn keys_list() -> (r: Vec<[u32; 4]>)
    ensures
        r@.map_values(|k: [u32; 4]| k@) == seq![
            seq![0x022DBB1Eu32, 0x22EC2A94, 0x1B0C37E7, 0x2501A594],
            seq![0x23F0EA64u32, 0x317FAC94, 0x1B0C37E7, 0x2501A594],
            seq![0x30D0D6B6u32, 0x14B281C4, 0x2F28AC14, 0x29F53CB9],
        ],
{
    let r = vec![
        [0x022DBB1Eu32, 0x22EC2A94, 0x1B0C37E7, 0x2501A594],
        [0x23F0EA64u32, 0x317FAC94, 0x1B0C37E7, 0x2501A594],
        [0x30D0D6B6u32, 0x14B281C4, 0x2F28AC14, 0x29F53CB9],
    ];
    assert(r@[0]@ =~= seq![0x022DBB1Eu32, 0x22EC2A94, 0x1B0C37E7, 0x2501A594]);
    assert(r@[1]@ =~= seq![0x23F0EA64u32, 0x317FAC94, 0x1B0C37E7, 0x2501A594]);
    assert(r@[2]@ =~= seq![0x30D0D6B6u32, 0x14B281C4, 0x2F28AC14, 0x29F53CB9]);
    assert(r@.map_values(|k: [u32; 4]| k@) =~= seq![
        seq![0x022DBB1Eu32, 0x22EC2A94, 0x1B0C37E7, 0x2501A594],
        seq![0x23F0EA64u32, 0x317FAC94, 0x1B0C37E7, 0x2501A594],
        seq![0x30D0D6B6u32, 0x14B281C4, 0x2F28AC14, 0x29F53CB9],
    ]);
    r
}


/// The character that indents formatted XML.
#[derive(Debug, Clone, Copy, PartialEq, Eq, Structural)]
pub enum Indent {
    Space,
    Tab,
}

/// `indent_size` copies of the indent character.
pub fn create_indent_string(indent_type: &Indent, indent_size: u8) -> (r: Vec<u8>)
    ensures
        r@ == Seq::new(indent_size as nat, |i: int| if *indent_type == Indent::Space { 0x20u8 } else { 0x09u8 }),
{
    let c: u8 = match indent_type {
        Indent::Space => 0x20,
        Indent::Tab => 0x09,
    };
    let mut r: Vec<u8> = Vec::new();
    let mut i: u8 = 0;
    while i < indent_size
        invariant
            i <= indent_size,
            r@ == Seq::new(i as nat, |k: int| c),
            c == if *indent_type == Indent::Space { 0x20u8 } else { 0x09u8 },
        decreases indent_size - i,
    {
        r.push(c);
        i = i + 1;
        assert(r@ =~= Seq::new(i as nat, |k: int| c));
    }
    assert(r@ =~= Seq::new(indent_size as nat, |k: int| if *indent_type == Indent::Space { 0x20u8 } else { 0x09u8 }));
    r
}

} // verus!
