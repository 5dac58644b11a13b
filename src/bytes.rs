use vstd::prelude::*;

verus! {

/// A copy of `b[start..end]`.
pub fn copy_range(b: &Vec<u8>, start: usize, end: usize) -> (r: Vec<u8>)
    requires
        start <= end <= b@.len(),
    ensures
        r@ == b@.subrange(start as int, end as int),
{
    let mut r: Vec<u8> = Vec::with_capacity(end - start);
    let mut i: usize = start;
    while i < end
        invariant
            start <= i <= end <= b@.len(),
            r@ == b@.subrange(start as int, i as int),
        decreases end - i,
    {
        r.push(b[i]);
        i = i + 1;
        assert(r@ =~= b@.subrange(start as int, i as int));
    }
    r
}

/// A copy of a whole byte vector.
pub fn copy_bytes(b: &Vec<u8>) -> (r: Vec<u8>)
    ensures
        r@ == b@,
{
    let r = copy_range(b, 0, b.len());
    assert(b@.subrange(0, b@.len() as int) =~= b@);
    r
}

/// Appends all of `src` to `dst`.
pub fn push_all(dst: &mut Vec<u8>, src: &[u8])
    ensures
        final(dst)@ == old(dst)@ + src@,
{
    let mut i: usize = 0;
    while i < src.len()
        invariant
            i <= src@.len(),
            dst@ == old(dst)@ + src@.subrange(0, i as int),
        decreases src@.len() - i,
    {
        dst.push(src[i]);
        i = i + 1;
        assert(dst@ =~= old(dst)@ + src@.subrange(0, i as int));
    }
    assert(src@.subrange(0, src@.len() as int) =~= src@);
}


/// `needle` occurs in `h` at index `i`.
pub open spec fn occurs_at(h: Seq<u8>, needle: Seq<u8>, i: int) -> bool {
    0 <= i && i + needle.len() <= h.len() && h.subrange(i, i + needle.len()) == needle
}

/// The first index at or after `i` where `needle` occurs.
pub open spec fn first_occurrence(h: Seq<u8>, needle: Seq<u8>, i: int) -> Option<int>
    decreases h.len() - i,
{
    if i < 0 || i + needle.len() > h.len() {
        None
    } else if occurs_at(h, needle, i) {
        Some(i)
    } else if i >= h.len() {
        None
    } else {
        first_occurrence(h, needle, i + 1)
    }
}

/// `s` with every occurrence of `find` replaced by `rep`, scanning left to
/// right and resuming after each replaced occurrence.
pub open spec fn replaced(s: Seq<u8>, find: Seq<u8>, rep: Seq<u8>) -> Seq<u8>
    decreases s.len(),
{
    if s.len() == 0 || find.len() == 0 {
        s
    } else if find.len() <= s.len() && s.subrange(0, find.len() as int) == find {
        rep + replaced(s.skip(find.len() as int), find, rep)
    } else {
        seq![s[0]] + replaced(s.skip(1), find, rep)
    }
}

/// `replaced` applied from `offset` on; the bytes before it are kept.
pub open spec fn replaced_from(s: Seq<u8>, find: Seq<u8>, rep: Seq<u8>, offset: int) -> Seq<u8> {
    if offset > s.len() {
        s
    } else {
        s.subrange(0, offset) + replaced(s.skip(offset), find, rep)
    }
}

/// `s` with `ins` inserted at `pos`, or at the end when `pos` lies beyond it.
pub open spec fn inserted(s: Seq<u8>, pos: int, ins: Seq<u8>) -> Seq<u8> {
    let p = if pos > s.len() { s.len() as int } else { pos };
    s.subrange(0, p) + ins + s.skip(p)
}

/// Whether `needle` occurs in `h` at `i`.
pub fn bytes_at(h: &[u8], needle: &[u8], i: usize) -> (r: bool)
    ensures
        r == occurs_at(h@, needle@, i as int),
{
    if i > h.len() || needle.len() > h.len() - i {
        return false;
    }
    let hl = h.len();
    let mut k: usize = 0;
    while k < needle.len()
        invariant
            k <= needle@.len(),
            hl == h@.len(),
            i <= h@.len(),
            i + needle@.len() <= h@.len(),
            forall|m: int| 0 <= m < k ==> h@[i + m] == needle@[m],
        decreases needle@.len() - k,
    {
        if h[i + k] != needle[k] {
            assert(h@.subrange(i as int, i + needle@.len())[k as int] != needle@[k as int]);
            return false;
        }
        k = k + 1;
    }
    assert(h@.subrange(i as int, i + needle@.len()) =~= needle@);
    true
}

/// The index of the first occurrence of `bytes` in `buffer`.
pub fn find_bytes(buffer: &Vec<u8>, bytes: &Vec<u8>) -> (r: Option<usize>)
    requires
        bytes@.len() > 0,
    ensures
        first_occurrence(buffer@, bytes@, 0) == match r {
            Some(k) => Some(k as int),
            None => None::<int>,
        },
{
    find_bytes_from(buffer, bytes, 0)
}

/// The first occurrence of `bytes` at or after `offset`, counted from `offset`.
pub fn find_bytes_from(buffer: &Vec<u8>, bytes: &Vec<u8>, offset: usize) -> (r: Option<usize>)
    requires
        bytes@.len() > 0,
    ensures
        first_occurrence(buffer@, bytes@, offset as int) == match r {
            Some(k) => Some(offset + k),
            None => None::<int>,
        },
{
    let mut i = offset;
    proof { lemma_first_occurrence_ge(buffer@, bytes@, i as int); }
    while i < buffer.len()
        invariant
            offset <= i,
            first_occurrence(buffer@, bytes@, offset as int) == first_occurrence(buffer@, bytes@, i as int),
            first_occurrence(buffer@, bytes@, i as int) is Some ==> first_occurrence(buffer@, bytes@, i as int).unwrap() >= i,
        decreases buffer@.len() - i,
    {
        if bytes.len() > buffer.len() - i {
            return None;
        }
        if bytes_at(buffer.as_slice(), bytes.as_slice(), i) {
            return Some(i - offset);
        }
        proof { lemma_first_occurrence_ge(buffer@, bytes@, i as int + 1); }
        i = i + 1;
    }
    None
}

proof fn lemma_first_occurrence_ge(h: Seq<u8>, n: Seq<u8>, i: int)
    ensures
        first_occurrence(h, n, i) is Some ==> first_occurrence(h, n, i).unwrap() >= i,
    decreases h.len() - i,
{
    if i < 0 || i + n.len() > h.len() {
    } else if occurs_at(h, n, i) {
    } else if i >= h.len() {
    } else {
        lemma_first_occurrence_ge(h, n, i + 1);
    }
}

/// Overwrites the bytes from `offset` with `bytes`.
pub fn replace_bytes(buffer: &mut Vec<u8>, bytes: &Vec<u8>, offset: usize)
    requires
        offset + bytes@.len() <= old(buffer)@.len(),
    ensures
        final(buffer)@ == old(buffer)@.subrange(0, offset as int) + bytes@ + old(buffer)@.skip(offset + bytes@.len()),
{
    let n = buffer.len();
    let mut i: usize = 0;
    while i < bytes.len()
        invariant
            i <= bytes@.len(),
            n == buffer@.len(),
            offset + bytes@.len() <= buffer@.len(),
            buffer@.len() == old(buffer)@.len(),
            forall|j: int| 0 <= j < buffer@.len() ==> #[trigger] buffer@[j] == if offset <= j < offset + i {
                bytes@[j - offset]
            } else {
                old(buffer)@[j]
            },
        decreases bytes@.len() - i,
    {
        buffer.set(offset + i, bytes[i]);
        i = i + 1;
    }
    assert(buffer@ =~= old(buffer)@.subrange(0, offset as int) + bytes@ + old(buffer)@.skip(offset + bytes@.len()));
}

proof fn lemma_replaced_step(s: Seq<u8>, find: Seq<u8>, rep: Seq<u8>, i: int)
    requires
        0 <= i < s.len(),
        find.len() > 0,
    ensures
        occurs_at(s, find, i) ==> replaced(s.skip(i), find, rep) == rep + replaced(s.skip(i + find.len()), find, rep),
        !occurs_at(s, find, i) ==> replaced(s.skip(i), find, rep) == seq![s[i]] + replaced(s.skip(i + 1), find, rep),
{
    let t = s.skip(i);
    assert(t.skip(1) =~= s.skip(i + 1));
    if occurs_at(s, find, i) {
        assert(t.skip(find.len() as int) =~= s.skip(i + find.len()));
        assert(t.subrange(0, find.len() as int) =~= s.subrange(i, i + find.len()));
    } else {
        if find.len() <= t.len() {
            assert(t.subrange(0, find.len() as int) =~= s.subrange(i, i + find.len()));
        }
    }
}

/// Replaces, from `offset` on, every occurrence of `find` with `replace`,
/// left to right, resuming after each replacement.
pub fn find_and_replace(buffer: &mut Vec<u8>, find: &Vec<u8>, replace: &Vec<u8>, offset: usize)
    requires
        find@.len() > 0,
    ensures
        final(buffer)@ == replaced_from(old(buffer)@, find@, replace@, offset as int),
{
    let n = buffer.len();
    if offset > n {
        return;
    }
    let ghost s = buffer@;
    let mut out = copy_range(buffer, 0, offset);
    let mut i = offset;
    while i < n
        invariant
            offset <= i <= n,
            n == s.len(),
            s == buffer@,
            find@.len() > 0,
            out@ + replaced(s.skip(i as int), find@, replace@) == s.subrange(0, offset as int) + replaced(s.skip(offset as int), find@, replace@),
        decreases n - i,
    {
        proof { lemma_replaced_step(s, find@, replace@, i as int); }
        if bytes_at(buffer.as_slice(), find.as_slice(), i) {
            push_all(&mut out, replace.as_slice());
            proof {
                assert(out@ + replaced(s.skip(i + find@.len()), find@, replace@) =~= (out@.subrange(0, out@.len() - replace@.len()) + (replace@ + replaced(s.skip(i + find@.len()), find@, replace@))));
            }
            i = i + find.len();
        } else {
            let ghost o = out@;
            out.push(buffer[i]);
            assert(o + (seq![s[i as int]] + replaced(s.skip(i + 1), find@, replace@)) =~= out@ + replaced(s.skip(i + 1), find@, replace@));
            i = i + 1;
        }
    }
    proof {
        assert(s.skip(i as int) =~= seq![]);
        assert(out@ + seq![] =~= out@);
    }
    *buffer = out;
}

/// Inserts `bytes` at `pos` (at the end when `pos` lies beyond it).
pub fn insert_bytes(buffer: &mut Vec<u8>, pos: usize, bytes: &[u8])
    ensures
        final(buffer)@ == inserted(old(buffer)@, pos as int, bytes@),
{
    let n = buffer.len();
    let p = if pos > n { n } else { pos };
    let mut out = copy_range(buffer, 0, p);
    push_all(&mut out, bytes);
    let tail = copy_range(buffer, p, n);
    push_all(&mut out, tail.as_slice());
    assert(out@ =~= inserted(old(buffer)@, pos as int, bytes@));
    *buffer = out;
}


/// A found occurrence is a real one, at or after the start of the search.
pub proof fn lemma_first_occurrence(h: Seq<u8>, n: Seq<u8>, i: int)
    ensures
        first_occurrence(h, n, i) is Some ==> {
            let k = first_occurrence(h, n, i).unwrap();
            k >= i && occurs_at(h, n, k)
        },
    decreases h.len() - i,
{
    if i < 0 || i + n.len() > h.len() {
    } else if occurs_at(h, n, i) {
    } else if i >= h.len() {
    } else {
        lemma_first_occurrence(h, n, i + 1);
    }
}

/// Whether two byte strings are equal.
pub fn eq_bytes(a: &[u8], b: &[u8]) -> (r: bool)
    ensures
        r == (a@ == b@),
{
    if a.len() != b.len() {
        return false;
    }
    let r = bytes_at(a, b, 0);
    assert(a@.subrange(0, b@.len() as int) =~= a@);
    r
}


/// `s` with the first occurrence of `find` at or after `from` replaced by
/// `rep`; unchanged when there is none.
pub open spec fn replaced_once(s: Seq<u8>, find: Seq<u8>, rep: Seq<u8>, from: int) -> Seq<u8> {
    match first_occurrence(s, find, from) {
        Some(k) => s.subrange(0, k) + rep + s.skip(k + find.len()),
        None => s,
    }
}

/// Replaces the first occurrence of `find` at or after `from` with `replace`.
pub fn replace_once(buffer: &mut Vec<u8>, find: &Vec<u8>, replace: &Vec<u8>, from: usize)
    requires
        find@.len() > 0,
    ensures
        final(buffer)@ == replaced_once(old(buffer)@, find@, replace@, from as int),
{
    let k = match find_bytes_from(buffer, find, from) {
        Some(k) => k,
        None => {
            return;
        },
    };
    proof { lemma_first_occurrence(buffer@, find@, from as int); }
    let n = buffer.len();
    let start = from + k;
    let mut out = copy_range(buffer, 0, start);
    push_all(&mut out, replace.as_slice());
    let tail = copy_range(buffer, start + find.len(), n);
    push_all(&mut out, tail.as_slice());
    assert(out@ =~= replaced_once(old(buffer)@, find@, replace@, from as int));
    *buffer = out;
}

} // verus!
