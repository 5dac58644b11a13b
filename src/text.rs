use vstd::prelude::*;

use crate::bytes::{copy_range, first_occurrence, push_all};
use crate::locate::is_space;

verus! {

/// `s` without leading whitespace.
pub open spec fn trim_start(s: Seq<u8>) -> Seq<u8>
    decreases s.len(),
{
    if s.len() > 0 && is_space(s[0]) {
        trim_start(s.skip(1))
    } else {
        s
    }
}

/// `s` without trailing whitespace.
pub open spec fn trim_end(s: Seq<u8>) -> Seq<u8>
    decreases s.len(),
{
    if s.len() > 0 && is_space(s.last()) {
        trim_end(s.drop_last())
    } else {
        s
    }
}

/// `s` without surrounding whitespace.
pub open spec fn trim(s: Seq<u8>) -> Seq<u8> {
    trim_end(trim_start(s))
}

/// The pieces of `s` between commas (one piece when there is none).
pub open spec fn split_commas(s: Seq<u8>) -> Seq<Seq<u8>>
    decreases s.len(),
{
    match first_occurrence(s, seq![0x2Cu8], 0) {
        Some(k) => if 0 <= k < s.len() {
            seq![s.subrange(0, k)] + split_commas(s.skip(k + 1))
        } else {
            seq![s]
        },
        None => seq![s],
    }
}

/// The items of `l` with `sep` between each two.
pub open spec fn join(l: Seq<Seq<u8>>, sep: Seq<u8>) -> Seq<u8>
    decreases l.len(),
{
    if l.len() == 0 {
        seq![]
    } else if l.len() == 1 {
        l[0]
    } else {
        join(l.drop_last(), sep) + sep + l.last()
    }
}

/// ASCII word bytes: letters, digits and underscore.
pub open spec fn is_word(c: u8) -> bool {
    (0x41 <= c && c <= 0x5A) || (0x61 <= c && c <= 0x7A) || (0x30 <= c && c <= 0x39) || c == 0x5F
}

/// The end of the run of word bytes that starts at `i`.
pub open spec fn word_end(s: Seq<u8>, i: int) -> int
    decreases s.len() - i,
{
    if 0 <= i < s.len() && is_word(s[i]) {
        word_end(s, i + 1)
    } else {
        i
    }
}

/// A `word.word(` path starts at `p`, at a word boundary.
pub open spec fn class_path_at(s: Seq<u8>, p: int) -> bool {
    0 <= p < s.len() && is_word(s[p]) && (p == 0 || !is_word(s[p - 1])) && {
        let q = word_end(s, p);
        q < s.len() && s[q] == 0x2E && {
            let r = word_end(s, q + 1);
            r > q + 1 && r < s.len() && s[r] == 0x28
        }
    }
}

/// The first `word.word` path followed by `(` at or after `p`.
pub open spec fn first_class_path(s: Seq<u8>, p: int) -> Option<Seq<u8>>
    decreases s.len() - p,
{
    if p < 0 || p >= s.len() {
        None
    } else if class_path_at(s, p) {
        Some(s.subrange(p, word_end(s, word_end(s, p) + 1)))
    } else {
        first_class_path(s, p + 1)
    }
}

/// `s` with every `.` turned into `:`.
pub open spec fn colon_path(s: Seq<u8>) -> Seq<u8> {
    s.map_values(|c: u8| if c == 0x2E { 0x3Au8 } else { c })
}

/// The decimal digits of `n`.
pub open spec fn decimal(n: nat) -> Seq<u8>
    decreases n,
{
    if n < 10 {
        seq![(0x30 + n) as u8]
    } else {
        decimal(n / 10) + seq![(0x30 + n % 10) as u8]
    }
}

proof fn lemma_word_end_ge(s: Seq<u8>, i: int)
    ensures
        word_end(s, i) >= i,
        0 <= i <= s.len() ==> word_end(s, i) <= s.len(),
    decreases s.len() - i,
{
    if 0 <= i < s.len() && is_word(s[i]) {
        lemma_word_end_ge(s, i + 1);
    }
}

fn is_word_byte(c: u8) -> (r: bool)
    ensures
        r == is_word(c),
{
    (0x41 <= c && c <= 0x5A) || (0x61 <= c && c <= 0x7A) || (0x30 <= c && c <= 0x39) || c == 0x5F
}

fn word_end_exec(s: &Vec<u8>, i: usize) -> (r: usize)
    requires
        i <= s@.len(),
    ensures
        r as int == word_end(s@, i as int),
        i <= r <= s@.len(),
{
    let mut k = i;
    while k < s.len() && is_word_byte(s[k])
        invariant
            i <= k <= s@.len(),
            word_end(s@, i as int) == word_end(s@, k as int),
        decreases s@.len() - k,
    {
        k = k + 1;
    }
    k
}

/// A copy of `s` without surrounding whitespace.
pub fn trim_bytes(s: &Vec<u8>) -> (r: Vec<u8>)
    ensures
        r@ == trim(s@),
{
    let n = s.len();
    let mut a: usize = 0;
    assert(s@.skip(0) =~= s@);
    while a < n && (0x09 <= s[a] && s[a] <= 0x0D || s[a] == 0x20)
        invariant
            a <= n,
            n == s@.len(),
            trim_start(s@) == trim_start(s@.skip(a as int)),
        decreases n - a,
    {
        assert(s@.skip(a as int).skip(1) =~= s@.skip(a + 1));
        a = a + 1;
    }
    if a < n {
        assert(s@.skip(a as int)[0] == s@[a as int]);
    } else {
        assert(s@.skip(a as int) =~= seq![]);
    }
    let mut b: usize = n;
    while b > a && (0x09 <= s[b - 1] && s[b - 1] <= 0x0D || s[b - 1] == 0x20)
        invariant
            a <= b <= n,
            n == s@.len(),
            trim(s@) == trim_end(s@.subrange(a as int, b as int)),
        decreases b,
    {
        assert(s@.subrange(a as int, b as int).drop_last() =~= s@.subrange(a as int, b - 1));
        b = b - 1;
    }
    copy_range(s, a, b)
}

/// The pieces of `s` between commas.
pub fn split_commas_bytes(s: &Vec<u8>) -> (r: Vec<Vec<u8>>)
    ensures
        r@.map_values(|v: Vec<u8>| v@) == split_commas(s@),
{
    let n = s.len();
    let mut out: Vec<Vec<u8>> = Vec::new();
    let mut start: usize = 0;
    let mut i: usize = 0;
    assert(s@.skip(0) =~= s@);
    assert(out@.map_values(|v: Vec<u8>| v@) + split_commas(s@) =~= split_commas(s@));
    while i < n
        invariant
            start <= i <= n,
            n == s@.len(),
            forall|k: int| start <= k < i ==> s@[k] != 0x2C,
            split_commas(s@) == out@.map_values(|v: Vec<u8>| v@) + split_commas(s@.skip(start as int)),
        decreases n - i,
    {
        if s[i] == 0x2C {
            let piece = copy_range(s, start, i);
            proof {
                let t = s@.skip(start as int);
                lemma_first_comma(t, (i - start) as int);
                assert(t.subrange(0, i - start) =~= piece@);
                assert(t.skip(i - start + 1) =~= s@.skip(i + 1));
            }
            let ghost before = out@;
            out.push(piece);
            assert(out@.map_values(|v: Vec<u8>| v@) =~= before.map_values(|v: Vec<u8>| v@).push(s@.subrange(start as int, i as int)));
            start = i + 1;
        }
        i = i + 1;
    }
    let last = copy_range(s, start, n);
    proof {
        let t = s@.skip(start as int);
        lemma_no_comma(t);
        assert(last@ =~= t);
    }
    let ghost before = out@;
    out.push(last);
    assert(out@.map_values(|v: Vec<u8>| v@) =~= before.map_values(|v: Vec<u8>| v@) + seq![s@.skip(start as int)]);
    out
}

proof fn lemma_first_comma(t: Seq<u8>, k: int)
    requires
        0 <= k < t.len(),
        t[k] == 0x2C,
        forall|j: int| 0 <= j < k ==> t[j] != 0x2C,
    ensures
        split_commas(t) == seq![t.subrange(0, k)] + split_commas(t.skip(k + 1)),
{
    lemma_first_occurrence_at(t, 0, k);
}

proof fn lemma_first_occurrence_at(t: Seq<u8>, i: int, k: int)
    requires
        0 <= i <= k < t.len(),
        t[k] == 0x2C,
        forall|j: int| i <= j < k ==> t[j] != 0x2C,
    ensures
        first_occurrence(t, seq![0x2Cu8], i) == Some(k),
    decreases k - i,
{
    if i == k {
        assert(t.subrange(k, k + 1) =~= seq![0x2Cu8]);
    } else {
        assert(t.subrange(i, i + 1)[0] != 0x2Cu8);
        lemma_first_occurrence_at(t, i + 1, k);
    }
}

proof fn lemma_no_comma(t: Seq<u8>)
    requires
        forall|j: int| 0 <= j < t.len() ==> t[j] != 0x2C,
    ensures
        split_commas(t) == seq![t],
{
    lemma_no_occurrence(t, 0);
}

proof fn lemma_no_occurrence(t: Seq<u8>, i: int)
    requires
        0 <= i,
        forall|j: int| i <= j < t.len() ==> t[j] != 0x2C,
    ensures
        first_occurrence(t, seq![0x2Cu8], i) is None,
    decreases t.len() - i,
{
    if i + 1 <= t.len() {
        assert(t.subrange(i, i + 1)[0] != 0x2Cu8);
        lemma_no_occurrence(t, i + 1);
    }
}

/// The items of `l` with `sep` between each two.
pub fn join_bytes(l: &Vec<Vec<u8>>, sep: &[u8]) -> (r: Vec<u8>)
    ensures
        r@ == join(l@.map_values(|v: Vec<u8>| v@), sep@),
{
    let ghost lv = l@.map_values(|v: Vec<u8>| v@);
    let mut out: Vec<u8> = Vec::new();
    let mut i: usize = 0;
    while i < l.len()
        invariant
            i <= l@.len(),
            lv == l@.map_values(|v: Vec<u8>| v@),
            out@ == join(lv.subrange(0, i as int), sep@),
        decreases l@.len() - i,
    {
        if i > 0 {
            push_all(&mut out, sep);
        }
        push_all(&mut out, l[i].as_slice());
        i = i + 1;
        assert(lv.subrange(0, i as int).drop_last() =~= lv.subrange(0, i - 1));
        if i == 1 {
            assert(out@ =~= lv.subrange(0, 1)[0]);
        }
    }
    assert(lv.subrange(0, i as int) =~= lv);
    out
}

/// The first `word.word` path followed by `(` in `s`.
pub fn class_path(s: &Vec<u8>) -> (r: Option<Vec<u8>>)
    ensures
        match first_class_path(s@, 0) {
            Some(p) => r is Some && r.unwrap()@ == p,
            None => r is None,
        },
{
    let n = s.len();
    let mut p: usize = 0;
    while p < n
        invariant
            p <= n,
            n == s@.len(),
            first_class_path(s@, 0) == first_class_path(s@, p as int),
        decreases n - p,
    {
        if is_word_byte(s[p]) && (p == 0 || !is_word_byte(s[p - 1])) {
            let q = word_end_exec(s, p);
            if q < n && s[q] == 0x2E {
                let r = word_end_exec(s, q + 1);
                if r > q + 1 && r < n && s[r] == 0x28 {
                    return Some(copy_range(s, p, r));
                }
            }
        }
        p = p + 1;
    }
    None
}

/// `s` with every `.` turned into `:`.
pub fn colon_path_bytes(s: &Vec<u8>) -> (r: Vec<u8>)
    ensures
        r@ == colon_path(s@),
{
    let mut out: Vec<u8> = Vec::new();
    let mut i: usize = 0;
    while i < s.len()
        invariant
            i <= s@.len(),
            out@ == colon_path(s@).subrange(0, i as int),
        decreases s@.len() - i,
    {
        let c = s[i];
        out.push(if c == 0x2E { 0x3A } else { c });
        i = i + 1;
        assert(out@ =~= colon_path(s@).subrange(0, i as int));
    }
    assert(colon_path(s@).subrange(0, i as int) =~= colon_path(s@));
    out
}

/// The decimal digits of `n`.
pub fn decimal_bytes(n: usize) -> (r: Vec<u8>)
    ensures
        r@ == decimal(n as nat),
    decreases n,
{
    if n < 10 {
        vec![(0x30 + n) as u8]
    } else {
        let mut r = decimal_bytes(n / 10);
        r.push((0x30 + n % 10) as u8);
        r
    }
}

} // verus!
