//! Small verified building blocks on byte strings: copying and appending
//! ranges, and comparing ranges.
use vstd::prelude::*;

verus! {

/// A copy of `v[a..b]`.
pub fn copy_range(v: &[u8], a: usize, b: usize) -> (r: Vec<u8>)
    requires
        a <= b <= v@.len(),
    ensures
        r@ == v@.subrange(a as int, b as int),
{
    let mut out: Vec<u8> = Vec::with_capacity(b - a);
    append_range(&mut out, v, a, b);
    assert(out@ =~= v@.subrange(a as int, b as int));
    out
}

/// Append `v[a..b]` to `out`.
pub fn append_range(out: &mut Vec<u8>, v: &[u8], a: usize, b: usize)
    requires
        a <= b <= v@.len(),
    ensures
        final(out)@ == old(out)@ + v@.subrange(a as int, b as int),
{
    let mut i = a;
    while i < b
        invariant
            a <= i <= b <= v@.len(),
            out@ == old(out)@ + v@.subrange(a as int, i as int),
        decreases b - i,
    {
        out.push(v[i]);
        proof {
            assert(v@.subrange(a as int, i + 1) =~= v@.subrange(a as int, i as int).push(v@[i as int]));
        }
        i = i + 1;
    }
}

/// Append all of `v` to `out`.
pub fn append_all(out: &mut Vec<u8>, v: &[u8])
    ensures
        final(out)@ == old(out)@ + v@,
{
    let n = v.len();
    append_range(out, v, 0, n);
    assert(v@.subrange(0, n as int) =~= v@);
}

/// Is `v[a..a + w.len()]` equal to `w`?
pub fn range_eq(v: &[u8], a: usize, w: &[u8]) -> (r: bool)
    requires
        a <= v@.len(),
    ensures
        r == (a + w@.len() <= v@.len() && v@.subrange(a as int, a + w@.len()) == w@),
{
    let n = w.len();
    let vn = v.len();
    if n > vn - a {
        return false;
    }
    let mut k: usize = 0;
    while k < n
        invariant
            n == w@.len(),
            vn == v@.len(),
            k <= n,
            a + n <= v@.len(),
            v@.subrange(a as int, a + k) =~= w@.subrange(0, k as int),
        decreases n - k,
    {
        if v[a + k] != w[k] {
            assert(v@.subrange(a as int, a + n)[k as int] != w@[k as int]);
            return false;
        }
        proof {
            assert(v@.subrange(a as int, a + k + 1) =~= v@.subrange(a as int, a + k).push(v@[a + k]));
            assert(w@.subrange(0, k + 1) =~= w@.subrange(0, k as int).push(w@[k as int]));
        }
        k = k + 1;
    }
    assert(w@.subrange(0, n as int) =~= w@);
    true
}

/// Byte-wise lexicographic order.
pub open spec fn bytes_less(a: Seq<u8>, b: Seq<u8>) -> bool
    decreases a.len(),
{
    if a.len() == 0 {
        b.len() > 0
    } else if b.len() == 0 {
        false
    } else if a[0] != b[0] {
        a[0] < b[0]
    } else {
        bytes_less(a.skip(1), b.skip(1))
    }
}

pub proof fn lemma_bytes_less_step(a: Seq<u8>, b: Seq<u8>, i: int)
    requires
        0 <= i < a.len(),
        i < b.len(),
        a[i] == b[i],
    ensures
        bytes_less(a.skip(i), b.skip(i)) == bytes_less(a.skip(i + 1), b.skip(i + 1)),
{
    assert(a.skip(i).skip(1) =~= a.skip(i + 1));
    assert(b.skip(i).skip(1) =~= b.skip(i + 1));
}

/// Byte-wise lexicographic order.
pub fn bytes_less_exec(a: &[u8], b: &[u8]) -> (r: bool)
    ensures
        r == bytes_less(a@, b@),
{
    let na = a.len();
    let nb = b.len();
    let mut i: usize = 0;
    assert(a@.skip(0) =~= a@ && b@.skip(0) =~= b@);
    while i < na && i < nb && a[i] == b[i]
        invariant
            na == a@.len(),
            nb == b@.len(),
            i <= na,
            i <= nb,
            bytes_less(a@, b@) == bytes_less(a@.skip(i as int), b@.skip(i as int)),
        decreases na - i,
    {
        proof {
            lemma_bytes_less_step(a@, b@, i as int);
        }
        i = i + 1;
    }
    if i == na {
        i < nb
    } else if i == nb {
        false
    } else {
        a[i] < b[i]
    }
}

pub proof fn lemma_bytes_less_irreflexive(a: Seq<u8>)
    ensures
        !bytes_less(a, a),
    decreases a.len(),
{
    if a.len() > 0 {
        lemma_bytes_less_irreflexive(a.skip(1));
    }
}

pub proof fn lemma_bytes_less_transitive(a: Seq<u8>, b: Seq<u8>, c: Seq<u8>)
    requires
        bytes_less(a, b),
        bytes_less(b, c),
    ensures
        bytes_less(a, c),
    decreases a.len(),
{
    if a.len() > 0 && b.len() > 0 && c.len() > 0 && a[0] == b[0] && b[0] == c[0] {
        lemma_bytes_less_transitive(a.skip(1), b.skip(1), c.skip(1));
    }
}

pub proof fn lemma_bytes_less_total(a: Seq<u8>, b: Seq<u8>)
    ensures
        a == b || bytes_less(a, b) || bytes_less(b, a),
    decreases a.len(),
{
    if a.len() > 0 && b.len() > 0 && a[0] == b[0] {
        lemma_bytes_less_total(a.skip(1), b.skip(1));
        if a.skip(1) == b.skip(1) {
            assert(a =~= seq![a[0]] + a.skip(1));
            assert(b =~= seq![b[0]] + b.skip(1));
        }
    } else if a.len() == 0 && b.len() == 0 {
        assert(a =~= b);
    }
}

} // verus!
