//! Byte-level string helpers shared by the parsing functions.
//!
//! Tokens are handled as UTF-8 byte sequences (`str::as_bytes`): the ASCII
//! delimiters the formats use never occur inside a multi-byte encoding, so
//! byte-level scanning is exact on every input.
use vstd::prelude::*;

verus! {

/// Byte-wise equality of two slices.
pub fn bytes_eq(a: &[u8], b: &[u8]) -> (r: bool)
    ensures
        r <==> a@ == b@,
{
    if a.len() != b.len() {
        proof {
            assert(a@.len() != b@.len());
        }
        return false;
    }
    let n = a.len();
    let mut i: usize = 0;
    while i < n
        invariant
            i <= n,
            n == a@.len() == b@.len(),
            forall|j: int| 0 <= j < i ==> a@[j] == b@[j],
        decreases n - i,
    {
        if a[i] != b[i] {
            return false;
        }
        i += 1;
    }
    proof {
        assert(a@ =~= b@);
    }
    true
}

/// Whether `a` starts with `p`.
pub fn bytes_starts_with(a: &[u8], p: &[u8]) -> (r: bool)
    ensures
        r <==> (p@.len() <= a@.len() && a@.subrange(0, p@.len() as int) == p@),
{
    if a.len() < p.len() {
        return false;
    }
    let n = p.len();
    let mut i: usize = 0;
    while i < n
        invariant
            i <= n,
            n == p@.len() <= a@.len(),
            forall|j: int| 0 <= j < i ==> a@[j] == p@[j],
        decreases n - i,
    {
        if a[i] != p[i] {
            proof {
                assert(a@.subrange(0, p@.len() as int)[i as int] == a@[i as int]);
            }
            return false;
        }
        i += 1;
    }
    proof {
        assert(a@.subrange(0, p@.len() as int) =~= p@);
    }
    true
}

/// Copies `a[from..to]` into a fresh vector.
pub fn bytes_slice(a: &[u8], from: usize, to: usize) -> (r: Vec<u8>)
    requires
        from <= to <= a@.len(),
    ensures
        r@ == a@.subrange(from as int, to as int),
{
    let mut out: Vec<u8> = Vec::new();
    let mut i: usize = from;
    while i < to
        invariant
            from <= i <= to <= a@.len(),
            out@ == a@.subrange(from as int, i as int),
        decreases to - i,
    {
        out.push(a[i]);
        proof {
            assert(out@ =~= a@.subrange(from as int, i + 1 as int));
        }
        i += 1;
    }
    out
}

/// The ASCII-lowercased image of a byte sequence: `A ..= Z` shifted into
/// `a ..= z`, all other bytes unchanged.
pub open spec fn lower_byte(b: u8) -> u8 {
    if 65 <= b <= 90 {
        (b + 32) as u8
    } else {
        b
    }
}

/// ASCII-lowercases a byte string. Multi-byte UTF-8 units are above 127 and
/// pass through unchanged, so this is the ASCII part of case folding only.
pub fn ascii_lower(a: &[u8]) -> (r: Vec<u8>)
    ensures
        r@.len() == a@.len(),
        forall|i: int| 0 <= i < a@.len() ==> r@[i] == lower_byte(a@[i]),
{
    let n = a.len();
    let mut out: Vec<u8> = Vec::new();
    let mut i: usize = 0;
    while i < n
        invariant
            i <= n,
            n == a@.len(),
            out@.len() == i,
            forall|j: int| 0 <= j < i ==> out@[j] == lower_byte(a@[j]),
        decreases n - i,
    {
        let b = a[i];
        if 65 <= b && b <= 90 {
            out.push(b + 32);
        } else {
            out.push(b);
        }
        i += 1;
    }
    out
}

/// Whether `needle` occurs as a contiguous run inside `hay`.
pub open spec fn contains_sub(hay: Seq<u8>, needle: Seq<u8>) -> bool {
    exists|k: int|
        0 <= k <= hay.len() - needle.len()
            && #[trigger] hay.subrange(k, k + needle.len()) == needle
}

/// Substring search: whether `needle` occurs anywhere in `hay`.
pub fn bytes_contains(hay: &[u8], needle: &[u8]) -> (r: bool)
    ensures
        r <==> contains_sub(hay@, needle@),
{
    if needle.len() > hay.len() {
        return false;
    }
    if needle.len() == 0 {
        proof {
            assert(contains_sub(hay@, needle@)) by {
                assert(hay@.subrange(0, 0 + needle@.len() as int) =~= needle@);
            }
        }
        return true;
    }
    let count = hay.len() - needle.len() + 1;
    let mut k: usize = 0;
    while k < count
        invariant
            k <= count,
            needle@.len() >= 1,
            count == hay@.len() - needle@.len() + 1,
            hay@.len() <= usize::MAX,
            forall|j: int| 0 <= j < k ==> #[trigger] hay@.subrange(j, j + needle@.len()) != needle@,
        decreases count - k,
    {
        let mut i: usize = 0;
        let n = needle.len();
        let mut hit = true;
        while i < n
            invariant
                i <= n,
                n == needle@.len(),
                k + n <= hay@.len(),
                hay@.len() <= usize::MAX,
                hit <==> forall|j: int| 0 <= j < i ==> hay@[k + j] == needle@[j],
            decreases n - i,
        {
            if hay[k + i] != needle[i] {
                hit = false;
                i = n;
            } else {
                proof {
                    assert(hit ==> forall|j: int| 0 <= j < i + 1 ==> hay@[k + j] == needle@[j]);
                }
                i += 1;
            }
        }
        if hit {
            proof {
                assert(hay@.subrange(k as int, k + needle@.len()) =~= needle@);
            }
            return true;
        }
        proof {
            assert(hay@.subrange(k as int, k + needle@.len()) != needle@) by {
                if hay@.subrange(k as int, k + needle@.len()) == needle@ {
                    assert(exists|j: int| 0 <= j < needle@.len()
                        && hay@[k + j] != needle@[j]);
                    let j = choose|j: int| 0 <= j < needle@.len()
                        && hay@[k + j] != needle@[j];
                    assert(hay@.subrange(k as int, k + needle@.len())[j] == hay@[k + j]);
                }
            }
        }
        k += 1;
    }
    false
}

} // verus!
