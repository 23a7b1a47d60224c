//! Big-endian byte helpers shared by the entry-payload codec, the segment
//! store and the wire framing.

use vstd::prelude::*;

verus! {

/// The big-endian `u16` spelled by `s[i .. i + 2]`.
pub open spec fn be16(s: Seq<u8>, i: int) -> u16
    recommends
        0 <= i,
        i + 2 <= s.len(),
{
    ((s[i] as u16) * 0x100 + (s[i + 1] as u16)) as u16
}

/// Reads the big-endian `u16` at `i`.
pub fn read_u16(v: &Vec<u8>, i: usize) -> (r: u16)
    requires
        i + 2 <= v@.len(),
    ensures
        r == be16(v@, i as int),
{
    let n = v.len();
    proof {
        assert(i + 2 <= n);
    }
    (v[i] as u16) * 0x100 + (v[i + 1] as u16)
}

/// The big-endian `u32` spelled by `s[i .. i + 4]`.
pub open spec fn be32(s: Seq<u8>, i: int) -> u32
    recommends
        0 <= i,
        i + 4 <= s.len(),
{
    ((s[i] as u32) * 0x1000000 + (s[i + 1] as u32) * 0x10000 + (s[i + 2] as u32) * 0x100 + (s[i
        + 3] as u32)) as u32
}

/// The big-endian `u64` spelled by `s[i .. i + 8]`.
pub open spec fn be64(s: Seq<u8>, i: int) -> u64
    recommends
        0 <= i,
        i + 8 <= s.len(),
{
    ((be32(s, i) as u64) * 0x100000000 + (be32(s, i + 4) as u64)) as u64
}

/// The four big-endian bytes of `x`, most significant first.
pub open spec fn be32_bytes(x: u32) -> Seq<u8> {
    seq![
        (x / 0x1000000) as u8,
        ((x / 0x10000) % 0x100) as u8,
        ((x / 0x100) % 0x100) as u8,
        (x % 0x100) as u8,
    ]
}

/// The eight big-endian bytes of `x`, most significant first.
pub open spec fn be64_bytes(x: u64) -> Seq<u8> {
    be32_bytes((x / 0x100000000) as u32) + be32_bytes((x % 0x100000000) as u32)
}

/// Reads the big-endian `u32` at `i`.
pub fn read_u32(v: &Vec<u8>, i: usize) -> (r: u32)
    requires
        i + 4 <= v@.len(),
    ensures
        r == be32(v@, i as int),
{
    let n = v.len();
    proof {
        assert(i + 4 <= n);
    }
    (v[i] as u32) * 0x1000000 + (v[i + 1] as u32) * 0x10000 + (v[i + 2] as u32) * 0x100 + (v[i
        + 3] as u32)
}

/// Reads the big-endian `u64` at `i`.
pub fn read_u64(v: &Vec<u8>, i: usize) -> (r: u64)
    requires
        i + 8 <= v@.len(),
    ensures
        r == be64(v@, i as int),
{
    let n = v.len();
    proof {
        assert(i + 8 <= n);
    }
    (read_u32(v, i) as u64) * 0x100000000 + (read_u32(v, i + 4) as u64)
}

/// Appends the four big-endian bytes of `x`.
pub fn push_u32(v: &mut Vec<u8>, x: u32)
    ensures
        final(v)@ == old(v)@ + be32_bytes(x),
        final(v)@.len() == old(v)@.len() + 4,
        be32(final(v)@, old(v)@.len() as int) == x,
{
    let b0: u8 = (x >> 24) as u8;
    let b1: u8 = ((x >> 16) & 0xff) as u8;
    let b2: u8 = ((x >> 8) & 0xff) as u8;
    let b3: u8 = (x & 0xff) as u8;
    proof {
        assert(b0 == x / 0x1000000 && b1 == (x / 0x10000) % 0x100 && b2 == (x / 0x100) % 0x100
            && b3 == x % 0x100) by (bit_vector)
            requires
                b0 == (x >> 24) as u8 && b1 == ((x >> 16) & 0xff) as u8 && b2 == ((x >> 8)
                    & 0xff) as u8 && b3 == (x & 0xff) as u8,
        ;
        assert(x == (x / 0x1000000) * 0x1000000 + ((x / 0x10000) % 0x100) * 0x10000 + ((x / 0x100)
            % 0x100) * 0x100 + x % 0x100) by (bit_vector);
    }
    v.push(b0);
    v.push(b1);
    v.push(b2);
    v.push(b3);
    proof {
        assert(final(v)@ =~= old(v)@ + be32_bytes(x));
    }
}

/// Appends the eight big-endian bytes of `x`.
pub fn push_u64(v: &mut Vec<u8>, x: u64)
    ensures
        final(v)@ == old(v)@ + be64_bytes(x),
        final(v)@.len() == old(v)@.len() + 8,
        be64(final(v)@, old(v)@.len() as int) == x,
{
    let hi: u32 = (x >> 32) as u32;
    let lo: u32 = (x & 0xffffffff) as u32;
    proof {
        assert(hi == x / 0x100000000 && lo == x % 0x100000000) by (bit_vector)
            requires
                hi == (x >> 32) as u32 && lo == (x & 0xffffffff) as u32,
        ;
    }
    let ghost mid = v@ + be32_bytes(hi);
    push_u32(v, hi);
    push_u32(v, lo);
    proof {
        assert(final(v)@ =~= old(v)@ + be64_bytes(x));
        assert(be32(final(v)@, old(v)@.len() as int) == hi) by {
            assert(forall|k: int|
                0 <= k < 4 ==> (#[trigger] final(v)@[old(v)@.len() + k]) == mid[old(v)@.len() + k]);
        }
        assert(x == (x / 0x100000000) * 0x100000000 + x % 0x100000000);
    }
}

/// The `n` big-endian `u32`s packed at `i`.
pub open spec fn spec_u32s(s: Seq<u8>, i: int, n: int) -> Seq<u32>
    decreases n,
{
    if n <= 0 {
        Seq::empty()
    } else {
        spec_u32s(s, i, n - 1).push(be32(s, i + 4 * (n - 1)))
    }
}

/// Reads `n` packed big-endian `u32`s starting at `i`.
pub fn read_u32s(v: &Vec<u8>, i: usize, n: usize) -> (r: Vec<u32>)
    requires
        i + 4 * n <= v@.len(),
    ensures
        r@ == spec_u32s(v@, i as int, n as int),
        r@.len() == n,
{
    let len = v.len();
    let mut out: Vec<u32> = Vec::new();
    let mut k: usize = 0;
    while k < n
        invariant
            k <= n,
            i + 4 * n <= len,
            len == v@.len(),
            out@ == spec_u32s(v@, i as int, k as int),
            out@.len() == k,
        decreases n - k,
    {
        out.push(read_u32(v, i + 4 * k));
        k = k + 1;
    }
    out
}

/// Copies `v[a .. b]` out.
pub fn copy_range(v: &Vec<u8>, a: usize, b: usize) -> (r: Vec<u8>)
    requires
        a <= b <= v@.len(),
    ensures
        r@ == v@.subrange(a as int, b as int),
{
    let len = v.len();
    let mut out: Vec<u8> = Vec::new();
    let mut k: usize = a;
    while k < b
        invariant
            a <= k <= b <= len,
            len == v@.len(),
            out@ == v@.subrange(a as int, k as int),
        decreases b - k,
    {
        out.push(v[k]);
        proof {
            assert(out@ =~= v@.subrange(a as int, k + 1));
        }
        k = k + 1;
    }
    out
}

/// Whether two byte vectors hold the same bytes.
pub fn bytes_eq(a: &Vec<u8>, b: &Vec<u8>) -> (r: bool)
    ensures
        r == (a@ == b@),
{
    if a.len() != b.len() {
        proof {
            assert(a@ != b@);
        }
        return false;
    }
    let mut i: usize = 0;
    while i < a.len()
        invariant
            a@.len() == b@.len(),
            i <= a@.len(),
            forall|j: int| 0 <= j < i ==> a@[j] == b@[j],
        decreases a@.len() - i,
    {
        if a[i] != b[i] {
            proof {
                assert(a@[i as int] != b@[i as int]);
            }
            return false;
        }
        i = i + 1;
    }
    proof {
        assert(a@ =~= b@);
    }
    true
}

} // verus!
