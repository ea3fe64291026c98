//! Big-endian integer reads and byte-range copies over `Vec<u8>` buffers.

use vstd::prelude::*;

verus! {

/// Big-endian 16-bit value at position `i` of `s`, as a mathematical integer.
pub open spec fn be16(s: Seq<u8>, i: int) -> int {
    s[i] * 0x100 + s[i + 1]
}

/// Big-endian 32-bit value at position `i` of `s`, as a mathematical integer.
pub open spec fn be32(s: Seq<u8>, i: int) -> int {
    s[i] * 0x1000000 + s[i + 1] * 0x10000 + s[i + 2] * 0x100 + s[i + 3]
}

pub fn read_be16(s: &Vec<u8>, i: usize) -> (r: u16)
    requires
        i + 2 <= s@.len(),
    ensures
        r as int == be16(s@, i as int),
{
    let n = s.len();
    proof {
        assert(i + 2 <= n);
    }
    (s[i] as u16) * 0x100 + (s[i + 1] as u16)
}

pub fn read_be32(s: &Vec<u8>, i: usize) -> (r: u32)
    requires
        i + 4 <= s@.len(),
    ensures
        r as int == be32(s@, i as int),
{
    let n = s.len();
    proof {
        assert(i + 4 <= n);
    }
    (s[i] as u32) * 0x1000000 + (s[i + 1] as u32) * 0x10000 + (s[i + 2] as u32) * 0x100
        + (s[i + 3] as u32)
}

/// Owned copy of `s[start..end]`.
pub fn subvec(s: &Vec<u8>, start: usize, end: usize) -> (r: Vec<u8>)
    requires
        start <= end,
        end <= s@.len(),
    ensures
        r@ == s@.subrange(start as int, end as int),
{
    let mut r: Vec<u8> = Vec::new();
    let mut i: usize = start;
    while i < end
        invariant
            start <= i <= end,
            end <= s@.len(),
            r@ == s@.subrange(start as int, i as int),
        decreases end - i,
    {
        r.push(s[i]);
        proof {
            assert(r@ =~= s@.subrange(start as int, (i + 1) as int));
        }
        i = i + 1;
    }
    r
}

} // verus!
