//! PalmDOC text compression: an LZ77-style byte code with literal runs,
//! back-references of length 3..=10 at distance 1..=2047, and a one-byte
//! shortcut for a space followed by an ASCII letter-range byte.

use vstd::prelude::*;

verus! {

/// Append to `out` the `len` bytes found by copying, one at a time, the byte
/// `dist` positions back from the end (so a copy may overlap what it appends).
pub open spec fn pd_copy(out: Seq<u8>, dist: int, len: int) -> Seq<u8>
    decreases len,
{
    if len <= 0 || dist < 1 || dist > out.len() {
        out
    } else {
        pd_copy(out.push(out[out.len() - dist]), dist, len - 1)
    }
}

/// What decoding the remaining stream `inp` appends after `out`:
/// `None` means the stream is corrupt (a truncated code, or a back-reference
/// whose distance is zero or reaches before the start of the output).
pub open spec fn pd_decomp(inp: Seq<u8>, out: Seq<u8>) -> Option<Seq<u8>>
    decreases inp.len(),
{
    if inp.len() == 0 {
        Some(out)
    } else {
        let c = inp[0];
        if c == 0x00 {
            pd_decomp(inp.skip(1), out.push(0x00))
        } else if c <= 0x08 {
            if 1 + c <= inp.len() {
                pd_decomp(inp.skip(1 + c as int), out + inp.subrange(1, 1 + c as int))
            } else {
                None
            }
        } else if c <= 0x7f {
            pd_decomp(inp.skip(1), out.push(c))
        } else if c <= 0xbf {
            if inp.len() >= 2 {
                let v = (c - 0x80) * 0x100 + inp[1];
                let dist = v / 8;
                let len = v % 8 + 3;
                if 1 <= dist && dist <= out.len() {
                    pd_decomp(inp.skip(2), pd_copy(out, dist, len))
                } else {
                    None
                }
            } else {
                None
            }
        } else {
            pd_decomp(inp.skip(1), out.push(0x20).push((c - 0x80) as u8))
        }
    }
}

/// The stream this crate's compressor emits for `inp`: space pairs become the
/// one-byte shortcut, plain text bytes stand for themselves, and every other
/// byte is escaped as a literal run of one.
pub open spec fn pd_comp(inp: Seq<u8>) -> Seq<u8>
    decreases inp.len(),
{
    if inp.len() == 0 {
        Seq::empty()
    } else {
        let b = inp[0];
        if b == 0x20 && inp.len() >= 2 && 0x40 <= inp[1] && inp[1] <= 0x7f {
            seq![(inp[1] + 0x80) as u8] + pd_comp(inp.skip(2))
        } else if 0x09 <= b && b <= 0x7f {
            seq![b] + pd_comp(inp.skip(1))
        } else {
            seq![1u8, b] + pd_comp(inp.skip(1))
        }
    }
}

proof fn lemma_round_trip_gen(inp: Seq<u8>, out: Seq<u8>)
    ensures
        pd_decomp(pd_comp(inp), out) == Some(out + inp),
    decreases inp.len(),
{
    if inp.len() == 0 {
        assert(out + inp =~= out);
    } else {
        let b = inp[0];
        let s = pd_comp(inp);
        if b == 0x20 && inp.len() >= 2 && 0x40 <= inp[1] && inp[1] <= 0x7f {
            let e = (inp[1] + 0x80) as u8;
            assert(s == seq![e] + pd_comp(inp.skip(2)));
            assert(s[0] == e && 0xc0 <= e);
            assert(s.skip(1) =~= pd_comp(inp.skip(2)));
            assert((e - 0x80) as u8 == inp[1]);
            lemma_round_trip_gen(inp.skip(2), out.push(0x20).push(inp[1]));
            assert(out.push(0x20).push(inp[1]) + inp.skip(2) =~= out + inp);
        } else if 0x09 <= b && b <= 0x7f {
            assert(s == seq![b] + pd_comp(inp.skip(1)));
            assert(s[0] == b);
            assert(s.skip(1) =~= pd_comp(inp.skip(1)));
            lemma_round_trip_gen(inp.skip(1), out.push(b));
            assert(out.push(b) + inp.skip(1) =~= out + inp);
        } else {
            assert(s == seq![1u8, b] + pd_comp(inp.skip(1)));
            assert(s[0] == 1 && s.len() >= 2);
            assert(out + s.subrange(1, 2) =~= out.push(b));
            assert(s.skip(2) =~= pd_comp(inp.skip(1)));
            lemma_round_trip_gen(inp.skip(1), out.push(b));
            assert(out.push(b) + inp.skip(1) =~= out + inp);
        }
    }
}

/// Law: decoding what the compressor produced restores the input exactly.
pub proof fn lemma_palmdoc_round_trip(data: Seq<u8>)
    ensures
        pd_decomp(pd_comp(data), Seq::empty()) == Some(data),
{
    lemma_round_trip_gen(data, Seq::empty());
    assert(Seq::<u8>::empty() + data =~= data);
}

/// Compress one text record.
pub fn palmdoc_compress(inp: &Vec<u8>) -> (r: Vec<u8>)
    ensures
        r@ == pd_comp(inp@),
{
    let n = inp.len();
    let mut r: Vec<u8> = Vec::new();
    let mut i: usize = 0;
    proof {
        assert(inp@.skip(0) =~= inp@);
        assert(r@ + pd_comp(inp@) =~= pd_comp(inp@));
    }
    while i < n
        invariant
            i <= n,
            n == inp@.len(),
            pd_comp(inp@) == r@ + pd_comp(inp@.skip(i as int)),
        decreases n - i,
    {
        let ghost rest = inp@.skip(i as int);
        proof {
            assert(rest[0] == inp@[i as int]);
        }
        let b = inp[i];
        if b == 0x20 && i + 1 < n && 0x40 <= inp[i + 1] && inp[i + 1] <= 0x7f {
            proof {
                assert(rest[1] == inp@[i + 1]);
                assert(rest.skip(2) =~= inp@.skip(i + 2));
            }
            let e = inp[i + 1] + 0x80;
            let ghost r0 = r@;
            r.push(e);
            proof {
                assert(r@ =~= r0 + seq![e]);
                assert(r0 + (seq![e] + pd_comp(inp@.skip(i + 2))) =~= (r0 + seq![e]) + pd_comp(
                    inp@.skip(i + 2),
                ));
            }
            i = i + 2;
        } else if 0x09 <= b && b <= 0x7f {
            proof {
                assert(rest.skip(1) =~= inp@.skip(i + 1));
            }
            let ghost r0 = r@;
            r.push(b);
            proof {
                assert(r@ =~= r0 + seq![b]);
                assert(r0 + (seq![b] + pd_comp(inp@.skip(i + 1))) =~= (r0 + seq![b]) + pd_comp(
                    inp@.skip(i + 1),
                ));
            }
            i = i + 1;
        } else {
            proof {
                assert(rest.skip(1) =~= inp@.skip(i + 1));
            }
            let ghost r0 = r@;
            r.push(1);
            r.push(b);
            proof {
                assert(r@ =~= r0 + seq![1u8, b]);
                assert(r0 + (seq![1u8, b] + pd_comp(inp@.skip(i + 1))) =~= (r0 + seq![1u8, b])
                    + pd_comp(inp@.skip(i + 1)));
            }
            i = i + 1;
        }
    }
    proof {
        assert(inp@.skip(n as int) =~= Seq::<u8>::empty());
        assert(r@ + pd_comp(Seq::<u8>::empty()) =~= r@);
    }
    r
}

/// Decompress one text record; `None` reports a corrupt stream.
pub fn palmdoc_decompress(inp: &Vec<u8>) -> (r: Option<Vec<u8>>)
    ensures
        match r {
            Some(out) => pd_decomp(inp@, Seq::empty()) == Some(out@),
            None => pd_decomp(inp@, Seq::empty()) is None,
        },
{
    let n = inp.len();
    let mut out: Vec<u8> = Vec::new();
    let mut i: usize = 0;
    proof {
        assert(inp@.skip(0) =~= inp@);
        assert(out@ =~= Seq::<u8>::empty());
    }
    while i < n
        invariant
            i <= n,
            n == inp@.len(),
            pd_decomp(inp@.skip(i as int), out@) == pd_decomp(inp@, Seq::empty()),
        decreases n - i,
    {
        let ghost rest = inp@.skip(i as int);
        proof {
            assert(rest[0] == inp@[i as int]);
        }
        let c = inp[i];
        if c == 0x00 {
            proof {
                assert(rest.skip(1) =~= inp@.skip(i + 1));
            }
            out.push(0x00);
            i = i + 1;
        } else if c <= 0x08 {
            let cnt = c as usize;
            if cnt + 1 > n - i {
                return None;
            }
            proof {
                assert(rest.subrange(1, 1 + c as int) =~= inp@.subrange(
                    i + 1,
                    i + 1 + cnt as int,
                ));
                assert(rest.skip(1 + c as int) =~= inp@.skip(i + 1 + cnt as int));
            }
            let ghost out0 = out@;
            let mut k: usize = 0;
            while k < cnt
                invariant
                    k <= cnt,
                    i + 1 + cnt <= n,
                    n == inp@.len(),
                    out@ == out0 + inp@.subrange(i + 1, i + 1 + k as int),
                decreases cnt - k,
            {
                out.push(inp[i + 1 + k]);
                proof {
                    assert(out@ =~= out0 + inp@.subrange(i + 1, i + 1 + (k + 1)));
                }
                k = k + 1;
            }
            i = i + 1 + cnt;
        } else if c <= 0x7f {
            proof {
                assert(rest.skip(1) =~= inp@.skip(i + 1));
            }
            out.push(c);
            i = i + 1;
        } else if c <= 0xbf {
            if n - i < 2 {
                return None;
            }
            proof {
                assert(rest[1] == inp@[i + 1]);
                assert(rest.skip(2) =~= inp@.skip(i + 2));
            }
            let v: u16 = (c as u16 - 0x80) * 0x100 + (inp[i + 1] as u16);
            let dist = (v / 8) as usize;
            let l = (v % 8 + 3) as usize;
            if dist < 1 || dist > out.len() {
                return None;
            }
            let ghost out0 = out@;
            let mut k: usize = 0;
            while k < l
                invariant
                    k <= l,
                    1 <= dist,
                    dist <= out@.len(),
                    pd_copy(out0, dist as int, l as int) == pd_copy(out@, dist as int, (l - k) as int),
                decreases l - k,
            {
                let b = out[out.len() - dist];
                out.push(b);
                k = k + 1;
            }
            proof {
                assert(out@ == pd_copy(out0, dist as int, l as int));
            }
            i = i + 2;
        } else {
            proof {
                assert(rest.skip(1) =~= inp@.skip(i + 1));
            }
            out.push(0x20);
            out.push(c - 0x80);
            i = i + 1;
        }
    }
    proof {
        assert(inp@.skip(n as int) =~= Seq::<u8>::empty());
    }
    Some(out)
}

} // verus!
