//! The PDB container: a fixed 78-byte header whose type and creator fields
//! spell the signature, a 16-bit record count, and that many 8-byte record
//! descriptors. Each record runs from its offset to the next offset, the
//! last to the end of the buffer.

use vstd::prelude::*;
use crate::bytes::{be16, be32, read_be16, read_be32};
use crate::error::OpenError;

verus! {

/// The record table: `(start, end)` byte ranges into the original buffer.
pub type RecordTable = Vec<(usize, usize)>;

/// The container signature "BOOKMOBI" that stands at bytes 60..68.
pub open spec fn signature() -> Seq<u8> {
    seq![0x42u8, 0x4fu8, 0x4fu8, 0x4bu8, 0x4du8, 0x4fu8, 0x42u8, 0x49u8]
}

pub open spec fn signature_ok(buf: Seq<u8>) -> bool {
    buf.subrange(60, 68) == signature()
}

/// The number of records the container declares, at byte 76.
pub open spec fn record_count(buf: Seq<u8>) -> int {
    be16(buf, 76)
}

/// The offset declared by record descriptor `j`.
pub open spec fn record_offset(buf: Seq<u8>, j: int) -> int {
    be32(buf, 78 + 8 * j)
}

/// The descriptor list fits the buffer, no offset passes the end, and the
/// offsets strictly increase.
pub open spec fn table_ok(buf: Seq<u8>, n: int) -> bool {
    &&& 78 + 8 * n <= buf.len()
    &&& forall|j: int| 0 <= j < n ==> record_offset(buf, j) <= buf.len()
    &&& forall|j: int|
        0 <= j < n - 1 ==> #[trigger] record_offset(buf, j) < record_offset(buf, j + 1)
}

/// The `(start, end)` ranges the descriptors denote.
pub open spec fn table_spec(buf: Seq<u8>, n: int) -> Seq<(int, int)> {
    Seq::new(
        n as nat,
        |j: int|
            (
                record_offset(buf, j),
                if j == n - 1 {
                    buf.len() as int
                } else {
                    record_offset(buf, j + 1)
                },
            ),
    )
}

/// What reading the container yields: the record table, or the exact error.
pub open spec fn container_spec(buf: Seq<u8>) -> Result<Seq<(int, int)>, OpenError> {
    if buf.len() < 78 {
        Err(OpenError::TooShort)
    } else if !signature_ok(buf) {
        Err(OpenError::MalformedContainer)
    } else if record_count(buf) == 0 || !table_ok(buf, record_count(buf)) {
        Err(OpenError::MalformedContainer)
    } else {
        Ok(table_spec(buf, record_count(buf)))
    }
}

pub open spec fn view_pairs(s: Seq<(usize, usize)>) -> Seq<(int, int)> {
    s.map_values(|p: (usize, usize)| (p.0 as int, p.1 as int))
}

fn check_signature(buf: &Vec<u8>) -> (r: bool)
    requires
        buf@.len() >= 78,
    ensures
        r == signature_ok(buf@),
{
    let r = buf[60] == 0x42 && buf[61] == 0x4f && buf[62] == 0x4f && buf[63] == 0x4b && buf[64]
        == 0x4d && buf[65] == 0x4f && buf[66] == 0x42 && buf[67] == 0x49;
    proof {
        let s = buf@.subrange(60, 68);
        assert(s[0] == buf@[60] && s[1] == buf@[61] && s[2] == buf@[62] && s[3] == buf@[63] && s[4]
            == buf@[64] && s[5] == buf@[65] && s[6] == buf@[66] && s[7] == buf@[67]);
        assert(signature()[0] == 0x42 && signature()[1] == 0x4f && signature()[2] == 0x4f
            && signature()[3] == 0x4b && signature()[4] == 0x4d && signature()[5] == 0x4f
            && signature()[6] == 0x42 && signature()[7] == 0x49);
        if r {
            assert(s =~= signature());
        }
    }
    r
}

/// Read and validate the record table of the container in `buf`.
pub fn parse_record_table(buf: &Vec<u8>) -> (r: Result<RecordTable, OpenError>)
    ensures
        match r {
            Ok(t) => {
                &&& container_spec(buf@) == Ok::<Seq<(int, int)>, OpenError>(view_pairs(t@))
                &&& t@.len() >= 1
                &&& forall|k: int|
                    0 <= k < t@.len() ==> t@[k].0 <= t@[k].1 && t@[k].1 <= buf@.len()
            },
            Err(e) => container_spec(buf@) == Err::<Seq<(int, int)>, OpenError>(e),
        },
{
    let len = buf.len();
    if len < 78 {
        return Err(OpenError::TooShort);
    }
    if !check_signature(buf) {
        return Err(OpenError::MalformedContainer);
    }
    let n = read_be16(buf, 76) as usize;
    if n == 0 {
        return Err(OpenError::MalformedContainer);
    }
    if 78 + 8 * n > len {
        return Err(OpenError::MalformedContainer);
    }
    let mut offs: Vec<usize> = Vec::new();
    let mut j: usize = 0;
    while j < n
        invariant
            j <= n,
            1 <= n <= 0xffff,
            78 + 8 * n <= len,
            len == buf@.len(),
            n as int == record_count(buf@),
            offs@.len() == j,
            forall|k: int| 0 <= k < j ==> offs@[k] as int == record_offset(buf@, k),
            forall|k: int| 0 <= k < j ==> offs@[k] <= len,
            forall|k: int| 0 <= k < j - 1 ==> #[trigger] offs@[k] < offs@[k + 1],
        decreases n - j,
    {
        let off = read_be32(buf, 78 + 8 * j) as usize;
        proof {
            assert(off as int == record_offset(buf@, j as int));
        }
        if off > len {
            proof {
                assert(!table_ok(buf@, n as int));
            }
            return Err(OpenError::MalformedContainer);
        }
        if j > 0 && offs[j - 1] >= off {
            proof {
                assert(record_offset(buf@, j - 1) >= record_offset(buf@, j as int));
                assert(!table_ok(buf@, n as int));
            }
            return Err(OpenError::MalformedContainer);
        }
        offs.push(off);
        j = j + 1;
    }
    proof {
        assert(table_ok(buf@, n as int));
    }
    let mut recs: Vec<(usize, usize)> = Vec::new();
    let mut k: usize = 0;
    while k < n
        invariant
            k <= n,
            1 <= n,
            len == buf@.len(),
            n as int == record_count(buf@),
            offs@.len() == n,
            forall|q: int| 0 <= q < n ==> offs@[q] as int == record_offset(buf@, q),
            forall|q: int| 0 <= q < n ==> offs@[q] <= len,
            forall|q: int| 0 <= q < n - 1 ==> #[trigger] offs@[q] < offs@[q + 1],
            recs@.len() == k,
            forall|q: int|
                0 <= q < k ==> (recs@[q].0 as int, recs@[q].1 as int) == table_spec(
                    buf@,
                    n as int,
                )[q],
            forall|q: int| 0 <= q < k ==> recs@[q].0 <= recs@[q].1 && recs@[q].1 <= len,
        decreases n - k,
    {
        let start = offs[k];
        let end = if k == n - 1 {
            len
        } else {
            offs[k + 1]
        };
        recs.push((start, end));
        k = k + 1;
    }
    proof {
        assert(view_pairs(recs@) =~= table_spec(buf@, n as int));
    }
    Ok(recs)
}

} // verus!
