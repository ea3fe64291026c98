//! Record 0: the compression, text-length, record-count and encoding fields
//! at their fixed offsets, and the EXTH metadata block that follows the
//! declared header length when its flag is set. EXTH entries are
//! `(tag, length, value)` triples; unknown tags are skipped, and only
//! truncation is an error.

use vstd::prelude::*;
use crate::bytes::{be16, be32, read_be16, read_be32, subvec};
use crate::error::OpenError;

verus! {

/// The EXTH tags this reader recognizes and keeps.
pub open spec fn known_tag(tag: u32) -> bool {
    tag == 100 || tag == 101 || tag == 102 || tag == 103 || tag == 104 || tag == 105 || tag == 106
        || tag == 107 || tag == 108 || tag == 109 || tag == 113 || tag == 503 || tag == 524
}

fn is_known_tag(tag: u32) -> (r: bool)
    ensures
        r == known_tag(tag),
{
    tag == 100 || tag == 101 || tag == 102 || tag == 103 || tag == 104 || tag == 105 || tag == 106
        || tag == 107 || tag == 108 || tag == 109 || tag == 113 || tag == 503 || tag == 524
}

/// First-match lookup among parsed EXTH entries.
pub open spec fn exth_lookup(es: Seq<(u32, Seq<u8>)>, tag: u32) -> Option<Seq<u8>>
    decreases es.len(),
{
    if es.len() == 0 {
        None
    } else if es[0].0 == tag {
        Some(es[0].1)
    } else {
        exth_lookup(es.skip(1), tag)
    }
}

proof fn lemma_lookup_skip(es: Seq<(u32, Seq<u8>)>, tag: u32, i: int)
    requires
        0 <= i <= es.len(),
        forall|k: int| 0 <= k < i ==> (#[trigger] es[k]).0 != tag,
    ensures
        exth_lookup(es, tag) == exth_lookup(es.skip(i), tag),
    decreases i,
{
    if i > 0 {
        lemma_lookup_skip(es, tag, i - 1);
        assert(es.skip(i - 1)[0] == es[i - 1]);
        assert(es.skip(i - 1).skip(1) =~= es.skip(i));
    } else {
        assert(es.skip(0) =~= es);
    }
}

/// The parsed fields and EXTH entries of record 0.
pub struct Header {
    pub compression: u16,
    pub text_length: u32,
    pub text_record_count: u16,
    pub encoding: u32,
    pub exth: Vec<(u32, Vec<u8>)>,
}

pub ghost struct HeaderView {
    pub compression: u16,
    pub text_length: u32,
    pub text_record_count: u16,
    pub encoding: u32,
    pub exth: Seq<(u32, Seq<u8>)>,
}

pub open spec fn exth_view(s: Seq<(u32, Vec<u8>)>) -> Seq<(u32, Seq<u8>)> {
    s.map_values(|p: (u32, Vec<u8>)| (p.0, p.1@))
}

impl View for Header {
    type V = HeaderView;

    open spec fn view(&self) -> HeaderView {
        HeaderView {
            compression: self.compression,
            text_length: self.text_length,
            text_record_count: self.text_record_count,
            encoding: self.encoding,
            exth: exth_view(self.exth@),
        }
    }
}

pub open spec fn compression_of(rec0: Seq<u8>) -> int {
    be16(rec0, 0)
}

pub open spec fn text_length_of(rec0: Seq<u8>) -> int {
    be32(rec0, 4)
}

pub open spec fn text_record_count_of(rec0: Seq<u8>) -> int {
    be16(rec0, 8)
}

pub open spec fn header_length_of(rec0: Seq<u8>) -> int {
    be32(rec0, 20)
}

pub open spec fn encoding_of(rec0: Seq<u8>) -> int {
    be32(rec0, 28)
}

/// The EXTH flag: bit 0x40 of the 32-bit field at offset 128.
pub open spec fn exth_present(rec0: Seq<u8>) -> bool {
    (be32(rec0, 128) as u32) & 0x40 != 0
}

/// Reading `cnt` EXTH entries from `pos` on, keeping the first occurrence of
/// each known tag; `None` reports a truncated or ill-sized entry.
pub open spec fn exth_entries(
    rec0: Seq<u8>,
    pos: int,
    cnt: int,
    acc: Seq<(u32, Seq<u8>)>,
) -> Option<Seq<(u32, Seq<u8>)>>
    decreases cnt,
{
    if cnt <= 0 {
        Some(acc)
    } else if pos < 0 || pos + 8 > rec0.len() {
        None
    } else {
        let tag = be32(rec0, pos) as u32;
        let elen = be32(rec0, pos + 4);
        if elen < 8 || pos + elen > rec0.len() {
            None
        } else {
            let value = rec0.subrange(pos + 8, pos + elen);
            let acc2 = if known_tag(tag) && exth_lookup(acc, tag) is None {
                acc.push((tag, value))
            } else {
                acc
            };
            exth_entries(rec0, pos + elen, cnt - 1, acc2)
        }
    }
}

/// What interpreting record 0 yields: the header fields with the EXTH map,
/// or the exact error.
pub open spec fn header_spec(rec0: Seq<u8>) -> Result<HeaderView, OpenError> {
    if rec0.len() < 132 {
        Err(OpenError::MalformedHeader)
    } else if !exth_present(rec0) {
        Ok(
            HeaderView {
                compression: compression_of(rec0) as u16,
                text_length: text_length_of(rec0) as u32,
                text_record_count: text_record_count_of(rec0) as u16,
                encoding: encoding_of(rec0) as u32,
                exth: Seq::empty(),
            },
        )
    } else {
        let start = 16 + header_length_of(rec0);
        if start + 12 > rec0.len() {
            Err(OpenError::MalformedHeader)
        } else {
            let cnt = be32(rec0, start + 8);
            match exth_entries(rec0, start + 12, cnt, Seq::empty()) {
                Some(es) => Ok(
                    HeaderView {
                        compression: compression_of(rec0) as u16,
                        text_length: text_length_of(rec0) as u32,
                        text_record_count: text_record_count_of(rec0) as u16,
                        encoding: encoding_of(rec0) as u32,
                        exth: es,
                    },
                ),
                None => Err(OpenError::MalformedHeader),
            }
        }
    }
}

/// Scan for the first entry bearing `tag`.
pub(crate) fn find_tag(exth: &Vec<(u32, Vec<u8>)>, tag: u32) -> (r: Option<usize>)
    ensures
        match r {
            Some(ix) => ix < exth@.len() && exth@[ix as int].0 == tag && exth_lookup(
                exth_view(exth@),
                tag,
            ) == Some(exth@[ix as int].1@),
            None => exth_lookup(exth_view(exth@), tag) is None,
        },
{
    let n = exth.len();
    let mut i: usize = 0;
    while i < n
        invariant
            i <= n,
            n == exth@.len(),
            forall|k: int| 0 <= k < i ==> (#[trigger] exth@[k]).0 != tag,
        decreases n - i,
    {
        if exth[i].0 == tag {
            proof {
                assert forall|k: int| 0 <= k < i implies (#[trigger] exth_view(exth@)[k]).0
                    != tag by {
                    assert(exth_view(exth@)[k] == (exth@[k].0, exth@[k].1@));
                }
                lemma_lookup_skip(exth_view(exth@), tag, i as int);
                assert(exth_view(exth@).skip(i as int)[0] == exth_view(exth@)[i as int]);
            }
            return Some(i);
        }
        i = i + 1;
    }
    proof {
        assert forall|k: int| 0 <= k < n implies (#[trigger] exth_view(exth@)[k]).0 != tag by {
            assert(exth_view(exth@)[k] == (exth@[k].0, exth@[k].1@));
        }
        lemma_lookup_skip(exth_view(exth@), tag, n as int);
        assert(exth_view(exth@).skip(n as int).len() == 0);
    }
    None
}

/// Interpret record 0.
pub fn parse_header(rec0: &Vec<u8>) -> (r: Result<Header, OpenError>)
    ensures
        match r {
            Ok(h) => header_spec(rec0@) == Ok::<HeaderView, OpenError>(h@),
            Err(e) => header_spec(rec0@) == Err::<HeaderView, OpenError>(e),
        },
{
    let len = rec0.len();
    if len < 132 {
        return Err(OpenError::MalformedHeader);
    }
    let compression = read_be16(rec0, 0);
    let text_length = read_be32(rec0, 4);
    let text_record_count = read_be16(rec0, 8);
    let hl = read_be32(rec0, 20);
    let encoding = read_be32(rec0, 28);
    let flags = read_be32(rec0, 128);
    proof {
        assert(compression == compression_of(rec0@) as u16);
        assert(text_length == text_length_of(rec0@) as u32);
        assert(text_record_count == text_record_count_of(rec0@) as u16);
        assert(encoding == encoding_of(rec0@) as u32);
        assert(flags == be32(rec0@, 128) as u32);
    }
    let mut exth: Vec<(u32, Vec<u8>)> = Vec::new();
    if flags & 0x40 == 0 {
        proof {
            assert(!exth_present(rec0@));
            assert(exth_view(exth@) =~= Seq::<(u32, Seq<u8>)>::empty());
        }
        return Ok(Header { compression, text_length, text_record_count, encoding, exth });
    }
    proof {
        assert(exth_present(rec0@));
    }
    let start64: u64 = 16u64 + (hl as u64);
    if start64 + 12 > (len as u64) {
        proof {
            assert(16 + header_length_of(rec0@) + 12 > rec0@.len());
        }
        return Err(OpenError::MalformedHeader);
    }
    let start: usize = start64 as usize;
    proof {
        assert(start as int == 16 + header_length_of(rec0@));
    }
    let cnt = read_be32(rec0, start + 8);
    proof {
        assert(cnt as int == be32(rec0@, 16 + header_length_of(rec0@) + 8));
    }
    let mut pos: usize = start + 12;
    let mut i: u32 = 0;
    let ghost full = exth_entries(rec0@, start as int + 12, cnt as int, Seq::empty());
    proof {
        assert(exth_view(exth@) =~= Seq::<(u32, Seq<u8>)>::empty());
    }
    while i < cnt
        invariant
            i <= cnt,
            pos <= len,
            132 <= len,
            len == rec0@.len(),
            exth_present(rec0@),
            start as int == 16 + header_length_of(rec0@),
            start + 12 <= len,
            cnt as int == be32(rec0@, start as int + 8),
            full == exth_entries(rec0@, start as int + 12, cnt as int, Seq::empty()),
            exth_entries(rec0@, pos as int, cnt - i, exth_view(exth@)) == full,
        decreases cnt - i,
    {
        if len - pos < 8 {
            proof {
                assert(full is None);
            }
            return Err(OpenError::MalformedHeader);
        }
        let tag = read_be32(rec0, pos);
        let elen32 = read_be32(rec0, pos + 4);
        proof {
            assert(tag == be32(rec0@, pos as int) as u32);
        }
        if elen32 < 8 {
            proof {
                assert(full is None);
            }
            return Err(OpenError::MalformedHeader);
        }
        if (elen32 as u64) > ((len - pos) as u64) {
            proof {
                assert(pos as int + be32(rec0@, pos as int + 4) > rec0@.len());
                assert(full is None);
            }
            return Err(OpenError::MalformedHeader);
        }
        let elen: usize = elen32 as usize;
        let value = subvec(rec0, pos + 8, pos + elen);
        let ghost acc0 = exth_view(exth@);
        if is_known_tag(tag) && find_tag(&exth, tag).is_none() {
            exth.push((tag, value));
            proof {
                assert(exth_view(exth@) =~= acc0.push((tag, rec0@.subrange(
                    pos + 8,
                    pos as int + elen as int,
                ))));
            }
        }
        proof {
            assert(exth_entries(rec0@, pos as int + elen as int, cnt - i - 1, exth_view(exth@))
                == full);
        }
        pos = pos + elen;
        i = i + 1;
    }
    proof {
        assert(full == Some(exth_view(exth@)));
    }
    Ok(Header { compression, text_length, text_record_count, encoding, exth })
}

} // verus!
