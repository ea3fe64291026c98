//! The document itself: `open` parses the container and record 0 in one
//! pass and either yields a fully loaded value or fails; `get_text` decodes
//! the text records on demand, so a corrupt text stream never blocks the
//! metadata accessors.

use vstd::prelude::*;
use crate::bytes::subvec;
use crate::container::{container_spec, parse_record_table, view_pairs};
use crate::error::{ExtractionError, OpenError};
use crate::header::{header_spec, Header, HeaderView, parse_header};
use crate::meta::{decode_utf8_lossy, utf8_lossy};
use crate::palmdoc::pd_decomp;

verus! {

/// One parsed document: the raw buffer, its record table, and the parsed
/// header with the EXTH map. Immutable after construction.
pub struct MobiData {
    pub(crate) buf: Vec<u8>,
    pub(crate) records: Vec<(usize, usize)>,
    pub(crate) header: Header,
}

/// The mathematical content of a document.
pub ghost struct DocView {
    pub buf: Seq<u8>,
    pub records: Seq<(int, int)>,
    pub header: HeaderView,
}

impl View for MobiData {
    type V = DocView;

    closed spec fn view(&self) -> DocView {
        DocView { buf: self.buf@, records: view_pairs(self.records@), header: self.header@ }
    }
}

impl MobiData {
    #[verifier::type_invariant]
    spec fn wf(self) -> bool {
        forall|k: int|
            0 <= k < self.records@.len() ==> (#[trigger] self.records@[k]).0
                <= self.records@[k].1 && self.records@[k].1 <= self.buf@.len()
    }
}

/// How a document's view is made of its parts.
pub(crate) proof fn lemma_view(d: &MobiData)
    ensures
        d@.buf == d.buf@,
        d@.records == view_pairs(d.records@),
        d@.header == d.header@,
{
}

/// What opening a byte buffer yields: the parsed document, or the exact
/// error.
pub open spec fn open_spec(bytes: Seq<u8>) -> Result<DocView, OpenError> {
    match container_spec(bytes) {
        Err(e) => Err(e),
        Ok(recs) => {
            let rec0 = bytes.subrange(recs[0].0, recs[0].1);
            match header_spec(rec0) {
                Err(e) => Err(e),
                Ok(h) => Ok(DocView { buf: bytes, records: recs, header: h }),
            }
        },
    }
}

/// Parse a document from an in-memory buffer.
pub fn open(bytes: Vec<u8>) -> (r: Result<MobiData, OpenError>)
    ensures
        match r {
            Ok(d) => open_spec(bytes@) == Ok::<DocView, OpenError>(d@),
            Err(e) => open_spec(bytes@) == Err::<DocView, OpenError>(e),
        },
        bytes@.len() < 78 ==> (r matches Err(e) && e == OpenError::TooShort),
{
    let recs = match parse_record_table(&bytes) {
        Ok(t) => t,
        Err(e) => { return Err(e) },
    };
    let p = recs[0];
    let rec0 = subvec(&bytes, p.0, p.1);
    let header = match parse_header(&rec0) {
        Ok(h) => h,
        Err(e) => { return Err(e) },
    };
    let d = MobiData { buf: bytes, records: recs, header };
    Ok(d)
}

/// The bytes of record `j`.
pub open spec fn payload(d: DocView, j: int) -> Seq<u8> {
    d.buf.subrange(d.records[j].0, d.records[j].1)
}

/// What record `j` contributes to the text: its bytes verbatim when the
/// header declares no compression, else its PalmDOC decoding.
pub open spec fn decode_record(d: DocView, j: int) -> Option<Seq<u8>> {
    if d.header.compression == 1 {
        Some(payload(d, j))
    } else {
        pd_decomp(payload(d, j), Seq::empty())
    }
}

/// The concatenated decodings of records `1 .. upto`, or `None` if any of
/// them fails.
pub open spec fn decode_records(d: DocView, upto: int) -> Option<Seq<u8>>
    decreases upto,
{
    if upto <= 1 {
        Some(Seq::empty())
    } else {
        match (decode_records(d, upto - 1), decode_record(d, upto - 1)) {
            (Some(a), Some(b)) => Some(a + b),
            _ => None,
        }
    }
}

/// What text extraction yields over the document's view.
pub open spec fn text_spec(d: DocView) -> Result<Seq<u8>, ExtractionError> {
    if d.header.compression != 1 && d.header.compression != 2 {
        Err(ExtractionError::UnsupportedCompression)
    } else if 1 + d.header.text_record_count as int > d.records.len() {
        Err(ExtractionError::MissingTextRecords)
    } else {
        match decode_records(d, 1 + d.header.text_record_count as int) {
            Some(b) => Ok(b),
            None => Err(ExtractionError::CorruptRecord),
        }
    }
}

/// The contract of `get_text`: the extracted bytes decoded as UTF-8, or the
/// exact error.
pub open spec fn text_post(d: DocView, r: Result<String, ExtractionError>) -> bool {
    match text_spec(d) {
        Ok(bytes) => r matches Ok(s) && s@ == utf8_lossy(bytes),
        Err(e) => r matches Err(e2) && e2 == e,
    }
}

proof fn lemma_decode_none(d: DocView, j: int, upto: int)
    requires
        1 <= j < upto,
        decode_record(d, j) is None,
    ensures
        decode_records(d, upto) is None,
    decreases upto,
{
    if j < upto - 1 {
        lemma_decode_none(d, j, upto - 1);
    }
}

/// Decode the document's text records into one string.
pub fn get_text(book: &MobiData) -> (r: Result<String, ExtractionError>)
    ensures
        text_post(book@, r),
{
    let comp = book.header.compression;
    if comp != 1 && comp != 2 {
        return Err(ExtractionError::UnsupportedCompression);
    }
    let cnt = book.header.text_record_count as usize;
    if cnt + 1 > book.records.len() {
        return Err(ExtractionError::MissingTextRecords);
    }
    let mut outb: Vec<u8> = Vec::new();
    let mut j: usize = 1;
    proof {
        assert(outb@ =~= Seq::<u8>::empty());
    }
    while j < cnt + 1
        invariant
            1 <= j <= cnt + 1,
            cnt + 1 <= book.records@.len(),
            cnt as int == book@.header.text_record_count as int,
            comp == book@.header.compression,
            comp == 1 || comp == 2,
            decode_records(book@, j as int) == Some(outb@),
        decreases cnt + 1 - j,
    {
        proof {
            use_type_invariant(book);
            assert(book@.records[j as int] == (book.records@[j as int].0 as int,
            book.records@[j as int].1 as int));
        }
        let p = book.records[j];
        let rec = subvec(&book.buf, p.0, p.1);
        proof {
            assert(rec@ == payload(book@, j as int));
        }
        if comp == 1 {
            proof {
                assert(decode_record(book@, j as int) == Some(rec@));
            }
            let mut rec2 = rec;
            outb.append(&mut rec2);
        } else {
            match crate::palmdoc::palmdoc_decompress(&rec) {
                Some(dec) => {
                    proof {
                        assert(decode_record(book@, j as int) == Some(dec@));
                    }
                    let mut dec2 = dec;
                    outb.append(&mut dec2);
                },
                None => {
                    proof {
                        assert(decode_record(book@, j as int) is None);
                        lemma_decode_none(book@, j as int, cnt as int + 1);
                    }
                    return Err(ExtractionError::CorruptRecord);
                },
            }
        }
        j = j + 1;
    }
    proof {
        assert(text_spec(book@) == Ok::<Seq<u8>, ExtractionError>(outb@));
    }
    let s = decode_utf8_lossy(&outb);
    Ok(s)
}

/// Law: the text contract determines the result from the document alone, so
/// extracting the text twice from the same document yields identical
/// results.
pub proof fn lemma_text_idempotent(
    d: DocView,
    r1: Result<String, ExtractionError>,
    r2: Result<String, ExtractionError>,
)
    requires
        text_post(d, r1),
        text_post(d, r2),
    ensures
        r1 is Ok <==> r2 is Ok,
        r1 is Ok ==> r1->Ok_0@ == r2->Ok_0@,
        r1 is Err ==> r1->Err_0 == r2->Err_0,
{
}

} // verus!
