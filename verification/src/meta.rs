//! Typed, read-only metadata accessors: one per recognized EXTH tag, each
//! returning the decoded value or `FieldAbsent`. No accessor has side
//! effects, so repeated calls agree.

use vstd::prelude::*;
use crate::document::{lemma_view, DocView, MobiData};
use crate::error::FieldAbsent;
use crate::header::{exth_lookup, find_tag};

verus! {

pub const TAG_AUTHOR: u32 = 100;

pub const TAG_PUBLISHER: u32 = 101;

pub const TAG_IMPRINT: u32 = 102;

pub const TAG_DESCRIPTION: u32 = 103;

pub const TAG_ISBN: u32 = 104;

pub const TAG_SUBJECT: u32 = 105;

pub const TAG_PUBLISH_DATE: u32 = 106;

pub const TAG_REVIEW: u32 = 107;

pub const TAG_CONTRIBUTOR: u32 = 108;

pub const TAG_COPYRIGHT: u32 = 109;

pub const TAG_ASIN: u32 = 113;

pub const TAG_TITLE: u32 = 503;

pub const TAG_LANGUAGE: u32 = 524;

/// What `String::from_utf8_lossy` decodes a byte sequence to.
pub uninterp spec fn utf8_lossy(bytes: Seq<u8>) -> Seq<char>;

/// Relies on `String::from_utf8_lossy`: its result is a function of the
/// bytes alone; an empty input decodes to an empty string, and all-ASCII
/// input (valid UTF-8) decodes to the same characters unchanged.
#[verifier::external_body]
pub(crate) fn decode_utf8_lossy(bytes: &Vec<u8>) -> (r: String)
    ensures
        r@ == utf8_lossy(bytes@),
        bytes@.len() == 0 ==> r@.len() == 0,
        (forall|k: int| 0 <= k < bytes@.len() ==> bytes@[k] < 0x80) ==> r@ == bytes@.map_values(
            |b: u8| b as char,
        ),
{
    String::from_utf8_lossy(bytes).into_owned()
}

/// The contract every metadata accessor meets for its tag: the decoded value
/// of the first EXTH entry bearing the tag, or `FieldAbsent` when the tag is
/// not in the document.
pub open spec fn meta_post(d: DocView, tag: u32, r: Result<String, FieldAbsent>) -> bool {
    match exth_lookup(d.header.exth, tag) {
        Some(v) => r matches Ok(s) && s@ == utf8_lossy(v),
        None => r matches Err(a) && a == FieldAbsent,
    }
}

fn get_meta(book: &MobiData, tag: u32) -> (r: Result<String, FieldAbsent>)
    ensures
        meta_post(book@, tag, r),
{
    proof {
        lemma_view(book);
    }
    match find_tag(&book.header.exth, tag) {
        Some(ix) => Ok(decode_utf8_lossy(&book.header.exth[ix].1)),
        None => Err(FieldAbsent),
    }
}

/// The title (EXTH tag 503), if present.
pub fn get_title(book: &MobiData) -> (r: Result<String, FieldAbsent>)
    ensures
        meta_post(book@, TAG_TITLE, r),
{
    get_meta(book, TAG_TITLE)
}

/// The author (EXTH tag 100), if present.
pub fn get_author(book: &MobiData) -> (r: Result<String, FieldAbsent>)
    ensures
        meta_post(book@, TAG_AUTHOR, r),
{
    get_meta(book, TAG_AUTHOR)
}

/// The publisher (EXTH tag 101), if present.
pub fn get_publisher(book: &MobiData) -> (r: Result<String, FieldAbsent>)
    ensures
        meta_post(book@, TAG_PUBLISHER, r),
{
    get_meta(book, TAG_PUBLISHER)
}

/// The imprint (EXTH tag 102), if present.
pub fn get_imprint(book: &MobiData) -> (r: Result<String, FieldAbsent>)
    ensures
        meta_post(book@, TAG_IMPRINT, r),
{
    get_meta(book, TAG_IMPRINT)
}

/// The description (EXTH tag 103), if present.
pub fn get_description(book: &MobiData) -> (r: Result<String, FieldAbsent>)
    ensures
        meta_post(book@, TAG_DESCRIPTION, r),
{
    get_meta(book, TAG_DESCRIPTION)
}

/// The ISBN (EXTH tag 104), if present.
pub fn get_isbn(book: &MobiData) -> (r: Result<String, FieldAbsent>)
    ensures
        meta_post(book@, TAG_ISBN, r),
{
    get_meta(book, TAG_ISBN)
}

/// The subject (EXTH tag 105), if present.
pub fn get_subject(book: &MobiData) -> (r: Result<String, FieldAbsent>)
    ensures
        meta_post(book@, TAG_SUBJECT, r),
{
    get_meta(book, TAG_SUBJECT)
}

/// The publishing date (EXTH tag 106), if present.
pub fn get_publish_date(book: &MobiData) -> (r: Result<String, FieldAbsent>)
    ensures
        meta_post(book@, TAG_PUBLISH_DATE, r),
{
    get_meta(book, TAG_PUBLISH_DATE)
}

/// The review (EXTH tag 107), if present.
pub fn get_review(book: &MobiData) -> (r: Result<String, FieldAbsent>)
    ensures
        meta_post(book@, TAG_REVIEW, r),
{
    get_meta(book, TAG_REVIEW)
}

/// The contributor (EXTH tag 108), if present.
pub fn get_contributer(book: &MobiData) -> (r: Result<String, FieldAbsent>)
    ensures
        meta_post(book@, TAG_CONTRIBUTOR, r),
{
    get_meta(book, TAG_CONTRIBUTOR)
}

/// The copyright notice (EXTH tag 109), if present.
pub fn get_copyright(book: &MobiData) -> (r: Result<String, FieldAbsent>)
    ensures
        meta_post(book@, TAG_COPYRIGHT, r),
{
    get_meta(book, TAG_COPYRIGHT)
}

/// The ASIN (EXTH tag 113), if present.
pub fn get_asin(book: &MobiData) -> (r: Result<String, FieldAbsent>)
    ensures
        meta_post(book@, TAG_ASIN, r),
{
    get_meta(book, TAG_ASIN)
}

/// The language (EXTH tag 524), if present.
pub fn get_language(book: &MobiData) -> (r: Result<String, FieldAbsent>)
    ensures
        meta_post(book@, TAG_LANGUAGE, r),
{
    get_meta(book, TAG_LANGUAGE)
}

/// Law: the accessor contract determines the result from the document and
/// tag alone, so reading the same field of the same document twice yields
/// identical results.
pub proof fn lemma_meta_idempotent(
    d: DocView,
    tag: u32,
    r1: Result<String, FieldAbsent>,
    r2: Result<String, FieldAbsent>,
)
    requires
        meta_post(d, tag, r1),
        meta_post(d, tag, r2),
    ensures
        r1 is Ok <==> r2 is Ok,
        r1 is Ok ==> r1->Ok_0@ == r2->Ok_0@,
{
}

} // verus!
