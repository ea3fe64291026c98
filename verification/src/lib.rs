//! A reader for MOBI e-books: the PDB record container, the MOBI header
//! with its EXTH metadata block, PalmDOC text decompression, and typed
//! accessors over the parsed document.

mod bytes;
mod error;
mod palmdoc;
mod container;
mod header;
mod document;
mod meta;

pub use bytes::{be16, be32};
pub use container::{
    container_spec, parse_record_table, record_count, record_offset, signature, signature_ok,
    table_ok, table_spec, view_pairs, RecordTable,
};
pub use document::{
    decode_record, decode_records, get_text, lemma_text_idempotent, open, open_spec, payload,
    text_post, text_spec, DocView, MobiData,
};
pub use error::{ExtractionError, FieldAbsent, OpenError};
pub use header::{
    compression_of, encoding_of, exth_entries, exth_lookup, exth_present, exth_view,
    header_length_of, header_spec, known_tag, parse_header, text_length_of, text_record_count_of,
    Header, HeaderView,
};
pub use palmdoc::{
    lemma_palmdoc_round_trip, palmdoc_compress, palmdoc_decompress, pd_comp, pd_copy, pd_decomp,
};
pub use meta::{
    get_asin, get_author, get_contributer, get_copyright, get_description, get_imprint, get_isbn,
    get_language, get_publish_date, get_publisher, get_review, get_subject, get_title,
    lemma_meta_idempotent, meta_post, utf8_lossy, TAG_ASIN, TAG_AUTHOR, TAG_CONTRIBUTOR,
    TAG_COPYRIGHT, TAG_DESCRIPTION, TAG_IMPRINT, TAG_ISBN, TAG_LANGUAGE, TAG_PUBLISHER,
    TAG_PUBLISH_DATE, TAG_REVIEW, TAG_SUBJECT, TAG_TITLE,
};
