//! Verified core of the `.wraith` name registry: names mapped to stealth
//! meta-addresses, the reverse lookup, and optional owner-gated metadata.

pub mod bytes;
pub mod hashing;
pub mod laws;
pub mod metadata;
pub mod registry;
pub mod table;

pub use metadata::{
    validate_metadata_entry, validate_text_record, validate_text_records, MetadataEntry,
    MetadataError, TextRecords, MAX_METADATA_TOTAL_BYTES, MAX_TEXT_RECORD_BYTES, MAX_TEXT_RECORD_KEY_BYTES,
    MAX_TEXT_RECORD_VALUE_BYTES,
};
pub use registry::{NameEntry, NamesError, WraithNamesContract};
