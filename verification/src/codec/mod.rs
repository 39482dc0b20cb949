//! The JWW binary format: reading and writing documents, their records and
//! block definitions, and the inspection that decides whether a file can be
//! edited without loss.
use vstd::prelude::*;

pub mod error;
pub mod reader;
pub mod types;
pub mod decode;
pub mod archive;
pub mod writer;
pub mod encode;
pub mod header;
pub mod document;
pub mod header_read;
pub mod locate;
pub mod inspect;
pub mod preserve;
pub mod roundtrip;

pub use error::CodecError;
pub use reader::Reader;
pub use writer::Writer;
pub use types::{
    Base, BlockDefinition, DecodedBase, DecodedBlockDefinition, DecodedDocument, DecodedEntity,
    DecodedHeader, DecodedLayer, DecodedLayerGroup, Document, Header, JwwProvenanceEntry, Layer,
    LayerGroup, Record, RECORD_PROVENANCE_SCHEMA_VERSION,
};
pub use encode::EXPORT_VERSION;
pub use document::write_document;
pub use locate::{read_document, find_entity_list_offset};
pub use archive::{read_entity_list, read_block_definitions};
pub use inspect::{
    inspect_document, write_document_preserving_header, JwwCompatibilityInspection,
    JwwCompatibilityState,
};
pub use preserve::{decoded_entity_to_record, record_float_bits, restore_record_float_bits, clone_record};

verus! {

} // verus!
