//! A safe, verified model of the video-analytics metadata that a native
//! inference library attaches to multimedia pipeline buffers.
//!
//! The native layout is a type-tagged envelope whose payload aggregates
//! per-frame records, each carrying per-object records, all linked through
//! intrusive lists of separately allocated nodes.  This crate mirrors that
//! shape with plain values: node memory becomes an indexed arena, pointers
//! become indices, and every accessor and traversal carries a contract.
//! Reading the foreign memory itself and filling these structures from it is
//! left to unverified glue outside the library.

pub mod label;
pub mod meta;
pub mod nvlist;

pub use meta::NvBbox_Coords;
pub use meta::NVDS_GST_BATCH_META;
pub use meta::NVDS_GST_CUSTOM_META;
pub use meta::NvDsBatchMeta;
pub use meta::NvDsFrameMeta;
pub use meta::NvDsMeta;
pub use meta::NvDsObjectMeta;
