//! Data model and wire codec for a line-delimited, JSON-based data-extraction
//! protocol spoken between a data producer (a "tap") and a data consumer
//! (a "target").
//!
//! The crate defines the three message variants exchanged on the data channel
//! (`RECORD`, `SCHEMA`, `STATE`), the metric structure used for out-of-band
//! telemetry, and the catalog structures that describe discoverable data
//! sources, together with encoders and decoders that pin down the exact
//! on-wire JSON shape: field names, tag values, omission of unset optional
//! fields, and RFC 3339 timestamps with an explicit offset.

pub mod json;
pub mod timestamp;
pub mod error;
pub mod message;
pub mod metric;
pub mod catalog;
