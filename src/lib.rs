//! Typed codec for capture events.
//!
//! An event is a fixed header (timestamp, thread id, total length,
//! event-type code, field count), a table of field lengths, and the fields'
//! encodings back to back. The modules, leaves first:
//!
//! - `wire`: little-endian integers and NUL-terminated strings;
//! - `value`, `dynamic`: field types and values, and the wire format of each
//!   as a pair of spec functions (`encode_field`, `parse_field`);
//! - `codec`: decoding and encoding of single fields; `laws`: round trip,
//!   pairing, dynamic tags and defaults;
//! - `registry`, `envelope`: event kinds and their layouts, the envelope's
//!   encoding and decoding, and the envelope round trip;
//! - `owned`: owned counterparts of the borrowing values;
//! - `render`, `time_format`: human-readable text;
//! - `extract`, `storage`, `async_plugin`, `tables`: the plugin side.
pub mod wire;
pub mod dynamic;
pub mod value;
pub mod codec;
pub mod laws;
pub mod registry;
pub mod envelope;
pub mod owned;
pub mod render;
pub mod time_format;
pub mod extract;
pub mod storage;
pub mod async_plugin;
pub mod tables;
