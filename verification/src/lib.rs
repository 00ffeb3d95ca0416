//! A verified codec for the WebAssembly binary container format.
//!
//! The crate reads and writes modules at the section level: an 8-byte
//! header followed by a sequence of sections, each framed as a LEB128
//! identifier, a LEB128 payload length, and the payload bytes. Custom
//! sections carry an inner layout of a length-prefixed UTF-8 name
//! followed by the section data. Section contents other than this framing
//! are treated as opaque bytes and round-trip unchanged.

pub mod error;
pub mod reader;
pub mod varint;
pub mod wasm_module;
pub mod wire;

pub use error::WSError;
pub use reader::ByteReader;
pub use wasm_module::{
    CustomSection, Header, Module, Section, SectionId, SectionLike, SectionsIterator,
    StandardSection,
};
pub use wire::{SpecModule, SpecSection};
