//! A flat, file-backed physical-memory image.
//!
//! The crate exposes a linear byte image, optionally relocated to a non-zero
//! base address, through one batched read/write/metadata interface.  An
//! address remapper translates requested physical addresses into offsets of
//! the backing image; a read-only and a read-write backend serve the bytes
//! behind one facade.

pub mod args;
pub mod error;
pub mod mem;
pub mod remap;

pub use args::help;
pub use args::parse_base_arg;
pub use args::resolve_base;
pub use error::MemError;
pub use mem::Backend;
pub use mem::MemRaw;
pub use mem::MemoryMetadata;
pub use mem::ReadRequest;
pub use mem::WriteRequest;
pub use remap::AddressRemapper;
pub use remap::RemapEntry;
