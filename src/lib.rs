//! Bindings between guest values and the managed-object heap of an
//! AssemblyScript-compatible host.
//!
//! Guest memory is one linear array of bytes, a [`heap::Heap`]. Every
//! host-visible object is a block in it: a 20-byte header (allocation size,
//! alignment, offset of the data from the block's root, runtime type id,
//! payload length) right before a 16-byte aligned data pointer. Addresses are
//! 32-bit offsets into that memory, and 0 is the null pointer.
//!
//! - `heap`: the allocator, its headers and the release of blocks.
//! - `sequence`: runs of 8-, 16- and 32-bit items, and their count read back
//!   from the header.
//! - `boxed`: owning, borrowed and nullable handles to blocks.
//! - `string`: UTF-16 strings and their conversion to and from `String`.
//! - `buf`, `num`: byte buffers, typed views of them, big numbers.
//! - `value`: arrays, maps, results and the three tagged unions.
//! - `records`: the Ethereum records that the host hands to handlers.
//! - `eth`, `entity`, `json`: whole value trees written to and read from the
//!   heap, each against a model of its content.
//! - `deploy`, `log`: the deployment tool's decisions; log levels.
//!
//! Blocks are only ever appended, and a block's children are written before
//! it, so every pointer inside a tree points below its parent. Readers rely
//! on that order: it bounds every walk, and a tree read once reads the same
//! after later allocations.

pub mod heap;
pub mod sequence;
pub mod boxed;
pub mod string;
pub mod buf;
pub mod num;
pub mod value;
pub mod records;
pub mod eth;
pub mod entity;
pub mod json;
pub mod deploy;
pub mod log;
