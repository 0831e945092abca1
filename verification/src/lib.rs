//! A build-once, read-many index for linear-feedback shift register (LFSR)
//! state spaces: a deterministic sequence generator, an in-memory state
//! table grouping (state, origin) records by a coarse bucket key, a flat
//! binary serializer with a direct-lookup descriptor table, and a resolver
//! that maps a queried state value back to the (channel, step) that
//! produced it.
//!
//! One addressing width is used consistently on both sides: records are
//! grouped, and the direct-lookup table is indexed, by the low 19 bits of
//! a state value. Each 3-byte descriptor packs a record count (at most 31)
//! above a 19-bit byte offset into the data region; the serializer rejects
//! a table that exceeds either field, so a valid blob never grows beyond a
//! few megabytes and can be held in memory whole.

pub mod bits;
pub mod blob;
pub mod bytesio;
pub mod laws;
pub mod lfsr;
pub mod lookup;
pub mod table;
