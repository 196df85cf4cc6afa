//! Well-known index groups.

use vstd::prelude::*;

verus! {

/// Get a symbol handle by name; the index offset is 0.
pub const GET_SYMHANDLE_BYNAME: u32 = 0xF003;

/// Read or write the value of a symbol by handle; the index offset is the
/// handle.
pub const RW_SYMVAL_BYHANDLE: u32 = 0xF005;

/// Release a symbol handle; the index offset is 0.
pub const RELEASE_SYMHANDLE: u32 = 0xF006;

/// Write several index groups/offsets in one request.
pub const SUMUP_WRITE: u32 = 0xF081;

/// Write and read several index groups/offsets in one request.
pub const SUMUP_READWRITE: u32 = 0xF082;

/// Read several index groups/offsets in one request; each part of the reply
/// has its result code and length in front.
pub const SUMUP_READ_EX: u32 = 0xF083;

/// Add several device notifications in one request.
pub const SUMUP_ADDDEVNOTE: u32 = 0xF085;

/// Delete several device notifications in one request.
pub const SUMUP_DELDEVNOTE: u32 = 0xF086;

} // verus!
