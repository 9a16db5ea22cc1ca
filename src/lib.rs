//! Profile aggregation and `pprof` encoding for a profiler embedded in a
//! host process: strings and symbols are interned, samples are summed by
//! stack and labels, endpoints are attached to samples by span id, and the
//! whole is emitted as a `pprof` protocol buffer.
use vstd::prelude::*;

pub mod api;
pub mod collections;
pub mod ffi_vec;
pub mod interning;
pub mod laws;
pub mod pprof;
pub mod profile;
pub mod profiled_endpoints;
pub mod resolve;
pub mod storage;
pub mod string_table;
pub mod time;
pub mod wire;

verus! {

} // verus!
