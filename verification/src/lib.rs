//! Parsers for compiler conformance fixtures: multi-file test units and the
//! recorded "errors" and "types" baselines they are checked against.
//!
//! Every parser works on a caller-supplied byte buffer and hands back values
//! that borrow from it. The functional meaning of each parser is given by a
//! spec function over `Seq<u8>`; the executable code is proved to agree with it.
//! A parser has three entries: `accepts` says whether the data are
//! well-formed, `parse` takes well-formed data, and `try_parse` takes any.

pub mod baseline;
pub mod byte_utils;
pub mod encoding;
pub mod mixed_radix;
pub mod runner;
pub mod scan;
pub mod test_unit;
pub mod variation_iter;
pub mod variations;

pub use baseline::Baseline;
pub use test_unit::{TestSettings, TestUnit};
pub use variations::TestVariant;
