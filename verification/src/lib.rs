//! Runtime value engine of an array-oriented language: a tagged
//! multidimensional array over four element kinds (numbers held as
//! IEEE-754 bit patterns, bytes, characters, functions), with pervasive
//! element-wise operation dispatch, byte-to-number promotion, fill-based
//! retry, boxing transparency, a total cross-kind order, and incremental
//! row-by-row construction.

pub mod array;
pub mod bits;
pub mod builder;
pub mod errors;
pub mod extract;
pub mod func;
pub mod ord;
pub mod pervade;
pub mod value;
