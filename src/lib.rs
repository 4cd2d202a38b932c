//! An optimizing interpreter for the eight-command tape language, together with a
//! small typed stack for a reverse-Polish calculator.
//!
//! The interpreter is a pipeline: `lower` turns source bytes into run-length
//! collapsed instructions, `peephole` rewrites the clear-cell idiom, `link` pairs the
//! loop brackets, and the `machine` module evaluates the result over a fixed tape.
//! The `straight` module relates loop-free programs to a byte-at-a-time reading of
//! their source.

pub mod instr;
pub mod lower;
pub mod peephole;
pub mod link;
pub mod compile;
pub mod machine;
pub mod rpn;
pub mod straight;
