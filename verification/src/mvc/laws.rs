//! What the parts of the decoder are for, as relations between their inputs and
//! results: sizes and positions in samples, values of the syntax tables, and how
//! two calls relate.

pub mod bins;
pub mod blocks;
pub mod compensation;
pub mod contexts;
pub mod deblocking;
pub mod grid;
pub mod intra;
pub mod macroblocks;
pub mod matroska;
pub mod motion;
pub mod partitions;
pub mod reconstruction;
pub mod references;
pub mod residuals;
pub mod set_syntax;
pub mod slice_syntax;
pub mod streams;
pub mod syntax;
pub mod traces;
pub mod transforms;
pub mod vectors;
