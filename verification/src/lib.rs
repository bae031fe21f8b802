//! Ripsaw's stereo pipeline: an H.264 / MVC front-end parser and decode core,
//! the Matroska side that feeds it, and the media-server naming schemes that
//! lay out the finished files.
//!
//! Every function states what it computes in `requires` / `ensures` clauses.

pub mod identify;
pub mod mvc;
pub mod naming;
pub mod settings;
pub mod text;
