//! What a title on a disc is.

use vstd::prelude::*;

verus! {

/// The part that a title plays in a release.
#[derive(Debug, Clone, Copy, PartialEq, Eq, Structural)]
pub enum TitleRole {
    Main,
    Trailer,
    BehindTheScenes,
    DeletedScene,
    Featurette,
    Interview,
    Scene,
    Short,
    Other,
}

/// An identified title of a disc.
#[derive(Debug, Clone, PartialEq, Eq)]
pub struct TitleIdentity {
    pub index: u32,
    pub role: TitleRole,
    pub display_title: String,
    pub source_file: Option<String>,
    pub season: Option<u32>,
    pub episode: Option<u32>,
}

} // verus!
