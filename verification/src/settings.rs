//! What a user can choose.

use vstd::prelude::*;

verus! {

/// The media server whose naming rules apply.
#[derive(Debug, Clone, Copy, PartialEq, Eq, Structural)]
pub enum SchemeKind {
    Jellyfin,
    Emby,
    Plex,
    Kodi,
}

} // verus!
