//! The folders of extras, by media server and role.

use crate::identify::TitleRole;
use crate::settings::SchemeKind;
use vstd::prelude::*;

verus! {

/// The folder of extras of a role, empty where they go beside the movie.
pub open spec fn role_folder(scheme: SchemeKind, role: TitleRole) -> Seq<char> {
    match (scheme, role) {
        (_, TitleRole::Main) => ""@,
        (SchemeKind::Kodi, TitleRole::Trailer) => ""@,
        (SchemeKind::Kodi, _) => "extras"@,
        (SchemeKind::Plex, TitleRole::Trailer) => "Trailers"@,
        (SchemeKind::Plex, TitleRole::BehindTheScenes) => "Behind The Scenes"@,
        (SchemeKind::Plex, TitleRole::DeletedScene) => "Deleted Scenes"@,
        (SchemeKind::Plex, TitleRole::Featurette) => "Featurettes"@,
        (SchemeKind::Plex, TitleRole::Interview) => "Interviews"@,
        (SchemeKind::Plex, TitleRole::Scene) => "Scenes"@,
        (SchemeKind::Plex, TitleRole::Short) => "Shorts"@,
        (SchemeKind::Plex, TitleRole::Other) => "Other"@,
        (_, TitleRole::Trailer) => "trailers"@,
        (_, TitleRole::BehindTheScenes) => "behindthescenes"@,
        (_, TitleRole::DeletedScene) => "deleted"@,
        (_, TitleRole::Featurette) => "featurettes"@,
        (_, TitleRole::Interview) => "interviews"@,
        (_, TitleRole::Scene) => "scenes"@,
        (_, TitleRole::Short) => "shorts"@,
        (_, TitleRole::Other) => "extras"@,
    }
}

/// The folder of extras of a role.
pub fn folder_for_role(scheme: SchemeKind, role: TitleRole) -> (r: &'static str)
    ensures
        r@ == role_folder(scheme, role),
{
    match scheme {
        SchemeKind::Jellyfin | SchemeKind::Emby => match role {
            TitleRole::Trailer => "trailers",
            TitleRole::BehindTheScenes => "behindthescenes",
            TitleRole::DeletedScene => "deleted",
            TitleRole::Featurette => "featurettes",
            TitleRole::Interview => "interviews",
            TitleRole::Scene => "scenes",
            TitleRole::Short => "shorts",
            TitleRole::Other => "extras",
            TitleRole::Main => "",
        },
        SchemeKind::Plex => match role {
            TitleRole::Trailer => "Trailers",
            TitleRole::BehindTheScenes => "Behind The Scenes",
            TitleRole::DeletedScene => "Deleted Scenes",
            TitleRole::Featurette => "Featurettes",
            TitleRole::Interview => "Interviews",
            TitleRole::Scene => "Scenes",
            TitleRole::Short => "Shorts",
            TitleRole::Other => "Other",
            TitleRole::Main => "",
        },
        SchemeKind::Kodi => match role {
            TitleRole::Trailer => "",
            TitleRole::Main => "",
            _ => "extras",
        },
    }
}

} // verus!
