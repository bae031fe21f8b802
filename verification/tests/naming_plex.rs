//! Names for Plex.

use ripsaw::identify::{TitleIdentity, TitleRole};
use ripsaw::naming::plex::Plex;
use ripsaw::naming::{EpisodeContext, ExtraContext, MovieContext, MovieVariant, Scheme};

fn movie() -> MovieContext<'static> {
    MovieContext {
        root: "/lib/Movies",
        title: "Avatar",
        year: Some(2009),
        tmdb_id: None,
        imdb_id: Some("tt0499549"),
        variant: None,
    }
}

#[test]
fn movie_folder_and_file_repeat_ids_in_brace_form() {
    let p = Plex.movie_path(&movie());
    assert_eq!(
        p,
        "/lib/Movies/Avatar (2009) {imdb-tt0499549}/Avatar (2009) {imdb-tt0499549}.mkv"
    );
}

#[test]
fn movie_3d_variant_suffix_after_ids() {
    let mut m = movie();
    m.variant = Some(MovieVariant::Stereo3d);
    let p = Plex.movie_path(&m);
    assert_eq!(
        p,
        "/lib/Movies/Avatar (2009) {imdb-tt0499549}/Avatar (2009) {imdb-tt0499549} - 3D.mkv"
    );
}

#[test]
fn movie_falls_back_to_tmdb_brace() {
    let mut m = movie();
    m.imdb_id = None;
    m.tmdb_id = Some(19995);
    let p = Plex.movie_path(&m);
    assert_eq!(p, "/lib/Movies/Avatar (2009) {tmdb-19995}/Avatar (2009) {tmdb-19995}.mkv");
}

#[test]
fn episode_path_uses_lowercase_sxxeyy_with_hyphen() {
    let ctx = EpisodeContext {
        root: "/lib/Shows",
        series_title: "The Expanse",
        series_year: Some(2015),
        tmdb_id: None,
        imdb_id: None,
        tvdb_id: Some(280619),
        season: 1,
        episode: 3,
        episode_end: None,
        episode_title: None,
    };
    let p = Plex.episode_path(&ctx);
    assert_eq!(
        p,
        "/lib/Shows/The Expanse (2015) {tvdb-280619}/Season 01/The Expanse (2015) - s01e03.mkv"
    );
}

#[test]
fn extras_path_uses_title_case_subfolders() {
    let title = TitleIdentity {
        index: 2,
        role: TitleRole::BehindTheScenes,
        display_title: "Making of Avatar".into(),
        source_file: None,
        season: None,
        episode: None,
    };
    let m = movie();
    let ctx = ExtraContext { movie: &m, title: &title, role: TitleRole::BehindTheScenes };
    let p = Plex.extras_path(&ctx);
    assert_eq!(
        p,
        "/lib/Movies/Avatar (2009) {imdb-tt0499549}/Behind The Scenes/Making of Avatar.mkv"
    );
}
