//! Names for Kodi.

use ripsaw::identify::{TitleIdentity, TitleRole};
use ripsaw::naming::kodi::Kodi;
use ripsaw::naming::{EpisodeContext, ExtraContext, MovieContext, MovieVariant, Scheme};

fn movie() -> MovieContext<'static> {
    MovieContext {
        root: "/lib/Movies",
        title: "Avatar",
        year: Some(2009),
        tmdb_id: None,
        imdb_id: Some("tt0499549"),
        variant: None,
    }
}

#[test]
fn movie_path_uses_imdb_bracket_in_folder_and_filename() {
    let p = Kodi.movie_path(&movie());
    assert_eq!(
        p,
        "/lib/Movies/Avatar (2009) {imdb=tt0499549}/Avatar (2009) {imdb=tt0499549}.mkv"
    );
}

#[test]
fn movie_path_prefers_tmdb_when_both_present() {
    let mut m = movie();
    m.tmdb_id = Some(19995);
    let p = Kodi.movie_path(&m);
    assert_eq!(
        p,
        "/lib/Movies/Avatar (2009) {tmdb=19995}/Avatar (2009) {tmdb=19995}.mkv"
    );
}

#[test]
fn movie_path_drops_id_section_when_none_known() {
    let mut m = movie();
    m.imdb_id = None;
    let p = Kodi.movie_path(&m);
    assert_eq!(p, "/lib/Movies/Avatar (2009)/Avatar (2009).mkv");
}

#[test]
fn movie_3d_variant_suffix_in_filename() {
    let mut m = movie();
    m.variant = Some(MovieVariant::Stereo3d);
    let p = Kodi.movie_path(&m);
    assert_eq!(
        p,
        "/lib/Movies/Avatar (2009) {imdb=tt0499549}/Avatar (2009) {imdb=tt0499549} - 3D.mkv"
    );
}

#[test]
fn trailer_goes_inline_with_trailer_suffix() {
    let title = TitleIdentity {
        index: 2,
        role: TitleRole::Trailer,
        display_title: "Theatrical Trailer".into(),
        source_file: None,
        season: None,
        episode: None,
    };
    let m = movie();
    let ctx = ExtraContext { movie: &m, title: &title, role: TitleRole::Trailer };
    let p = Kodi.extras_path(&ctx);
    assert_eq!(
        p,
        "/lib/Movies/Avatar (2009) {imdb=tt0499549}/Avatar (2009) {imdb=tt0499549}-trailer.mkv"
    );
}

#[test]
fn non_trailer_extras_go_into_extras_subfolder() {
    let title = TitleIdentity {
        index: 3,
        role: TitleRole::BehindTheScenes,
        display_title: "Making of Avatar".into(),
        source_file: None,
        season: None,
        episode: None,
    };
    let m = movie();
    let ctx = ExtraContext { movie: &m, title: &title, role: TitleRole::BehindTheScenes };
    let p = Kodi.extras_path(&ctx);
    assert_eq!(
        p,
        "/lib/Movies/Avatar (2009) {imdb=tt0499549}/extras/Making of Avatar.mkv"
    );
}

#[test]
fn episode_path_uses_capital_sxxeyy() {
    let ctx = EpisodeContext {
        root: "/lib/Shows",
        series_title: "The Expanse",
        series_year: Some(2015),
        tmdb_id: None,
        imdb_id: None,
        tvdb_id: None,
        season: 1,
        episode: 3,
        episode_end: None,
        episode_title: None,
    };
    let p = Kodi.episode_path(&ctx);
    assert_eq!(p, "/lib/Shows/The Expanse (2015)/Season 01/The Expanse S01E03.mkv");
}

#[test]
fn episode_path_appends_title_after_episode_marker() {
    let ctx = EpisodeContext {
        root: "/lib/Shows",
        series_title: "The Expanse",
        series_year: Some(2015),
        tmdb_id: None,
        imdb_id: None,
        tvdb_id: None,
        season: 1,
        episode: 3,
        episode_end: None,
        episode_title: Some("Remember the Cant"),
    };
    let p = Kodi.episode_path(&ctx);
    assert_eq!(
        p,
        "/lib/Shows/The Expanse (2015)/Season 01/The Expanse S01E03 Remember the Cant.mkv"
    );
}
