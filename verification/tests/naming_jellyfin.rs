//! Names for Jellyfin.

use ripsaw::identify::{TitleIdentity, TitleRole};
use ripsaw::naming::jellyfin::Jellyfin;
use ripsaw::naming::{EpisodeContext, ExtraContext, MovieContext, MovieVariant, Scheme};

fn movie() -> MovieContext<'static> {
    MovieContext {
        root: "/lib/Movies",
        title: "Avatar",
        year: Some(2009),
        tmdb_id: None,
        imdb_id: Some("tt0499549"),
        variant: None,
    }
}

#[test]
fn movie_folder_and_filename_share_imdbid_bracket() {
    let p = Jellyfin.movie_path(&movie());
    assert_eq!(
        p,
        "/lib/Movies/Avatar (2009) [imdbid-tt0499549]/Avatar (2009) [imdbid-tt0499549].mkv"
    );
}

#[test]
fn movie_with_3d_variant_appends_suffix_after_id_bracket() {
    let mut m = movie();
    m.variant = Some(MovieVariant::Stereo3d);
    let p = Jellyfin.movie_path(&m);
    assert_eq!(
        p,
        "/lib/Movies/Avatar (2009) [imdbid-tt0499549]/Avatar (2009) [imdbid-tt0499549] - 3D.mkv"
    );
}

#[test]
fn movie_falls_back_to_tmdb_when_no_imdb() {
    let mut m = movie();
    m.imdb_id = None;
    m.tmdb_id = Some(19995);
    let p = Jellyfin.movie_path(&m);
    assert_eq!(
        p,
        "/lib/Movies/Avatar (2009) [tmdbid-19995]/Avatar (2009) [tmdbid-19995].mkv"
    );
}

#[test]
fn movie_drops_ids_section_when_none_known() {
    let mut m = movie();
    m.imdb_id = None;
    let p = Jellyfin.movie_path(&m);
    assert_eq!(p, "/lib/Movies/Avatar (2009)/Avatar (2009).mkv");
}

#[test]
fn episode_path_includes_episode_title_when_provided() {
    let ctx = EpisodeContext {
        root: "/lib/Shows",
        series_title: "The Expanse",
        series_year: Some(2015),
        tmdb_id: None,
        imdb_id: Some("tt3230854"),
        tvdb_id: None,
        season: 1,
        episode: 3,
        episode_end: None,
        episode_title: Some("Remember the Cant"),
    };
    let p = Jellyfin.episode_path(&ctx);
    assert_eq!(
        p,
        "/lib/Shows/The Expanse (2015) [imdbid-tt3230854]/Season 01/The Expanse (2015) S01E03 - Remember the Cant.mkv"
    );
}

#[test]
fn episode_path_omits_title_suffix_when_none_or_empty() {
    let mut ctx = EpisodeContext {
        root: "/lib/Shows",
        series_title: "The Expanse",
        series_year: Some(2015),
        tmdb_id: None,
        imdb_id: Some("tt3230854"),
        tvdb_id: None,
        season: 1,
        episode: 3,
        episode_end: None,
        episode_title: None,
    };
    let p = Jellyfin.episode_path(&ctx);
    assert_eq!(
        p,
        "/lib/Shows/The Expanse (2015) [imdbid-tt3230854]/Season 01/The Expanse (2015) S01E03.mkv"
    );
    ctx.episode_title = Some("   ");
    let p = Jellyfin.episode_path(&ctx);
    assert_eq!(
        p,
        "/lib/Shows/The Expanse (2015) [imdbid-tt3230854]/Season 01/The Expanse (2015) S01E03.mkv"
    );
}

#[test]
fn multi_episode_uses_range_suffix() {
    let ctx = EpisodeContext {
        root: "/lib/Shows",
        series_title: "The Expanse",
        series_year: Some(2015),
        tmdb_id: None,
        imdb_id: None,
        tvdb_id: None,
        season: 2,
        episode: 1,
        episode_end: Some(2),
        episode_title: None,
    };
    let p = Jellyfin.episode_path(&ctx);
    assert_eq!(p, "/lib/Shows/The Expanse (2015)/Season 02/The Expanse (2015) S02E01-E02.mkv");
}

#[test]
fn extras_path_goes_into_role_subfolder() {
    let title = TitleIdentity {
        index: 2,
        role: TitleRole::Trailer,
        display_title: "Theatrical Trailer".into(),
        source_file: None,
        season: None,
        episode: None,
    };
    let m = movie();
    let ctx = ExtraContext { movie: &m, title: &title, role: TitleRole::Trailer };
    let p = Jellyfin.extras_path(&ctx);
    assert_eq!(
        p,
        "/lib/Movies/Avatar (2009) [imdbid-tt0499549]/trailers/Theatrical Trailer.mkv"
    );
}

#[test]
fn extras_main_role_emits_no_subfolder() {
    let title = TitleIdentity {
        index: 0,
        role: TitleRole::Main,
        display_title: "Avatar".into(),
        source_file: None,
        season: None,
        episode: None,
    };
    let m = movie();
    let ctx = ExtraContext { movie: &m, title: &title, role: TitleRole::Main };
    let p = Jellyfin.extras_path(&ctx);
    assert_eq!(p, "/lib/Movies/Avatar (2009) [imdbid-tt0499549]/Avatar.mkv");
}

#[test]
fn sanitises_path_unsafe_title() {
    let mut m = movie();
    m.title = "Lockout: M.A.X.";
    let p = Jellyfin.movie_path(&m);
    assert_eq!(
        p,
        "/lib/Movies/Lockout M.A.X (2009) [imdbid-tt0499549]/Lockout M.A.X (2009) [imdbid-tt0499549].mkv"
    );
}
