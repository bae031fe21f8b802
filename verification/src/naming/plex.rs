//! Names for Plex: folder and file carry the identifier in braces with a hyphen.

use crate::naming::extras::{folder_for_role, role_folder};
use crate::naming::{
    dated, episode_part, join, nested, placed, put_dated, put_episode, put_name, put_number_tag,
    put_tag, put_variant, sanitised, season_folder, season_part, tagged, variant_part,
    EpisodeContext, ExtraContext, MovieContext, Scheme,
};
use crate::settings::SchemeKind;
use crate::text::{chars_of, digits, put_text, string_of};
use vstd::prelude::*;

verus! {

/// The naming rules of Plex.
pub struct Plex;

/// The identifier of a movie: IMDb, else TMDb.
pub open spec fn movie_id(ctx: &MovieContext) -> Seq<char> {
    match (ctx.imdb_id, ctx.tmdb_id) {
        (Some(id), _) => tagged(" {imdb-"@, id@, "}"@),
        (None, Some(n)) => tagged(" {tmdb-"@, digits(n as nat), "}"@),
        (None, None) => Seq::empty(),
    }
}

/// The identifier of a series: TVDB, else IMDb, else TMDb.
pub open spec fn series_id(ctx: &EpisodeContext) -> Seq<char> {
    match (ctx.tvdb_id, ctx.imdb_id, ctx.tmdb_id) {
        (Some(n), _, _) => tagged(" {tvdb-"@, digits(n as nat), "}"@),
        (None, Some(id), _) => tagged(" {imdb-"@, id@, "}"@),
        (None, None, Some(n)) => tagged(" {tmdb-"@, digits(n as nat), "}"@),
        (None, None, None) => Seq::empty(),
    }
}

/// The folder of a movie.
pub open spec fn movie_folder(ctx: &MovieContext) -> Seq<char> {
    dated(ctx.title@, ctx.year) + movie_id(ctx)
}

/// The folder of a series.
pub open spec fn series_folder(ctx: &EpisodeContext) -> Seq<char> {
    dated(ctx.series_title@, ctx.series_year) + series_id(ctx)
}

fn movie_folder_name(ctx: &MovieContext) -> (r: Vec<char>)
    ensures
        r@ == movie_folder(ctx),
{
    let mut r: Vec<char> = Vec::new();
    put_dated(&mut r, ctx.title, ctx.year);
    match ctx.imdb_id {
        Some(id) => put_tag(&mut r, " {imdb-", id, "}"),
        None => match ctx.tmdb_id {
            Some(n) => put_number_tag(&mut r, " {tmdb-", n, "}"),
            None => {},
        },
    }
    assert(r@ =~= movie_folder(ctx));
    r
}

fn series_folder_name(ctx: &EpisodeContext) -> (r: Vec<char>)
    ensures
        r@ == series_folder(ctx),
{
    let mut r: Vec<char> = Vec::new();
    put_dated(&mut r, ctx.series_title, ctx.series_year);
    match ctx.tvdb_id {
        Some(n) => put_number_tag(&mut r, " {tvdb-", n, "}"),
        None => match ctx.imdb_id {
            Some(id) => put_tag(&mut r, " {imdb-", id, "}"),
            None => match ctx.tmdb_id {
                Some(n) => put_number_tag(&mut r, " {tmdb-", n, "}"),
                None => {},
            },
        },
    }
    assert(r@ =~= series_folder(ctx));
    r
}

impl Scheme for Plex {
    open spec fn movie(&self, ctx: &MovieContext) -> Seq<char> {
        placed(
            ctx.root@,
            movie_folder(ctx),
            movie_folder(ctx) + variant_part(ctx.variant) + ".mkv"@,
        )
    }

    open spec fn episode(&self, ctx: &EpisodeContext) -> Seq<char> {
        nested(
            ctx.root@,
            series_folder(ctx),
            season_part(ctx.season),
            dated(ctx.series_title@, ctx.series_year) + " - "@ + episode_part("s"@, "e"@, ctx)
                + ".mkv"@,
        )
    }

    open spec fn extra(&self, ctx: &ExtraContext) -> Seq<char> {
        let sub = role_folder(SchemeKind::Plex, ctx.role);
        let file = sanitised(ctx.title.display_title@) + ".mkv"@;
        if sub.len() == 0 {
            placed(ctx.movie.root@, movie_folder(ctx.movie), file)
        } else {
            nested(ctx.movie.root@, movie_folder(ctx.movie), sub, file)
        }
    }

    fn movie_path(&self, ctx: &MovieContext) -> (p: String) {
        let folder = movie_folder_name(ctx);
        let mut file = movie_folder_name(ctx);
        put_variant(&mut file, ctx.variant);
        put_text(&mut file, ".mkv");
        let path = join(join(chars_of(ctx.root), folder), file);
        string_of(path.as_slice())
    }

    fn episode_path(&self, ctx: &EpisodeContext) -> (p: String) {
        let folder = series_folder_name(ctx);
        let season = season_folder(ctx.season);
        let mut file: Vec<char> = Vec::new();
        put_dated(&mut file, ctx.series_title, ctx.series_year);
        put_text(&mut file, " - ");
        put_episode(&mut file, "s", "e", ctx);
        put_text(&mut file, ".mkv");
        assert(file@ =~= dated(ctx.series_title@, ctx.series_year) + " - "@ + episode_part(
            "s"@,
            "e"@,
            ctx,
        ) + ".mkv"@);
        let path = join(join(join(chars_of(ctx.root), folder), season), file);
        string_of(path.as_slice())
    }

    fn extras_path(&self, ctx: &ExtraContext) -> (p: String) {
        let folder = movie_folder_name(ctx.movie);
        let sub = chars_of(folder_for_role(SchemeKind::Plex, ctx.role));
        let mut file: Vec<char> = Vec::new();
        put_name(&mut file, ctx.title.display_title.as_str());
        put_text(&mut file, ".mkv");
        assert(file@ =~= sanitised(ctx.title.display_title@) + ".mkv"@);
        let mut path = join(chars_of(ctx.movie.root), folder);
        if sub.len() > 0 {
            path = join(path, sub);
        }
        path = join(path, file);
        string_of(path.as_slice())
    }
}

} // verus!
