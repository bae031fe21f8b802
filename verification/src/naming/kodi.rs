//! Names for Kodi: folder and file carry the identifier in braces with an equals
//! sign, TMDb first.

use crate::identify::TitleRole;
use crate::naming::{
    dated, episode_part, join, named_part, nested, placed, put_dated, put_episode, put_name,
    put_named, put_number_tag, put_tag, put_variant, sanitised, season_folder, season_part, tagged,
    variant_part, EpisodeContext, ExtraContext, MovieContext, Scheme,
};
use crate::text::{chars_of, digits, put_text, string_of};
use vstd::prelude::*;

verus! {

/// The naming rules of Kodi.
pub struct Kodi;

/// The identifier of a movie: TMDb, else IMDb.
pub open spec fn movie_id(ctx: &MovieContext) -> Seq<char> {
    match (ctx.tmdb_id, ctx.imdb_id) {
        (Some(n), _) => tagged(" {tmdb="@, digits(n as nat), "}"@),
        (None, Some(id)) => tagged(" {imdb="@, id@, "}"@),
        (None, None) => Seq::empty(),
    }
}

/// The folder of a movie.
pub open spec fn movie_folder(ctx: &MovieContext) -> Seq<char> {
    dated(ctx.title@, ctx.year) + movie_id(ctx)
}

fn movie_folder_name(ctx: &MovieContext) -> (r: Vec<char>)
    ensures
        r@ == movie_folder(ctx),
{
    let mut r: Vec<char> = Vec::new();
    put_dated(&mut r, ctx.title, ctx.year);
    match ctx.tmdb_id {
        Some(n) => put_number_tag(&mut r, " {tmdb=", n, "}"),
        None => match ctx.imdb_id {
            Some(id) => put_tag(&mut r, " {imdb=", id, "}"),
            None => {},
        },
    }
    assert(r@ =~= movie_folder(ctx));
    r
}

impl Scheme for Kodi {
    open spec fn movie(&self, ctx: &MovieContext) -> Seq<char> {
        placed(
            ctx.root@,
            movie_folder(ctx),
            movie_folder(ctx) + variant_part(ctx.variant) + ".mkv"@,
        )
    }

    open spec fn episode(&self, ctx: &EpisodeContext) -> Seq<char> {
        nested(
            ctx.root@,
            dated(ctx.series_title@, ctx.series_year),
            season_part(ctx.season),
            sanitised(ctx.series_title@) + " "@ + episode_part("S"@, "E"@, ctx) + named_part(
                " "@,
                ctx.episode_title,
            ) + ".mkv"@,
        )
    }

    open spec fn extra(&self, ctx: &ExtraContext) -> Seq<char> {
        let folder = movie_folder(ctx.movie);
        match ctx.role {
            TitleRole::Trailer => placed(ctx.movie.root@, folder, folder + "-trailer.mkv"@),
            TitleRole::Main => placed(ctx.movie.root@, folder, folder + ".mkv"@),
            _ => nested(
                ctx.movie.root@,
                folder,
                "extras"@,
                sanitised(ctx.title.display_title@) + ".mkv"@,
            ),
        }
    }

    fn movie_path(&self, ctx: &MovieContext) -> (p: String) {
        let folder = movie_folder_name(ctx);
        let mut file = movie_folder_name(ctx);
        put_variant(&mut file, ctx.variant);
        put_text(&mut file, ".mkv");
        let path = join(join(chars_of(ctx.root), folder), file);
        string_of(path.as_slice())
    }

    fn episode_path(&self, ctx: &EpisodeContext) -> (p: String) {
        let mut folder: Vec<char> = Vec::new();
        put_dated(&mut folder, ctx.series_title, ctx.series_year);
        assert(folder@ =~= dated(ctx.series_title@, ctx.series_year));
        let season = season_folder(ctx.season);
        let mut file: Vec<char> = Vec::new();
        put_name(&mut file, ctx.series_title);
        put_text(&mut file, " ");
        put_episode(&mut file, "S", "E", ctx);
        put_named(&mut file, " ", ctx.episode_title);
        put_text(&mut file, ".mkv");
        assert(file@ =~= sanitised(ctx.series_title@) + " "@ + episode_part("S"@, "E"@, ctx)
            + named_part(" "@, ctx.episode_title) + ".mkv"@);
        let path = join(join(join(chars_of(ctx.root), folder), season), file);
        string_of(path.as_slice())
    }

    fn extras_path(&self, ctx: &ExtraContext) -> (p: String) {
        let path = join(chars_of(ctx.movie.root), movie_folder_name(ctx.movie));
        let path = match ctx.role {
            TitleRole::Trailer => {
                let mut file = movie_folder_name(ctx.movie);
                put_text(&mut file, "-trailer.mkv");
                join(path, file)
            },
            TitleRole::Main => {
                let mut file = movie_folder_name(ctx.movie);
                put_text(&mut file, ".mkv");
                join(path, file)
            },
            _ => {
                let mut file: Vec<char> = Vec::new();
                put_name(&mut file, ctx.title.display_title.as_str());
                put_text(&mut file, ".mkv");
                assert(file@ =~= sanitised(ctx.title.display_title@) + ".mkv"@);
                join(join(path, chars_of("extras")), file)
            },
        };
        string_of(path.as_slice())
    }
}

} // verus!
