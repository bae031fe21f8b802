//! Where files land: below the library root, as Matroska files.

use crate::naming::extras::role_folder;
use crate::naming::jellyfin::Jellyfin;
use crate::naming::kodi::Kodi;
use crate::naming::plex::Plex;
use crate::naming::{
    dated, episode_part, jellyfin, joined, kodi, law_joined_below, law_sanitised, named_part,
    nested, placed, plex, sanitised, season_part, variant_part, year_part, EpisodeContext,
    ExtraContext, MovieContext, Scheme,
};
use crate::settings::SchemeKind;
use vstd::prelude::*;

verus! {

/// The path starts from the root of the file system.
pub open spec fn rooted(s: Seq<char>) -> bool {
    s.len() > 0 && s[0] == '/'
}

/// The text begins with another.
pub open spec fn begins(s: Seq<char>, t: Seq<char>) -> bool {
    s.len() >= t.len() && s.take(t.len() as int) == t
}

/// The text ends with another.
pub open spec fn ends(s: Seq<char>, t: Seq<char>) -> bool {
    s.len() >= t.len() && s.skip(s.len() - t.len()) == t
}

/// The path of a Matroska file below a library root.
pub open spec fn filed(path: Seq<char>, root: Seq<char>) -> bool {
    begins(path, root) && ends(path, ".mkv"@)
}

proof fn lemma_head(a: Seq<char>, b: Seq<char>)
    requires
        !rooted(a),
        !rooted(b),
    ensures
        !rooted(a + b),
{
    if a.len() > 0 {
        assert((a + b)[0] == a[0]);
    } else {
        assert(a + b =~= b);
    }
}

proof fn lemma_tail(a: Seq<char>, b: Seq<char>)
    ensures
        ends(a + b, b),
{
    assert((a + b).skip(a.len() as int) =~= b);
}

proof fn lemma_joined(a: Seq<char>, b: Seq<char>, root: Seq<char>)
    requires
        begins(a, root),
        !rooted(b),
    ensures
        begins(joined(a, b), root),
        ends(b, ".mkv"@) ==> ends(joined(a, b), ".mkv"@),
{
    law_joined_below(a, b);
    assert(joined(a, b).take(root.len() as int) =~= a.take(root.len() as int)) by {
        assert forall|i: int| 0 <= i < root.len() implies joined(a, b)[i] == a[i] by {
            assert(joined(a, b).take(a.len() as int)[i] == joined(a, b)[i]);
        }
    }
    if ends(b, ".mkv"@) {
        let m = ".mkv"@;
        let j = joined(a, b);
        assert(j.skip(j.len() - m.len()) =~= b.skip(b.len() - m.len()));
    }
}

proof fn lemma_placed(root: Seq<char>, folder: Seq<char>, file: Seq<char>)
    requires
        !rooted(folder),
        !rooted(file),
        ends(file, ".mkv"@),
    ensures
        filed(placed(root, folder, file), root),
{
    assert(begins(root, root)) by {
        assert(root.take(root.len() as int) =~= root);
    }
    lemma_joined(root, folder, root);
    lemma_joined(joined(root, folder), file, root);
}

proof fn lemma_nested(root: Seq<char>, a: Seq<char>, b: Seq<char>, file: Seq<char>)
    requires
        !rooted(a),
        !rooted(b),
        !rooted(file),
        ends(file, ".mkv"@),
    ensures
        filed(nested(root, a, b, file), root),
{
    assert(begins(root, root)) by {
        assert(root.take(root.len() as int) =~= root);
    }
    lemma_joined(root, a, root);
    lemma_joined(joined(root, a), b, root);
    lemma_joined(joined(joined(root, a), b), file, root);
}

proof fn lemma_sanitised_head(s: Seq<char>)
    ensures
        !rooted(sanitised(s)),
{
    law_sanitised(s);
    if sanitised(s).len() > 0 {
        assert(!crate::naming::illegal(sanitised(s)[0]));
    }
}

proof fn lemma_dated_head(title: Seq<char>, y: Option<u32>)
    ensures
        !rooted(dated(title, y)),
{
    lemma_sanitised_head(title);
    reveal_strlit(" (");
    assert(!rooted(year_part(y)));
    lemma_head(sanitised(title), year_part(y));
}

proof fn lemma_variant_head(m: &MovieContext)
    ensures
        !rooted(variant_part(m.variant)),
{
    reveal_strlit(" - 4K");
    reveal_strlit(" - 3D");
    reveal_strlit(" - Extended");
    reveal_strlit(" - Theatrical");
    reveal_strlit(" - Director's Cut");
}

proof fn lemma_ending(a: Seq<char>)
    requires
        !rooted(a),
    ensures
        !rooted(a + ".mkv"@),
        ends(a + ".mkv"@, ".mkv"@),
{
    reveal_strlit(".mkv");
    lemma_head(a, ".mkv"@);
    lemma_tail(a, ".mkv"@);
}

proof fn lemma_season(n: u32)
    ensures
        !rooted(season_part(n)),
{
    reveal_strlit("Season ");
}

proof fn lemma_movie_file(m: &MovieContext, folder: Seq<char>)
    requires
        !rooted(folder),
    ensures
        filed(placed(m.root@, folder, folder + variant_part(m.variant) + ".mkv"@), m.root@),
{
    lemma_variant_head(m);
    lemma_head(folder, variant_part(m.variant));
    lemma_ending(folder + variant_part(m.variant));
    lemma_placed(m.root@, folder, folder + variant_part(m.variant) + ".mkv"@);
}

proof fn lemma_title_file(t: Seq<char>)
    ensures
        !rooted(sanitised(t) + ".mkv"@),
        ends(sanitised(t) + ".mkv"@, ".mkv"@),
{
    lemma_sanitised_head(t);
    lemma_ending(sanitised(t));
}

proof fn lemma_role_head(k: SchemeKind, x: &ExtraContext)
    ensures
        !rooted(role_folder(k, x.role)),
{
    reveal_strlit("");
    reveal_strlit("extras");
    reveal_strlit("Trailers");
    reveal_strlit("Behind The Scenes");
    reveal_strlit("Deleted Scenes");
    reveal_strlit("Featurettes");
    reveal_strlit("Interviews");
    reveal_strlit("Scenes");
    reveal_strlit("Shorts");
    reveal_strlit("Other");
    reveal_strlit("trailers");
    reveal_strlit("behindthescenes");
    reveal_strlit("deleted");
    reveal_strlit("featurettes");
    reveal_strlit("interviews");
    reveal_strlit("scenes");
    reveal_strlit("shorts");
}

/// Whatever the titles, the files of a Jellyfin library are Matroska files below
/// its root.
pub proof fn law_jellyfin_paths(m: &MovieContext, e: &EpisodeContext, x: &ExtraContext)
    ensures
        filed(Jellyfin.movie(m), m.root@),
        filed(Jellyfin.episode(e), e.root@),
        filed(Jellyfin.extra(x), x.movie.root@),
{
    reveal_strlit(" [imdbid-");
    reveal_strlit(" [tmdbid-");
    reveal_strlit(" [tvdbid-");
    reveal_strlit(" ");
    lemma_dated_head(m.title@, m.year);
    lemma_head(dated(m.title@, m.year), jellyfin::movie_id(m));
    lemma_movie_file(m, jellyfin::movie_folder(m));
    lemma_dated_head(e.series_title@, e.series_year);
    lemma_head(dated(e.series_title@, e.series_year), jellyfin::series_id(e));
    lemma_season(e.season);
    let d = dated(e.series_title@, e.series_year) + " "@;
    lemma_head(dated(e.series_title@, e.series_year), " "@);
    assert(d.len() > 0);
    let f = d + episode_part("S"@, "E"@, e) + named_part(" - "@, e.episode_title);
    assert(f[0] == d[0]);
    lemma_ending(f);
    lemma_nested(e.root@, jellyfin::series_folder(e), season_part(e.season), f + ".mkv"@);
    lemma_dated_head(x.movie.title@, x.movie.year);
    lemma_head(dated(x.movie.title@, x.movie.year), jellyfin::movie_id(x.movie));
    lemma_title_file(x.title.display_title@);
    lemma_role_head(SchemeKind::Jellyfin, x);
    let (folder, file) = (
        jellyfin::movie_folder(x.movie),
        sanitised(x.title.display_title@) + ".mkv"@,
    );
    lemma_placed(x.movie.root@, folder, file);
    lemma_nested(x.movie.root@, folder, role_folder(SchemeKind::Jellyfin, x.role), file);
}

/// Whatever the titles, the files of a Plex library are Matroska files below its
/// root.
pub proof fn law_plex_paths(m: &MovieContext, e: &EpisodeContext, x: &ExtraContext)
    ensures
        filed(Plex.movie(m), m.root@),
        filed(Plex.episode(e), e.root@),
        filed(Plex.extra(x), x.movie.root@),
{
    reveal_strlit(" {imdb-");
    reveal_strlit(" {tmdb-");
    reveal_strlit(" {tvdb-");
    reveal_strlit(" - ");
    lemma_dated_head(m.title@, m.year);
    lemma_head(dated(m.title@, m.year), plex::movie_id(m));
    lemma_movie_file(m, plex::movie_folder(m));
    lemma_dated_head(e.series_title@, e.series_year);
    lemma_head(dated(e.series_title@, e.series_year), plex::series_id(e));
    lemma_season(e.season);
    let d = dated(e.series_title@, e.series_year) + " - "@;
    lemma_head(dated(e.series_title@, e.series_year), " - "@);
    assert(d.len() > 0);
    let f = d + episode_part("s"@, "e"@, e);
    assert(f[0] == d[0]);
    lemma_ending(f);
    lemma_nested(e.root@, plex::series_folder(e), season_part(e.season), f + ".mkv"@);
    lemma_dated_head(x.movie.title@, x.movie.year);
    lemma_head(dated(x.movie.title@, x.movie.year), plex::movie_id(x.movie));
    lemma_title_file(x.title.display_title@);
    lemma_role_head(SchemeKind::Plex, x);
    let (folder, file) = (
        plex::movie_folder(x.movie),
        sanitised(x.title.display_title@) + ".mkv"@,
    );
    lemma_placed(x.movie.root@, folder, file);
    lemma_nested(x.movie.root@, folder, role_folder(SchemeKind::Plex, x.role), file);
}

/// Whatever the titles, the files of a Kodi library are Matroska files below its
/// root.
pub proof fn law_kodi_paths(m: &MovieContext, e: &EpisodeContext, x: &ExtraContext)
    ensures
        filed(Kodi.movie(m), m.root@),
        filed(Kodi.episode(e), e.root@),
        filed(Kodi.extra(x), x.movie.root@),
{
    reveal_strlit(" {tmdb=");
    reveal_strlit(" {imdb=");
    reveal_strlit(" ");
    reveal_strlit("extras");
    reveal_strlit("-trailer.mkv");
    reveal_strlit(".mkv");
    lemma_dated_head(m.title@, m.year);
    lemma_head(dated(m.title@, m.year), kodi::movie_id(m));
    lemma_movie_file(m, kodi::movie_folder(m));
    lemma_dated_head(e.series_title@, e.series_year);
    lemma_season(e.season);
    lemma_sanitised_head(e.series_title@);
    let d = sanitised(e.series_title@) + " "@;
    lemma_head(sanitised(e.series_title@), " "@);
    assert(d.len() > 0);
    let f = d + episode_part("S"@, "E"@, e) + named_part(" "@, e.episode_title);
    assert(f[0] == d[0]);
    lemma_ending(f);
    lemma_nested(
        e.root@,
        dated(e.series_title@, e.series_year),
        season_part(e.season),
        f + ".mkv"@,
    );
    lemma_dated_head(x.movie.title@, x.movie.year);
    lemma_head(dated(x.movie.title@, x.movie.year), kodi::movie_id(x.movie));
    let folder = kodi::movie_folder(x.movie);
    lemma_ending(folder);
    lemma_placed(x.movie.root@, folder, folder + ".mkv"@);
    let t = folder + "-trailer.mkv"@;
    lemma_head(folder, "-trailer.mkv"@);
    assert(t.skip(t.len() - 4) =~= ".mkv"@);
    lemma_placed(x.movie.root@, folder, t);
    lemma_title_file(x.title.display_title@);
    lemma_nested(
        x.movie.root@,
        folder,
        "extras"@,
        sanitised(x.title.display_title@) + ".mkv"@,
    );
}

} // verus!
