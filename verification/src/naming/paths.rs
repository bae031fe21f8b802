//! Paths written out part by part, and what cleaning a name does to its
//! characters.

use crate::identify::TitleRole;
use crate::naming::extras::role_folder;
use crate::naming::jellyfin::Jellyfin;
use crate::naming::kodi::Kodi;
use crate::naming::laws::rooted;
use crate::naming::plex::Plex;
use crate::naming::{
    cleaned, collapsed, illegal, is_clean, joined, law_sanitised, law_sanitised_stays, sanitised,
    without_dots, EpisodeContext, ExtraContext, MovieContext, MovieVariant, Scheme,
};
use crate::settings::SchemeKind;
use crate::text::{digits, is_space, two_digits};
use vstd::prelude::*;

verus! {

// ---- numbers ----

/// Digits are written from the highest to the lowest, without leading zeros.
pub proof fn law_decimal_digits(n: nat)
    ensures
        n < 10 ==> digits(n).len() == 1,
        digits(n).last() as u32 == '0' as u32 + n % 10,
        n >= 10 ==> digits(n).drop_last() == digits(n / 10),
        n > 0 ==> digits(n)[0] != '0',
        n < 100 ==> two_digits(n).len() == 2 && two_digits(n)[0] as u32 == '0' as u32 + n / 10
            && two_digits(n)[1] as u32 == '0' as u32 + n % 10,
        n >= 100 ==> two_digits(n) == digits(n),
    decreases n,
{
    reveal_with_fuel(digits, 3);
    if n >= 10 {
        law_decimal_digits(n / 10);
        assert(digits(n).drop_last() =~= digits(n / 10));
    }
}

// ---- clean names ----

/// The character is one that no file name may hold.
pub open spec fn forbidden(c: char) -> bool {
    ||| c == '/' || c == '\\' || c == ':' || c == '*' || c == '?' || c == '"' || c == '<'
    ||| c == '>' || c == '|'
    ||| (c as u32) < 32
    ||| 127 <= c as u32 <= 159
}

/// A clean name holds no forbidden character.
pub proof fn law_forbidden_characters_go(s: Seq<char>, c: char)
    requires
        forbidden(c),
    ensures
        !sanitised(s).contains(c),
{
    law_sanitised(s);
    if sanitised(s).contains(c) {
        let i = choose|i: int| 0 <= i < sanitised(s).len() && sanitised(s)[i] == c;
        assert(!illegal(sanitised(s)[i]));
    }
}

/// A forbidden character separates words as a space does.
pub proof fn law_forbidden_characters_are_spaces(a: Seq<char>, c: char, b: Seq<char>)
    requires
        forbidden(c),
    ensures
        sanitised(a.push(c) + b) == sanitised(a.push(' ') + b),
{
    assert(cleaned(a.push(c) + b) =~= cleaned(a.push(' ') + b));
}

/// The character is a letter, a digit or a mark that file names may hold, in the
/// Latin, Greek, Cyrillic or a neighbouring script.
pub open spec fn plain(c: char) -> bool {
    &&& !forbidden(c)
    &&& (33 <= c as u32 <= 126) || (161 <= c as u32 <= 0x167f)
}

/// A name of plain characters with single spaces between its words, that does not
/// end in a dot, stays as it is.
pub proof fn law_plain_names_stay(s: Seq<char>)
    requires
        forall|i: int| 0 <= i < s.len() ==> plain(#[trigger] s[i]) || s[i] == ' ',
        forall|i: int| 0 < i < s.len() && #[trigger] s[i] == ' ' ==> s[i - 1] != ' ',
        s.len() > 0 ==> s[0] != ' ' && s.last() != ' ' && s.last() != '.',
    ensures
        sanitised(s) == s,
{
    assert(is_clean(s)) by {
        assert forall|i: int| 0 <= i < s.len() implies !illegal(#[trigger] s[i]) by {
            assert(plain(s[i]) || s[i] == ' ');
        }
        assert forall|i: int| 0 <= i < s.len() && is_space(#[trigger] s[i]) implies s[i] == ' ' by {
            assert(plain(s[i]) || s[i] == ' ');
        }
    }
    law_sanitised_stays(s);
}

proof fn lemma_collapse_tail(a: Seq<char>, b: Seq<char>, t: Seq<char>)
    requires
        collapsed(a) == collapsed(b),
        a.len() > 0 && b.len() > 0 ==> is_space(a.last()) == is_space(b.last()),
        a.len() == 0 ==> collapsed(b).len() == 0,
        b.len() == 0 ==> collapsed(a).len() == 0,
    ensures
        collapsed(a + t) == collapsed(b + t),
    decreases t.len(),
{
    if t.len() == 0 {
        assert(a + t =~= a && b + t =~= b);
    } else {
        let r = t.drop_last();
        lemma_collapse_tail(a, b, r);
        assert((a + t).drop_last() =~= a + r);
        assert((b + t).drop_last() =~= b + r);
        assert((a + t).last() == t.last() && (b + t).last() == t.last());
        if r.len() > 0 {
            assert((a + r).last() == r.last() && (b + r).last() == r.last());
        } else {
            assert(a + r =~= a && b + r =~= b);
        }
    }
}

/// Several spaces between words count as one, and spaces around a name and dots
/// behind it do not count.
pub proof fn law_spaces_and_dots(a: Seq<char>, b: Seq<char>)
    ensures
        sanitised(a.push(' ').push(' ') + b) == sanitised(a.push(' ') + b),
        sanitised(seq![' '] + b) == sanitised(b),
        sanitised(a.push(' ')) == sanitised(a),
        sanitised(a.push('.')) == sanitised(a),
{
    assert(is_space(' ') && !is_space('.') && !illegal(' ') && !illegal('.'));
    let (ca, cb) = (cleaned(a), cleaned(b));
    let two = ca.push(' ').push(' ');
    let one = ca.push(' ');
    assert(cleaned(a.push(' ').push(' ') + b) =~= two + cb);
    assert(cleaned(a.push(' ') + b) =~= one + cb);
    assert(two.drop_last() =~= one);
    assert(one.drop_last() =~= ca);
    assert(collapsed(one) == collapsed(ca));
    assert(collapsed(two) == collapsed(one));
    lemma_collapse_tail(two, one, cb);
    let lead = seq![' '];
    assert(cleaned(seq![' '] + b) =~= lead + cb);
    assert(lead.drop_last() =~= Seq::<char>::empty());
    assert(lead.last() == ' ');
    assert(collapsed(Seq::<char>::empty()) =~= Seq::<char>::empty());
    assert(collapsed(lead) == collapsed(lead.drop_last()));
    lemma_collapse_tail(lead, Seq::empty(), cb);
    assert(Seq::<char>::empty() + cb =~= cb);
    assert(cleaned(a.push(' ')) =~= one);
    let dot = ca.push('.');
    assert(cleaned(a.push('.')) =~= dot);
    assert(dot.drop_last() =~= ca);
    let k = collapsed(ca);
    if k.len() > 0 && ca.len() > 0 && is_space(ca.last()) {
        let d = k.push(' ').push('.');
        assert(collapsed(dot) == d);
        assert(d.drop_last() =~= k.push(' '));
        assert(k.push(' ').drop_last() =~= k);
        reveal_with_fuel(without_dots, 3);
        assert(without_dots(k.push(' ')) == without_dots(k));
    } else {
        if ca.len() == 0 {
            assert(k.len() == 0);
        }
        assert(collapsed(dot) == k.push('.'));
        assert(k.push('.').drop_last() =~= k);
    }
}

// ---- paths ----

/// The path with a slash behind it, to put a name there.
pub open spec fn slash(a: Seq<char>) -> Seq<char> {
    if a.len() == 0 || a[a.len() - 1] == '/' {
        a
    } else {
        a + seq!['/']
    }
}

proof fn lemma_joined_text(a: Seq<char>, b: Seq<char>)
    requires
        !rooted(b),
    ensures
        joined(a, b) == slash(a) + b,
{
    assert(a.push('/') =~= a + seq!['/']);
}

/// A year in brackets behind a title.
pub open spec fn year_text(y: Option<u32>) -> Seq<char> {
    if y is Some {
        " ("@ + digits(y->0 as nat) + ")"@
    } else {
        Seq::empty()
    }
}

proof fn lemma_title_head(t: Seq<char>, y: Option<u32>, rest: Seq<char>)
    requires
        !rooted(rest),
    ensures
        !rooted(sanitised(t) + year_text(y) + rest),
        !rooted(sanitised(t) + rest),
{
    law_sanitised(t);
    reveal_strlit(" (");
    let s = sanitised(t);
    if s.len() > 0 {
        assert(!illegal(s[0]));
        assert((s + year_text(y) + rest)[0] == s[0]);
        assert((s + rest)[0] == s[0]);
    } else if y is Some {
        assert((s + year_text(y) + rest)[0] == year_text(y)[0]);
        assert(s + rest =~= rest);
    } else {
        assert(s + year_text(y) + rest =~= rest);
        assert(s + rest =~= rest);
    }
}

/// The suffix of a movie's version.
pub open spec fn version_text(v: Option<MovieVariant>, t: Seq<char>) -> bool {
    &&& v is None ==> t == Seq::<char>::empty()
    &&& v == Some(MovieVariant::Uhd4k) ==> t == " - 4K"@
    &&& v == Some(MovieVariant::Stereo3d) ==> t == " - 3D"@
    &&& v == Some(MovieVariant::Extended) ==> t == " - Extended"@
    &&& v == Some(MovieVariant::Theatrical) ==> t == " - Theatrical"@
    &&& v == Some(MovieVariant::Directors) ==> t == " - Director's Cut"@
}

/// The number of an episode, or of the first and last one.
pub open spec fn number_text(s: Seq<char>, e: Seq<char>, c: &EpisodeContext) -> Seq<char> {
    if c.episode_end is Some {
        s + two_digits(c.season as nat) + e + two_digits(c.episode as nat) + "-"@ + e + two_digits(
            c.episode_end->0 as nat,
        )
    } else {
        s + two_digits(c.season as nat) + e + two_digits(c.episode as nat)
    }
}

/// The tag of a movie in a Plex library: the IMDb identifier, else that of TMDb.
pub open spec fn plex_movie_tag(m: &MovieContext, t: Seq<char>) -> bool {
    &&& m.imdb_id is Some ==> t == " {imdb-"@ + m.imdb_id->0@ + "}"@
    &&& m.imdb_id is None && m.tmdb_id is Some ==> t == " {tmdb-"@ + digits(m.tmdb_id->0 as nat)
        + "}"@
    &&& m.imdb_id is None && m.tmdb_id is None ==> t == Seq::<char>::empty()
}

/// The tag of a series in a Plex library: the TVDB identifier, else that of IMDb,
/// else that of TMDb, each behind the letters of its database.
pub open spec fn plex_series_tag(e: &EpisodeContext, t: Seq<char>) -> bool {
    &&& e.tvdb_id is Some ==> t == " {tvdb-"@ + digits(e.tvdb_id->0 as nat) + "}"@
    &&& e.tvdb_id is None && e.imdb_id is Some ==> t == " {imdb-"@ + e.imdb_id->0@ + "}"@
    &&& e.tvdb_id is None && e.imdb_id is None && e.tmdb_id is Some ==> t == " {tmdb-"@ + digits(
        e.tmdb_id->0 as nat,
    ) + "}"@
    &&& e.tvdb_id is None && e.imdb_id is None && e.tmdb_id is None ==> t == Seq::<char>::empty()
}

/// The tag of a movie in a Jellyfin library: the IMDb identifier, else that of TMDb.
pub open spec fn jellyfin_movie_tag(m: &MovieContext, t: Seq<char>) -> bool {
    &&& m.imdb_id is Some ==> t == " [imdbid-"@ + m.imdb_id->0@ + "]"@
    &&& m.imdb_id is None && m.tmdb_id is Some ==> t == " [tmdbid-"@ + digits(m.tmdb_id->0 as nat)
        + "]"@
    &&& m.imdb_id is None && m.tmdb_id is None ==> t == Seq::<char>::empty()
}

/// The tag of a series in a Jellyfin library: the IMDb identifier, else that of
/// TMDb, else that of TVDB.
pub open spec fn jellyfin_series_tag(e: &EpisodeContext, t: Seq<char>) -> bool {
    &&& e.imdb_id is Some ==> t == " [imdbid-"@ + e.imdb_id->0@ + "]"@
    &&& e.imdb_id is None && e.tmdb_id is Some ==> t == " [tmdbid-"@ + digits(e.tmdb_id->0 as nat)
        + "]"@
    &&& e.imdb_id is None && e.tmdb_id is None && e.tvdb_id is Some ==> t == " [tvdbid-"@ + digits(
        e.tvdb_id->0 as nat,
    ) + "]"@
    &&& e.imdb_id is None && e.tmdb_id is None && e.tvdb_id is None ==> t == Seq::<char>::empty()
}

/// The tag of a movie in a Kodi library: the TMDb identifier, else that of IMDb.
pub open spec fn kodi_movie_tag(m: &MovieContext, t: Seq<char>) -> bool {
    &&& m.tmdb_id is Some ==> t == " {tmdb="@ + digits(m.tmdb_id->0 as nat) + "}"@
    &&& m.tmdb_id is None && m.imdb_id is Some ==> t == " {imdb="@ + m.imdb_id->0@ + "}"@
    &&& m.tmdb_id is None && m.imdb_id is None ==> t == Seq::<char>::empty()
}

proof fn lemma_literals()
    ensures
        !rooted(" {imdb-"@),
        !rooted(" {tmdb-"@),
        !rooted(" {tvdb-"@),
        !rooted(" [imdbid-"@),
        !rooted(" [tmdbid-"@),
        !rooted(" [tvdbid-"@),
        !rooted(" {tmdb="@),
        !rooted(" {imdb="@),
        " {imdb-"@.len() > 0,
        " {tmdb-"@.len() > 0,
        " {tvdb-"@.len() > 0,
        " [imdbid-"@.len() > 0,
        " [tmdbid-"@.len() > 0,
        " [tvdbid-"@.len() > 0,
        " {tmdb="@.len() > 0,
        " {imdb="@.len() > 0,
        !rooted(" - 4K"@),
        !rooted(" - 3D"@),
        !rooted(" - Extended"@),
        !rooted(" - Theatrical"@),
        !rooted(" - Director's Cut"@),
        " - 4K"@.len() > 0,
        " - 3D"@.len() > 0,
        " - Extended"@.len() > 0,
        " - Theatrical"@.len() > 0,
        " - Director's Cut"@.len() > 0,
        !rooted(".mkv"@),
        ".mkv"@.len() > 0,
        !rooted(" - "@),
        " - "@.len() > 0,
        !rooted(" "@),
        " "@.len() > 0,
        !rooted("Season "@),
        "Season "@.len() > 0,
        !rooted("-trailer.mkv"@),
        "-trailer.mkv"@.len() > 0,
        !rooted("extras"@),
        "extras"@.len() > 0,
{
    reveal_strlit(" {imdb-");
    reveal_strlit(" {tmdb-");
    reveal_strlit(" {tvdb-");
    reveal_strlit(" [imdbid-");
    reveal_strlit(" [tmdbid-");
    reveal_strlit(" [tvdbid-");
    reveal_strlit(" {tmdb=");
    reveal_strlit(" {imdb=");
    reveal_strlit(" - 4K");
    reveal_strlit(" - 3D");
    reveal_strlit(" - Extended");
    reveal_strlit(" - Theatrical");
    reveal_strlit(" - Director's Cut");
    reveal_strlit(".mkv");
    reveal_strlit(" - ");
    reveal_strlit(" ");
    reveal_strlit("Season ");
    reveal_strlit("-trailer.mkv");
    reveal_strlit("extras");
}

proof fn lemma_front(a: Seq<char>, b: Seq<char>)
    requires
        !rooted(a),
        a.len() > 0 || !rooted(b),
    ensures
        !rooted(a + b),
{
    if a.len() > 0 {
        assert((a + b)[0] == a[0]);
    } else {
        assert(a + b =~= b);
    }
}

/// The path of a movie: its folder below the root, and in it a file of the same
/// name with the version behind it.
pub open spec fn movie_text(root: Seq<char>, folder: Seq<char>, version: Seq<char>) -> Seq<char> {
    slash(slash(root) + folder) + (folder + version + ".mkv"@)
}

proof fn lemma_movie_text(root: Seq<char>, t: Seq<char>, y: Option<u32>, tag: Seq<char>, v: Seq<char>)
    requires
        !rooted(tag),
        !rooted(v),
    ensures
        ({
            let f = sanitised(t) + year_text(y) + tag;
            joined(joined(root, f), f + v + ".mkv"@) == movie_text(root, f, v)
        }),
{
    lemma_literals();
    let f = sanitised(t) + year_text(y) + tag;
    lemma_title_head(t, y, tag);
    lemma_joined_text(root, f);
    lemma_front(v, ".mkv"@);
    lemma_front(f, v + ".mkv"@);
    assert(f + (v + ".mkv"@) =~= f + v + ".mkv"@);
    lemma_joined_text(joined(root, f), f + v + ".mkv"@);
}

/// Where movies go, in each library: folder and file are title, year and the tag of
/// the identifier that comes first there; the file has the version and the ending.
pub proof fn law_movie_paths(m: &MovieContext, tag: Seq<char>, v: Seq<char>)
    requires
        version_text(m.variant, v),
    ensures
        plex_movie_tag(m, tag) ==> Plex.movie(m) == movie_text(
            m.root@,
            sanitised(m.title@) + year_text(m.year) + tag,
            v,
        ),
        jellyfin_movie_tag(m, tag) ==> Jellyfin.movie(m) == movie_text(
            m.root@,
            sanitised(m.title@) + year_text(m.year) + tag,
            v,
        ),
        kodi_movie_tag(m, tag) ==> Kodi.movie(m) == movie_text(
            m.root@,
            sanitised(m.title@) + year_text(m.year) + tag,
            v,
        ),
{
    lemma_literals();
    if plex_movie_tag(m, tag) || jellyfin_movie_tag(m, tag) || kodi_movie_tag(m, tag) {
        assert(!rooted(tag)) by {
            if tag.len() > 0 {
                assert(tag[0] == ' ') by {
                    reveal_strlit(" {imdb-");
                    reveal_strlit(" {tmdb-");
                    reveal_strlit(" [imdbid-");
                    reveal_strlit(" [tmdbid-");
                    reveal_strlit(" {tmdb=");
                    reveal_strlit(" {imdb=");
                }
            }
        }
        assert(!rooted(v)) by {
            match m.variant {
                None => {},
                Some(MovieVariant::Uhd4k) => {},
                Some(MovieVariant::Stereo3d) => {},
                Some(MovieVariant::Extended) => {},
                Some(MovieVariant::Theatrical) => {},
                Some(MovieVariant::Directors) => {},
            }
        }
        lemma_movie_text(m.root@, m.title@, m.year, tag, v);
    }
}

/// The path of an episode: the series' folder below the root, in it the season's
/// folder with at least two digits, and in that the file.
pub open spec fn episode_text(
    root: Seq<char>,
    folder: Seq<char>,
    season: u32,
    file: Seq<char>,
) -> Seq<char> {
    slash(slash(slash(root) + folder) + ("Season "@ + two_digits(season as nat))) + file
}

proof fn lemma_episode_text(root: Seq<char>, folder: Seq<char>, season: u32, file: Seq<char>)
    requires
        !rooted(folder),
        !rooted(file),
    ensures
        joined(
            joined(joined(root, folder), "Season "@ + two_digits(season as nat)),
            file,
        ) == episode_text(root, folder, season, file),
{
    lemma_literals();
    lemma_front("Season "@, two_digits(season as nat));
    lemma_joined_text(root, folder);
    lemma_joined_text(joined(root, folder), "Season "@ + two_digits(season as nat));
    lemma_joined_text(
        joined(joined(root, folder), "Season "@ + two_digits(season as nat)),
        file,
    );
}

/// The title of an episode behind a separator, where it has one that is not empty
/// when cleaned.
pub open spec fn name_text(sep: Seq<char>, t: Option<&str>) -> Seq<char> {
    if t is Some && sanitised(t->0@).len() > 0 {
        sep + sanitised(t->0@)
    } else {
        Seq::empty()
    }
}

/// Where episodes go in a Plex library: the tag names the database that the
/// identifier comes from, the file has title, year and the number in small letters,
/// and the episode's own title is left out.
pub proof fn law_plex_episode_path(e: &EpisodeContext, tag: Seq<char>)
    requires
        plex_series_tag(e, tag),
    ensures
        Plex.episode(e) == episode_text(
            e.root@,
            sanitised(e.series_title@) + year_text(e.series_year) + tag,
            e.season,
            sanitised(e.series_title@) + year_text(e.series_year) + " - "@ + number_text(
                "s"@,
                "e"@,
                e,
            ) + ".mkv"@,
        ),
{
    lemma_literals();
    reveal_strlit(" {imdb-");
    reveal_strlit(" {tmdb-");
    reveal_strlit(" {tvdb-");
    lemma_title_head(e.series_title@, e.series_year, tag);
    lemma_title_head(e.series_title@, e.series_year, " - "@);
    let d = sanitised(e.series_title@) + year_text(e.series_year) + " - "@;
    let file = d + number_text("s"@, "e"@, e) + ".mkv"@;
    assert(file[0] == d[0]);
    lemma_episode_text(
        e.root@,
        sanitised(e.series_title@) + year_text(e.series_year) + tag,
        e.season,
        file,
    );
}

/// Where episodes go in a Jellyfin library: title, year and number in capitals, then
/// the episode's title behind a dash.
pub proof fn law_jellyfin_episode_path(e: &EpisodeContext, tag: Seq<char>)
    requires
        jellyfin_series_tag(e, tag),
    ensures
        Jellyfin.episode(e) == episode_text(
            e.root@,
            sanitised(e.series_title@) + year_text(e.series_year) + tag,
            e.season,
            sanitised(e.series_title@) + year_text(e.series_year) + " "@ + number_text(
                "S"@,
                "E"@,
                e,
            ) + name_text(" - "@, e.episode_title) + ".mkv"@,
        ),
{
    lemma_literals();
    reveal_strlit(" [imdbid-");
    reveal_strlit(" [tmdbid-");
    reveal_strlit(" [tvdbid-");
    lemma_title_head(e.series_title@, e.series_year, tag);
    lemma_title_head(e.series_title@, e.series_year, " "@);
    let d = sanitised(e.series_title@) + year_text(e.series_year) + " "@;
    let file = d + number_text("S"@, "E"@, e) + name_text(" - "@, e.episode_title) + ".mkv"@;
    assert(file[0] == d[0]);
    lemma_episode_text(
        e.root@,
        sanitised(e.series_title@) + year_text(e.series_year) + tag,
        e.season,
        file,
    );
}

/// Where episodes go in a Kodi library: no identifier, the year in the folder only,
/// and the episode's title behind a space.
pub proof fn law_kodi_episode_path(e: &EpisodeContext)
    ensures
        Kodi.episode(e) == episode_text(
            e.root@,
            sanitised(e.series_title@) + year_text(e.series_year),
            e.season,
            sanitised(e.series_title@) + " "@ + number_text("S"@, "E"@, e) + name_text(
                " "@,
                e.episode_title,
            ) + ".mkv"@,
        ),
{
    lemma_literals();
    lemma_title_head(e.series_title@, e.series_year, Seq::empty());
    lemma_title_head(e.series_title@, e.series_year, " "@);
    let f = sanitised(e.series_title@) + year_text(e.series_year);
    assert(f + Seq::<char>::empty() =~= f);
    let d = sanitised(e.series_title@) + " "@;
    let file = d + number_text("S"@, "E"@, e) + name_text(" "@, e.episode_title) + ".mkv"@;
    assert(file[0] == d[0]);
    lemma_episode_text(e.root@, f, e.season, file);
}

/// An identifier of a database that comes later does not change a path, and the
/// episode's title does not change one of Plex.
pub proof fn law_first_identifier_counts(a: &EpisodeContext, b: &EpisodeContext)
    requires
        a.root == b.root,
        a.series_title == b.series_title,
        a.series_year == b.series_year,
        a.season == b.season,
        a.episode == b.episode,
        a.episode_end == b.episode_end,
    ensures
        a.tvdb_id is Some && a.tvdb_id == b.tvdb_id ==> Plex.episode(a) == Plex.episode(b),
        a.imdb_id is Some && a.imdb_id == b.imdb_id && a.episode_title == b.episode_title
            ==> Jellyfin.episode(a) == Jellyfin.episode(b),
        a.episode_title == b.episode_title ==> Kodi.episode(a) == Kodi.episode(b),
{
}

// ---- extras ----

/// The folders of extras in a Plex library.
pub proof fn law_plex_folders()
    ensures
        role_folder(SchemeKind::Plex, TitleRole::Trailer) == "Trailers"@,
        role_folder(SchemeKind::Plex, TitleRole::BehindTheScenes) == "Behind The Scenes"@,
        role_folder(SchemeKind::Plex, TitleRole::DeletedScene) == "Deleted Scenes"@,
        role_folder(SchemeKind::Plex, TitleRole::Featurette) == "Featurettes"@,
        role_folder(SchemeKind::Plex, TitleRole::Interview) == "Interviews"@,
        role_folder(SchemeKind::Plex, TitleRole::Scene) == "Scenes"@,
        role_folder(SchemeKind::Plex, TitleRole::Short) == "Shorts"@,
        role_folder(SchemeKind::Plex, TitleRole::Other) == "Other"@,
{
}

/// The folders of extras in a Jellyfin or Emby library.
pub proof fn law_jellyfin_folders(k: SchemeKind)
    requires
        k == SchemeKind::Jellyfin || k == SchemeKind::Emby,
    ensures
        role_folder(k, TitleRole::Trailer) == "trailers"@,
        role_folder(k, TitleRole::BehindTheScenes) == "behindthescenes"@,
        role_folder(k, TitleRole::DeletedScene) == "deleted"@,
        role_folder(k, TitleRole::Featurette) == "featurettes"@,
        role_folder(k, TitleRole::Interview) == "interviews"@,
        role_folder(k, TitleRole::Scene) == "scenes"@,
        role_folder(k, TitleRole::Short) == "shorts"@,
        role_folder(k, TitleRole::Other) == "extras"@,
{
}

/// In every library the main title lies beside the movie; in a Kodi library the
/// trailer does too, and every other extra goes to one folder.
pub proof fn law_shared_folders(k: SchemeKind, r: TitleRole)
    ensures
        role_folder(k, TitleRole::Main).len() == 0,
        role_folder(SchemeKind::Kodi, TitleRole::Trailer).len() == 0,
        r != TitleRole::Main && r != TitleRole::Trailer ==> role_folder(SchemeKind::Kodi, r)
            == "extras"@,
{
    reveal_strlit("");
}

proof fn lemma_role_folders()
    ensures
        forall|k: SchemeKind, r: TitleRole| !rooted(#[trigger] role_folder(k, r)),
        forall|k: SchemeKind, r: TitleRole|
            k != SchemeKind::Kodi && r != TitleRole::Main ==> (#[trigger] role_folder(k, r)).len()
                > 0,
        forall|k: SchemeKind| (#[trigger] role_folder(k, TitleRole::Main)).len() == 0,
{
    reveal_strlit("");
    reveal_strlit("extras");
    reveal_strlit("Trailers");
    reveal_strlit("Behind The Scenes");
    reveal_strlit("Deleted Scenes");
    reveal_strlit("Featurettes");
    reveal_strlit("Interviews");
    reveal_strlit("Scenes");
    reveal_strlit("Shorts");
    reveal_strlit("Other");
    reveal_strlit("trailers");
    reveal_strlit("behindthescenes");
    reveal_strlit("deleted");
    reveal_strlit("featurettes");
    reveal_strlit("interviews");
    reveal_strlit("scenes");
    reveal_strlit("shorts");
}

/// Where extras go in Plex and Jellyfin libraries: the folder of their role inside
/// the movie's folder, under their own cleaned title; the main title lies in the
/// movie's folder itself.
pub proof fn law_extra_paths(x: &ExtraContext, tag: Seq<char>)
    ensures
        ({
            let folder = sanitised(x.movie.title@) + year_text(x.movie.year) + tag;
            let file = sanitised(x.title.display_title@) + ".mkv"@;
            let home = slash(x.movie.root@) + folder;
            &&& plex_movie_tag(x.movie, tag) ==> Plex.extra(x) == (if x.role == TitleRole::Main {
                slash(home) + file
            } else {
                slash(slash(home) + role_folder(SchemeKind::Plex, x.role)) + file
            })
            &&& jellyfin_movie_tag(x.movie, tag) ==> Jellyfin.extra(x) == (if x.role
                == TitleRole::Main {
                slash(home) + file
            } else {
                slash(slash(home) + role_folder(SchemeKind::Jellyfin, x.role)) + file
            })
        }),
{
    lemma_literals();
    lemma_role_folders();
    if plex_movie_tag(x.movie, tag) || jellyfin_movie_tag(x.movie, tag) {
        reveal_strlit(" {imdb-");
        reveal_strlit(" {tmdb-");
        reveal_strlit(" [imdbid-");
        reveal_strlit(" [tmdbid-");
        let folder = sanitised(x.movie.title@) + year_text(x.movie.year) + tag;
        let file = sanitised(x.title.display_title@) + ".mkv"@;
        lemma_title_head(x.movie.title@, x.movie.year, tag);
        lemma_title_head(x.title.display_title@, None, ".mkv"@);
        lemma_joined_text(x.movie.root@, folder);
        let home = joined(x.movie.root@, folder);
        lemma_joined_text(home, file);
        let p = role_folder(SchemeKind::Plex, x.role);
        let j = role_folder(SchemeKind::Jellyfin, x.role);
        lemma_joined_text(home, p);
        lemma_joined_text(joined(home, p), file);
        lemma_joined_text(home, j);
        lemma_joined_text(joined(home, j), file);
    }
}

/// Where extras go in a Kodi library: the trailer beside the movie under the
/// movie's name, the main title under the movie's name, all others in one folder
/// under their own.
pub proof fn law_kodi_extra_path(x: &ExtraContext, tag: Seq<char>)
    requires
        kodi_movie_tag(x.movie, tag),
    ensures
        ({
            let folder = sanitised(x.movie.title@) + year_text(x.movie.year) + tag;
            let home = slash(x.movie.root@) + folder;
            &&& x.role == TitleRole::Trailer ==> Kodi.extra(x) == slash(home) + (folder
                + "-trailer.mkv"@)
            &&& x.role == TitleRole::Main ==> Kodi.extra(x) == slash(home) + (folder + ".mkv"@)
            &&& x.role != TitleRole::Trailer && x.role != TitleRole::Main ==> Kodi.extra(x)
                == slash(slash(home) + "extras"@) + (sanitised(x.title.display_title@) + ".mkv"@)
        }),
{
    lemma_literals();
    reveal_strlit(" {tmdb=");
    reveal_strlit(" {imdb=");
    let folder = sanitised(x.movie.title@) + year_text(x.movie.year) + tag;
    lemma_title_head(x.movie.title@, x.movie.year, tag);
    lemma_title_head(x.title.display_title@, None, ".mkv"@);
    lemma_joined_text(x.movie.root@, folder);
    let home = joined(x.movie.root@, folder);
    lemma_front(folder, "-trailer.mkv"@);
    lemma_front(folder, ".mkv"@);
    lemma_joined_text(home, folder + "-trailer.mkv"@);
    lemma_joined_text(home, folder + ".mkv"@);
    lemma_joined_text(home, "extras"@);
    lemma_joined_text(
        joined(home, "extras"@),
        sanitised(x.title.display_title@) + ".mkv"@,
    );
}

} // verus!
