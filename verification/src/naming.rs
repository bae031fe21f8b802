//! Names of output files, by the rules of the media server that will read them.

use crate::identify::{TitleIdentity, TitleRole};
use crate::text::{
    chars_of, digits, is_space, put_number, put_text, put_two_digits, space, string_of, two_digits,
};
use vstd::prelude::*;

pub mod extras;
pub mod jellyfin;
pub mod kodi;
pub mod laws;
pub mod paths;
pub mod plex;

verus! {

/// The naming rules of a media server: paths below a library root, with `/`
/// between their parts.
pub trait Scheme {
    /// The path of a movie.
    spec fn movie(&self, ctx: &MovieContext) -> Seq<char>;

    /// The path of an episode of a series.
    spec fn episode(&self, ctx: &EpisodeContext) -> Seq<char>;

    /// The path of an extra of a movie.
    spec fn extra(&self, ctx: &ExtraContext) -> Seq<char>;

    fn movie_path(&self, ctx: &MovieContext) -> (p: String)
        ensures
            p@ == self.movie(ctx),
    ;

    fn episode_path(&self, ctx: &EpisodeContext) -> (p: String)
        ensures
            p@ == self.episode(ctx),
    ;

    fn extras_path(&self, ctx: &ExtraContext) -> (p: String)
        ensures
            p@ == self.extra(ctx),
    ;
}

/// A movie to be named.
#[derive(Debug, Clone)]
pub struct MovieContext<'a> {
    pub root: &'a str,
    pub title: &'a str,
    pub year: Option<u32>,
    pub tmdb_id: Option<u64>,
    pub imdb_id: Option<&'a str>,
    pub variant: Option<MovieVariant>,
}

/// A version of a movie.
#[derive(Debug, Clone, Copy, PartialEq, Eq, Structural)]
pub enum MovieVariant {
    Uhd4k,
    Stereo3d,
    Extended,
    Theatrical,
    Directors,
}

/// An episode to be named. A file can hold several: up to `episode_end`.
#[derive(Debug, Clone)]
pub struct EpisodeContext<'a> {
    pub root: &'a str,
    pub series_title: &'a str,
    pub series_year: Option<u32>,
    pub tmdb_id: Option<u64>,
    pub imdb_id: Option<&'a str>,
    pub tvdb_id: Option<u64>,
    pub season: u32,
    pub episode: u32,
    pub episode_end: Option<u32>,
    pub episode_title: Option<&'a str>,
}

/// An extra of a movie to be named.
#[derive(Debug, Clone)]
pub struct ExtraContext<'a> {
    pub movie: &'a MovieContext<'a>,
    pub title: &'a TitleIdentity,
    pub role: TitleRole,
}

// ---- clean names ----

/// The character cannot stand in a file name on some system.
pub open spec fn illegal(c: char) -> bool {
    ||| c == ':' || c == '?' || c == '*' || c == '"' || c == '<' || c == '>' || c == '|'
    ||| c == '/' || c == '\\'
    ||| c as u32 <= 0x1f
    ||| 0x7f <= c as u32 <= 0x9f
}

/// The text with spaces for illegal characters.
pub open spec fn cleaned(s: Seq<char>) -> Seq<char> {
    s.map_values(
        |c: char|
            if illegal(c) {
                ' '
            } else {
                c
            },
    )
}

/// The words of a text with one space between them.
pub open spec fn collapsed(s: Seq<char>) -> Seq<char>
    decreases s.len(),
{
    if s.len() == 0 {
        s
    } else {
        let (c, rest) = (s.last(), s.drop_last());
        let before = collapsed(rest);
        if is_space(c) {
            before
        } else if before.len() > 0 && is_space(rest.last()) {
            before.push(' ').push(c)
        } else {
            before.push(c)
        }
    }
}

/// The text without dots and spaces at its end.
pub open spec fn without_dots(s: Seq<char>) -> Seq<char>
    decreases s.len(),
{
    if s.len() > 0 && (s.last() == '.' || s.last() == ' ') {
        without_dots(s.drop_last())
    } else {
        s
    }
}

/// A name that can stand in a path: illegal characters become spaces, white space
/// is collapsed, and dots and spaces at the end are dropped.
pub open spec fn sanitised(s: Seq<char>) -> Seq<char> {
    without_dots(collapsed(cleaned(s)))
}

fn is_illegal(c: char) -> (b: bool)
    ensures
        b == illegal(c),
{
    let u: u32 = c as u32;
    c == ':' || c == '?' || c == '*' || c == '"' || c == '<' || c == '>' || c == '|' || c == '/'
        || c == '\\' || u <= 0x1f || (u >= 0x7f && u <= 0x9f)
}

fn clean(s: &Vec<char>) -> (out: Vec<char>)
    ensures
        out@ == cleaned(s@),
{
    let mut out: Vec<char> = Vec::new();
    let n: usize = s.len();
    for i in 0..n
        invariant
            n == s@.len(),
            out@.len() == i,
            forall|k: int| 0 <= k < i ==> #[trigger] out@[k] == cleaned(s@)[k],
    {
        out.push(
            if is_illegal(s[i]) {
                ' '
            } else {
                s[i]
            },
        );
    }
    assert(out@ =~= cleaned(s@));
    out
}

fn collapse(s: &Vec<char>) -> (out: Vec<char>)
    ensures
        out@ == collapsed(s@),
{
    let mut out: Vec<char> = Vec::new();
    let n: usize = s.len();
    assert(s@.take(0) =~= Seq::empty());
    for i in 0..n
        invariant
            n == s@.len(),
            out@ == collapsed(s@.take(i as int)),
    {
        assert(s@.take(i + 1).drop_last() =~= s@.take(i as int));
        let c: char = s[i];
        if !space(c) {
            proof {
                if i == 0 {
                    assert(collapsed(s@.take(0)).len() == 0);
                } else {
                    assert(s@.take(i as int).last() == s@[i - 1]);
                }
            }
            if out.len() > 0 && i > 0 && space(s[i - 1]) {
                out.push(' ');
            }
            out.push(c);
        }
    }
    assert(s@.take(n as int) =~= s@);
    out
}

/// Append a name as it can stand in a path.
pub fn put_name(out: &mut Vec<char>, name: &str)
    ensures
        final(out)@ == old(out)@ + sanitised(name@),
{
    let ghost start = out@;
    let mut v = collapse(&clean(&chars_of(name)));
    let ghost want = without_dots(v@);
    while v.len() > 0 && (v[v.len() - 1] == '.' || v[v.len() - 1] == ' ')
        invariant
            without_dots(v@) == want,
        decreases v@.len(),
    {
        let ghost was = v@;
        v.pop();
        assert(v@ =~= was.drop_last());
    }
    out.append(&mut v);
    assert(out@ =~= start + sanitised(name@));
}

/// A name that can stand in a path.
pub fn sanitise(name: &str) -> (r: String)
    ensures
        r@ == sanitised(name@),
{
    let mut v: Vec<char> = Vec::new();
    put_name(&mut v, name);
    assert(v@ =~= sanitised(name@));
    string_of(v.as_slice())
}

// ---- parts of names ----

/// A path below another: a path from the root stands for itself.
pub open spec fn joined(a: Seq<char>, b: Seq<char>) -> Seq<char> {
    if b.len() > 0 && b[0] == '/' {
        b
    } else if a.len() == 0 || a.last() == '/' {
        a + b
    } else {
        a.push('/') + b
    }
}

/// A year in brackets, where there is one.
pub open spec fn year_part(y: Option<u32>) -> Seq<char> {
    match y {
        Some(n) => " ("@ + digits(n as nat) + ")"@,
        None => Seq::empty(),
    }
}

/// A name and a year.
pub open spec fn dated(title: Seq<char>, y: Option<u32>) -> Seq<char> {
    sanitised(title) + year_part(y)
}

/// An identifier between marks.
pub open spec fn tagged(open: Seq<char>, id: Seq<char>, close: Seq<char>) -> Seq<char> {
    open + id + close
}

/// How the version of a movie shows.
pub open spec fn variant_part(v: Option<MovieVariant>) -> Seq<char> {
    match v {
        None => Seq::empty(),
        Some(MovieVariant::Uhd4k) => " - 4K"@,
        Some(MovieVariant::Stereo3d) => " - 3D"@,
        Some(MovieVariant::Extended) => " - Extended"@,
        Some(MovieVariant::Theatrical) => " - Theatrical"@,
        Some(MovieVariant::Directors) => " - Director's Cut"@,
    }
}

/// The folder of a season.
pub open spec fn season_part(n: u32) -> Seq<char> {
    "Season "@ + two_digits(n as nat)
}

/// Season and episode, or a range of episodes, with these letters.
pub open spec fn episode_part(s: Seq<char>, e: Seq<char>, ctx: &EpisodeContext) -> Seq<char> {
    let first = s + two_digits(ctx.season as nat) + e + two_digits(ctx.episode as nat);
    match ctx.episode_end {
        Some(n) => first + "-"@ + e + two_digits(n as nat),
        None => first,
    }
}

/// The title of an episode after a separator, where it has one.
pub open spec fn named_part(sep: Seq<char>, t: Option<&str>) -> Seq<char> {
    match t {
        Some(x) if sanitised(x@).len() > 0 => sep + sanitised(x@),
        _ => Seq::empty(),
    }
}

/// The path of a file in a folder within a folder of the root.
pub open spec fn nested(root: Seq<char>, a: Seq<char>, b: Seq<char>, file: Seq<char>) -> Seq<char> {
    joined(joined(joined(root, a), b), file)
}

/// The path of a file in a folder of the root.
pub open spec fn placed(root: Seq<char>, folder: Seq<char>, file: Seq<char>) -> Seq<char> {
    joined(joined(root, folder), file)
}

/// A path below another.
pub fn join(a: Vec<char>, b: Vec<char>) -> (r: Vec<char>)
    ensures
        r@ == joined(a@, b@),
{
    let mut r = a;
    let mut b = b;
    let ghost (x, y) = (r@, b@);
    let n: usize = r.len();
    if b.len() > 0 && b[0] == '/' {
        return b;
    }
    if n > 0 && r[n - 1] != '/' {
        r.push('/');
    }
    r.append(&mut b);
    assert(r@ =~= joined(x, y));
    r
}

/// Append a name and a year.
pub fn put_dated(out: &mut Vec<char>, title: &str, y: Option<u32>)
    ensures
        final(out)@ == old(out)@ + dated(title@, y),
{
    let ghost start = out@;
    put_name(out, title);
    match y {
        Some(n) => {
            put_text(out, " (");
            put_number(out, n as u64);
            put_text(out, ")");
        },
        None => {},
    }
    assert(out@ =~= start + dated(title@, y));
}

/// Append an identifier between marks.
pub fn put_tag(out: &mut Vec<char>, open: &str, id: &str, close: &str)
    ensures
        final(out)@ == old(out)@ + tagged(open@, id@, close@),
{
    let ghost start = out@;
    put_text(out, open);
    put_text(out, id);
    put_text(out, close);
    assert(out@ =~= start + tagged(open@, id@, close@));
}

/// Append a number between marks.
pub fn put_number_tag(out: &mut Vec<char>, open: &str, id: u64, close: &str)
    ensures
        final(out)@ == old(out)@ + tagged(open@, digits(id as nat), close@),
{
    let ghost start = out@;
    put_text(out, open);
    put_number(out, id);
    put_text(out, close);
    assert(out@ =~= start + tagged(open@, digits(id as nat), close@));
}

/// Append how the version of a movie shows.
pub fn put_variant(out: &mut Vec<char>, v: Option<MovieVariant>)
    ensures
        final(out)@ == old(out)@ + variant_part(v),
{
    let ghost start = out@;
    match v {
        None => {
            assert(start + Seq::<char>::empty() =~= start);
        },
        Some(MovieVariant::Uhd4k) => put_text(out, " - 4K"),
        Some(MovieVariant::Stereo3d) => put_text(out, " - 3D"),
        Some(MovieVariant::Extended) => put_text(out, " - Extended"),
        Some(MovieVariant::Theatrical) => put_text(out, " - Theatrical"),
        Some(MovieVariant::Directors) => put_text(out, " - Director's Cut"),
    }
}

/// The folder of a season.
pub fn season_folder(n: u32) -> (r: Vec<char>)
    ensures
        r@ == season_part(n),
{
    let mut r: Vec<char> = Vec::new();
    put_text(&mut r, "Season ");
    put_two_digits(&mut r, n);
    assert(r@ =~= season_part(n));
    r
}

/// Append season and episode with these letters.
pub fn put_episode(out: &mut Vec<char>, s: &str, e: &str, ctx: &EpisodeContext)
    ensures
        final(out)@ == old(out)@ + episode_part(s@, e@, ctx),
{
    let ghost start = out@;
    put_text(out, s);
    put_two_digits(out, ctx.season);
    put_text(out, e);
    put_two_digits(out, ctx.episode);
    match ctx.episode_end {
        Some(n) => {
            put_text(out, "-");
            put_text(out, e);
            put_two_digits(out, n);
        },
        None => {},
    }
    assert(out@ =~= start + episode_part(s@, e@, ctx));
}

/// Append the title of an episode after a separator.
pub fn put_named(out: &mut Vec<char>, sep: &str, t: Option<&str>)
    ensures
        final(out)@ == old(out)@ + named_part(sep@, t),
{
    let ghost start = out@;
    match t {
        Some(x) => {
            let mut v: Vec<char> = Vec::new();
            put_name(&mut v, x);
            assert(v@ =~= sanitised(x@));
            if v.len() > 0 {
                put_text(out, sep);
                out.append(&mut v);
            }
        },
        None => {},
    }
    assert(out@ =~= start + named_part(sep@, t));
}

// ---- laws ----

/// A clean name: no illegal character, spaces as the only white space, none of
/// them doubled, at the start or at the end, and no dot at the end.
pub open spec fn is_clean(s: Seq<char>) -> bool {
    &&& spaced(s)
    &&& s.len() > 0 ==> s.last() != '.' && s.last() != ' '
}

/// No illegal character, and single spaces between words.
pub open spec fn spaced(s: Seq<char>) -> bool {
    &&& forall|i: int| 0 <= i < s.len() ==> !illegal(#[trigger] s[i])
    &&& forall|i: int| 0 <= i < s.len() && is_space(#[trigger] s[i]) ==> s[i] == ' '
    &&& forall|i: int| 0 < i < s.len() && #[trigger] s[i] == ' ' ==> s[i - 1] != ' '
    &&& s.len() > 0 ==> s[0] != ' '
}

proof fn lemma_collapsed(s: Seq<char>)
    requires
        forall|i: int| 0 <= i < s.len() ==> !illegal(#[trigger] s[i]),
    ensures
        spaced(collapsed(s)),
        collapsed(s).len() > 0 ==> !is_space(collapsed(s).last()),
    decreases s.len(),
{
    if s.len() > 0 {
        let (c, rest) = (s.last(), s.drop_last());
        assert forall|i: int| 0 <= i < rest.len() implies !illegal(#[trigger] rest[i]) by {
            assert(rest[i] == s[i]);
        }
        lemma_collapsed(rest);
        let b = collapsed(rest);
        let t = collapsed(s);
        if !is_space(c) {
            assert(t == b.push(c) || t == b.push(' ').push(c));
            assert(is_space(' '));
            assert(!illegal(' '));
        }
    }
}

proof fn lemma_without_dots(s: Seq<char>)
    requires
        spaced(s),
    ensures
        is_clean(without_dots(s)),
    decreases s.len(),
{
    if s.len() > 0 && (s.last() == '.' || s.last() == ' ') {
        let t = s.drop_last();
        assert(spaced(t)) by {
            assert forall|i: int| 0 <= i < t.len() implies t[i] == s[i] by {}
        }
        lemma_without_dots(t);
    }
}

proof fn lemma_clean_stays(s: Seq<char>)
    requires
        spaced(s),
    ensures
        cleaned(s) == s,
        collapsed(s) == (if s.len() > 0 && s.last() == ' ' {
            s.drop_last()
        } else {
            s
        }),
    decreases s.len(),
{
    assert(cleaned(s) =~= s);
    if s.len() > 0 {
        let (c, rest) = (s.last(), s.drop_last());
        assert(spaced(rest)) by {
            assert forall|i: int| 0 <= i < rest.len() implies rest[i] == s[i] by {}
        }
        lemma_clean_stays(rest);
        assert(is_space(' '));
        if rest.len() > 0 && rest.last() == ' ' {
            assert(s[s.len() - 2] == ' ');
            assert(c != ' ');
            assert(!is_space(c));
            assert(rest.len() > 1);
            assert(rest.drop_last().push(' ').push(c) =~= s);
        } else if c != ' ' {
            assert(!is_space(c));
            assert(rest.push(c) =~= s);
            if rest.len() > 0 {
                assert(rest.last() == s[s.len() - 2]);
            }
        }
    }
}

/// Sanitising gives a clean name.
pub proof fn law_sanitised(s: Seq<char>)
    ensures
        is_clean(sanitised(s)),
{
    let c = cleaned(s);
    assert forall|i: int| 0 <= i < c.len() implies !illegal(#[trigger] c[i]) by {
        assert(!illegal(' '));
    }
    lemma_collapsed(c);
    lemma_without_dots(collapsed(c));
}

/// Sanitising a clean name changes nothing; so sanitising twice is sanitising
/// once.
pub proof fn law_sanitised_stays(s: Seq<char>)
    ensures
        is_clean(s) ==> sanitised(s) == s,
        sanitised(sanitised(s)) == sanitised(s),
{
    if is_clean(s) {
        lemma_clean_stays(s);
    }
    law_sanitised(s);
    lemma_clean_stays(sanitised(s));
}

/// A path keeps below the root as long as its parts do not start from the root.
pub proof fn law_joined_below(a: Seq<char>, b: Seq<char>)
    requires
        !(b.len() > 0 && b[0] == '/'),
    ensures
        a.len() <= joined(a, b).len(),
        joined(a, b).take(a.len() as int) == a,
{
    assert(joined(a, b).take(a.len() as int) =~= a);
}

} // verus!
