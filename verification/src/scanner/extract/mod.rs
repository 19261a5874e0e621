//! What is read out of one media file and its sidecars.
pub mod audio;
pub mod nfo;
pub mod segments;
pub mod video;

use vstd::prelude::*;
use crate::db::models::MediaKind;
use crate::db::nameparse;
use crate::db::nameparse::ParsedEpisode;
use crate::db::queries::files;
use crate::db::queries::music::{TrackMeta, TrackView};
use crate::paths;
use crate::patterns;
use crate::scanner::extract::nfo::NfoData;
use crate::text;

verus! {

// ------------------------------------------------------------------ movies

/// A film as it is catalogued.
#[derive(Debug)]
pub struct MovieRecord {
    pub title: String,
    pub sort_title: String,
    pub year: Option<i64>,
    pub plot: Option<String>,
    pub imdb_id: Option<String>,
    pub collection: Option<String>,
    pub genres: Vec<String>,
    pub directors: Vec<String>,
}

#[verifier::ext_equal]
pub struct MovieView {
    pub title: Seq<char>,
    pub sort_title: Seq<char>,
    pub year: Option<int>,
    pub plot: Option<Seq<char>>,
    pub imdb_id: Option<Seq<char>>,
    pub collection: Option<Seq<char>>,
    pub genres: Seq<Seq<char>>,
    pub directors: Seq<Seq<char>>,
}

impl View for MovieRecord {
    type V = MovieView;

    open spec fn view(&self) -> MovieView {
        MovieView {
            title: self.title@,
            sort_title: self.sort_title@,
            year: text::opt_int(self.year),
            plot: text::opt_text(self.plot),
            imdb_id: text::opt_text(self.imdb_id),
            collection: text::opt_text(self.collection),
            genres: text::texts(self.genres@),
            directors: text::texts(self.directors@),
        }
    }
}

pub open spec fn or<T>(a: Option<T>, b: Option<T>) -> Option<T> {
    match a {
        Some(x) => Some(x),
        None => b,
    }
}

pub open spec fn nfo_view(n: Option<NfoData>) -> nfo::NfoView {
    match n {
        Some(n) => n@,
        None => nfo::nothing(),
    }
}

/// A film from its name, the genre in its tags and its sidecar: what the
/// sidecar says wins.
pub open spec fn movie_told(
    name: (Seq<char>, Option<int>),
    tag_genre: Option<Seq<char>>,
    n: nfo::NfoView,
) -> MovieView {
    let title = match n.title {
        Some(t) => t,
        None => name.0,
    };
    MovieView {
        title,
        sort_title: nameparse::sort_key(title),
        year: or(n.year, name.1),
        plot: n.plot,
        imdb_id: n.imdb_id,
        collection: n.set,
        genres: if n.genres.len() > 0 {
            n.genres
        } else {
            match tag_genre {
                Some(g) => audio::genres_in(g),
                None => seq![],
            }
        },
        directors: n.directors,
    }
}

/// A film from what its name was parsed into, the genre in its tags and its
/// sidecar.
pub fn movie_from_name(
    name: (String, Option<i64>),
    tag_genre: Option<String>,
    sidecar: Option<NfoData>,
) -> (r: MovieRecord)
    ensures
        r@ == movie_told(
            (name.0@, text::opt_int(name.1)),
            text::opt_text(tag_genre),
            nfo_view(sidecar),
        ),
{
    let ghost (view, tag, side) = (
        (name.0@, text::opt_int(name.1)),
        text::opt_text(tag_genre),
        nfo_view(sidecar),
    );
    let (mut title, mut year) = name;
    let mut genres: Vec<String> = match tag_genre {
        Some(g) => audio::split_genres(g.as_str()),
        None => Vec::new(),
    };
    assert(tag is None ==> text::texts(genres@) =~= seq![]);
    let mut directors: Vec<String> = Vec::new();
    assert(text::texts(directors@) =~= seq![]);
    let mut plot: Option<String> = None;
    let mut imdb_id: Option<String> = None;
    let mut collection: Option<String> = None;
    if let Some(n) = sidecar {
        if let Some(t) = n.title {
            title = t;
        }
        if n.year.is_some() {
            year = n.year;
        }
        assert(text::texts(n.genres@).len() == n.genres@.len());
        if n.genres.len() > 0 {
            genres = n.genres;
        }
        directors = n.directors;
        plot = n.plot;
        imdb_id = n.imdb_id;
        collection = n.set;
    }
    let sort_title = nameparse::sort_title(title.as_str());
    let r = MovieRecord {
        title,
        sort_title,
        year,
        plot,
        imdb_id,
        collection,
        genres,
        directors,
    };
    assert(r@ =~= movie_told(view, tag, side));
    r
}

/// A film from its file's stem, the genre in its tags and its sidecar.
pub fn movie_record(stem: &str, tag_genre: Option<String>, sidecar: Option<NfoData>) -> (r:
    MovieRecord)
    ensures
        r@ == movie_told(
            nameparse::movie_named(
                stem@,
                patterns::regex_find_iter(patterns::YEAR@, stem@),
            ),
            text::opt_text(tag_genre),
            nfo_view(sidecar),
        ),
{
    let name = nameparse::movie(stem);
    movie_from_name(name, tag_genre, sidecar)
}

// ---------------------------------------------------------------- episodes

/// An episode as it is catalogued.
#[derive(Debug)]
pub struct EpisodeRecord {
    pub series: String,
    pub season: i64,
    pub episode: i64,
    pub title: String,
    pub plot: Option<String>,
    pub imdb_id: Option<String>,
}

#[verifier::ext_equal]
pub struct EpisodeRecordView {
    pub series: Seq<char>,
    pub season: int,
    pub episode: int,
    pub title: Seq<char>,
    pub plot: Option<Seq<char>>,
    pub imdb_id: Option<Seq<char>>,
}

impl View for EpisodeRecord {
    type V = EpisodeRecordView;

    open spec fn view(&self) -> EpisodeRecordView {
        EpisodeRecordView {
            series: self.series@,
            season: self.season as int,
            episode: self.episode as int,
            title: self.title@,
            plot: text::opt_text(self.plot),
            imdb_id: text::opt_text(self.imdb_id),
        }
    }
}

/// An episode from its sidecar and what its name was parsed into: nfo values
/// win; name-parse fills the gaps.
pub open spec fn episode_told(
    stem: Seq<char>,
    parsed: Option<nameparse::EpisodeView>,
    n: nfo::NfoView,
) -> EpisodeRecordView {
    EpisodeRecordView {
        series: match (n.show_title, parsed) {
            (Some(s), _) => s,
            (None, Some(p)) => p.series,
            (None, None) => "Unknown Series"@,
        },
        season: match (n.season, parsed) {
            (Some(s), _) => s,
            (None, Some(p)) => p.season,
            (None, None) => 0,
        },
        episode: match (n.episode, parsed) {
            (Some(e), _) => e,
            (None, Some(p)) => p.episode,
            (None, None) => 0,
        },
        title: match (n.title, parsed) {
            (Some(t), _) => t,
            (None, Some(p)) => p.title,
            (None, None) => nameparse::cleaned(stem),
        },
        plot: n.plot,
        imdb_id: n.imdb_id,
    }
}

pub fn episode_from_name(
    stem: &str,
    parsed: Option<ParsedEpisode>,
    sidecar: Option<NfoData>,
) -> (r: EpisodeRecord)
    ensures
        r@ == episode_told(stem@, nameparse::opt_episode(parsed), nfo_view(sidecar)),
{
    let n = match sidecar {
        Some(n) => n,
        None => NfoData::empty(),
    };
    match parsed {
        Some(p) => {
            let series = match n.show_title {
                Some(s) => s,
                None => p.series,
            };
            let season = match n.season {
                Some(s) => s,
                None => p.season,
            };
            let episode = match n.episode {
                Some(e) => e,
                None => p.episode,
            };
            let title = match n.title {
                Some(t) => t,
                None => p.title,
            };
            EpisodeRecord { series, season, episode, title, plot: n.plot, imdb_id: n.imdb_id }
        },
        None => {
            let series = match n.show_title {
                Some(s) => s,
                None => "Unknown Series".to_owned(),
            };
            let season = match n.season {
                Some(s) => s,
                None => 0,
            };
            let episode = match n.episode {
                Some(e) => e,
                None => 0,
            };
            let title = match n.title {
                Some(t) => t,
                None => nameparse::clean_name(stem),
            };
            EpisodeRecord { series, season, episode, title, plot: n.plot, imdb_id: n.imdb_id }
        },
    }
}

/// An episode from its file's stem, the directories above it and its sidecar.
pub fn episode_record(stem: &str, parent_dirs: &Vec<String>, sidecar: Option<NfoData>) -> (r:
    EpisodeRecord)
    ensures
        r@ == episode_told(
            stem@,
            match patterns::regex_captures(patterns::EPISODE@, stem@) {
                Some(g) => nameparse::episode_named(g, text::texts(parent_dirs@)),
                None => None,
            },
            nfo_view(sidecar),
        ),
{
    let parsed = nameparse::episode(stem, parent_dirs);
    episode_from_name(stem, parsed, sidecar)
}

// ------------------------------------------------------------------- music

/// Directory-level music metadata overrides: a music.toml anywhere above a
/// track (within its root) applies to everything beneath, nearest file
/// wins. Fields present override tags and path fallback; absent fields
/// resolve as usual.
#[derive(Debug)]
pub struct DirMusicMeta {
    pub artist: Option<String>,
    pub album_artist: Option<String>,
    pub album: Option<String>,
    pub genre: Option<String>,
    /// Set false when leading digits are part of the title ("30 Minutes"
    /// meditation tracks), not track numbers — the fallback title keeps
    /// them and no track number is inferred. Tag-supplied titles are
    /// unaffected.
    pub track_number_prefix: Option<bool>,
}

#[verifier::ext_equal]
pub struct DirMusicView {
    pub artist: Option<Seq<char>>,
    pub album_artist: Option<Seq<char>>,
    pub album: Option<Seq<char>>,
    pub genre: Option<Seq<char>>,
    pub track_number_prefix: Option<bool>,
}

impl View for DirMusicMeta {
    type V = DirMusicView;

    open spec fn view(&self) -> DirMusicView {
        DirMusicView {
            artist: text::opt_text(self.artist),
            album_artist: text::opt_text(self.album_artist),
            album: text::opt_text(self.album),
            genre: text::opt_text(self.genre),
            track_number_prefix: self.track_number_prefix,
        }
    }
}

pub const MUSIC_META_FILE: &'static str = "music.toml";

pub open spec fn dir_views(v: Seq<DirMusicMeta>) -> Seq<DirMusicView> {
    Seq::new(v.len(), |i: int| v[i]@)
}

/// The merged music.toml chain above a track, nearest first: each field
/// resolves to the nearest ancestor that sets it.
pub open spec fn merged(chain: Seq<DirMusicView>) -> Option<DirMusicView>
    decreases chain.len(),
{
    if chain.len() == 0 {
        None
    } else {
        let last = chain.last();
        match merged(chain.drop_last()) {
            None => Some(last),
            Some(m) => Some(
                DirMusicView {
                    artist: or(m.artist, last.artist),
                    album_artist: or(m.album_artist, last.album_artist),
                    album: or(m.album, last.album),
                    genre: or(m.genre, last.genre),
                    track_number_prefix: or(m.track_number_prefix, last.track_number_prefix),
                },
            ),
        }
    }
}

pub open spec fn opt_dir(o: Option<DirMusicMeta>) -> Option<DirMusicView> {
    match o {
        Some(m) => Some(m@),
        None => None,
    }
}

fn copy(o: &Option<String>) -> (r: Option<String>)
    ensures
        text::opt_text(r) == text::opt_text(*o),
{
    match o {
        Some(s) => Some(s.clone()),
        None => None,
    }
}

fn or_text(a: Option<String>, b: &Option<String>) -> (r: Option<String>)
    ensures
        text::opt_text(r) == or(text::opt_text(a), text::opt_text(*b)),
{
    match a {
        Some(s) => Some(s),
        None => copy(b),
    }
}

/// The merged music.toml chain above a track, given the files nearest first:
/// each field resolves to the nearest ancestor that sets it, so a top-level
/// file can declare collection-wide values (artist, track_number_prefix) while
/// deeper files override only what differs (album).
pub fn nearest_music_meta(chain: &Vec<DirMusicMeta>) -> (r: Option<DirMusicMeta>)
    ensures
        opt_dir(r) == merged(dir_views(chain@)),
{
    let ghost cs = dir_views(chain@);
    let mut out: Option<DirMusicMeta> = None;
    let mut i: usize = 0;
    assert(cs.take(0) =~= seq![]);
    while i < chain.len()
        invariant
            i <= chain.len(),
            cs == dir_views(chain@),
            opt_dir(out) == merged(cs.take(i as int)),
        decreases chain.len() - i,
    {
        assert(cs.take(i + 1).drop_last() =~= cs.take(i as int));
        assert(cs.take(i + 1).last() == chain@[i as int]@);
        let c = &chain[i];
        out = Some(
            match out {
                None => DirMusicMeta {
                    artist: copy(&c.artist),
                    album_artist: copy(&c.album_artist),
                    album: copy(&c.album),
                    genre: copy(&c.genre),
                    track_number_prefix: c.track_number_prefix,
                },
                Some(m) => DirMusicMeta {
                    artist: or_text(m.artist, &c.artist),
                    album_artist: or_text(m.album_artist, &c.album_artist),
                    album: or_text(m.album, &c.album),
                    genre: or_text(m.genre, &c.genre),
                    track_number_prefix: match m.track_number_prefix {
                        Some(b) => Some(b),
                        None => c.track_number_prefix,
                    },
                },
            },
        );
        i += 1;
    }
    assert(cs.take(i as int) =~= cs);
    out
}

/// Whether leading digits of a name are part of the title.
pub open spec fn keeps_digits(over: Option<DirMusicView>) -> bool {
    over matches Some(o) && o.track_number_prefix == Some(false)
}

/// What a path says of a track: where leading digits are part of the title, the
/// title keeps them and no track number is inferred.
pub open spec fn path_said(
    path: nameparse::TrackName,
    over: Option<DirMusicView>,
    stem: Seq<char>,
) -> nameparse::TrackName {
    if keeps_digits(over) {
        nameparse::TrackName { track_no: None, title: nameparse::cleaned(stem), ..path }
    } else {
        path
    }
}

/// A track with its directory's overrides.
pub open spec fn overridden(t: TrackView, over: Option<DirMusicView>) -> TrackView {
    match over {
        None => t,
        Some(o) => TrackView {
            artist: or(o.artist, t.artist),
            album_artist: or(o.album_artist, t.album_artist),
            album: or(o.album, t.album),
            genres: match o.genre {
                Some(g) => audio::genres_in(g),
                None => t.genres,
            },
            ..t
        },
    }
}

/// A track with its directory's overrides.
pub fn with_overrides(track: TrackMeta, over: Option<DirMusicMeta>) -> (r: TrackMeta)
    ensures
        r@ == overridden(track@, opt_dir(over)),
{
    let mut t = track;
    if let Some(o) = over {
        if o.artist.is_some() {
            t.artist = o.artist;
        }
        if o.album_artist.is_some() {
            t.album_artist = o.album_artist;
        }
        if o.album.is_some() {
            t.album = o.album;
        }
        if let Some(genre) = o.genre {
            t.genres = audio::split_genres(genre.as_str());
        }
    }
    assert(t@ =~= overridden(track@, opt_dir(over)));
    t
}

/// A track from its path, its tags and its directory's overrides.
pub fn track_record(
    stem: &str,
    parent_dirs: &Vec<String>,
    tags: Option<audio::Tags>,
    over: Option<DirMusicMeta>,
) -> (r: TrackMeta)
    ensures
        ({
            let path = nameparse::track_named(
                stem@,
                patterns::regex_captures(patterns::TRACK@, stem@),
                text::texts(parent_dirs@),
            );
            r@ == overridden(
                audio::tagged(audio::from_path(path_said(path, opt_dir(over), stem@)), tags),
                opt_dir(over),
            )
        }),
{
    let mut path = nameparse::music_from_path(stem, parent_dirs);
    let digits = match &over {
        Some(o) => match o.track_number_prefix {
            Some(b) => !b,
            None => false,
        },
        None => false,
    };
    if digits {
        path = (path.0, path.1, None, nameparse::clean_name(stem));
    }
    let track = audio::track_from_path(path);
    let track = audio::with_tags(track, tags);
    with_overrides(track, over)
}

/// Whatever a directory says, a title that the tags supply is the track's.
pub proof fn tagged_titles_are_unaffected(
    path: nameparse::TrackName,
    tags: audio::Tags,
    over: Option<DirMusicView>,
    stem: Seq<char>,
)
    requires
        tags.title matches Some(t) && text::trimmed(t@).len() > 0,
    ensures
        overridden(
            audio::tagged(audio::from_path(path_said(path, over, stem)), Some(tags)),
            over,
        ).title == text::trimmed(tags.title->Some_0@),
{
}

/// The directories above a file and within its root, nearest first, the root
/// itself as the empty one.
pub open spec fn dirs_above(rel_path: Seq<char>) -> Seq<Seq<char>>
    decreases rel_path.len(),
    via dirs_above_decreases
{
    match text::rcut_once(rel_path, "/"@) {
        Some((dir, name)) => seq![dir] + dirs_above(dir),
        None => seq![Seq::<char>::empty()],
    }
}

#[via_fn]
proof fn dirs_above_decreases(rel_path: Seq<char>) {
    reveal_strlit("/");
    if text::rcut_once(rel_path, "/"@) is Some {
        files::lemma_rcut_parts(rel_path, "/"@);
    }
}

pub open spec fn metas_in(dirs: Seq<Seq<char>>) -> Seq<Seq<char>> {
    Seq::new(dirs.len(), |i: int| paths::join_of(dirs[i], MUSIC_META_FILE@))
}

/// Where a track's music.toml files may stand, relative to its root, nearest
/// first.
pub fn ancestor_meta_paths(rel_path: &str) -> (r: Vec<String>)
    ensures
        text::texts(r@) == metas_in(dirs_above(rel_path@)),
{
    let mut out: Vec<String> = Vec::new();
    let mut rest = rel_path.to_owned();
    assert(text::texts(out@) + metas_in(dirs_above(rest@)) =~= metas_in(dirs_above(rel_path@)));
    loop
        invariant_except_break
            text::texts(out@) + metas_in(dirs_above(rest@)) == metas_in(dirs_above(rel_path@)),
        ensures
            text::texts(out@) == metas_in(dirs_above(rel_path@)),
        decreases rest@.len(),
    {
        let ghost before = text::texts(out@);
        let ghost here = rest@;
        match text::rsplit_once(rest.as_str(), "/") {
            Some((dir, _)) => {
                proof {
                    reveal_strlit("/");
                    files::lemma_rcut_parts(here, "/"@);
                }
                let path = paths::join(dir.as_str(), MUSIC_META_FILE);
                text::push_text(&mut out, path.as_str());
                proof {
                    assert(metas_in(dirs_above(here)) =~= seq![path@] + metas_in(
                        dirs_above(dir@),
                    ));
                    assert(before + metas_in(dirs_above(here)) =~= text::texts(out@) + metas_in(
                        dirs_above(dir@),
                    ));
                }
                rest = dir;
            },
            None => {
                let path = paths::join("", MUSIC_META_FILE);
                text::push_text(&mut out, path.as_str());
                proof {
                    reveal_strlit("");
                    assert(""@ =~= Seq::<char>::empty());
                    assert(metas_in(dirs_above(here)) =~= seq![path@]);
                    assert(before + metas_in(dirs_above(here)) =~= text::texts(out@));
                }
                break;
            },
        }
    }
    out
}

/// The newest of these times.
pub open spec fn newest(times: Seq<i64>) -> Option<i64>
    decreases times.len(),
{
    if times.len() == 0 {
        None
    } else {
        match newest(times.drop_last()) {
            Some(t) if t >= times.last() => Some(t),
            _ => Some(times.last()),
        }
    }
}

/// Newest mtime among ancestor music.toml files (reconcile staleness).
pub fn music_meta_mtime(times: &Vec<i64>) -> (r: Option<i64>)
    ensures
        r == newest(times@),
{
    let mut out: Option<i64> = None;
    let mut i: usize = 0;
    assert(times@.take(0) =~= seq![]);
    while i < times.len()
        invariant
            i <= times.len(),
            out == newest(times@.take(i as int)),
        decreases times.len() - i,
    {
        assert(times@.take(i + 1).drop_last() =~= times@.take(i as int));
        out = match out {
            Some(t) => if t >= times[i] {
                Some(t)
            } else {
                Some(times[i])
            },
            None => Some(times[i]),
        };
        i += 1;
    }
    assert(times@.take(i as int) =~= times@);
    out
}

// ---------------------------------------------------- directory-level TV nfo

/// Directory-level TV sidecars: series metadata in the series folder,
/// season metadata in a season subfolder (Kodi names).
pub const SHOW_NFO: &'static str = "tvshow.nfo";

pub const SEASON_NFO: &'static str = "season.nfo";

/// Which series a tvshow.nfo is about: nfo <title>, else the folder name.
pub fn show_series(data: &NfoData, dir_name: Option<String>) -> (r: Option<String>)
    ensures
        text::opt_text(r) == or(data@.title, named(text::opt_text(dir_name))),
{
    match &data.title {
        Some(t) => Some(t.clone()),
        None => some_name(dir_name),
    }
}

/// A directory's name, where it has one.
pub open spec fn named(dir: Option<Seq<char>>) -> Option<Seq<char>> {
    match dir {
        Some(n) if n.len() > 0 => Some(n),
        _ => None,
    }
}

fn some_name(dir: Option<String>) -> (r: Option<String>)
    ensures
        text::opt_text(r) == named(text::opt_text(dir)),
{
    match dir {
        Some(n) => if n.as_str().is_empty() {
            None
        } else {
            Some(n)
        },
        None => None,
    }
}

/// The first run of digits in a text.
pub open spec fn first_digits(s: Seq<char>) -> Seq<char>
    decreases s.len(),
{
    if s.len() == 0 {
        seq![]
    } else if text::is_digit(s[0]) {
        s.take(digit_run(s))
    } else {
        first_digits(s.drop_first())
    }
}

pub open spec fn digit_run(s: Seq<char>) -> int
    decreases s.len(),
{
    if s.len() == 0 || !text::is_digit(s[0]) {
        0
    } else {
        1 + digit_run(s.drop_first())
    }
}

proof fn lemma_digit_run(s: Seq<char>, n: int)
    requires
        0 <= n <= s.len(),
        forall|k: int| 0 <= k < n ==> text::is_digit(#[trigger] s[k]),
        n < s.len() ==> !text::is_digit(s[n]),
    ensures
        digit_run(s) == n,
    decreases s.len(),
{
    if n > 0 {
        assert(text::is_digit(s[0]));
        assert forall|k: int| 0 <= k < n - 1 implies text::is_digit(#[trigger] s.drop_first()[k]) by {
            assert(s.drop_first()[k] == s[k + 1]);
        }
        lemma_digit_run(s.drop_first(), n - 1);
    }
}

fn digits_in(s: &str) -> (r: String)
    ensures
        r@ == first_digits(s@),
{
    let v = text::chars_of(s);
    let mut lo: usize = 0;
    assert(s@.skip(0) =~= s@);
    while lo < v.len() && !is_digit(v[lo])
        invariant
            lo <= v.len(),
            v@ == s@,
            first_digits(s@.skip(lo as int)) == first_digits(s@),
        decreases v.len() - lo,
    {
        assert(s@.skip(lo as int)[0] == v@[lo as int]);
        assert(s@.skip(lo as int).drop_first() =~= s@.skip(lo + 1));
        lo += 1;
    }
    let mut hi: usize = lo;
    while hi < v.len() && is_digit(v[hi])
        invariant
            lo <= hi <= v.len(),
            forall|k: int| lo <= k < hi ==> text::is_digit(#[trigger] v@[k]),
        decreases v.len() - hi,
    {
        hi += 1;
    }
    let r = text::string_of(&v, lo, hi);
    proof {
        let rest = s@.skip(lo as int);
        let n = hi - lo;
        assert forall|k: int| 0 <= k < n implies text::is_digit(#[trigger] rest[k]) by {
            assert(rest[k] == v@[lo + k]);
        }
        if hi < v@.len() {
            assert(rest[n] == v@[hi as int]);
        }
        lemma_digit_run(rest, n);
        if lo < v@.len() {
            assert(rest[0] == v@[lo as int]);
            assert(r@ =~= rest.take(n));
        } else {
            assert(rest =~= seq![]);
            assert(r@ =~= seq![]);
        }
    }
    r
}

fn is_digit(c: char) -> (r: bool)
    ensures
        r == text::is_digit(c),
{
    let u = text::code(c);
    48 <= u && u <= 57
}

/// Which series and season a season.nfo is about: the series from <showtitle>
/// (else the folder above the season folder), the season from
/// <seasonnumber>/<season> (else the first number in the season folder's
/// name).
pub fn season_identity(
    data: &NfoData,
    dir_name: Option<String>,
    parent_name: Option<String>,
) -> (r: Option<(String, i64)>)
    ensures
        ({
            let series = or(data@.show_title, named(text::opt_text(parent_name)));
            let season = or(
                data@.season,
                match named(text::opt_text(dir_name)) {
                    Some(n) => text::integer_i64(first_digits(n)),
                    None => None,
                },
            );
            match (series, season) {
                (Some(s), Some(n)) => r matches Some((x, y)) && x@ == s && y == n,
                _ => r is None,
            }
        }),
{
    let series = match &data.show_title {
        Some(s) => Some(s.clone()),
        None => some_name(parent_name),
    };
    let season = match data.season {
        Some(s) => Some(s),
        None => match some_name(dir_name) {
            Some(n) => text::parse_i64(digits_in(n.as_str()).as_str()),
            None => None,
        },
    };
    match (series, season) {
        (Some(s), Some(n)) => Some((s, n)),
        _ => None,
    }
}

// ----------------------------------------------------------------- artwork

/// Sidecar image names recognized as art for a whole directory.
pub const DIR_ART_NAMES: [&'static str; 6] = [
    "cover.jpg",
    "cover.png",
    "folder.jpg",
    "front.jpg",
    "poster.jpg",
    "poster.png",
];

/// Of these, those that a series folder has.
pub const SERIES_ART_NAMES: [&'static str; 3] = ["poster.jpg", "poster.png", "folder.jpg"];

pub open spec fn dir_of(rel_path: Seq<char>) -> Seq<char> {
    match text::rcut_once(rel_path, "/"@) {
        Some((dir, _)) => dir,
        None => seq![],
    }
}

pub open spec fn name_of(rel_path: Seq<char>) -> Seq<char> {
    match text::rcut_once(rel_path, "/"@) {
        Some((_, name)) => name,
        None => rel_path,
    }
}

/// A path in a directory; the empty one is the root.
pub open spec fn in_dir(dir: Seq<char>, name: Seq<char>) -> Seq<char> {
    if dir.len() == 0 {
        name
    } else {
        dir + "/"@ + name
    }
}

pub open spec fn all_in_dir(dir: Seq<char>, names: Seq<Seq<char>>) -> Seq<Seq<char>> {
    Seq::new(names.len(), |i: int| in_dir(dir, names[i]))
}

/// Where a file's sidecar artwork may stand, as root-relative paths, best
/// first.
/// - Movies: "<stem>-poster.jpg/png" only — directory-level images would
///   wrongly apply to every movie sharing a folder.
/// - Music: directory-level cover images.
/// - TV: "<stem>-poster.*" first, then a directory-level poster (the series
///   folder), then the parent directory's poster (series folder when the
///   file sits in a season subfolder). Never the root itself, where a
///   poster would wrongly claim unrelated loose files.
pub open spec fn art_places(rel_path: Seq<char>, kind: MediaKind) -> Seq<Seq<char>> {
    let dir = dir_of(rel_path);
    let stem = paths::stem_of(name_of(rel_path));
    let own = all_in_dir(dir, seq![stem + "-poster.jpg"@, stem + "-poster.png"@]);
    match kind {
        MediaKind::Music => all_in_dir(dir, text::words_in(DIR_ART_NAMES@)),
        MediaKind::Movies => own,
        MediaKind::Tv => own + (if dir.len() == 0 {
            seq![]
        } else {
            all_in_dir(dir, text::words_in(SERIES_ART_NAMES@))
        }) + (match text::rcut_once(dir, "/"@) {
            Some((parent, _)) => all_in_dir(parent, text::words_in(SERIES_ART_NAMES@)),
            None => seq![],
        }),
    }
}

fn push_in_dir(out: &mut Vec<String>, dir: &str, name: &str)
    ensures
        text::texts(final(out)@) == text::texts(old(out)@).push(in_dir(dir@, name@)),
{
    if dir.is_empty() {
        text::push_text(out, name);
    } else {
        let mut path = dir.to_owned();
        path.push_str("/");
        path.push_str(name);
        text::push_text(out, path.as_str());
    }
}

fn push_all_in_dir(out: &mut Vec<String>, dir: &str, names: &[&'static str])
    ensures
        text::texts(final(out)@) == text::texts(old(out)@) + all_in_dir(
            dir@,
            text::words_in(names@),
        ),
{
    let ghost goal = all_in_dir(dir@, text::words_in(names@));
    let mut i: usize = 0;
    assert(text::texts(out@) =~= text::texts(old(out)@) + goal.take(0));
    while i < names.len()
        invariant
            i <= names.len(),
            goal == all_in_dir(dir@, text::words_in(names@)),
            text::texts(out@) == text::texts(old(out)@) + goal.take(i as int),
        decreases names.len() - i,
    {
        push_in_dir(out, dir, names[i]);
        i += 1;
        assert(text::texts(out@) =~= text::texts(old(out)@) + goal.take(i as int));
    }
    assert(goal.take(i as int) =~= goal);
}

/// Where a file's sidecar artwork may stand, as root-relative paths; the first
/// that exists is it.
pub fn sidecar_art_candidates(rel_path: &str, kind: MediaKind) -> (r: Vec<String>)
    ensures
        text::texts(r@) == art_places(rel_path@, kind),
{
    let (dir, name) = match text::rsplit_once(rel_path, "/") {
        Some((dir, name)) => (dir, name),
        None => (String::new(), rel_path.to_owned()),
    };
    assert(text::rcut_once(rel_path@, "/"@) is None ==> dir@ =~= seq![]);
    let mut out: Vec<String> = Vec::new();
    assert(text::texts(out@) =~= seq![]);
    if kind == MediaKind::Music {
        push_all_in_dir(&mut out, dir.as_str(), &DIR_ART_NAMES);
        assert(text::texts(out@) =~= art_places(rel_path@, kind));
        return out;
    }
    let mut poster = paths::stem(name.as_str());
    poster.push_str("-poster.jpg");
    push_in_dir(&mut out, dir.as_str(), poster.as_str());
    let mut poster = paths::stem(name.as_str());
    poster.push_str("-poster.png");
    push_in_dir(&mut out, dir.as_str(), poster.as_str());
    let ghost stem = paths::stem_of(name_of(rel_path@));
    let ghost own = all_in_dir(dir@, seq![stem + "-poster.jpg"@, stem + "-poster.png"@]);
    assert(text::texts(out@) =~= own);
    if kind == MediaKind::Tv {
        if !dir.as_str().is_empty() {
            push_all_in_dir(&mut out, dir.as_str(), &SERIES_ART_NAMES);
        }
        if let Some((parent, _)) = text::rsplit_once(dir.as_str(), "/") {
            push_all_in_dir(&mut out, parent.as_str(), &SERIES_ART_NAMES);
        }
        assert(text::texts(out@) =~= art_places(rel_path@, kind));
    }
    out
}

/// The first of the candidates that is there.
pub open spec fn first_present(candidates: Seq<Seq<char>>, present: Seq<bool>) -> Option<Seq<char>>
    decreases candidates.len(),
{
    if candidates.len() == 0 {
        None
    } else if present[0] {
        Some(candidates[0])
    } else {
        first_present(candidates.drop_first(), present.drop_first())
    }
}

/// The artwork of a file, as a root-relative path: the first candidate that
/// is there.
pub fn discover_sidecar_art(candidates: &Vec<String>, present: &Vec<bool>) -> (r: Option<String>)
    requires
        present@.len() == candidates@.len(),
    ensures
        text::opt_text(r) == first_present(text::texts(candidates@), present@),
{
    let ghost cs = text::texts(candidates@);
    let mut i: usize = 0;
    assert(cs.skip(0) =~= cs);
    assert(present@.skip(0) =~= present@);
    while i < candidates.len()
        invariant
            i <= candidates.len(),
            present@.len() == candidates@.len(),
            cs == text::texts(candidates@),
            first_present(cs, present@) == first_present(
                cs.skip(i as int),
                present@.skip(i as int),
            ),
        decreases candidates.len() - i,
    {
        assert(cs.skip(i as int)[0] == candidates@[i as int]@);
        assert(present@.skip(i as int)[0] == present@[i as int]);
        if present[i] {
            return Some(candidates[i].clone());
        }
        assert(cs.skip(i as int).drop_first() =~= cs.skip(i + 1));
        assert(present@.skip(i as int).drop_first() =~= present@.skip(i + 1));
        i += 1;
    }
    None
}

/// What is stored as a file's artwork: the sidecar, else the picture in its
/// tags.
pub fn stored_art(sidecar: Option<String>, embedded: bool) -> (r: Option<String>)
    ensures
        text::opt_text(r) == or(
            text::opt_text(sidecar),
            if embedded {
                Some("embedded"@)
            } else {
                None
            },
        ),
{
    match sidecar {
        Some(s) => Some(s),
        None => if embedded {
            Some("embedded".to_owned())
        } else {
            None
        },
    }
}

/// What came of extracting a file.
#[derive(Debug, Clone, Copy, PartialEq, Eq, Structural)]
pub enum Extracted {
    /// Catalogued in full.
    Ready,
    /// Catalogued, but the probe could not read it.
    NoTechInfo,
    /// Marked as an error.
    Failed,
}

// -------------------------------------------------------------------- laws

/// Of a film, what its sidecar says holds; its name and its tags only fill what
/// the sidecar leaves open.
pub proof fn sidecars_win_over_film_names(
    name: (Seq<char>, Option<int>),
    tag_genre: Option<Seq<char>>,
    n: nfo::NfoView,
)
    ensures
        ({
            let m = movie_told(name, tag_genre, n);
            &&& n.title is Some ==> m.title == n.title->Some_0
            &&& n.title is None ==> m.title == name.0
            &&& m.sort_title == nameparse::sort_key(m.title)
            &&& n.year is Some ==> m.year == n.year
            &&& n.year is None ==> m.year == name.1
            &&& m.plot == n.plot && m.imdb_id == n.imdb_id && m.collection == n.set
            &&& m.directors == n.directors
            &&& n.genres.len() > 0 ==> m.genres == n.genres
            &&& n.genres.len() == 0 && tag_genre is Some ==> m.genres == audio::genres_in(
                tag_genre->Some_0,
            )
            &&& n.genres.len() == 0 && tag_genre is None ==> m.genres.len() == 0
        }),
{
}

/// Of an episode, what its sidecar says holds; what its name says only fills
/// what the sidecar leaves open; and where both are silent the series is
/// unknown, the numbers are nought and the name is the title.
pub proof fn sidecars_win_over_episode_names(
    stem: Seq<char>,
    parsed: Option<nameparse::EpisodeView>,
    n: nfo::NfoView,
)
    ensures
        ({
            let e = episode_told(stem, parsed, n);
            &&& n.show_title is Some ==> e.series == n.show_title->Some_0
            &&& n.season is Some ==> e.season == n.season->Some_0
            &&& n.episode is Some ==> e.episode == n.episode->Some_0
            &&& n.title is Some ==> e.title == n.title->Some_0
            &&& parsed is Some ==> {
                &&& n.show_title is None ==> e.series == parsed->Some_0.series
                &&& n.season is None ==> e.season == parsed->Some_0.season
                &&& n.episode is None ==> e.episode == parsed->Some_0.episode
                &&& n.title is None ==> e.title == parsed->Some_0.title
            }
            &&& parsed is None ==> {
                &&& n.show_title is None ==> e.series == "Unknown Series"@
                &&& n.season is None ==> e.season == 0
                &&& n.episode is None ==> e.episode == 0
                &&& n.title is None ==> e.title == nameparse::cleaned(stem)
            }
            &&& e.plot == n.plot && e.imdb_id == n.imdb_id
        }),
{
}

/// Of several music.toml files above a track the nearest that sets a field
/// settles it, each field for itself.
pub proof fn the_nearest_file_settles_a_field(chain: Seq<DirMusicView>, i: int)
    requires
        0 <= i < chain.len(),
    ensures
        merged(chain) is Some,
        chain[i].artist is Some && (forall|j: int|
            0 <= j < i ==> (#[trigger] chain[j]).artist is None) ==> merged(chain)->Some_0.artist
            == chain[i].artist,
        chain[i].album_artist is Some && (forall|j: int|
            0 <= j < i ==> (#[trigger] chain[j]).album_artist is None) ==> merged(
            chain,
        )->Some_0.album_artist == chain[i].album_artist,
        chain[i].album is Some && (forall|j: int|
            0 <= j < i ==> (#[trigger] chain[j]).album is None) ==> merged(chain)->Some_0.album
            == chain[i].album,
        chain[i].genre is Some && (forall|j: int|
            0 <= j < i ==> (#[trigger] chain[j]).genre is None) ==> merged(chain)->Some_0.genre
            == chain[i].genre,
        chain[i].track_number_prefix is Some && (forall|j: int|
            0 <= j < i ==> (#[trigger] chain[j]).track_number_prefix is None) ==> merged(
            chain,
        )->Some_0.track_number_prefix == chain[i].track_number_prefix,
    decreases chain.len(),
{
    let head = chain.drop_last();
    assert forall|j: int| 0 <= j < head.len() implies head[j] == chain[j] by {}
    if i < chain.len() - 1 {
        the_nearest_file_settles_a_field(head, i);
        assert(forall|j: int| 0 <= j < i ==> #[trigger] head[j] == chain[j]);
    } else {
        lemma_unset(head);
        assert(forall|j: int| 0 <= j < i ==> #[trigger] head[j] == chain[j]);
    }
}

proof fn lemma_unset(chain: Seq<DirMusicView>)
    ensures
        chain.len() == 0 ==> merged(chain) is None,
        merged(chain) matches Some(m) ==> {
            &&& (forall|j: int| 0 <= j < chain.len() ==> (#[trigger] chain[j]).artist is None)
                ==> m.artist is None
            &&& (forall|j: int| 0 <= j < chain.len() ==> (#[trigger] chain[j]).album_artist is None)
                ==> m.album_artist is None
            &&& (forall|j: int| 0 <= j < chain.len() ==> (#[trigger] chain[j]).album is None)
                ==> m.album is None
            &&& (forall|j: int| 0 <= j < chain.len() ==> (#[trigger] chain[j]).genre is None)
                ==> m.genre is None
            &&& (forall|j: int|
                0 <= j < chain.len() ==> (#[trigger] chain[j]).track_number_prefix is None)
                ==> m.track_number_prefix is None
        },
    decreases chain.len(),
{
    if chain.len() > 0 {
        let head = chain.drop_last();
        lemma_unset(head);
        assert(forall|j: int| 0 <= j < head.len() ==> #[trigger] head[j] == chain[j]);
        assert(chain[chain.len() - 1] == chain.last());
    }
}

/// A track's directory has the last word, then its tags, then its path; the
/// number and the year are the tags', else the path's.
pub proof fn directories_win_over_tags_and_tags_over_paths(
    path: nameparse::TrackName,
    tags: audio::Tags,
    o: DirMusicView,
)
    ensures
        ({
            let t = overridden(audio::tagged(audio::from_path(path), Some(tags)), Some(o));
            let says = |x: Option<String>| x is Some && text::trimmed(x->Some_0@).len() > 0;
            &&& o.artist is Some ==> t.artist == o.artist
            &&& o.artist is None && says(tags.artist) ==> t.artist == Some(
                text::trimmed(tags.artist->Some_0@),
            )
            &&& o.artist is None && !says(tags.artist) ==> t.artist == path.artist
            &&& o.album is Some ==> t.album == o.album
            &&& o.album is None && says(tags.album) ==> t.album == Some(
                text::trimmed(tags.album->Some_0@),
            )
            &&& o.album is None && !says(tags.album) ==> t.album == path.album
            &&& o.album_artist is Some ==> t.album_artist == o.album_artist
            &&& o.album_artist is None && says(tags.album_artist) ==> t.album_artist == Some(
                text::trimmed(tags.album_artist->Some_0@),
            )
            &&& o.genre is Some ==> t.genres == audio::genres_in(o.genre->Some_0)
            &&& o.genre is None && tags.genre is Some ==> t.genres == audio::genres_in(
                tags.genre->Some_0@,
            )
            &&& !says(tags.title) ==> t.title == path.title
            &&& says(tags.title) ==> t.title == text::trimmed(tags.title->Some_0@)
            &&& tags.track is Some ==> t.track_no == Some(tags.track->Some_0 as i64)
            &&& tags.track is None && path.track_no is None ==> t.track_no is None
            &&& tags.track is None && path.track_no is Some ==> t.track_no == Some(
                path.track_no->Some_0 as i64,
            )
            &&& tags.disc is Some ==> t.disc_no == Some(tags.disc->Some_0 as i64)
            &&& tags.year is Some ==> t.year == Some(tags.year->Some_0 as i64)
        }),
{
}

/// Where leading digits are part of the title, a path gives no number and its
/// title keeps them; where they are not, the path is read as it is.
pub proof fn digits_stay_where_they_are_titles(
    path: nameparse::TrackName,
    over: Option<DirMusicView>,
    stem: Seq<char>,
)
    ensures
        over is Some && over->Some_0.track_number_prefix == Some(false) ==> {
            let p = path_said(path, over, stem);
            &&& p.track_no is None
            &&& p.title == nameparse::cleaned(stem)
            &&& p.artist == path.artist && p.album == path.album
        },
        over is None || over->Some_0.track_number_prefix != Some(false) ==> path_said(
            path,
            over,
            stem,
        ) == path,
{
}

/// A path in a directory has its name behind the last slash, and the directory
/// in front of it.
pub proof fn paths_are_cut_at_the_last_slash(dir: Seq<char>, name: Seq<char>)
    requires
        !name.contains('/'),
    ensures
        name_of(dir + "/"@ + name) == name,
        dir_of(dir + "/"@ + name) == dir,
        name_of(name) == name,
        dir_of(name).len() == 0,
        dirs_above(dir + "/"@ + name) == seq![dir] + dirs_above(dir),
        dirs_above(name) == seq![Seq::<char>::empty()],
{
    reveal_strlit("/");
    let s = dir + "/"@ + name;
    let i = dir.len() as int;
    assert(s.subrange(i, i + 1) =~= "/"@);
    assert forall|k: int| k > i implies !#[trigger] text::occurs_at(s, "/"@, k) by {
        if text::occurs_at(s, "/"@, k) {
            assert(s.subrange(k, k + 1)[0] == '/');
            assert(name[k - i - 1] == '/');
        }
    }
    assert(text::last_at(s, "/"@, i));
    text::lemma_rcut_once(s, "/"@, i);
    assert(s.take(i) =~= dir);
    assert(s.skip(i + 1) =~= name);
    lemma_no_cut(name);
}

proof fn lemma_no_cut(name: Seq<char>)
    requires
        !name.contains('/'),
    ensures
        text::rcut_once(name, "/"@) is None,
{
    reveal_strlit("/");
    if text::holds(name, "/"@) {
        let i = choose|i: int| text::occurs_at(name, "/"@, i);
        assert(name.subrange(i, i + 1)[0] == '/');
        assert(name[i] == '/');
    }
}

/// Where artwork is looked for: for a film beside it under its own name; for a
/// track in its directory under the names of covers; for an episode beside it,
/// then in its directory and the one above under the names of posters, and
/// never in the root.
pub proof fn art_is_looked_for_in_its_places(rel: Seq<char>)
    ensures
        ({
            let dir = dir_of(rel);
            let stem = paths::stem_of(name_of(rel));
            let own = seq![in_dir(dir, stem + "-poster.jpg"@), in_dir(dir, stem + "-poster.png"@)];
            let posters = |d: Seq<char>|
                seq![
                    in_dir(d, "poster.jpg"@),
                    in_dir(d, "poster.png"@),
                    in_dir(d, "folder.jpg"@),
                ];
            &&& art_places(rel, MediaKind::Movies) == own
            &&& art_places(rel, MediaKind::Music) == seq![
                in_dir(dir, "cover.jpg"@),
                in_dir(dir, "cover.png"@),
                in_dir(dir, "folder.jpg"@),
                in_dir(dir, "front.jpg"@),
                in_dir(dir, "poster.jpg"@),
                in_dir(dir, "poster.png"@),
            ]
            &&& dir.len() == 0 ==> art_places(rel, MediaKind::Tv) == own
            &&& dir.len() > 0 && text::rcut_once(dir, "/"@) is None ==> art_places(
                rel,
                MediaKind::Tv,
            ) == own + posters(dir)
            &&& text::rcut_once(dir, "/"@) is Some ==> art_places(rel, MediaKind::Tv) == own
                + posters(dir) + posters(text::rcut_once(dir, "/"@)->Some_0.0)
        }),
{
    let dir = dir_of(rel);
    let stem = paths::stem_of(name_of(rel));
    let own = seq![in_dir(dir, stem + "-poster.jpg"@), in_dir(dir, stem + "-poster.png"@)];
    assert(all_in_dir(dir, seq![stem + "-poster.jpg"@, stem + "-poster.png"@]) =~= own);
    lemma_posters(dir);
    reveal_strlit("/");
    files::lemma_rcut_parts(dir, "/"@);
    assert(all_in_dir(dir, text::words_in(DIR_ART_NAMES@)) =~= seq![
        in_dir(dir, "cover.jpg"@),
        in_dir(dir, "cover.png"@),
        in_dir(dir, "folder.jpg"@),
        in_dir(dir, "front.jpg"@),
        in_dir(dir, "poster.jpg"@),
        in_dir(dir, "poster.png"@),
    ]);
    lemma_no_cut(seq![]);
    if dir.len() == 0 {
        assert(dir =~= seq![]);
    }
    if let Some((parent, _)) = text::rcut_once(dir, "/"@) {
        lemma_posters(parent);
    }
    assert(own + Seq::<Seq<char>>::empty() =~= own);
}

proof fn lemma_posters(d: Seq<char>)
    ensures
        all_in_dir(d, text::words_in(SERIES_ART_NAMES@)) == seq![
            in_dir(d, "poster.jpg"@),
            in_dir(d, "poster.png"@),
            in_dir(d, "folder.jpg"@),
        ],
{
    assert(all_in_dir(d, text::words_in(SERIES_ART_NAMES@)) =~= seq![
        in_dir(d, "poster.jpg"@),
        in_dir(d, "poster.png"@),
        in_dir(d, "folder.jpg"@),
    ]);
}

/// The artwork is the first of the candidates that is there.
pub proof fn the_first_artwork_there_is_taken(
    candidates: Seq<Seq<char>>,
    present: Seq<bool>,
    i: int,
)
    requires
        present.len() == candidates.len(),
        0 <= i <= candidates.len(),
        forall|j: int| 0 <= j < i ==> !#[trigger] present[j],
        i < candidates.len() ==> present[i],
    ensures
        i < candidates.len() ==> first_present(candidates, present) == Some(candidates[i]),
        i == candidates.len() ==> first_present(candidates, present) is None,
    decreases candidates.len(),
{
    if i > 0 {
        assert(!present[0]);
        let p = present.drop_first();
        assert forall|j: int| 0 <= j < i - 1 implies !#[trigger] p[j] by {
            assert(!present[j + 1]);
        }
        the_first_artwork_there_is_taken(candidates.drop_first(), p, i - 1);
    }
}

/// The newest time is one of the times, and none is later.
pub proof fn none_is_newer_than_the_newest(times: Seq<i64>)
    ensures
        times.len() == 0 <==> newest(times) is None,
        newest(times) matches Some(t) ==> times.contains(t) && forall|i: int|
            0 <= i < times.len() ==> (#[trigger] times[i]) <= t,
    decreases times.len(),
{
    if times.len() > 0 {
        let head = times.drop_last();
        none_is_newer_than_the_newest(head);
        assert(forall|i: int| 0 <= i < head.len() ==> #[trigger] head[i] == times[i]);
        assert(times[times.len() - 1] == times.last());
        if let Some(t) = newest(head) {
            let k = choose|k: int| 0 <= k < head.len() && head[k] == t;
            assert(times[k] == t);
        }
        let t = newest(times)->Some_0;
        assert forall|i: int| 0 <= i < times.len() implies (#[trigger] times[i]) <= t by {
            if i < head.len() {
                assert(head[i] <= newest(head)->Some_0);
            }
        }
    }
}

/// The number in a season folder's name is its first run of digits.
pub proof fn the_first_number_is_read(before: Seq<char>, digits: Seq<char>, after: Seq<char>)
    requires
        digits.len() > 0,
        forall|i: int| 0 <= i < before.len() ==> !text::is_digit(#[trigger] before[i]),
        forall|i: int| 0 <= i < digits.len() ==> text::is_digit(#[trigger] digits[i]),
        after.len() > 0 ==> !text::is_digit(after[0]),
    ensures
        first_digits(before + digits + after) == digits,
    decreases before.len(),
{
    let s = before + digits + after;
    if before.len() > 0 {
        assert(!text::is_digit(before[0]));
        assert(s[0] == before[0]);
        let b = before.drop_first();
        assert forall|i: int| 0 <= i < b.len() implies !text::is_digit(#[trigger] b[i]) by {
            assert(!text::is_digit(before[i + 1]));
        }
        the_first_number_is_read(b, digits, after);
        assert(s.drop_first() =~= b + digits + after);
    } else {
        assert(s =~= digits + after);
        assert(text::is_digit(digits[0]));
        lemma_digit_run_of(digits, after);
        assert(s.take(digits.len() as int) =~= digits);
    }
}

proof fn lemma_digit_run_of(digits: Seq<char>, after: Seq<char>)
    requires
        forall|i: int| 0 <= i < digits.len() ==> text::is_digit(#[trigger] digits[i]),
        after.len() > 0 ==> !text::is_digit(after[0]),
    ensures
        digit_run(digits + after) == digits.len(),
    decreases digits.len(),
{
    if digits.len() > 0 {
        assert(text::is_digit(digits[0]));
        let d = digits.drop_first();
        assert forall|i: int| 0 <= i < d.len() implies text::is_digit(#[trigger] d[i]) by {
            assert(text::is_digit(digits[i + 1]));
        }
        lemma_digit_run_of(d, after);
        assert((digits + after).drop_first() =~= d + after);
    } else {
        assert(digits + after =~= after);
    }
}

} // verus!
