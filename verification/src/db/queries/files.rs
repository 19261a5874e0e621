//! Files in the catalog: paths, titles, and the folder view.
use vstd::prelude::*;
use crate::db::models::{BrowseItem, MediaKind, Root, Score};
use crate::lists;
use crate::order;
use crate::text;

verus! {

/// Everything known for one root, keyed by rel_path.
#[derive(Debug)]
pub struct KnownFile {
    pub id: i64,
    pub size: i64,
    pub mtime: i64,
    pub status: String,
    pub nfo_mtime: Option<i64>,
    pub edl_mtime: Option<i64>,
    pub art: Option<String>,
    pub updated_at: i64,
}

/// The paths of the configured roots.
pub open spec fn paths_of(configured: Seq<(String, MediaKind)>) -> Seq<Seq<char>> {
    Seq::new(configured.len(), |i: int| configured[i].0@)
}

/// Whether a root is still in the configuration; one that is not goes, with
/// its files.
pub fn is_configured(root: &Root, configured: &Vec<(String, MediaKind)>) -> (r: bool)
    ensures
        r == paths_of(configured@).contains(root.path@),
{
    let ghost paths = paths_of(configured@);
    let mut i: usize = 0;
    while i < configured.len()
        invariant
            i <= configured.len(),
            paths == paths_of(configured@),
            forall|k: int| 0 <= k < i ==> (#[trigger] paths[k]) != root.path@,
        decreases configured.len() - i,
    {
        assert(paths[i as int] == configured@[i as int].0@);
        if text::same(configured[i].0.as_str(), root.path.as_str()) {
            return true;
        }
        i += 1;
    }
    false
}

/// The roots of one kind, in their order.
pub fn roots_of_kind(roots: Vec<Root>, kind: MediaKind) -> (r: Vec<Root>)
    ensures
        r@ == roots@.filter(|x: Root| x.kind == kind),
{
    let ghost is_kind = |x: Root| x.kind == kind;
    let ghost all = roots@;
    let mut out: Vec<Root> = Vec::new();
    assert(all.take(0).filter(is_kind) =~= seq![]) by {
        reveal(Seq::filter);
    }
    for root in it: roots
        invariant
            it.seq() == all,
            is_kind == |x: Root| x.kind == kind,
            out@ == all.take(it.index()).filter(is_kind),
    {
        proof {
            reveal(Seq::filter);
            assert(all.take(it.index() + 1).drop_last() =~= all.take(it.index()));
        }
        if root.kind == kind {
            out.push(root);
        }
    }
    assert(all.take(all.len() as int) =~= all);
    out
}

/// The name after the last slash, with where it starts.
pub open spec fn name_start(path: Seq<char>) -> int {
    match text::rcut_once(path, "/"@) {
        Some((dir, name)) => path.len() - name.len(),
        None => 0,
    }
}

/// `path/stem.ext` -> `path/stem`, if the name has an extension and
/// something before it.
pub open spec fn without_extension(path: Seq<char>) -> Option<Seq<char>> {
    let at = name_start(path);
    match text::rcut_once(path.skip(at), "."@) {
        Some((stem, ext)) => if stem.len() > 0 {
            Some(path.take(at) + stem)
        } else {
            None
        },
        None => None,
    }
}

/// `path/stem.ext` -> `path/stem`, if there is an extension.
pub fn strip_extension(rel_path: &str) -> (r: Option<String>)
    ensures
        text::opt_text(r) == without_extension(rel_path@),
{
    let (dir, name) = match text::rsplit_once(rel_path, "/") {
        Some((dir, name)) => {
            let mut d = dir;
            d.push_str("/");
            proof {
                lemma_rcut_parts(rel_path@, "/"@);
                assert(d@ =~= rel_path@.take(name_start(rel_path@)));
                assert(name@ =~= rel_path@.skip(name_start(rel_path@)));
            }
            (d, name)
        },
        None => {
            proof {
                assert(rel_path@.take(0) =~= Seq::<char>::empty());
                assert(rel_path@.skip(0) =~= rel_path@);
            }
            (String::new(), rel_path.to_owned())
        },
    };
    match text::rsplit_once(name.as_str(), ".") {
        Some((stem, _)) => {
            if stem.as_str().is_empty() {
                return None;
            }
            let mut out = dir;
            out.push_str(stem.as_str());
            Some(out)
        },
        None => None,
    }
}

/// The two parts and what stood between them make up the text.
pub proof fn lemma_rcut_parts(s: Seq<char>, p: Seq<char>)
    ensures
        text::rcut_once(s, p) matches Some((a, b)) ==> s == a + p + b && a.len() + p.len()
            + b.len() == s.len(),
{
    if text::holds(s, p) {
        lemma_last_exists(s, p);
        let i = choose|i: int| text::last_at(s, p, i);
        assert(s =~= s.take(i) + s.subrange(i, i + p.len()) + s.skip(i + p.len()));
    }
}

pub proof fn lemma_last_exists(s: Seq<char>, p: Seq<char>)
    requires
        text::holds(s, p),
    ensures
        exists|i: int| text::last_at(s, p, i),
{
    let i = choose|i: int| text::occurs_at(s, p, i);
    lemma_last_from(s, p, i);
}

proof fn lemma_last_from(s: Seq<char>, p: Seq<char>, i: int)
    requires
        text::occurs_at(s, p, i),
    ensures
        exists|k: int| text::last_at(s, p, k),
    decreases s.len() - i,
{
    if exists|j: int| i < j && text::occurs_at(s, p, j) {
        let j = choose|j: int| i < j && text::occurs_at(s, p, j);
        lemma_last_from(s, p, j);
    } else {
        assert(text::last_at(s, p, i));
    }
}

/// A text in which the wildcards of a LIKE pattern stand for themselves.
pub open spec fn like_escaped(s: Seq<char>) -> Seq<char> {
    text::replaced(text::replaced(text::replaced(s, '\\', "\\\\"@), '%', "\\%"@), '_', "\\_"@)
}

/// Escape a text for use inside a LIKE pattern.
pub fn like_escape(s: &str) -> (r: String)
    ensures
        r@ == like_escaped(s@),
{
    let a = text::replace_char(s, '\\', "\\\\");
    let b = text::replace_char(a.as_str(), '%', "\\%");
    text::replace_char(b.as_str(), '_', "\\_")
}

/// A catalogued file with when it was added.
#[derive(Debug)]
pub struct Sibling {
    pub id: i64,
    pub rel_path: String,
    pub added_at: i64,
}

/// Whether the sibling differs from the path in its extension alone.
pub open spec fn same_stem(path: Seq<char>, s: Sibling) -> bool {
    without_extension(path) is Some && without_extension(s.rel_path@) == without_extension(path)
}

/// The pattern that candidates for same-stem siblings match: the stem, a
/// point, anything.
pub fn sibling_pattern(rel_path: &str) -> (r: Option<String>)
    ensures
        text::opt_text(r) == (match without_extension(rel_path@) {
            Some(stem) => Some(like_escaped(stem) + ".%"@),
            None => None,
        }),
{
    match strip_extension(rel_path) {
        None => None,
        Some(stem) => {
            let mut out = like_escape(stem.as_str());
            out.push_str(".%");
            Some(out)
        },
    }
}

/// The ids and added times of the candidates that differ from `rel_path` in
/// their extension alone: `Heat (1995).mkv` beside `Heat (1995).mp4`. That
/// is what a container change (a remux) looks like from the catalog's side.
pub fn same_stem_siblings(rel_path: &str, candidates: &Vec<Sibling>) -> (r: Vec<(i64, i64)>)
    ensures
        r@ == stem_pairs(rel_path@, candidates@),
{
    let mut out: Vec<(i64, i64)> = Vec::new();
    let stem = strip_extension(rel_path);
    let mut i: usize = 0;
    while i < candidates.len()
        invariant
            i <= candidates.len(),
            text::opt_text(stem) == without_extension(rel_path@),
            out@ == stem_pairs(rel_path@, candidates@.take(i as int)),
        decreases candidates.len() - i,
    {
        assert(candidates@.take(i + 1).drop_last() =~= candidates@.take(i as int));
        let theirs = strip_extension(candidates[i].rel_path.as_str());
        let equal = match (&stem, &theirs) {
            (Some(a), Some(b)) => text::same(a.as_str(), b.as_str()),
            _ => false,
        };
        if equal {
            out.push((candidates[i].id, candidates[i].added_at));
        }
        i += 1;
    }
    assert(candidates@.take(i as int) =~= candidates@);
    out
}

pub open spec fn stem_pairs(path: Seq<char>, c: Seq<Sibling>) -> Seq<(i64, i64)>
    decreases c.len(),
{
    if c.len() == 0 {
        seq![]
    } else {
        let before = stem_pairs(path, c.drop_last());
        if same_stem(path, c.last()) {
            before.push((c.last().id, c.last().added_at))
        } else {
            before
        }
    }
}

/// When a file that replaces same-stem siblings counts as added: at the
/// earliest of its own time and theirs. A remuxed file is not new to the
/// library, so Recently Added does not fill with conversions.
pub fn inherited_added_at(own: i64, siblings: &Vec<(i64, i64)>) -> (r: i64)
    ensures
        r <= own,
        forall|i: int| 0 <= i < siblings@.len() ==> r <= (#[trigger] siblings@[i]).1,
        r == own || exists|i: int| 0 <= i < siblings@.len() && (#[trigger] siblings@[i]).1 == r,
{
    let mut best = own;
    let mut i: usize = 0;
    while i < siblings.len()
        invariant
            i <= siblings.len(),
            best <= own,
            forall|k: int| 0 <= k < i ==> best <= (#[trigger] siblings@[k]).1,
            best == own || exists|k: int| 0 <= k < i && (#[trigger] siblings@[k]).1 == best,
        decreases siblings.len() - i,
    {
        if siblings[i].1 < best {
            best = siblings[i].1;
            assert(siblings@[i as int].1 == best);
        }
        i += 1;
    }
    best
}

/// The name of the file without its extension; the whole path where the
/// name has none.
pub open spec fn stem_of(path: Seq<char>) -> Seq<char> {
    match text::rcut_once(path.skip(name_start(path)), "."@) {
        Some((stem, ext)) => stem,
        None => path,
    }
}

pub fn file_stem(rel_path: &str) -> (r: String)
    ensures
        r@ == stem_of(rel_path@),
{
    let name = match text::rsplit_once(rel_path, "/") {
        Some((_, name)) => {
            proof {
                lemma_rcut_parts(rel_path@, "/"@);
                assert(name@ =~= rel_path@.skip(name_start(rel_path@)));
            }
            name
        },
        None => {
            assert(rel_path@.skip(0) =~= rel_path@);
            rel_path.to_owned()
        },
    };
    match text::rsplit_once(name.as_str(), ".") {
        Some((stem, _)) => stem,
        None => rel_path.to_owned(),
    }
}

/// The first of the titles that is there, or the stem.
pub open spec fn display_title(
    movie: Option<Seq<char>>,
    track: Option<Seq<char>>,
    episode: Option<Seq<char>>,
    path: Seq<char>,
) -> Seq<char> {
    match (movie, track, episode) {
        (Some(t), _, _) => t,
        (None, Some(t), _) => t,
        (None, None, Some(t)) => t,
        (None, None, None) => stem_of(path),
    }
}

fn first_title(
    movie: Option<String>,
    track: Option<String>,
    episode: Option<String>,
    rel_path: &str,
) -> (r: String)
    ensures
        r@ == display_title(
            text::opt_text(movie),
            text::opt_text(track),
            text::opt_text(episode),
            rel_path@,
        ),
{
    match movie {
        Some(t) => t,
        None => match track {
            Some(t) => t,
            None => match episode {
                Some(t) => t,
                None => file_stem(rel_path),
            },
        },
    }
}

pub fn or_else<T>(a: Option<T>, b: Option<T>) -> (r: Option<T>)
    ensures
        r == (match a {
            Some(x) => Some(x),
            None => b,
        }),
{
    match a {
        Some(x) => Some(x),
        None => b,
    }
}

/// The kind that a stored word names; a word that names none counts as a
/// movie.
pub fn kind_or_movies(word: &str) -> (r: MediaKind)
    ensures
        word@ == r.name() || (r == MediaKind::Movies && forall|k: MediaKind| word@ != k.name()),
{
    match MediaKind::parse(word) {
        Some(k) => k,
        None => MediaKind::Movies,
    }
}

/// One ready file with its kind-specific attributes left-joined in.
#[derive(Debug)]
pub struct ItemRow {
    pub file_id: i64,
    pub kind: String,
    pub mime: String,
    pub size: i64,
    pub duration_ms: Option<i64>,
    pub width: Option<i64>,
    pub height: Option<i64>,
    pub rel_path: String,
    pub has_art: bool,
    pub movie_title: Option<String>,
    pub movie_year: Option<i64>,
    pub series: Option<String>,
    pub season: Option<i64>,
    pub episode: Option<i64>,
    pub episode_title: Option<String>,
    pub track_title: Option<String>,
    pub artist: Option<String>,
    pub album: Option<String>,
    pub track_no: Option<i64>,
    pub track_year: Option<i64>,
    pub movie_rating: Option<Score>,
    pub episode_rating: Option<Score>,
}

/// The item that a row describes: the first title and year that its joins
/// gave, the file's stem where none has a title.
pub fn item_from_row(row: ItemRow) -> (r: BrowseItem)
    ensures
        r.file_id == row.file_id,
        row.kind@ == r.kind.name() || (r.kind == MediaKind::Movies && forall|k: MediaKind|
            row.kind@ != k.name()),
        r.title@ == display_title(
            text::opt_text(row.movie_title),
            text::opt_text(row.track_title),
            text::opt_text(row.episode_title),
            row.rel_path@,
        ),
        r.mime == row.mime,
        r.size == row.size,
        r.duration_ms == row.duration_ms,
        r.width == row.width,
        r.height == row.height,
        r.renditions@.len() == 0,
        r.has_art == row.has_art,
        r.art_version is None,
        r.art_file_id is None,
        r.year == (if row.movie_year is Some {
            row.movie_year
        } else {
            row.track_year
        }),
        r.genre is None,
        r.director is None,
        r.rating == (if row.movie_rating is Some {
            row.movie_rating
        } else {
            row.episode_rating
        }),
        r.artist == row.artist,
        r.album == row.album,
        r.track_no == row.track_no,
        r.series == row.series,
        r.season == row.season,
        r.episode == row.episode,
{
    let kind = kind_or_movies(row.kind.as_str());
    let title = first_title(
        row.movie_title,
        row.track_title,
        row.episode_title,
        row.rel_path.as_str(),
    );
    let mut item = BrowseItem::new(row.file_id, kind, title, row.mime, row.size);
    item.duration_ms = row.duration_ms;
    item.width = row.width;
    item.height = row.height;
    item.has_art = row.has_art;
    item.year = or_else(row.movie_year, row.track_year);
    item.series = row.series;
    item.season = row.season;
    item.episode = row.episode;
    item.artist = row.artist;
    item.album = row.album;
    item.track_no = row.track_no;
    item.rating = or_else(row.movie_rating, row.episode_rating);
    item
}

/// Everything known about one item, for a detail view.
#[derive(Debug)]
pub struct ItemDetail {
    pub file_id: i64,
    pub kind: MediaKind,
    pub title: String,
    pub rel_path: String,
    pub size: i64,
    pub mime: String,
    pub container: Option<String>,
    pub duration_ms: Option<i64>,
    pub width: Option<i64>,
    pub height: Option<i64>,
    /// Frames per second as they are shown: "24", "23.976".
    pub frame_rate: Option<String>,
    pub video_codec: Option<String>,
    pub audio_codec: Option<String>,
    pub audio_profile: Option<String>,
    pub audio_bitrate: Option<i64>,
    pub audio_sample_rate: Option<i64>,
    pub audio_bit_depth: Option<i64>,
    pub audio_channels: Option<i64>,
    pub added_at_text: String,
    pub has_art: bool,
    pub year: Option<i64>,
    pub rating: Option<Score>,
    pub plot: Option<String>,
    pub genre: Option<String>,
    pub director: Option<String>,
    pub artist: Option<String>,
    pub album: Option<String>,
    pub track_no: Option<i64>,
    pub series: Option<String>,
    pub season: Option<i64>,
    pub episode: Option<i64>,
    pub imdb_id: Option<String>,
    pub collection: Option<String>,
    /// The tag-level album artist, when set. The browse tree files tracks
    /// under the album artist, else the artist, so links back into it must
    /// key on this rather than the per-track artist.
    pub album_artist: Option<String>,
}

/// What the detail view's joins add to an item's own row.
#[derive(Debug)]
pub struct DetailRow {
    pub container: Option<String>,
    pub frame_rate: Option<String>,
    pub video_codec: Option<String>,
    pub audio_codec: Option<String>,
    pub audio_profile: Option<String>,
    pub audio_bitrate: Option<i64>,
    pub audio_sample_rate: Option<i64>,
    pub audio_bit_depth: Option<i64>,
    pub audio_channels: Option<i64>,
    pub added_at_text: String,
    pub movie_plot: Option<String>,
    pub episode_plot: Option<String>,
    pub movie_imdb: Option<String>,
    pub episode_imdb: Option<String>,
    pub movie_genre: Option<String>,
    pub track_genre: Option<String>,
    pub director: Option<String>,
    pub collection: Option<String>,
    pub album_artist: Option<String>,
}

/// A text that is there and not empty.
pub fn non_empty(s: Option<String>) -> (r: Option<String>)
    ensures
        r == (match s {
            Some(t) => if t@.len() > 0 {
                Some(t)
            } else {
                None
            },
            None => None,
        }),
{
    match s {
        Some(t) => if t.as_str().is_empty() {
            None
        } else {
            Some(t)
        },
        None => None,
    }
}

/// The detail view of a row: of a value that a movie and an episode or a
/// track may have, the movie's comes first.
pub fn detail(row: ItemRow, more: DetailRow) -> (r: ItemDetail)
    ensures
        r.file_id == row.file_id,
        row.kind@ == r.kind.name() || (r.kind == MediaKind::Movies && forall|k: MediaKind|
            row.kind@ != k.name()),
        r.title@ == display_title(
            text::opt_text(row.movie_title),
            text::opt_text(row.track_title),
            text::opt_text(row.episode_title),
            row.rel_path@,
        ),
        r.rel_path == row.rel_path,
        r.size == row.size,
        r.mime == row.mime,
        r.container == more.container,
        r.duration_ms == row.duration_ms,
        r.width == row.width,
        r.height == row.height,
        r.frame_rate == more.frame_rate,
        r.video_codec == more.video_codec,
        r.audio_codec == more.audio_codec,
        r.audio_profile == more.audio_profile,
        r.audio_bitrate == more.audio_bitrate,
        r.audio_sample_rate == more.audio_sample_rate,
        r.audio_bit_depth == more.audio_bit_depth,
        r.audio_channels == more.audio_channels,
        r.added_at_text == more.added_at_text,
        r.has_art == row.has_art,
        r.year == (if row.movie_year is Some {
            row.movie_year
        } else {
            row.track_year
        }),
        r.rating == (if row.movie_rating is Some {
            row.movie_rating
        } else {
            row.episode_rating
        }),
        r.plot == (if more.movie_plot is Some {
            more.movie_plot
        } else {
            more.episode_plot
        }),
        r.genre == (if more.movie_genre is Some {
            more.movie_genre
        } else {
            more.track_genre
        }),
        r.director == more.director,
        r.artist == row.artist,
        r.album == row.album,
        r.track_no == row.track_no,
        r.series == row.series,
        r.season == row.season,
        r.episode == row.episode,
        r.imdb_id == (if more.movie_imdb is Some {
            more.movie_imdb
        } else {
            more.episode_imdb
        }),
        r.collection == (match more.collection {
            Some(c) => if c@.len() > 0 {
                Some(c)
            } else {
                None
            },
            None => None,
        }),
        r.album_artist == more.album_artist,
{
    let kind = kind_or_movies(row.kind.as_str());
    let title = first_title(
        row.movie_title,
        row.track_title,
        row.episode_title,
        row.rel_path.as_str(),
    );
    ItemDetail {
        file_id: row.file_id,
        kind,
        title,
        rel_path: row.rel_path,
        size: row.size,
        mime: row.mime,
        container: more.container,
        duration_ms: row.duration_ms,
        width: row.width,
        height: row.height,
        frame_rate: more.frame_rate,
        video_codec: more.video_codec,
        audio_codec: more.audio_codec,
        audio_profile: more.audio_profile,
        audio_bitrate: more.audio_bitrate,
        audio_sample_rate: more.audio_sample_rate,
        audio_bit_depth: more.audio_bit_depth,
        audio_channels: more.audio_channels,
        added_at_text: more.added_at_text,
        has_art: row.has_art,
        year: or_else(row.movie_year, row.track_year),
        rating: or_else(row.movie_rating, row.episode_rating),
        plot: or_else(more.movie_plot, more.episode_plot),
        genre: or_else(more.movie_genre, more.track_genre),
        director: more.director,
        artist: row.artist,
        album: row.album,
        track_no: row.track_no,
        series: row.series,
        season: row.season,
        episode: row.episode,
        imdb_id: or_else(more.movie_imdb, more.episode_imdb),
        collection: non_empty(more.collection),
        album_artist: more.album_artist,
    }
}

/// Where the artwork for one file lives.
#[derive(Debug)]
pub enum ArtSource {
    /// A sidecar image file on disk.
    File(String),
    /// A picture embedded in this media file's tags.
    Embedded(String),
}

/// The artwork that the catalog's word for it says: inside the media file
/// itself, or at a path under the root.
pub fn art_source(root: &str, rel_path: &str, art: &str) -> (r: ArtSource)
    ensures
        match r {
            ArtSource::Embedded(p) => art@ == "embedded"@ && p@ == root@ + "/"@ + rel_path@,
            ArtSource::File(p) => art@ != "embedded"@ && p@ == root@ + "/"@ + art@,
        },
{
    let mut p = root.to_owned();
    p.push_str("/");
    if text::same(art, "embedded") {
        p.push_str(rel_path);
        ArtSource::Embedded(p)
    } else {
        p.push_str(art);
        ArtSource::File(p)
    }
}

// ------------------------------------------------------------- folder view

/// What stands before the names in a directory: nothing at the top.
pub open spec fn dir_prefix(dir: Seq<char>) -> Seq<char> {
    if dir.len() == 0 {
        seq![]
    } else {
        dir + "/"@
    }
}

pub fn directory_prefix(dir: &str) -> (r: String)
    ensures
        r@ == dir_prefix(dir@),
{
    if dir.is_empty() {
        String::new()
    } else {
        let mut p = dir.to_owned();
        p.push_str("/");
        p
    }
}

/// The pattern that everything under a directory matches.
pub fn directory_pattern(dir: &str) -> (r: String)
    ensures
        r@ == like_escaped(dir_prefix(dir@)) + "%"@,
{
    let p = directory_prefix(dir);
    let mut out = like_escape(p.as_str());
    out.push_str("%");
    out
}

/// The subdirectory of a directory that a path under it goes through, if it
/// does not name a file directly in it.
pub open spec fn subdirectory(path: Seq<char>, dir: Seq<char>) -> Option<Seq<char>> {
    match text::cut_once(path.skip(dir_prefix(dir).len() as int), "/"@) {
        Some((first, rest)) => Some(first),
        None => None,
    }
}

/// The subdirectories that paths go through, each once, as first met.
pub open spec fn subdirectories(paths: Seq<Seq<char>>, dir: Seq<char>) -> Seq<Seq<char>>
    decreases paths.len(),
{
    if paths.len() == 0 {
        seq![]
    } else {
        let before = subdirectories(paths.drop_last(), dir);
        match subdirectory(paths.last(), dir) {
            Some(first) => if before.contains(first) {
                before
            } else {
                before.push(first)
            },
            None => before,
        }
    }
}

/// The positions of the paths that name files directly in the directory.
pub open spec fn direct(paths: Seq<Seq<char>>, dir: Seq<char>) -> Seq<usize>
    decreases paths.len(),
{
    if paths.len() == 0 {
        seq![]
    } else {
        let before = direct(paths.drop_last(), dir);
        if subdirectory(paths.last(), dir) is None {
            before.push((paths.len() - 1) as usize)
        } else {
            before
        }
    }
}

/// Sorted by their lower-case form.
pub open spec fn lower_keys(s: Seq<Seq<char>>) -> Seq<Seq<char>> {
    Seq::new(s.len(), |i: int| text::lowered(s[i]))
}

/// `r` is `s` sorted by the lower-case forms.
pub open spec fn sorted_ignoring_case(r: Seq<Seq<char>>, s: Seq<Seq<char>>) -> bool {
    exists|o: Seq<usize>|
        #![trigger order::sorted_texts(s, o)]
        order::sorts(o, lower_keys(s), s.len() as int) && r == order::sorted_texts(s, o)
}

fn lower_all(v: &Vec<String>) -> (r: Vec<String>)
    ensures
        text::texts(r@) == lower_keys(text::texts(v@)),
{
    let mut out: Vec<String> = Vec::new();
    let mut i: usize = 0;
    while i < v.len()
        invariant
            i <= v.len(),
            text::texts(out@) == lower_keys(text::texts(v@)).take(i as int),
        decreases v.len() - i,
    {
        let s = text::to_lowercase(v[i].as_str());
        proof {
            text::lemma_texts_push(out@, s);
            let k = lower_keys(text::texts(v@));
            assert(k.take(i + 1) =~= k.take(i as int).push(s@));
        }
        out.push(s);
        i += 1;
    }
    proof {
        let k = lower_keys(text::texts(v@));
        assert(k.take(i as int) =~= k);
    }
    out
}

/// Sort texts by their lower-case forms.
pub fn sort_ignoring_case(v: Vec<String>) -> (r: Vec<String>)
    ensures
        sorted_ignoring_case(text::texts(r@), text::texts(v@)),
{
    let keys = lower_all(&v);
    assert(text::texts(keys@).len() == keys@.len());
    let o = order::sorted_order(&keys);
    let ghost s = text::texts(v@);
    let mut out: Vec<String> = Vec::new();
    let mut i: usize = 0;
    while i < o.len()
        invariant
            i <= o.len(),
            s == text::texts(v@),
            order::sorts(o@, lower_keys(s), s.len() as int),
            text::texts(out@) == order::sorted_texts(s, o@).take(i as int),
        decreases o.len() - i,
    {
        assert(0 <= o@[i as int] < s.len());
        let x = v[o[i]].clone();
        proof {
            text::lemma_texts_push(out@, x);
            let k = order::sorted_texts(s, o@);
            assert(k.take(i + 1) =~= k.take(i as int).push(x@));
        }
        out.push(x);
        i += 1;
    }
    proof {
        let k = order::sorted_texts(s, o@);
        assert(k.take(i as int) =~= k);
        assert(text::texts(out@) == order::sorted_texts(s, o@));
    }
    out
}

/// The lower-cased titles of items.
pub open spec fn lowered_titles(items: Seq<BrowseItem>) -> Seq<Seq<char>> {
    Seq::new(items.len(), |i: int| text::lowered(items[i].title@))
}

/// Items by their titles, ignoring case; equal titles keep their order.
pub fn sort_by_title(items: Vec<BrowseItem>) -> (r: Vec<BrowseItem>)
    ensures
        exists|o: Seq<usize>|
            order::sorts(o, lowered_titles(items@), items@.len() as int) && r@
                == #[trigger] lists::picked(items@, o),
{
    let ghost all = items@;
    let ghost goal = lowered_titles(all);
    let mut keys: Vec<String> = Vec::new();
    let mut i: usize = 0;
    assert(text::texts(keys@) =~= goal.take(0));
    while i < items.len()
        invariant
            i <= items.len(),
            all == items@,
            goal == lowered_titles(all),
            text::texts(keys@) == goal.take(i as int),
        decreases items.len() - i,
    {
        let k = text::to_lowercase(items[i].title.as_str());
        text::push_text(&mut keys, k.as_str());
        i += 1;
        assert(text::texts(keys@) =~= goal.take(i as int));
    }
    assert(goal.take(i as int) =~= goal);
    assert(text::texts(keys@).len() == keys@.len());
    let o = order::sorted_order(&keys);
    proof {
        assert forall|i: int, j: int| 0 <= i < j < o@.len() implies #[trigger] o@[i]
            != #[trigger] o@[j] by {
            assert(order::goes_first(goal, o@[i] as int, o@[j] as int));
            if o@[i] == o@[j] {
                order::lemma_before_irreflexive(goal[o@[i] as int]);
            }
        }
    }
    lists::permuted(items, &o)
}

/// Immediate children of a directory in the folder view, from the paths of
/// the files under it: the names of its subdirectories, sorted ignoring
/// case, and the positions of the files directly in it. `dir` is "" for the
/// root of a source root, otherwise "Sub/Path" with no trailing slash.
pub fn dir_children(paths: &Vec<String>, dir: &str) -> (r: (Vec<String>, Vec<usize>))
    requires
        forall|i: int|
            0 <= i < paths@.len() ==> text::begins(#[trigger] text::texts(paths@)[i], dir_prefix(dir@)),
    ensures
        sorted_ignoring_case(text::texts(r.0@), subdirectories(text::texts(paths@), dir@)),
        r.1@ == direct(text::texts(paths@), dir@),
{
    let ghost ps = text::texts(paths@);
    let prefix = directory_prefix(dir);
    let mut subdirs: Vec<String> = Vec::new();
    let mut files: Vec<usize> = Vec::new();
    let mut i: usize = 0;
    assert(text::texts(subdirs@) =~= seq![]);
    while i < paths.len()
        invariant
            i <= paths.len(),
            ps == text::texts(paths@),
            prefix@ == dir_prefix(dir@),
            forall|k: int| 0 <= k < paths@.len() ==> text::begins(#[trigger] ps[k], dir_prefix(dir@)),
            text::texts(subdirs@) == subdirectories(ps.take(i as int), dir@),
            files@ == direct(ps.take(i as int), dir@),
        decreases paths.len() - i,
    {
        proof {
            assert(ps.take(i + 1).drop_last() =~= ps.take(i as int));
            assert(ps.take(i + 1).last() == ps[i as int]);
            assert(text::begins(ps[i as int], dir_prefix(dir@)));
        }
        match text::strip_prefix(paths[i].as_str(), prefix.as_str()) {
            None => {},
            Some(rest) => {
                match text::split_once(rest.as_str(), "/") {
                    Some((first, _)) => {
                        if !text::among(&subdirs, first.as_str()) {
                            proof {
                                text::lemma_texts_push(subdirs@, first);
                            }
                            subdirs.push(first);
                        }
                    },
                    None => {
                        files.push(i);
                    },
                }
            },
        }
        i += 1;
    }
    assert(ps.take(i as int) =~= ps);
    (sort_ignoring_case(subdirs), files)
}

// -------------------------------------------------------------------- laws

proof fn lemma_cut_last(a: Seq<char>, b: Seq<char>, c: char, p: Seq<char>)
    requires
        p == seq![c],
        !b.contains(c),
    ensures
        text::rcut_once(a + p + b, p) == Some((a, b)),
        text::rcut_once(b, p) is None,
{
    let s = a + p + b;
    let i = a.len() as int;
    assert(s.subrange(i, i + 1) =~= p);
    assert forall|k: int| k > i implies !#[trigger] text::occurs_at(s, p, k) by {
        if text::occurs_at(s, p, k) {
            assert(s.subrange(k, k + 1)[0] == c);
            assert(b[k - i - 1] == c);
        }
    }
    assert(text::last_at(s, p, i));
    text::lemma_rcut_once(s, p, i);
    assert(s.take(i) =~= a);
    assert(s.skip(i + 1) =~= b);
    if text::holds(b, p) {
        let k = choose|k: int| text::occurs_at(b, p, k);
        assert(b.subrange(k, k + 1)[0] == c);
        assert(b[k] == c);
    }
}

/// A file's stem stands between the last slash and the last point behind it;
/// what stands before the stem stays where only the extension is taken off.
/// A name without a point has no extension.
pub proof fn stems_stand_before_the_last_point(
    dir: Seq<char>,
    stem: Seq<char>,
    ext: Seq<char>,
)
    requires
        stem.len() > 0,
        !stem.contains('/'),
        !ext.contains('/'),
        !ext.contains('.'),
    ensures
        stem_of(dir + "/"@ + (stem + "."@ + ext)) == stem,
        stem_of(stem + "."@ + ext) == stem,
        without_extension(dir + "/"@ + (stem + "."@ + ext)) == Some(dir + "/"@ + stem),
        without_extension(stem + "."@ + ext) == Some(stem),
        without_extension(ext) is None,
        stem_of(ext) == ext,
{
    reveal_strlit("/");
    reveal_strlit(".");
    assert("/"@ =~= seq!['/']);
    assert("."@ =~= seq!['.']);
    let name = stem + "."@ + ext;
    assert(!name.contains('/')) by {
        if name.contains('/') {
            let k = choose|k: int| 0 <= k < name.len() && name[k] == '/';
            if k < stem.len() {
                assert(stem[k] == '/');
            } else if k > stem.len() {
                assert(ext[k - stem.len() - 1] == '/');
            }
        }
    }
    lemma_cut_last(dir, name, '/', "/"@);
    lemma_cut_last(stem, ext, '.', "."@);
    lemma_cut_last(stem, ext, '/', "/"@);
    let path = dir + "/"@ + name;
    assert(path.skip(name_start(path)) =~= name);
    assert(path.take(name_start(path)) + stem =~= dir + "/"@ + stem);
    assert(name.skip(0) =~= name);
    assert(name.take(0) + stem =~= stem);
    assert(ext.skip(0) =~= ext);
}

/// An item is called by its movie title, else its track title, else its
/// episode title, else the name of its file.
pub proof fn titles_win_over_file_names(
    movie: Option<Seq<char>>,
    track: Option<Seq<char>>,
    episode: Option<Seq<char>>,
    path: Seq<char>,
)
    ensures
        movie is Some ==> display_title(movie, track, episode, path) == movie->Some_0,
        movie is None && track is Some ==> display_title(movie, track, episode, path)
            == track->Some_0,
        movie is None && track is None && episode is Some ==> display_title(
            movie,
            track,
            episode,
            path,
        ) == episode->Some_0,
        movie is None && track is None && episode is None ==> display_title(
            movie,
            track,
            episode,
            path,
        ) == stem_of(path),
{
}

/// In a pattern a wildcard stands for itself behind a backslash, and so does a
/// backslash; every other character stands as it is.
pub proof fn wildcards_are_escaped(s: Seq<char>, c: char)
    ensures
        like_escaped(seq![]).len() == 0,
        c == '%' || c == '_' || c == '\\' ==> like_escaped(s.push(c)) == like_escaped(s) + seq![
            '\\',
            c,
        ],
        c != '%' && c != '_' && c != '\\' ==> like_escaped(s.push(c)) == like_escaped(s).push(c),
{
    reveal_strlit("\\\\");
    reveal_strlit("\\%");
    reveal_strlit("\\_");
    let a = text::replaced(s, '\\', "\\\\"@);
    let b = text::replaced(a, '%', "\\%"@);
    assert(s.push(c).drop_last() =~= s);
    if c == '\\' {
        assert("\\\\"@ =~= seq!['\\', '\\']);
        assert(text::replaced(s.push(c), '\\', "\\\\"@) =~= a.push('\\').push('\\'));
        lemma_replaced_push(a, '\\', '%', "\\%"@);
        lemma_replaced_push(a.push('\\'), '\\', '%', "\\%"@);
        lemma_replaced_push(b, '\\', '_', "\\_"@);
        lemma_replaced_push(b.push('\\'), '\\', '_', "\\_"@);
        assert(like_escaped(s.push(c)) =~= like_escaped(s) + seq!['\\', c]);
    } else if c == '%' {
        lemma_replaced_push(s, c, '\\', "\\\\"@);
        lemma_replaced_push(a, c, '%', "\\%"@);
        assert("\\%"@ =~= seq!['\\', '%']);
        assert(b + "\\%"@ =~= b.push('\\').push('%'));
        lemma_replaced_push(b, '\\', '_', "\\_"@);
        lemma_replaced_push(b.push('\\'), '%', '_', "\\_"@);
        assert(like_escaped(s.push(c)) =~= like_escaped(s) + seq!['\\', c]);
    } else {
        lemma_replaced_push(s, c, '\\', "\\\\"@);
        lemma_replaced_push(a, c, '%', "\\%"@);
        lemma_replaced_push(b, c, '_', "\\_"@);
        assert("\\_"@ =~= seq!['\\', '_']);
    }
}

proof fn lemma_replaced_push(s: Seq<char>, c: char, from: char, w: Seq<char>)
    ensures
        text::replaced(s.push(c), from, w) == (if c == from {
            text::replaced(s, from, w) + w
        } else {
            text::replaced(s, from, w).push(c)
        }),
{
    assert(s.push(c).drop_last() =~= s);
}

/// Same-stem siblings are those candidates, and no others, whose path without
/// the extension is the file's, in their order.
pub proof fn siblings_share_the_stem(path: Seq<char>, c: Seq<Sibling>, s: Sibling)
    ensures
        without_extension(path) is Some && without_extension(s.rel_path@) == without_extension(path)
            ==> stem_pairs(path, c.push(s)) == stem_pairs(path, c).push((s.id, s.added_at)),
        without_extension(s.rel_path@) != without_extension(path) || without_extension(path) is None
            ==> stem_pairs(path, c.push(s)) == stem_pairs(path, c),
{
    assert(c.push(s).drop_last() =~= c);
}

/// A path under a directory is a file in it where no slash follows; otherwise
/// it goes through the subdirectory that stands before the first one.
pub proof fn paths_go_through_their_first_directory(
    dir: Seq<char>,
    name: Seq<char>,
    rest: Seq<char>,
)
    requires
        dir.len() > 0,
        !name.contains('/'),
    ensures
        subdirectory(dir + "/"@ + name, dir) is None,
        subdirectory(name, seq![]) is None,
        subdirectory(dir + "/"@ + (name + "/"@ + rest), dir) == Some(name),
        subdirectory(name + "/"@ + rest, seq![]) == Some(name),
{
    reveal_strlit("/");
    assert("/"@ =~= seq!['/']);
    let p = dir_prefix(dir);
    let long = name + "/"@ + rest;
    assert((dir + "/"@ + name).skip(p.len() as int) =~= name);
    assert((dir + "/"@ + long).skip(p.len() as int) =~= long);
    assert(name.skip(0) =~= name);
    assert(long.skip(0) =~= long);
    if text::holds(name, "/"@) {
        let k = choose|k: int| text::occurs_at(name, "/"@, k);
        assert(name.subrange(k, k + 1)[0] == '/');
        assert(name[k] == '/');
    }
    let i = name.len() as int;
    assert(long.subrange(i, i + 1) =~= "/"@);
    assert forall|k: int| 0 <= k < i implies !text::occurs_at(long, "/"@, k) by {
        if text::occurs_at(long, "/"@, k) {
            assert(long.subrange(k, k + 1)[0] == '/');
            assert(name[k] == '/');
        }
    }
    text::lemma_cut_once(long, "/"@, i);
    assert(long.take(i) =~= name);
}

/// The folder view of a directory shows each subdirectory once and each file
/// directly in it, and nothing of what lies deeper.
pub proof fn folders_show_their_children(paths: Seq<Seq<char>>, dir: Seq<char>)
    requires
        paths.len() <= usize::MAX,
    ensures
        subdirectories(paths, dir).no_duplicates(),
        forall|d: Seq<char>|
            subdirectories(paths, dir).contains(d) <==> exists|i: int|
                0 <= i < paths.len() && #[trigger] subdirectory(paths[i], dir) == Some(d),
        forall|k: int|
            0 <= k < direct(paths, dir).len() ==> (#[trigger] direct(paths, dir)[k]) < paths.len()
                && subdirectory(paths[direct(paths, dir)[k] as int], dir) is None,
        forall|i: int|
            0 <= i < paths.len() && subdirectory(#[trigger] paths[i], dir) is None ==> direct(
                paths,
                dir,
            ).contains(i as usize),
        forall|j: int, k: int|
            0 <= j < k < direct(paths, dir).len() ==> (#[trigger] direct(paths, dir)[j]) < (
            #[trigger] direct(paths, dir)[k]),
    decreases paths.len(),
{
    if paths.len() > 0 {
        let head = paths.drop_last();
        let n = head.len() as int;
        folders_show_their_children(head, dir);
        let before = subdirectories(head, dir);
        let now = subdirectories(paths, dir);
        assert(paths[n] == paths.last());
        assert forall|d: Seq<char>|
            now.contains(d) <==> exists|i: int|
                0 <= i < paths.len() && #[trigger] subdirectory(paths[i], dir) == Some(d) by {
            if now.contains(d) {
                if before.contains(d) {
                    let i = choose|i: int|
                        0 <= i < head.len() && #[trigger] subdirectory(head[i], dir) == Some(d);
                    assert(paths[i] == head[i]);
                } else {
                    assert(subdirectory(paths[n], dir) == Some(d)) by {
                        let k = choose|k: int| 0 <= k < now.len() && now[k] == d;
                        if k < before.len() {
                            assert(before[k] == d);
                        }
                    }
                }
            }
            if exists|i: int|
                0 <= i < paths.len() && #[trigger] subdirectory(paths[i], dir) == Some(d) {
                let i = choose|i: int|
                    0 <= i < paths.len() && #[trigger] subdirectory(paths[i], dir) == Some(d);
                if i < n {
                    assert(head[i] == paths[i]);
                    assert(subdirectory(head[i], dir) == Some(d));
                    assert(before.contains(d));
                    let k = choose|k: int| 0 <= k < before.len() && before[k] == d;
                    assert(now[k] == d);
                } else if !before.contains(d) {
                    assert(now[now.len() - 1] == d);
                }
            }
        }
        let old_direct = direct(head, dir);
        let new_direct = direct(paths, dir);
        assert forall|k: int| 0 <= k < new_direct.len() implies (#[trigger] new_direct[k])
            < paths.len() && subdirectory(paths[new_direct[k] as int], dir) is None by {
            if k < old_direct.len() {
                assert(old_direct[k] == new_direct[k]);
                assert(head[old_direct[k] as int] == paths[new_direct[k] as int]);
            }
        }
        assert forall|i: int|
            0 <= i < paths.len() && subdirectory(#[trigger] paths[i], dir) is None implies new_direct.contains(
            i as usize,
        ) by {
            if i < n {
                assert(head[i] == paths[i]);
                assert(old_direct.contains(i as usize));
                let k = choose|k: int| 0 <= k < old_direct.len() && old_direct[k] == i as usize;
                assert(new_direct[k] == i as usize);
            } else {
                assert(new_direct[new_direct.len() - 1] == i as usize);
            }
        }
        assert forall|j: int, k: int| 0 <= j < k < new_direct.len() implies (
        #[trigger] new_direct[j]) < (#[trigger] new_direct[k]) by {
            assert(new_direct[j] == old_direct[j]);
            if k < old_direct.len() {
                assert(new_direct[k] == old_direct[k]);
            }
        }
    }
}

} // verus!
