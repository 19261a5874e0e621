//! Leaf counts for browse containers — how many playable items live under
//! each folder link — and their cache: kept per container until the catalog
//! changes.
use vstd::prelude::*;
use crate::keyed;
use crate::server::objectid::{id_of, ObjectId};
use crate::server::tree::Node;
use crate::text;

verus! {

/// A node as counts are looked up: views grouped case-insensitively (series,
/// franchises) fold to lowercase so the count rows and the tree entries agree
/// no matter which casing each query happened to surface; everything else is
/// itself.
pub open spec fn folded(o: Node) -> Node {
    match o {
        ObjectId::TvSeries(s) => ObjectId::TvSeries(text::lowered(s)),
        ObjectId::TvSeason { series, season } => ObjectId::TvSeason {
            series: text::lowered(series),
            season,
        },
        ObjectId::MoviesFranchise(n) => ObjectId::MoviesFranchise(text::lowered(n)),
        other => other,
    }
}

pub open spec fn key_of(o: Node) -> Seq<char> {
    id_of(folded(o))
}

/// Canonical lookup key for a child container.
pub fn canon(oid: &ObjectId) -> (r: String)
    ensures
        r@ == key_of(oid@),
{
    match oid {
        ObjectId::TvSeries(s) => {
            let o: ObjectId = ObjectId::TvSeries(text::to_lowercase(s.as_str()));
            o.to_id()
        },
        ObjectId::TvSeason { series, season } => {
            let o: ObjectId = ObjectId::TvSeason {
                series: text::to_lowercase(series.as_str()),
                season: *season,
            };
            o.to_id()
        },
        ObjectId::MoviesFranchise(n) => {
            let o: ObjectId = ObjectId::MoviesFranchise(text::to_lowercase(n.as_str()));
            o.to_id()
        },
        other => other.to_id(),
    }
}

/// A number of items.
#[derive(Debug, Clone, Copy, PartialEq, Eq, Structural)]
pub struct Count {
    pub n: i64,
}

impl View for Count {
    type V = int;

    open spec fn view(&self) -> int {
        self.n as int
    }
}

/// Counts by child container.
#[derive(Debug)]
pub struct Counts {
    pub entries: Vec<(String, Count)>,
}

impl View for Counts {
    type V = Map<Seq<char>, int>;

    open spec fn view(&self) -> Map<Seq<char>, int> {
        keyed::mapped(self.entries@)
    }
}

impl Counts {
    pub open spec fn wf(self) -> bool {
        keyed::distinct(keyed::keys_of(self.entries@))
    }

    fn new() -> (r: Self)
        ensures
            r.wf(),
            r@ == Map::<Seq<char>, int>::empty(),
    {
        Counts { entries: Vec::new() }
    }

    fn insert(&mut self, child: &ObjectId, n: i64)
        requires
            old(self).wf(),
        ensures
            final(self).wf(),
            final(self)@ == old(self)@.insert(key_of(child@), n as int),
    {
        keyed::put(&mut self.entries, canon(child), Count { n });
    }

    /// The count of a child, by its canonical key; missing entries simply
    /// render without one.
    pub fn get(&self, key: &str) -> (r: Option<i64>)
        requires
            self.wf(),
        ensures
            match r {
                Some(n) => self@.dom().contains(key@) && self@[key@] == n,
                None => !self@.dom().contains(key@),
            },
    {
        proof {
            keyed::lemma_mapped(self.entries@);
        }
        match keyed::find(&self.entries, key) {
            Some(i) => {
                assert(self.entries@[i as int].0@ == key@);
                Some(self.entries[i].1.n)
            },
            None => None,
        }
    }
}

// --------------------------------------------------------------------- rows

/// What the catalog's movies come to.
#[derive(Debug, Clone, Copy)]
pub struct MovieTotals {
    pub total: i64,
    pub dated: i64,
    pub uhd: i64,
    pub with_genre: i64,
    pub with_director: i64,
    pub in_franchises: i64,
    pub files: i64,
}

/// What its music comes to.
#[derive(Debug, Clone, Copy)]
pub struct MusicTotals {
    pub total: i64,
    pub with_genre: i64,
    pub files: i64,
}

/// What the catalog's counting query for a container gave.
#[derive(Debug)]
pub enum Tally {
    Nothing,
    /// Movies, tracks and episodes.
    Sections(i64, i64, i64),
    Movies(MovieTotals),
    Music(MusicTotals),
    /// Episodes, those in 4K, files, and the episodes of each series.
    Tv(i64, i64, i64, Vec<(String, i64)>),
    /// By year, decade, genre, director, season or root.
    ByNumber(Vec<(i64, i64)>),
    /// By franchise, artist or album.
    ByName(Vec<(String, i64)>),
    /// By artist and album.
    ByAlbum(Vec<(String, String, i64)>),
    /// By rating bucket, the unrated last.
    ByRating(Vec<i64>),
    /// The paths of a root's files.
    Paths(Vec<String>),
}

pub open spec fn capped(n: int, cap: int) -> int {
    if n < cap {
        n
    } else {
        cap
    }
}

fn cap(n: i64, most: usize) -> (r: i64)
    ensures
        r == capped(n as int, most as int),
{
    if (n as i128) < most as i128 {
        n
    } else {
        most as i64
    }
}

pub type Tallied = Map<Seq<char>, int>;

/// The child container that a row of a tally is about, and its count; a row
/// is taken with its place.
pub type Rows<R> = spec_fn(int, R) -> (Node, int);

/// The counts that rows come to, on top of others. Of two rows about one
/// child the later one holds.
pub open spec fn tallied<R>(rows: Seq<R>, base: Tallied, about: Rows<R>) -> Tallied
    decreases rows.len(),
{
    if rows.len() == 0 {
        base
    } else {
        let (child, n) = about(rows.len() - 1, rows.last());
        tallied(rows.drop_last(), base, about).insert(key_of(child), n)
    }
}

fn count_rows<R, F: Fn(usize, &R) -> (ObjectId, i64)>(
    out: &mut Counts,
    rows: &Vec<R>,
    read: F,
    Ghost(about): Ghost<Rows<R>>,
)
    requires
        old(out).wf(),
        forall|i: usize, row: &R| #[trigger] call_requires(read, (i, row)),
        forall|i: usize, row: &R, r: (ObjectId, i64)| #[trigger]
            call_ensures(read, (i, row), r) ==> (r.0@, r.1 as int) == about(i as int, *row),
    ensures
        final(out).wf(),
        final(out)@ == tallied(rows@, old(out)@, about),
{
    let mut i: usize = 0;
    assert(rows@.take(0) =~= seq![]);
    while i < rows.len()
        invariant
            i <= rows.len(),
            out.wf(),
            forall|i: usize, row: &R| #[trigger] call_requires(read, (i, row)),
            forall|i: usize, row: &R, r: (ObjectId, i64)| #[trigger]
                call_ensures(read, (i, row), r) ==> (r.0@, r.1 as int) == about(i as int, *row),
            out@ == tallied(rows@.take(i as int), old(out)@, about),
        decreases rows.len() - i,
    {
        assert(rows@.take(i + 1).drop_last() =~= rows@.take(i as int));
        assert(rows@.take(i + 1).last() == rows@[i as int]);
        let (child, n) = read(i, &rows[i]);
        out.insert(&child, n);
        i += 1;
    }
    assert(rows@.take(i as int) =~= rows@);
}

pub open spec fn by_year() -> Rows<(i64, i64)> {
    |i: int, row: (i64, i64)| (ObjectId::MoviesYear(row.0), row.1 as int)
}

fn count_years(out: &mut Counts, rows: &Vec<(i64, i64)>)
    requires
        old(out).wf(),
    ensures
        final(out).wf(),
        final(out)@ == tallied(rows@, old(out)@, by_year()),
{
    let read = |i: usize, row: &(i64, i64)| -> (r: (ObjectId, i64))
        ensures
            (r.0@, r.1 as int) == by_year()(i as int, *row),
        { (ObjectId::MoviesYear(row.0), row.1) };
    count_rows(out, rows, read, Ghost(by_year()));
}

pub open spec fn by_decade() -> Rows<(i64, i64)> {
    |i: int, row: (i64, i64)| (ObjectId::MoviesDecade(row.0), row.1 as int)
}

fn count_decades(out: &mut Counts, rows: &Vec<(i64, i64)>)
    requires
        old(out).wf(),
    ensures
        final(out).wf(),
        final(out)@ == tallied(rows@, old(out)@, by_decade()),
{
    let read = |i: usize, row: &(i64, i64)| -> (r: (ObjectId, i64))
        ensures
            (r.0@, r.1 as int) == by_decade()(i as int, *row),
        { (ObjectId::MoviesDecade(row.0), row.1) };
    count_rows(out, rows, read, Ghost(by_decade()));
}

pub open spec fn by_movie_genre() -> Rows<(i64, i64)> {
    |i: int, row: (i64, i64)| (ObjectId::MoviesGenre(row.0), row.1 as int)
}

fn count_movie_genres(out: &mut Counts, rows: &Vec<(i64, i64)>)
    requires
        old(out).wf(),
    ensures
        final(out).wf(),
        final(out)@ == tallied(rows@, old(out)@, by_movie_genre()),
{
    let read = |i: usize, row: &(i64, i64)| -> (r: (ObjectId, i64))
        ensures
            (r.0@, r.1 as int) == by_movie_genre()(i as int, *row),
        { (ObjectId::MoviesGenre(row.0), row.1) };
    count_rows(out, rows, read, Ghost(by_movie_genre()));
}

pub open spec fn by_director() -> Rows<(i64, i64)> {
    |i: int, row: (i64, i64)| (ObjectId::MoviesDirector(row.0), row.1 as int)
}

fn count_directors(out: &mut Counts, rows: &Vec<(i64, i64)>)
    requires
        old(out).wf(),
    ensures
        final(out).wf(),
        final(out)@ == tallied(rows@, old(out)@, by_director()),
{
    let read = |i: usize, row: &(i64, i64)| -> (r: (ObjectId, i64))
        ensures
            (r.0@, r.1 as int) == by_director()(i as int, *row),
        { (ObjectId::MoviesDirector(row.0), row.1) };
    count_rows(out, rows, read, Ghost(by_director()));
}

pub open spec fn by_music_genre() -> Rows<(i64, i64)> {
    |i: int, row: (i64, i64)| (ObjectId::MusicGenre(row.0), row.1 as int)
}

fn count_music_genres(out: &mut Counts, rows: &Vec<(i64, i64)>)
    requires
        old(out).wf(),
    ensures
        final(out).wf(),
        final(out)@ == tallied(rows@, old(out)@, by_music_genre()),
{
    let read = |i: usize, row: &(i64, i64)| -> (r: (ObjectId, i64))
        ensures
            (r.0@, r.1 as int) == by_music_genre()(i as int, *row),
        { (ObjectId::MusicGenre(row.0), row.1) };
    count_rows(out, rows, read, Ghost(by_music_genre()));
}

pub open spec fn by_season(series: Seq<char>) -> Rows<(i64, i64)> {
    |i: int, row: (i64, i64)| (ObjectId::TvSeason { series, season: row.0 }, row.1 as int)
}

fn count_seasons(out: &mut Counts, series: &String, rows: &Vec<(i64, i64)>)
    requires
        old(out).wf(),
    ensures
        final(out).wf(),
        final(out)@ == tallied(rows@, old(out)@, by_season(series@)),
{
    let read = |i: usize, row: &(i64, i64)| -> (r: (ObjectId, i64))
        ensures
            (r.0@, r.1 as int) == by_season(series@)(i as int, *row),
        { (ObjectId::TvSeason { series: series.clone(), season: row.0 }, row.1) };
    count_rows(out, rows, read, Ghost(by_season(series@)));
}

pub open spec fn by_root() -> Rows<(i64, i64)> {
    |i: int, row: (i64, i64)| (ObjectId::Dir { root_id: row.0, rel_dir: Seq::<char>::empty() }, row.1 as int)
}

fn count_roots(out: &mut Counts, rows: &Vec<(i64, i64)>)
    requires
        old(out).wf(),
    ensures
        final(out).wf(),
        final(out)@ == tallied(rows@, old(out)@, by_root()),
{
    let read = |i: usize, row: &(i64, i64)| -> (r: (ObjectId, i64))
        ensures
            (r.0@, r.1 as int) == by_root()(i as int, *row),
        { (dir_node(row.0, empty()), row.1) };
    count_rows(out, rows, read, Ghost(by_root()));
}

pub open spec fn by_franchise() -> Rows<(String, i64)> {
    |i: int, row: (String, i64)| (ObjectId::MoviesFranchise(row.0@), row.1 as int)
}

fn count_franchises(out: &mut Counts, rows: &Vec<(String, i64)>)
    requires
        old(out).wf(),
    ensures
        final(out).wf(),
        final(out)@ == tallied(rows@, old(out)@, by_franchise()),
{
    let read = |i: usize, row: &(String, i64)| -> (r: (ObjectId, i64))
        ensures
            (r.0@, r.1 as int) == by_franchise()(i as int, *row),
        { (ObjectId::MoviesFranchise(row.0.clone()), row.1) };
    count_rows(out, rows, read, Ghost(by_franchise()));
}

pub open spec fn by_artist() -> Rows<(String, i64)> {
    |i: int, row: (String, i64)| (ObjectId::MusicArtist(row.0@), row.1 as int)
}

fn count_artists(out: &mut Counts, rows: &Vec<(String, i64)>)
    requires
        old(out).wf(),
    ensures
        final(out).wf(),
        final(out)@ == tallied(rows@, old(out)@, by_artist()),
{
    let read = |i: usize, row: &(String, i64)| -> (r: (ObjectId, i64))
        ensures
            (r.0@, r.1 as int) == by_artist()(i as int, *row),
        { (ObjectId::MusicArtist(row.0.clone()), row.1) };
    count_rows(out, rows, read, Ghost(by_artist()));
}

pub open spec fn by_series() -> Rows<(String, i64)> {
    |i: int, row: (String, i64)| (ObjectId::TvSeries(row.0@), row.1 as int)
}

fn count_series(out: &mut Counts, rows: &Vec<(String, i64)>)
    requires
        old(out).wf(),
    ensures
        final(out).wf(),
        final(out)@ == tallied(rows@, old(out)@, by_series()),
{
    let read = |i: usize, row: &(String, i64)| -> (r: (ObjectId, i64))
        ensures
            (r.0@, r.1 as int) == by_series()(i as int, *row),
        { (ObjectId::TvSeries(row.0.clone()), row.1) };
    count_rows(out, rows, read, Ghost(by_series()));
}

pub open spec fn by_artist_album(artist: Seq<char>) -> Rows<(String, i64)> {
    |i: int, row: (String, i64)| (ObjectId::MusicAlbum { artist, album: row.0@ }, row.1 as int)
}

fn count_artist_albums(out: &mut Counts, artist: &String, rows: &Vec<(String, i64)>)
    requires
        old(out).wf(),
    ensures
        final(out).wf(),
        final(out)@ == tallied(rows@, old(out)@, by_artist_album(artist@)),
{
    let read = |i: usize, row: &(String, i64)| -> (r: (ObjectId, i64))
        ensures
            (r.0@, r.1 as int) == by_artist_album(artist@)(i as int, *row),
        { (ObjectId::MusicAlbum { artist: artist.clone(), album: row.0.clone() }, row.1) };
    count_rows(out, rows, read, Ghost(by_artist_album(artist@)));
}

pub open spec fn by_album() -> Rows<(String, String, i64)> {
    |i: int, row: (String, String, i64)| (ObjectId::MusicAlbum { artist: row.0@, album: row.1@ }, row.2 as int)
}

fn count_albums(out: &mut Counts, rows: &Vec<(String, String, i64)>)
    requires
        old(out).wf(),
    ensures
        final(out).wf(),
        final(out)@ == tallied(rows@, old(out)@, by_album()),
{
    let read = |i: usize, row: &(String, String, i64)| -> (r: (ObjectId, i64))
        ensures
            (r.0@, r.1 as int) == by_album()(i as int, *row),
        { (ObjectId::MusicAlbum { artist: row.0.clone(), album: row.1.clone() }, row.2) };
    count_rows(out, rows, read, Ghost(by_album()));
}

pub open spec fn by_rating() -> Rows<i64> {
    |i: int, row: i64| (ObjectId::MoviesRating(i as usize), row as int)
}

fn count_ratings(out: &mut Counts, rows: &Vec<i64>)
    requires
        old(out).wf(),
    ensures
        final(out).wf(),
        final(out)@ == tallied(rows@, old(out)@, by_rating()),
{
    let read = |i: usize, row: &i64| -> (r: (ObjectId, i64))
        ensures
            (r.0@, r.1 as int) == by_rating()(i as int, *row),
        { (ObjectId::MoviesRating(i), *row) };
    count_rows(out, rows, read, Ghost(by_rating()));
}

fn empty() -> (r: String)
    ensures
        r@ == Seq::<char>::empty(),
{
    let s = String::new();
    assert(s@ =~= seq![]);
    s
}

fn dir_node(root_id: i64, rel_dir: String) -> (r: ObjectId)
    ensures
        r@ == (ObjectId::Dir { root_id, rel_dir: rel_dir@ }),
{
    ObjectId::Dir { root_id, rel_dir }
}

/// A directory with its slash; the top of a root is the empty prefix.
pub open spec fn prefix_of(dir: Seq<char>) -> Seq<char> {
    if dir.len() == 0 {
        seq![]
    } else {
        dir + "/"@
    }
}

/// The subdirectory of a directory that a file is below. Files directly in the
/// directory are leaf rows, not containers; only paths in a subdirectory
/// count.
pub open spec fn branch(path: Seq<char>, dir: Seq<char>) -> Option<Seq<char>> {
    let prefix = prefix_of(dir);
    if text::begins(path, prefix) {
        match text::cut_once(path.skip(prefix.len() as int), "/"@) {
            Some((first, _)) => Some(prefix + first),
            None => None,
        }
    } else {
        None
    }
}

/// The number of files below each subdirectory.
pub open spec fn by_branch(root_id: i64, dir: Seq<char>, paths: Seq<Seq<char>>) -> Tallied
    decreases paths.len(),
{
    if paths.len() == 0 {
        Map::empty()
    } else {
        let head = by_branch(root_id, dir, paths.drop_last());
        match branch(paths.last(), dir) {
            Some(sub) => {
                let key = key_of(ObjectId::Dir { root_id, rel_dir: sub });
                head.insert(
                    key,
                    (if head.dom().contains(key) {
                        head[key]
                    } else {
                        0
                    }) + 1,
                )
            },
            None => head,
        }
    }
}

fn branch_in(path: &str, prefix: &str) -> (r: Option<String>)
    ensures
        text::opt_text(r) == (if text::begins(path@, prefix@) {
            match text::cut_once(path@.skip(prefix@.len() as int), "/"@) {
                Some((first, _)) => Some(prefix@ + first),
                None => None,
            }
        } else {
            None
        }),
{
    match text::strip_prefix(path, prefix) {
        Some(rest) => match text::split_once(rest.as_str(), "/") {
            Some((first, _)) => {
                let mut out = prefix.to_owned();
                out.push_str(first.as_str());
                Some(out)
            },
            None => None,
        },
        None => None,
    }
}

fn count_branches(root_id: i64, dir: &str, paths: &Vec<String>) -> (r: Counts)
    requires
        paths@.len() <= i64::MAX,
    ensures
        r.wf(),
        r@ == by_branch(root_id, dir@, text::texts(paths@)),
{
    let mut prefix = dir.to_owned();
    if !dir.is_empty() {
        prefix.push_str("/");
    }
    assert(prefix@ =~= prefix_of(dir@));
    let ghost ps = text::texts(paths@);
    let mut out = Counts::new();
    let mut i: usize = 0;
    assert(ps.take(0) =~= seq![]);
    while i < paths.len()
        invariant
            i <= paths.len(),
            paths@.len() <= i64::MAX,
            ps == text::texts(paths@),
            prefix@ == prefix_of(dir@),
            out.wf(),
            out@ == by_branch(root_id, dir@, ps.take(i as int)),
            forall|k: Seq<char>| #[trigger] out@.dom().contains(k) ==> out@[k] <= i,
        decreases paths.len() - i,
    {
        assert(ps.take(i + 1).drop_last() =~= ps.take(i as int));
        assert(ps.take(i + 1).last() == paths@[i as int]@);
        if let Some(sub) = branch_in(paths[i].as_str(), prefix.as_str()) {
            let child = dir_node(root_id, sub);
            let key = canon(&child);
            let n: i64 = match out.get(key.as_str()) {
                Some(n) => n + 1,
                None => 1,
            };
            out.insert(&child, n);
        }
        i += 1;
    }
    assert(ps.take(i as int) =~= ps);
    out
}

/// The counts of a container's children, as the catalog's tally has them; none
/// where the tally is not of such a container, or there is nothing to count
/// (leaf-only or empty parents).
pub open spec fn computed(parent: Node, tally: Tally, recent_count: int) -> Tallied {
    let none = Map::<Seq<char>, int>::empty();
    match (parent, tally) {
        (ObjectId::Root, Tally::Sections(movies, tracks, episodes)) => none.insert(
            key_of(ObjectId::Movies),
            movies as int,
        ).insert(key_of(ObjectId::Music), tracks as int).insert(
            key_of(ObjectId::Tv),
            episodes as int,
        ),
        (ObjectId::Movies, Tally::Movies(t)) => none.insert(
            key_of(ObjectId::MoviesAll),
            t.total as int,
        ).insert(
            key_of(ObjectId::MoviesRecent),
            capped(t.total as int, recent_count),
        ).insert(key_of(ObjectId::MoviesUhd), t.uhd as int).insert(
            key_of(ObjectId::MoviesByYear),
            t.dated as int,
        ).insert(key_of(ObjectId::MoviesByDecade), t.dated as int).insert(
            key_of(ObjectId::MoviesByGenre),
            t.with_genre as int,
        ).insert(key_of(ObjectId::MoviesByDirector), t.with_director as int).insert(
            key_of(ObjectId::MoviesByFranchise),
            t.in_franchises as int,
        ).insert(key_of(ObjectId::MoviesByRating), t.total as int).insert(
            key_of(ObjectId::MoviesFolders),
            t.files as int,
        ),
        (ObjectId::MoviesByYear, Tally::ByNumber(rs)) => tallied(rs@, none, by_year()),
        (ObjectId::MoviesByDecade, Tally::ByNumber(rs)) => tallied(rs@, none, by_decade()),
        (ObjectId::MoviesByGenre, Tally::ByNumber(rs)) => tallied(rs@, none, by_movie_genre()),
        (ObjectId::MoviesByDirector, Tally::ByNumber(rs)) => tallied(rs@, none, by_director()),
        (ObjectId::MoviesByFranchise, Tally::ByName(rs)) => tallied(rs@, none, by_franchise()),
        (ObjectId::MoviesByRating, Tally::ByRating(rs)) => tallied(rs@, none, by_rating()),
        (ObjectId::Music, Tally::Music(t)) => none.insert(
            key_of(ObjectId::MusicRecent),
            capped(t.total as int, recent_count),
        ).insert(key_of(ObjectId::MusicArtists), t.total as int).insert(
            key_of(ObjectId::MusicAlbums),
            t.total as int,
        ).insert(key_of(ObjectId::MusicByGenre), t.with_genre as int).insert(
            key_of(ObjectId::MusicFolders),
            t.files as int,
        ),
        (ObjectId::MusicArtists, Tally::ByName(rs)) => tallied(rs@, none, by_artist()),
        (ObjectId::MusicArtist(artist), Tally::ByName(rs)) => tallied(rs@, none, by_artist_album(artist)),
        (ObjectId::MusicAlbums, Tally::ByAlbum(rs)) => tallied(rs@, none, by_album()),
        (ObjectId::MusicByGenre, Tally::ByNumber(rs)) => tallied(rs@, none, by_music_genre()),
        (ObjectId::Tv, Tally::Tv(episodes, uhd, files, rs)) => tallied(
            rs@,
            none.insert(
                key_of(ObjectId::TvRecent),
                capped(episodes as int, recent_count),
            ).insert(key_of(ObjectId::TvUhd), uhd as int).insert(
                key_of(ObjectId::TvFolders),
                files as int,
            ),
            by_series(),
        ),
        (ObjectId::TvSeries(series), Tally::ByNumber(rs)) => tallied(rs@, none, by_season(series)),
        (ObjectId::MoviesFolders, Tally::ByNumber(rs)) => tallied(rs@, none, by_root()),
        (ObjectId::MusicFolders, Tally::ByNumber(rs)) => tallied(rs@, none, by_root()),
        (ObjectId::TvFolders, Tally::ByNumber(rs)) => tallied(rs@, none, by_root()),
        (ObjectId::Dir { root_id, rel_dir }, Tally::Paths(ps)) => by_branch(
            root_id,
            rel_dir,
            text::texts(ps@),
        ),
        _ => none,
    }
}

fn count_movies(out: &mut Counts, t: &MovieTotals, recent_count: usize)
    requires
        old(out).wf(),
        old(out)@ == Map::<Seq<char>, int>::empty(),
    ensures
        final(out).wf(),
        final(out)@ == computed(ObjectId::Movies, Tally::Movies(*t), recent_count as int),
{
    out.insert(&ObjectId::MoviesAll, t.total);
    out.insert(&ObjectId::MoviesRecent, cap(t.total, recent_count));
    out.insert(&ObjectId::MoviesUhd, t.uhd);
    out.insert(&ObjectId::MoviesByYear, t.dated);
    out.insert(&ObjectId::MoviesByDecade, t.dated);
    out.insert(&ObjectId::MoviesByGenre, t.with_genre);
    out.insert(&ObjectId::MoviesByDirector, t.with_director);
    out.insert(&ObjectId::MoviesByFranchise, t.in_franchises);
    out.insert(&ObjectId::MoviesByRating, t.total);
    out.insert(&ObjectId::MoviesFolders, t.files);
}

fn count_music(out: &mut Counts, t: &MusicTotals, recent_count: usize)
    requires
        old(out).wf(),
        old(out)@ == Map::<Seq<char>, int>::empty(),
    ensures
        final(out).wf(),
        final(out)@ == computed(ObjectId::Music, Tally::Music(*t), recent_count as int),
{
    out.insert(&ObjectId::MusicRecent, cap(t.total, recent_count));
    out.insert(&ObjectId::MusicArtists, t.total);
    out.insert(&ObjectId::MusicAlbums, t.total);
    out.insert(&ObjectId::MusicByGenre, t.with_genre);
    out.insert(&ObjectId::MusicFolders, t.files);
}

/// Leaf counts for the children of `parent`, keyed by `canon` of the child id,
/// out of one tally per page (never per row).
pub fn compute(parent: &ObjectId, tally: &Tally, recent_count: usize) -> (r: Counts)
    requires
        tally matches Tally::Paths(ps) ==> ps@.len() <= i64::MAX,
    ensures
        r.wf(),
        r@ == computed(parent@, *tally, recent_count as int),
{
    let mut out = Counts::new();
    match (parent, tally) {
        (ObjectId::Root, Tally::Sections(movies, tracks, episodes)) => {
            out.insert(&ObjectId::Movies, *movies);
            out.insert(&ObjectId::Music, *tracks);
            out.insert(&ObjectId::Tv, *episodes);
        },
        (ObjectId::Movies, Tally::Movies(t)) => count_movies(&mut out, t, recent_count),
        (ObjectId::MoviesByYear, Tally::ByNumber(rs)) => count_years(&mut out, rs),
        (ObjectId::MoviesByDecade, Tally::ByNumber(rs)) => count_decades(&mut out, rs),
        (ObjectId::MoviesByGenre, Tally::ByNumber(rs)) => count_movie_genres(&mut out, rs),
        (ObjectId::MoviesByDirector, Tally::ByNumber(rs)) => count_directors(&mut out, rs),
        (ObjectId::MoviesByFranchise, Tally::ByName(rs)) => count_franchises(&mut out, rs),
        (ObjectId::MoviesByRating, Tally::ByRating(rs)) => count_ratings(&mut out, rs),
        (ObjectId::Music, Tally::Music(t)) => count_music(&mut out, t, recent_count),
        (ObjectId::MusicArtists, Tally::ByName(rs)) => count_artists(&mut out, rs),
        (ObjectId::MusicArtist(artist), Tally::ByName(rs)) => count_artist_albums(
            &mut out,
            artist,
            rs,
        ),
        (ObjectId::MusicAlbums, Tally::ByAlbum(rs)) => count_albums(&mut out, rs),
        (ObjectId::MusicByGenre, Tally::ByNumber(rs)) => count_music_genres(&mut out, rs),
        (ObjectId::Tv, Tally::Tv(episodes, uhd, files, rs)) => {
            out.insert(&ObjectId::TvRecent, cap(*episodes, recent_count));
            out.insert(&ObjectId::TvUhd, *uhd);
            out.insert(&ObjectId::TvFolders, *files);
            count_series(&mut out, rs);
        },
        (ObjectId::TvSeries(series), Tally::ByNumber(rs)) => count_seasons(&mut out, series, rs),
        (ObjectId::MoviesFolders, Tally::ByNumber(rs)) => count_roots(&mut out, rs),
        (ObjectId::MusicFolders, Tally::ByNumber(rs)) => count_roots(&mut out, rs),
        (ObjectId::TvFolders, Tally::ByNumber(rs)) => count_roots(&mut out, rs),
        (ObjectId::Dir { root_id, rel_dir }, Tally::Paths(ps)) => {
            out = count_branches(*root_id, rel_dir.as_str(), ps);
        },
        _ => {},
    }
    out
}

// -------------------------------------------------------------------- cache

/// Counts by parent container, of one generation of the catalog.
#[derive(Debug)]
pub struct Cache {
    pub generation: u32,
    pub per_parent: Vec<(String, Counts)>,
}

impl View for Cache {
    type V = Map<Seq<char>, Map<Seq<char>, int>>;

    open spec fn view(&self) -> Map<Seq<char>, Map<Seq<char>, int>> {
        keyed::mapped(self.per_parent@)
    }
}

impl Cache {
    pub open spec fn wf(self) -> bool {
        &&& keyed::distinct(keyed::keys_of(self.per_parent@))
        &&& forall|i: int| 0 <= i < self.per_parent@.len() ==> (#[trigger] self.per_parent@[i]).1.wf()
    }

    pub fn new() -> (r: Self)
        ensures
            r.wf(),
            r.generation == 0,
            r@ == Map::<Seq<char>, Map<Seq<char>, int>>::empty(),
    {
        Cache { generation: 0, per_parent: Vec::new() }
    }

    /// What is known of a parent in this generation; what was kept of another
    /// one is forgotten.
    pub fn lookup(&mut self, generation: u32, parent: &ObjectId) -> (r: Option<usize>)
        requires
            old(self).wf(),
        ensures
            final(self).wf(),
            final(self).generation == generation,
            final(self)@ == (if old(self).generation == generation {
                old(self)@
            } else {
                Map::empty()
            }),
            match r {
                Some(i) => i < final(self).per_parent@.len() && final(self)@.dom().contains(
                    id_of(parent@),
                ) && final(self).per_parent@[i as int].1@ == final(self)@[id_of(parent@)],
                None => !final(self)@.dom().contains(id_of(parent@)),
            },
    {
        if self.generation != generation {
            self.per_parent = Vec::new();
            self.generation = generation;
        }
        let key = parent.to_id();
        proof {
            keyed::lemma_mapped(self.per_parent@);
        }
        let r = keyed::find(&self.per_parent, key.as_str());
        assert(r matches Some(i) ==> self.per_parent@[i as int].0@ == key@);
        r
    }

    /// Keep a parent's counts.
    pub fn store(&mut self, parent: &ObjectId, counts: Counts)
        requires
            old(self).wf(),
            counts.wf(),
        ensures
            final(self).wf(),
            final(self).generation == old(self).generation,
            final(self)@ == old(self)@.insert(id_of(parent@), counts@),
    {
        let key = parent.to_id();
        let ghost before = self.per_parent@;
        match keyed::find(&self.per_parent, key.as_str()) {
            Some(i) => {
                proof {
                    keyed::lemma_update(before, i as int, (key, counts));
                }
                self.per_parent.set(i, (key, counts));
            },
            None => {
                proof {
                    keyed::lemma_mapped(before);
                    let after = before.push((key, counts));
                    let ks = keyed::keys_of(after);
                    assert forall|a: int, b: int| 0 <= a < b < ks.len() implies ks[a]
                        != ks[b] by {
                        if b < before.len() {
                            assert(keyed::keys_of(before)[a] != keyed::keys_of(before)[b]);
                        } else {
                            assert(keyed::mapped(before).dom().contains(before[a].0@));
                        }
                    }
                    assert(after.drop_last() =~= before);
                }
                self.per_parent.push((key, counts));
            },
        }
    }
}

// -------------------------------------------------------------------- laws

/// However a query spells a series or a franchise, its count is found: the
/// keys of two spellings that are alike but for case are one.
pub proof fn counts_ignore_case(a: Seq<char>, b: Seq<char>, season: i64)
    requires
        text::lowered(a) == text::lowered(b),
    ensures
        key_of(ObjectId::TvSeries(a)) == key_of(ObjectId::TvSeries(b)),
        key_of(ObjectId::TvSeason { series: a, season }) == key_of(
            ObjectId::TvSeason { series: b, season },
        ),
        key_of(ObjectId::MoviesFranchise(a)) == key_of(ObjectId::MoviesFranchise(b)),
{
}

pub open spec fn branched(dir: Seq<char>, paths: Seq<Seq<char>>, sub: Seq<char>) -> int
    decreases paths.len(),
{
    if paths.len() == 0 {
        0
    } else {
        branched(dir, paths.drop_last(), sub) + (if branch(paths.last(), dir) == Some(sub) {
            1int
        } else {
            0
        })
    }
}

/// A subdirectory's count is the number of files below it, at any depth.
pub proof fn branches_count_their_files(
    root_id: i64,
    dir: Seq<char>,
    paths: Seq<Seq<char>>,
    sub: Seq<char>,
)
    ensures
        ({
            let key = key_of(ObjectId::Dir { root_id, rel_dir: sub });
            let counts = by_branch(root_id, dir, paths);
            &&& counts.dom().contains(key) <==> branched(dir, paths, sub) > 0
            &&& counts.dom().contains(key) ==> counts[key] == branched(dir, paths, sub)
            &&& branched(dir, paths, sub) >= 0
        }),
    decreases paths.len(),
{
    if paths.len() > 0 {
        branches_count_their_files(root_id, dir, paths.drop_last(), sub);
        match branch(paths.last(), dir) {
            Some(other) => {
                let a: Node = ObjectId::Dir { root_id, rel_dir: sub };
                let b: Node = ObjectId::Dir { root_id, rel_dir: other };
                if key_of(a) == key_of(b) {
                    crate::server::objectid::ids_are_distinct(a, b);
                }
            },
            None => {},
        }
    }
}

proof fn lemma_rows<R>(rows: Seq<R>, base: Tallied, about: Rows<R>, i: int)
    requires
        0 <= i < rows.len(),
        forall|j: int|
            i < j < rows.len() ==> key_of((#[trigger] about(j, rows[j])).0) != key_of(
                about(i, rows[i]).0,
            ),
    ensures
        tallied(rows, base, about).dom().contains(key_of(about(i, rows[i]).0)),
        tallied(rows, base, about)[key_of(about(i, rows[i]).0)] == about(i, rows[i]).1,
    decreases rows.len(),
{
    if i < rows.len() - 1 {
        let head = rows.drop_last();
        assert(head[i] == rows[i]);
        assert forall|j: int| i < j < head.len() implies key_of((#[trigger] about(j, head[j])).0)
            != key_of(about(i, head[i]).0) by {
            assert(head[j] == rows[j]);
            assert(key_of(about(j, rows[j]).0) != key_of(about(i, rows[i]).0));
        }
        lemma_rows(head, base, about, i);
        let n = rows.len() - 1;
        assert(rows[n] == rows.last());
        assert(key_of(about(n, rows[n]).0) != key_of(about(i, rows[i]).0));
    }
}

proof fn lemma_other_key(a: Node, b: Node)
    requires
        folded(a) != folded(b),
    ensures
        key_of(a) != key_of(b),
{
    if key_of(a) == key_of(b) {
        crate::server::objectid::ids_are_distinct(folded(a), folded(b));
    }
}

/// The count of a child is what the row about it says, where there is one row
/// about each.
pub proof fn children_are_counted_by_their_row(
    rows: Vec<(i64, i64)>,
    series: Seq<char>,
    recent: int,
    i: int,
)
    requires
        0 <= i < rows@.len(),
        forall|j: int, k: int|
            0 <= j < k < rows@.len() ==> (#[trigger] rows@[j]).0 != (#[trigger] rows@[k]).0,
    ensures
        ({
            let t = Tally::ByNumber(rows);
            let n = rows@[i].0;
            let count = rows@[i].1 as int;
            &&& computed(ObjectId::MoviesByYear, t, recent).contains_pair(
                key_of(ObjectId::MoviesYear(n)),
                count,
            )
            &&& computed(ObjectId::MoviesByDecade, t, recent).contains_pair(
                key_of(ObjectId::MoviesDecade(n)),
                count,
            )
            &&& computed(ObjectId::MoviesByGenre, t, recent).contains_pair(
                key_of(ObjectId::MoviesGenre(n)),
                count,
            )
            &&& computed(ObjectId::MoviesByDirector, t, recent).contains_pair(
                key_of(ObjectId::MoviesDirector(n)),
                count,
            )
            &&& computed(ObjectId::MusicByGenre, t, recent).contains_pair(
                key_of(ObjectId::MusicGenre(n)),
                count,
            )
            &&& computed(ObjectId::TvSeries(series), t, recent).contains_pair(
                key_of(ObjectId::TvSeason { series, season: n }),
                count,
            )
            &&& computed(ObjectId::TvFolders, t, recent).contains_pair(
                key_of(ObjectId::Dir { root_id: n, rel_dir: seq![] }),
                count,
            )
        }),
{
    let none = Map::<Seq<char>, int>::empty();
    assert forall|j: int| i < j < rows@.len() implies {
        &&& key_of((#[trigger] by_year()(j, rows@[j])).0) != key_of(by_year()(i, rows@[i]).0)
    } by {
        assert(rows@[i].0 != rows@[j].0);
        lemma_other_key(ObjectId::MoviesYear(rows@[j].0), ObjectId::MoviesYear(rows@[i].0));
    }
    lemma_rows(rows@, none, by_year(), i);
    assert forall|j: int| i < j < rows@.len() implies key_of(
        (#[trigger] by_decade()(j, rows@[j])).0,
    ) != key_of(by_decade()(i, rows@[i]).0) by {
        assert(rows@[i].0 != rows@[j].0);
        lemma_other_key(ObjectId::MoviesDecade(rows@[j].0), ObjectId::MoviesDecade(rows@[i].0));
    }
    lemma_rows(rows@, none, by_decade(), i);
    assert forall|j: int| i < j < rows@.len() implies key_of(
        (#[trigger] by_movie_genre()(j, rows@[j])).0,
    ) != key_of(by_movie_genre()(i, rows@[i]).0) by {
        assert(rows@[i].0 != rows@[j].0);
        lemma_other_key(ObjectId::MoviesGenre(rows@[j].0), ObjectId::MoviesGenre(rows@[i].0));
    }
    lemma_rows(rows@, none, by_movie_genre(), i);
    assert forall|j: int| i < j < rows@.len() implies key_of(
        (#[trigger] by_director()(j, rows@[j])).0,
    ) != key_of(by_director()(i, rows@[i]).0) by {
        assert(rows@[i].0 != rows@[j].0);
        lemma_other_key(ObjectId::MoviesDirector(rows@[j].0), ObjectId::MoviesDirector(rows@[i].0));
    }
    lemma_rows(rows@, none, by_director(), i);
    assert forall|j: int| i < j < rows@.len() implies key_of(
        (#[trigger] by_music_genre()(j, rows@[j])).0,
    ) != key_of(by_music_genre()(i, rows@[i]).0) by {
        assert(rows@[i].0 != rows@[j].0);
        lemma_other_key(ObjectId::MusicGenre(rows@[j].0), ObjectId::MusicGenre(rows@[i].0));
    }
    lemma_rows(rows@, none, by_music_genre(), i);
    assert forall|j: int| i < j < rows@.len() implies key_of(
        (#[trigger] by_season(series)(j, rows@[j])).0,
    ) != key_of(by_season(series)(i, rows@[i]).0) by {
        assert(rows@[i].0 != rows@[j].0);
        lemma_other_key(
            ObjectId::TvSeason { series, season: rows@[j].0 },
            ObjectId::TvSeason { series, season: rows@[i].0 },
        );
    }
    lemma_rows(rows@, none, by_season(series), i);
    assert forall|j: int| i < j < rows@.len() implies key_of(
        (#[trigger] by_root()(j, rows@[j])).0,
    ) != key_of(by_root()(i, rows@[i]).0) by {
        assert(rows@[i].0 != rows@[j].0);
        lemma_other_key(
            ObjectId::Dir { root_id: rows@[j].0, rel_dir: Seq::<char>::empty() },
            ObjectId::Dir { root_id: rows@[i].0, rel_dir: Seq::<char>::empty() },
        );
    }
    lemma_rows(rows@, none, by_root(), i);
}

/// The counts of the movies' views are the totals of what each view shows; of
/// what was added lately no more are counted than it lists.
pub proof fn movie_views_are_counted(t: MovieTotals, recent: int)
    ensures
        ({
            let c = computed(ObjectId::Movies, Tally::Movies(t), recent);
            &&& c[key_of(ObjectId::MoviesAll)] == t.total
            &&& c[key_of(ObjectId::MoviesByYear)] == t.dated
            &&& c[key_of(ObjectId::MoviesByDecade)] == t.dated
            &&& c[key_of(ObjectId::MoviesByGenre)] == t.with_genre
            &&& c[key_of(ObjectId::MoviesByDirector)] == t.with_director
            &&& c[key_of(ObjectId::MoviesByFranchise)] == t.in_franchises
            &&& c[key_of(ObjectId::MoviesByRating)] == t.total
            &&& c[key_of(ObjectId::MoviesFolders)] == t.files
            &&& c[key_of(ObjectId::MoviesUhd)] == t.uhd
            &&& c[key_of(ObjectId::MoviesRecent)] <= t.total
            &&& c[key_of(ObjectId::MoviesRecent)] <= recent
            &&& c[key_of(ObjectId::MoviesRecent)] == t.total || c[key_of(ObjectId::MoviesRecent)]
                == recent
        }),
{
    assert forall|a: Node, b: Node| folded(a) != folded(b) implies #[trigger] key_of(a)
        != #[trigger] key_of(b) by {
        lemma_other_key(a, b);
    }
}

/// The counts of the music's views and of the sections at the top.
pub proof fn music_views_and_sections_are_counted(
    t: MusicTotals,
    movies: i64,
    tracks: i64,
    episodes: i64,
    recent: int,
)
    ensures
        ({
            let c = computed(ObjectId::Music, Tally::Music(t), recent);
            &&& c[key_of(ObjectId::MusicArtists)] == t.total
            &&& c[key_of(ObjectId::MusicAlbums)] == t.total
            &&& c[key_of(ObjectId::MusicByGenre)] == t.with_genre
            &&& c[key_of(ObjectId::MusicFolders)] == t.files
        }),
        ({
            let c = computed(ObjectId::Root, Tally::Sections(movies, tracks, episodes), recent);
            &&& c[key_of(ObjectId::Movies)] == movies
            &&& c[key_of(ObjectId::Music)] == tracks
            &&& c[key_of(ObjectId::Tv)] == episodes
        }),
{
    assert forall|a: Node, b: Node| folded(a) != folded(b) implies #[trigger] key_of(a)
        != #[trigger] key_of(b) by {
        lemma_other_key(a, b);
    }
}

} // verus!
