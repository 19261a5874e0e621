//! The ids of the content tree's nodes.
use vstd::prelude::*;
use crate::encoding;
use crate::text;

verus! {

/// Every node in the ContentDirectory tree has a stable string id encoding
/// what it is; browsing parses the id back into a query. "0" is the UPnP
/// mandated root.
#[derive(Debug, Clone)]
pub enum ObjectId<S = String> {
    Root,
    // Movies
    Movies,
    MoviesAll,
    MoviesRecent,
    MoviesUhd,
    MoviesByYear,
    MoviesYear(i64),
    MoviesByDecade,
    MoviesDecade(i64),
    MoviesByGenre,
    MoviesGenre(i64),
    MoviesByDirector,
    MoviesDirector(i64),
    MoviesByFranchise,
    MoviesFranchise(S),
    MoviesByRating,
    MoviesRating(usize),
    MoviesFolders,
    // Music
    Music,
    MusicRecent,
    MusicArtists,
    MusicArtist(S),
    MusicAlbums,
    MusicAlbum { artist: S, album: S },
    MusicByGenre,
    MusicGenre(i64),
    MusicFolders,
    // TV
    Tv,
    TvRecent,
    TvUhd,
    TvSeries(S),
    TvSeason { series: S, season: i64 },
    TvFolders,
    // Folder view: rel_dir is "" at the top of a source root.
    Dir { root_id: i64, rel_dir: S },
    // A playable file.
    Item(i64),
}

impl View for ObjectId<String> {
    type V = ObjectId<Seq<char>>;

    open spec fn view(&self) -> ObjectId<Seq<char>> {
        match *self {
            ObjectId::Root => ObjectId::Root,
            ObjectId::Movies => ObjectId::Movies,
            ObjectId::MoviesAll => ObjectId::MoviesAll,
            ObjectId::MoviesRecent => ObjectId::MoviesRecent,
            ObjectId::MoviesUhd => ObjectId::MoviesUhd,
            ObjectId::MoviesByYear => ObjectId::MoviesByYear,
            ObjectId::MoviesByDecade => ObjectId::MoviesByDecade,
            ObjectId::MoviesByGenre => ObjectId::MoviesByGenre,
            ObjectId::MoviesByDirector => ObjectId::MoviesByDirector,
            ObjectId::MoviesByFranchise => ObjectId::MoviesByFranchise,
            ObjectId::MoviesByRating => ObjectId::MoviesByRating,
            ObjectId::MoviesFolders => ObjectId::MoviesFolders,
            ObjectId::Music => ObjectId::Music,
            ObjectId::MusicRecent => ObjectId::MusicRecent,
            ObjectId::MusicArtists => ObjectId::MusicArtists,
            ObjectId::MusicAlbums => ObjectId::MusicAlbums,
            ObjectId::MusicByGenre => ObjectId::MusicByGenre,
            ObjectId::MusicFolders => ObjectId::MusicFolders,
            ObjectId::Tv => ObjectId::Tv,
            ObjectId::TvRecent => ObjectId::TvRecent,
            ObjectId::TvUhd => ObjectId::TvUhd,
            ObjectId::TvFolders => ObjectId::TvFolders,
            ObjectId::MoviesYear(n) => ObjectId::MoviesYear(n),
            ObjectId::MoviesDecade(n) => ObjectId::MoviesDecade(n),
            ObjectId::MoviesGenre(n) => ObjectId::MoviesGenre(n),
            ObjectId::MoviesDirector(n) => ObjectId::MoviesDirector(n),
            ObjectId::MusicGenre(n) => ObjectId::MusicGenre(n),
            ObjectId::Item(n) => ObjectId::Item(n),
            ObjectId::MoviesRating(n) => ObjectId::MoviesRating(n),
            ObjectId::MoviesFranchise(s) => ObjectId::MoviesFranchise(s@),
            ObjectId::MusicArtist(s) => ObjectId::MusicArtist(s@),
            ObjectId::TvSeries(s) => ObjectId::TvSeries(s@),
            ObjectId::MusicAlbum { artist, album } => ObjectId::MusicAlbum {
                artist: artist@,
                album: album@,
            },
            ObjectId::TvSeason { series, season } => ObjectId::TvSeason {
                series: series@,
                season,
            },
            ObjectId::Dir { root_id, rel_dir } => ObjectId::Dir { root_id, rel_dir: rel_dir@ },
        }
    }
}

/// The parts of a node's id.
pub open spec fn parts_of(o: ObjectId<Seq<char>>) -> Seq<Seq<char>> {
    match o {
        ObjectId::Root => seq!["0"@],
        ObjectId::Movies => seq!["mv"@],
        ObjectId::MoviesAll => seq!["mv"@, "all"@],
        ObjectId::MoviesRecent => seq!["mv"@, "recent"@],
        ObjectId::MoviesUhd => seq!["mv"@, "uhd"@],
        ObjectId::MoviesByYear => seq!["mv"@, "year"@],
        ObjectId::MoviesByDecade => seq!["mv"@, "decade"@],
        ObjectId::MoviesByGenre => seq!["mv"@, "genre"@],
        ObjectId::MoviesByDirector => seq!["mv"@, "director"@],
        ObjectId::MoviesByFranchise => seq!["mv"@, "franchise"@],
        ObjectId::MoviesByRating => seq!["mv"@, "rating"@],
        ObjectId::MoviesFolders => seq!["mv"@, "dir"@],
        ObjectId::Music => seq!["mu"@],
        ObjectId::MusicRecent => seq!["mu"@, "recent"@],
        ObjectId::MusicArtists => seq!["mu"@, "artist"@],
        ObjectId::MusicAlbums => seq!["mu"@, "album"@],
        ObjectId::MusicByGenre => seq!["mu"@, "genre"@],
        ObjectId::MusicFolders => seq!["mu"@, "dir"@],
        ObjectId::Tv => seq!["tv"@],
        ObjectId::TvRecent => seq!["tv"@, "recent"@],
        ObjectId::TvUhd => seq!["tv"@, "uhd"@],
        ObjectId::TvFolders => seq!["tv"@, "dir"@],
        ObjectId::MoviesYear(n) => seq!["mv"@, "year"@, text::decimal(n as int)],
        ObjectId::MoviesDecade(n) => seq!["mv"@, "decade"@, text::decimal(n as int)],
        ObjectId::MoviesGenre(n) => seq!["mv"@, "genre"@, text::decimal(n as int)],
        ObjectId::MoviesDirector(n) => seq!["mv"@, "director"@, text::decimal(n as int)],
        ObjectId::MusicGenre(n) => seq!["mu"@, "genre"@, text::decimal(n as int)],
        ObjectId::Item(n) => seq!["it"@, text::decimal(n as int)],
        ObjectId::MoviesRating(n) => seq!["mv"@, "rating"@, text::decimal(n as int)],
        ObjectId::MoviesFranchise(s) => seq!["mv"@, "franchise"@, encoding::encoded(s)],
        ObjectId::MusicArtist(s) => seq!["mu"@, "artist"@, encoding::encoded(s)],
        ObjectId::TvSeries(s) => seq!["tv"@, "ser"@, encoding::encoded(s)],
        ObjectId::MusicAlbum { artist, album } => seq![
            "mu"@,
            "album"@,
            encoding::encoded(artist),
            encoding::encoded(album),
        ],
        ObjectId::TvSeason { series, season } => seq![
            "tv"@,
            "ser"@,
            encoding::encoded(series),
            text::decimal(season as int),
        ],
        ObjectId::Dir { root_id, rel_dir } => if rel_dir.len() == 0 {
            seq!["dir"@, text::decimal(root_id as int)]
        } else {
            seq!["dir"@, text::decimal(root_id as int), encoding::encoded(rel_dir)]
        },
    }
}

/// A node's id.
pub open spec fn id_of(o: ObjectId<Seq<char>>) -> Seq<char> {
    text::joined(parts_of(o), ":"@)
}

/// A number, where a part is one.
pub open spec fn number(part: Seq<char>) -> Option<i64> {
    match text::integer_i64(part) {
        Some(n) => Some(n as i64),
        None => None,
    }
}

pub open spec fn mapped<T>(o: Option<T>, f: spec_fn(T) -> ObjectId<Seq<char>>) -> Option<
    ObjectId<Seq<char>>,
> {
    match o {
        Some(x) => Some(f(x)),
        None => None,
    }
}

/// The node that a list of parts identifies.
pub open spec fn named(p: Seq<Seq<char>>) -> Option<ObjectId<Seq<char>>> {
    if p.len() == 1 {
        one_part(p[0])
    } else if p.len() == 2 {
        two_parts(p[0], p[1])
    } else if p.len() == 3 {
        three_parts(p[0], p[1], p[2])
    } else if p.len() == 4 {
        four_parts(p[0], p[1], p[2], p[3])
    } else {
        None
    }
}

pub open spec fn view_of(o: Option<ObjectId>) -> Option<ObjectId<Seq<char>>> {
    match o {
        Some(o) => Some(o@),
        None => None,
    }
}

pub open spec fn one_part(a: Seq<char>) -> Option<ObjectId<Seq<char>>> {
    if a == "0"@ {
        Some(ObjectId::Root)
    } else if a == "mv"@ {
        Some(ObjectId::Movies)
    } else if a == "mu"@ {
        Some(ObjectId::Music)
    } else if a == "tv"@ {
        Some(ObjectId::Tv)
    } else {
        None
    }
}

pub open spec fn two_parts(a: Seq<char>, b: Seq<char>) -> Option<ObjectId<Seq<char>>> {
    if a == "mv"@ && b == "all"@ {
        Some(ObjectId::MoviesAll)
    } else if a == "mv"@ && b == "recent"@ {
        Some(ObjectId::MoviesRecent)
    } else if a == "mv"@ && b == "uhd"@ {
        Some(ObjectId::MoviesUhd)
    } else if a == "mv"@ && b == "year"@ {
        Some(ObjectId::MoviesByYear)
    } else if a == "mv"@ && b == "decade"@ {
        Some(ObjectId::MoviesByDecade)
    } else if a == "mv"@ && b == "genre"@ {
        Some(ObjectId::MoviesByGenre)
    } else if a == "mv"@ && b == "director"@ {
        Some(ObjectId::MoviesByDirector)
    } else if a == "mv"@ && b == "franchise"@ {
        Some(ObjectId::MoviesByFranchise)
    } else if a == "mv"@ && b == "rating"@ {
        Some(ObjectId::MoviesByRating)
    } else if a == "mv"@ && b == "dir"@ {
        Some(ObjectId::MoviesFolders)
    } else if a == "mu"@ && b == "recent"@ {
        Some(ObjectId::MusicRecent)
    } else if a == "mu"@ && b == "artist"@ {
        Some(ObjectId::MusicArtists)
    } else if a == "mu"@ && b == "album"@ {
        Some(ObjectId::MusicAlbums)
    } else if a == "mu"@ && b == "genre"@ {
        Some(ObjectId::MusicByGenre)
    } else if a == "mu"@ && b == "dir"@ {
        Some(ObjectId::MusicFolders)
    } else if a == "tv"@ && b == "recent"@ {
        Some(ObjectId::TvRecent)
    } else if a == "tv"@ && b == "uhd"@ {
        Some(ObjectId::TvUhd)
    } else if a == "tv"@ && b == "dir"@ {
        Some(ObjectId::TvFolders)
    } else if a == "dir"@ {
        mapped(number(b), |n: i64| ObjectId::Dir { root_id: n, rel_dir: seq![] })
    } else if a == "it"@ {
        mapped(number(b), |n: i64| ObjectId::Item(n))
    } else {
        None
    }
}

pub open spec fn three_parts(a: Seq<char>, b: Seq<char>, c: Seq<char>) -> Option<ObjectId<Seq<char>>> {
    if a == "mv"@ && b == "year"@ {
        mapped(number(c), |n: i64| ObjectId::MoviesYear(n))
    } else if a == "mv"@ && b == "decade"@ {
        mapped(number(c), |n: i64| ObjectId::MoviesDecade(n))
    } else if a == "mv"@ && b == "genre"@ {
        mapped(number(c), |n: i64| ObjectId::MoviesGenre(n))
    } else if a == "mv"@ && b == "director"@ {
        mapped(number(c), |n: i64| ObjectId::MoviesDirector(n))
    } else if a == "mu"@ && b == "genre"@ {
        mapped(number(c), |n: i64| ObjectId::MusicGenre(n))
    } else if a == "mv"@ && b == "rating"@ {
        mapped(text::integer_usize(c), |n: int| ObjectId::MoviesRating(n as usize))
    } else if a == "mv"@ && b == "franchise"@ {
        mapped(encoding::decoded(c), |s: Seq<char>| ObjectId::MoviesFranchise(s))
    } else if a == "mu"@ && b == "artist"@ {
        mapped(encoding::decoded(c), |s: Seq<char>| ObjectId::MusicArtist(s))
    } else if a == "tv"@ && b == "ser"@ {
        mapped(encoding::decoded(c), |s: Seq<char>| ObjectId::TvSeries(s))
    } else if a == "dir"@ {
        match (number(b), encoding::decoded(c)) {
            (Some(root_id), Some(rel_dir)) => Some(ObjectId::Dir { root_id, rel_dir }),
            _ => None,
        }
    } else {
        None
    }
}

pub open spec fn four_parts(a: Seq<char>, b: Seq<char>, c: Seq<char>, d: Seq<char>) -> Option<ObjectId<Seq<char>>> {
    if a == "mu"@ && b == "album"@ {
        match (encoding::decoded(c), encoding::decoded(d)) {
            (Some(artist), Some(album)) => Some(ObjectId::MusicAlbum { artist, album }),
            _ => None,
        }
    } else if a == "tv"@ && b == "ser"@ {
        match (encoding::decoded(c), number(d)) {
            (Some(series), Some(season)) => Some(ObjectId::TvSeason { series, season }),
            _ => None,
        }
    } else {
        None
    }
}

/// The node that an id identifies.
pub open spec fn parsed(id: Seq<char>) -> Option<ObjectId<Seq<char>>> {
    named(text::pieces(id, ':'))
}

fn empty() -> (r: String)
    ensures
        r@ == Seq::<char>::empty(),
{
    let s = String::new();
    assert(s@ =~= seq![]);
    s
}

fn name_one(a: &str) -> (r: Option<ObjectId>)
    ensures
        view_of(r) == one_part(a@),
{
    if text::same(a, "0") {
        Some(ObjectId::Root)
    } else if text::same(a, "mv") {
        Some(ObjectId::Movies)
    } else if text::same(a, "mu") {
        Some(ObjectId::Music)
    } else if text::same(a, "tv") {
        Some(ObjectId::Tv)
    } else {
        None
    }
}

fn name_two(a: &str, b: &str) -> (r: Option<ObjectId>)
    ensures
        view_of(r) == two_parts(a@, b@),
{
    if text::same(a, "mv") && text::same(b, "all") {
        Some(ObjectId::MoviesAll)
    } else if text::same(a, "mv") && text::same(b, "recent") {
        Some(ObjectId::MoviesRecent)
    } else if text::same(a, "mv") && text::same(b, "uhd") {
        Some(ObjectId::MoviesUhd)
    } else if text::same(a, "mv") && text::same(b, "year") {
        Some(ObjectId::MoviesByYear)
    } else if text::same(a, "mv") && text::same(b, "decade") {
        Some(ObjectId::MoviesByDecade)
    } else if text::same(a, "mv") && text::same(b, "genre") {
        Some(ObjectId::MoviesByGenre)
    } else if text::same(a, "mv") && text::same(b, "director") {
        Some(ObjectId::MoviesByDirector)
    } else if text::same(a, "mv") && text::same(b, "franchise") {
        Some(ObjectId::MoviesByFranchise)
    } else if text::same(a, "mv") && text::same(b, "rating") {
        Some(ObjectId::MoviesByRating)
    } else if text::same(a, "mv") && text::same(b, "dir") {
        Some(ObjectId::MoviesFolders)
    } else if text::same(a, "mu") && text::same(b, "recent") {
        Some(ObjectId::MusicRecent)
    } else if text::same(a, "mu") && text::same(b, "artist") {
        Some(ObjectId::MusicArtists)
    } else if text::same(a, "mu") && text::same(b, "album") {
        Some(ObjectId::MusicAlbums)
    } else if text::same(a, "mu") && text::same(b, "genre") {
        Some(ObjectId::MusicByGenre)
    } else if text::same(a, "mu") && text::same(b, "dir") {
        Some(ObjectId::MusicFolders)
    } else if text::same(a, "tv") && text::same(b, "recent") {
        Some(ObjectId::TvRecent)
    } else if text::same(a, "tv") && text::same(b, "uhd") {
        Some(ObjectId::TvUhd)
    } else if text::same(a, "tv") && text::same(b, "dir") {
        Some(ObjectId::TvFolders)
    } else if text::same(a, "dir") {
        match text::parse_i64(b) {
            Some(n) => Some(ObjectId::Dir { root_id: n, rel_dir: empty() }),
            None => None,
        }
    } else if text::same(a, "it") {
        match text::parse_i64(b) {
            Some(n) => Some(ObjectId::Item(n)),
            None => None,
        }
    } else {
        None
    }
}

fn name_three(a: &str, b: &str, c: &str) -> (r: Option<ObjectId>)
    ensures
        view_of(r) == three_parts(a@, b@, c@),
{
    if text::same(a, "mv") && text::same(b, "year") {
        match text::parse_i64(c) {
            Some(n) => Some(ObjectId::MoviesYear(n)),
            None => None,
        }
    } else if text::same(a, "mv") && text::same(b, "decade") {
        match text::parse_i64(c) {
            Some(n) => Some(ObjectId::MoviesDecade(n)),
            None => None,
        }
    } else if text::same(a, "mv") && text::same(b, "genre") {
        match text::parse_i64(c) {
            Some(n) => Some(ObjectId::MoviesGenre(n)),
            None => None,
        }
    } else if text::same(a, "mv") && text::same(b, "director") {
        match text::parse_i64(c) {
            Some(n) => Some(ObjectId::MoviesDirector(n)),
            None => None,
        }
    } else if text::same(a, "mu") && text::same(b, "genre") {
        match text::parse_i64(c) {
            Some(n) => Some(ObjectId::MusicGenre(n)),
            None => None,
        }
    } else if text::same(a, "mv") && text::same(b, "rating") {
        match text::parse_usize(c) {
            Some(n) => Some(ObjectId::MoviesRating(n)),
            None => None,
        }
    } else if text::same(a, "mv") && text::same(b, "franchise") {
        match encoding::dec(c) {
            Some(s) => Some(ObjectId::MoviesFranchise(s)),
            None => None,
        }
    } else if text::same(a, "mu") && text::same(b, "artist") {
        match encoding::dec(c) {
            Some(s) => Some(ObjectId::MusicArtist(s)),
            None => None,
        }
    } else if text::same(a, "tv") && text::same(b, "ser") {
        match encoding::dec(c) {
            Some(s) => Some(ObjectId::TvSeries(s)),
            None => None,
        }
    } else if text::same(a, "dir") {
        match (text::parse_i64(b), encoding::dec(c)) {
            (Some(root_id), Some(rel_dir)) => Some(ObjectId::Dir { root_id, rel_dir }),
            _ => None,
        }
    } else {
        None
    }
}

fn name_four(a: &str, b: &str, c: &str, d: &str) -> (r: Option<ObjectId>)
    ensures
        view_of(r) == four_parts(a@, b@, c@, d@),
{
    if text::same(a, "mu") && text::same(b, "album") {
        match (encoding::dec(c), encoding::dec(d)) {
            (Some(artist), Some(album)) => Some(ObjectId::MusicAlbum { artist, album }),
            _ => None,
        }
    } else if text::same(a, "tv") && text::same(b, "ser") {
        match (encoding::dec(c), text::parse_i64(d)) {
            (Some(series), Some(season)) => Some(ObjectId::TvSeason { series, season }),
            _ => None,
        }
    } else {
        None
    }
}

fn joined1(a: &str) -> (r: String)
    ensures
        r@ == text::joined(seq![a@], ":"@),
{
    a.to_owned()
}

fn joined2(a: &str, b: &str) -> (r: String)
    ensures
        r@ == text::joined(seq![a@, b@], ":"@),
{
    let mut out = joined1(a);
    out.push_str(":");
    out.push_str(b);
    assert(seq![a@, b@].drop_last() =~= seq![a@]);
    out
}

fn joined3(a: &str, b: &str, c: &str) -> (r: String)
    ensures
        r@ == text::joined(seq![a@, b@, c@], ":"@),
{
    let mut out = joined2(a, b);
    out.push_str(":");
    out.push_str(c);
    assert(seq![a@, b@, c@].drop_last() =~= seq![a@, b@]);
    out
}

fn joined4(a: &str, b: &str, c: &str, d: &str) -> (r: String)
    ensures
        r@ == text::joined(seq![a@, b@, c@, d@], ":"@),
{
    let mut out = joined3(a, b, c);
    out.push_str(":");
    out.push_str(d);
    assert(seq![a@, b@, c@, d@].drop_last() =~= seq![a@, b@, c@]);
    out
}

fn numbered(a: &str, b: &str, n: i64) -> (r: String)
    ensures
        r@ == text::joined(seq![a@, b@, text::decimal(n as int)], ":"@),
{
    let n = text::dec(n);
    joined3(a, b, n.as_str())
}

impl ObjectId<String> {
    pub fn to_id(&self) -> (r: String)
        ensures
            r@ == id_of(self@),
    {
        match self {
            ObjectId::Root => joined1("0"),
            ObjectId::Movies => joined1("mv"),
            ObjectId::MoviesAll => joined2("mv", "all"),
            ObjectId::MoviesRecent => joined2("mv", "recent"),
            ObjectId::MoviesUhd => joined2("mv", "uhd"),
            ObjectId::MoviesByYear => joined2("mv", "year"),
            ObjectId::MoviesByDecade => joined2("mv", "decade"),
            ObjectId::MoviesByGenre => joined2("mv", "genre"),
            ObjectId::MoviesByDirector => joined2("mv", "director"),
            ObjectId::MoviesByFranchise => joined2("mv", "franchise"),
            ObjectId::MoviesByRating => joined2("mv", "rating"),
            ObjectId::MoviesFolders => joined2("mv", "dir"),
            ObjectId::Music => joined1("mu"),
            ObjectId::MusicRecent => joined2("mu", "recent"),
            ObjectId::MusicArtists => joined2("mu", "artist"),
            ObjectId::MusicAlbums => joined2("mu", "album"),
            ObjectId::MusicByGenre => joined2("mu", "genre"),
            ObjectId::MusicFolders => joined2("mu", "dir"),
            ObjectId::Tv => joined1("tv"),
            ObjectId::TvRecent => joined2("tv", "recent"),
            ObjectId::TvUhd => joined2("tv", "uhd"),
            ObjectId::TvFolders => joined2("tv", "dir"),
            ObjectId::MoviesYear(n) => numbered("mv", "year", *n),
            ObjectId::MoviesDecade(n) => numbered("mv", "decade", *n),
            ObjectId::MoviesGenre(n) => numbered("mv", "genre", *n),
            ObjectId::MoviesDirector(n) => numbered("mv", "director", *n),
            ObjectId::MusicGenre(n) => numbered("mu", "genre", *n),
            ObjectId::Item(n) => {
                let n = text::dec(*n);
                joined2("it", n.as_str())
            },
            ObjectId::MoviesRating(n) => {
                let n = text::dec_usize(*n);
                joined3("mv", "rating", n.as_str())
            },
            ObjectId::MoviesFranchise(s) => {
                let s = encoding::enc(s.as_str());
                joined3("mv", "franchise", s.as_str())
            },
            ObjectId::MusicArtist(s) => {
                let s = encoding::enc(s.as_str());
                joined3("mu", "artist", s.as_str())
            },
            ObjectId::TvSeries(s) => {
                let s = encoding::enc(s.as_str());
                joined3("tv", "ser", s.as_str())
            },
            ObjectId::MusicAlbum { artist, album } => {
                let artist = encoding::enc(artist.as_str());
                let album = encoding::enc(album.as_str());
                joined4("mu", "album", artist.as_str(), album.as_str())
            },
            ObjectId::TvSeason { series, season } => {
                let series = encoding::enc(series.as_str());
                let season = text::dec(*season);
                joined4("tv", "ser", series.as_str(), season.as_str())
            },
            ObjectId::Dir { root_id, rel_dir } => {
                let root = text::dec(*root_id);
                if rel_dir.as_str().is_empty() {
                    joined2("dir", root.as_str())
                } else {
                    let rel = encoding::enc(rel_dir.as_str());
                    joined3("dir", root.as_str(), rel.as_str())
                }
            },
        }
    }

    pub fn parse(id: &str) -> (r: Option<ObjectId>)
        ensures
            view_of(r) == parsed(id@),
    {
        let p = text::split(id, ':');
        let ghost ps = text::texts(p@);
        assert(ps.len() == p@.len());
        if p.len() == 1 {
            name_one(p[0].as_str())
        } else if p.len() == 2 {
            name_two(p[0].as_str(), p[1].as_str())
        } else if p.len() == 3 {
            name_three(p[0].as_str(), p[1].as_str(), p[2].as_str())
        } else if p.len() == 4 {
            name_four(p[0].as_str(), p[1].as_str(), p[2].as_str(), p[3].as_str())
        } else {
            None
        }
    }
}

// -------------------------------------------------------------------- laws

proof fn lemma_lacks()
    ensures
        text::lacks("0"@, ':'),
        text::lacks("album"@, ':'),
        text::lacks("all"@, ':'),
        text::lacks("artist"@, ':'),
        text::lacks("decade"@, ':'),
        text::lacks("dir"@, ':'),
        text::lacks("director"@, ':'),
        text::lacks("franchise"@, ':'),
        text::lacks("genre"@, ':'),
        text::lacks("it"@, ':'),
        text::lacks("mu"@, ':'),
        text::lacks("mv"@, ':'),
        text::lacks("rating"@, ':'),
        text::lacks("recent"@, ':'),
        text::lacks("ser"@, ':'),
        text::lacks("tv"@, ':'),
        text::lacks("uhd"@, ':'),
        text::lacks("year"@, ':'),
{
    reveal_strlit("0");
    reveal_strlit("album");
    reveal_strlit("all");
    reveal_strlit("artist");
    reveal_strlit("decade");
    reveal_strlit("dir");
    reveal_strlit("director");
    reveal_strlit("franchise");
    reveal_strlit("genre");
    reveal_strlit("it");
    reveal_strlit("mu");
    reveal_strlit("mv");
    reveal_strlit("rating");
    reveal_strlit("recent");
    reveal_strlit("ser");
    reveal_strlit("tv");
    reveal_strlit("uhd");
    reveal_strlit("year");
}

proof fn lemma_firsts()
    ensures
        "0"@ != "dir"@,
        "0"@ != "it"@,
        "0"@ != "mu"@,
        "0"@ != "mv"@,
        "0"@ != "tv"@,
        "dir"@ != "it"@,
        "dir"@ != "mu"@,
        "dir"@ != "mv"@,
        "dir"@ != "tv"@,
        "it"@ != "mu"@,
        "it"@ != "mv"@,
        "it"@ != "tv"@,
        "mu"@ != "mv"@,
        "mu"@ != "tv"@,
        "mv"@ != "tv"@,
{
    reveal_strlit("0");
    assert("0"@.len() == 1);
    reveal_strlit("dir");
    assert("dir"@.len() == 3);
    reveal_strlit("it");
    assert("it"@.len() == 2);
    reveal_strlit("mu");
    assert("mu"@.len() == 2);
    reveal_strlit("mv");
    assert("mv"@.len() == 2);
    reveal_strlit("tv");
    assert("tv"@.len() == 2);
    assert("it"@[0] != "mu"@[0]);
    assert("it"@[0] != "mv"@[0]);
    assert("it"@[0] != "tv"@[0]);
    assert("mu"@[1] != "mv"@[1]);
    assert("mu"@[0] != "tv"@[0]);
    assert("mv"@[0] != "tv"@[0]);
}

proof fn lemma_seconds()
    ensures
        "album"@ != "all"@,
        "album"@ != "artist"@,
        "album"@ != "decade"@,
        "album"@ != "dir"@,
        "album"@ != "director"@,
        "album"@ != "franchise"@,
        "album"@ != "genre"@,
        "album"@ != "rating"@,
        "album"@ != "recent"@,
        "album"@ != "ser"@,
        "album"@ != "uhd"@,
        "album"@ != "year"@,
        "all"@ != "artist"@,
        "all"@ != "decade"@,
        "all"@ != "dir"@,
        "all"@ != "director"@,
        "all"@ != "franchise"@,
        "all"@ != "genre"@,
        "all"@ != "rating"@,
        "all"@ != "recent"@,
        "all"@ != "ser"@,
        "all"@ != "uhd"@,
        "all"@ != "year"@,
        "artist"@ != "decade"@,
        "artist"@ != "dir"@,
        "artist"@ != "director"@,
        "artist"@ != "franchise"@,
        "artist"@ != "genre"@,
        "artist"@ != "rating"@,
        "artist"@ != "recent"@,
        "artist"@ != "ser"@,
        "artist"@ != "uhd"@,
        "artist"@ != "year"@,
        "decade"@ != "dir"@,
        "decade"@ != "director"@,
        "decade"@ != "franchise"@,
        "decade"@ != "genre"@,
        "decade"@ != "rating"@,
        "decade"@ != "recent"@,
        "decade"@ != "ser"@,
        "decade"@ != "uhd"@,
        "decade"@ != "year"@,
        "dir"@ != "director"@,
        "dir"@ != "franchise"@,
        "dir"@ != "genre"@,
        "dir"@ != "rating"@,
        "dir"@ != "recent"@,
        "dir"@ != "ser"@,
        "dir"@ != "uhd"@,
        "dir"@ != "year"@,
        "director"@ != "franchise"@,
        "director"@ != "genre"@,
        "director"@ != "rating"@,
        "director"@ != "recent"@,
        "director"@ != "ser"@,
        "director"@ != "uhd"@,
        "director"@ != "year"@,
        "franchise"@ != "genre"@,
        "franchise"@ != "rating"@,
        "franchise"@ != "recent"@,
        "franchise"@ != "ser"@,
        "franchise"@ != "uhd"@,
        "franchise"@ != "year"@,
        "genre"@ != "rating"@,
        "genre"@ != "recent"@,
        "genre"@ != "ser"@,
        "genre"@ != "uhd"@,
        "genre"@ != "year"@,
        "rating"@ != "recent"@,
        "rating"@ != "ser"@,
        "rating"@ != "uhd"@,
        "rating"@ != "year"@,
        "recent"@ != "ser"@,
        "recent"@ != "uhd"@,
        "recent"@ != "year"@,
        "ser"@ != "uhd"@,
        "ser"@ != "year"@,
        "uhd"@ != "year"@,
{
    reveal_strlit("album");
    assert("album"@.len() == 5);
    reveal_strlit("all");
    assert("all"@.len() == 3);
    reveal_strlit("artist");
    assert("artist"@.len() == 6);
    reveal_strlit("decade");
    assert("decade"@.len() == 6);
    reveal_strlit("dir");
    assert("dir"@.len() == 3);
    reveal_strlit("director");
    assert("director"@.len() == 8);
    reveal_strlit("franchise");
    assert("franchise"@.len() == 9);
    reveal_strlit("genre");
    assert("genre"@.len() == 5);
    reveal_strlit("rating");
    assert("rating"@.len() == 6);
    reveal_strlit("recent");
    assert("recent"@.len() == 6);
    reveal_strlit("ser");
    assert("ser"@.len() == 3);
    reveal_strlit("uhd");
    assert("uhd"@.len() == 3);
    reveal_strlit("year");
    assert("year"@.len() == 4);
    assert("album"@[0] != "genre"@[0]);
    assert("all"@[0] != "dir"@[0]);
    assert("all"@[0] != "ser"@[0]);
    assert("all"@[0] != "uhd"@[0]);
    assert("artist"@[0] != "decade"@[0]);
    assert("artist"@[0] != "rating"@[0]);
    assert("artist"@[0] != "recent"@[0]);
    assert("decade"@[0] != "rating"@[0]);
    assert("decade"@[0] != "recent"@[0]);
    assert("dir"@[0] != "ser"@[0]);
    assert("dir"@[0] != "uhd"@[0]);
    assert("rating"@[1] != "recent"@[1]);
    assert("ser"@[0] != "uhd"@[0]);
}

proof fn lemma_part(s: Seq<char>)
    ensures
        text::lacks(encoding::encoded(s), ':'),
{
    encoding::encodings_are_safe(vstd::utf8::encode_utf8(s));
}

proof fn lemma_parts(o: ObjectId<Seq<char>>)
    ensures
        parts_of(o).len() > 0,
        forall|i: int| 0 <= i < parts_of(o).len() ==> text::lacks(#[trigger] parts_of(o)[i], ':'),
{
    lemma_lacks();
    match o {
        ObjectId::MoviesYear(n) => text::decimals_are_plain(n as int, ':'),
        ObjectId::MoviesDecade(n) => text::decimals_are_plain(n as int, ':'),
        ObjectId::MoviesGenre(n) => text::decimals_are_plain(n as int, ':'),
        ObjectId::MoviesDirector(n) => text::decimals_are_plain(n as int, ':'),
        ObjectId::MusicGenre(n) => text::decimals_are_plain(n as int, ':'),
        ObjectId::Item(n) => text::decimals_are_plain(n as int, ':'),
        ObjectId::MoviesRating(n) => text::decimals_are_plain(n as int, ':'),
        ObjectId::MoviesFranchise(s) => lemma_part(s),
        ObjectId::MusicArtist(s) => lemma_part(s),
        ObjectId::TvSeries(s) => lemma_part(s),
        ObjectId::MusicAlbum { artist, album } => {
            lemma_part(artist);
            lemma_part(album);
        },
        ObjectId::TvSeason { series, season } => {
            lemma_part(series);
            text::decimals_are_plain(season as int, ':');
        },
        ObjectId::Dir { root_id, rel_dir } => {
            lemma_part(rel_dir);
            text::decimals_are_plain(root_id as int, ':');
        },
        _ => {},
    }
}

proof fn lemma_pairs()
    ensures
        two_parts("mv"@, "all"@) == Some(ObjectId::<Seq<char>>::MoviesAll),
        two_parts("mv"@, "recent"@) == Some(ObjectId::<Seq<char>>::MoviesRecent),
        two_parts("mv"@, "uhd"@) == Some(ObjectId::<Seq<char>>::MoviesUhd),
        two_parts("mv"@, "year"@) == Some(ObjectId::<Seq<char>>::MoviesByYear),
        two_parts("mv"@, "decade"@) == Some(ObjectId::<Seq<char>>::MoviesByDecade),
        two_parts("mv"@, "genre"@) == Some(ObjectId::<Seq<char>>::MoviesByGenre),
        two_parts("mv"@, "director"@) == Some(ObjectId::<Seq<char>>::MoviesByDirector),
        two_parts("mv"@, "franchise"@) == Some(ObjectId::<Seq<char>>::MoviesByFranchise),
        two_parts("mv"@, "rating"@) == Some(ObjectId::<Seq<char>>::MoviesByRating),
        two_parts("mv"@, "dir"@) == Some(ObjectId::<Seq<char>>::MoviesFolders),
        two_parts("mu"@, "recent"@) == Some(ObjectId::<Seq<char>>::MusicRecent),
        two_parts("mu"@, "artist"@) == Some(ObjectId::<Seq<char>>::MusicArtists),
        two_parts("mu"@, "album"@) == Some(ObjectId::<Seq<char>>::MusicAlbums),
        two_parts("mu"@, "genre"@) == Some(ObjectId::<Seq<char>>::MusicByGenre),
        two_parts("mu"@, "dir"@) == Some(ObjectId::<Seq<char>>::MusicFolders),
        two_parts("tv"@, "recent"@) == Some(ObjectId::<Seq<char>>::TvRecent),
        two_parts("tv"@, "uhd"@) == Some(ObjectId::<Seq<char>>::TvUhd),
        two_parts("tv"@, "dir"@) == Some(ObjectId::<Seq<char>>::TvFolders),
{
    lemma_firsts();
    lemma_seconds();
}

proof fn lemma_movies_year(x: i64)
    ensures
        three_parts("mv"@, "year"@, text::decimal(x as int)) == Some(ObjectId::<Seq<char>>::MoviesYear(x)),
{
    lemma_firsts();
    lemma_seconds();
    lemma_number(x);
}

proof fn lemma_movies_decade(x: i64)
    ensures
        three_parts("mv"@, "decade"@, text::decimal(x as int)) == Some(ObjectId::<Seq<char>>::MoviesDecade(x)),
{
    lemma_firsts();
    lemma_seconds();
    lemma_number(x);
}

proof fn lemma_movies_genre(x: i64)
    ensures
        three_parts("mv"@, "genre"@, text::decimal(x as int)) == Some(ObjectId::<Seq<char>>::MoviesGenre(x)),
{
    lemma_firsts();
    lemma_seconds();
    lemma_number(x);
}

proof fn lemma_movies_director(x: i64)
    ensures
        three_parts("mv"@, "director"@, text::decimal(x as int)) == Some(ObjectId::<Seq<char>>::MoviesDirector(x)),
{
    lemma_firsts();
    lemma_seconds();
    lemma_number(x);
}

proof fn lemma_music_genre(x: i64)
    ensures
        three_parts("mu"@, "genre"@, text::decimal(x as int)) == Some(ObjectId::<Seq<char>>::MusicGenre(x)),
{
    lemma_firsts();
    lemma_seconds();
    lemma_number(x);
}

proof fn lemma_movies_rating(x: usize)
    ensures
        three_parts("mv"@, "rating"@, text::decimal(x as int)) == Some(ObjectId::<Seq<char>>::MoviesRating(x)),
{
    lemma_firsts();
    lemma_seconds();
    lemma_index(x);
}

proof fn lemma_movies_franchise(x: Seq<char>)
    ensures
        three_parts("mv"@, "franchise"@, encoding::encoded(x)) == Some(ObjectId::<Seq<char>>::MoviesFranchise(x)),
{
    lemma_firsts();
    lemma_seconds();
    encoding::decoding_undoes_encoding(x);
}

proof fn lemma_music_artist(x: Seq<char>)
    ensures
        three_parts("mu"@, "artist"@, encoding::encoded(x)) == Some(ObjectId::<Seq<char>>::MusicArtist(x)),
{
    lemma_firsts();
    lemma_seconds();
    encoding::decoding_undoes_encoding(x);
}

proof fn lemma_tv_series(x: Seq<char>)
    ensures
        three_parts("tv"@, "ser"@, encoding::encoded(x)) == Some(ObjectId::<Seq<char>>::TvSeries(x)),
{
    lemma_firsts();
    lemma_seconds();
    encoding::decoding_undoes_encoding(x);
}

proof fn lemma_named(o: ObjectId<Seq<char>>)
    ensures
        named(parts_of(o)) == Some(o),
{
    let p = parts_of(o);
    if p.len() == 1 {
        lemma_firsts();
    } else if p.len() == 2 {
        match o {
            ObjectId::Item(n) => {
                lemma_firsts();
                lemma_number(n);
            },
            ObjectId::Dir { root_id, rel_dir } => {
                lemma_firsts();
                lemma_number(root_id);
                assert(rel_dir =~= seq![]);
            },
            _ => lemma_pairs(),
        }
    } else if p.len() == 3 {
        match o {
            ObjectId::MoviesYear(x) => lemma_movies_year(x),
            ObjectId::MoviesDecade(x) => lemma_movies_decade(x),
            ObjectId::MoviesGenre(x) => lemma_movies_genre(x),
            ObjectId::MoviesDirector(x) => lemma_movies_director(x),
            ObjectId::MusicGenre(x) => lemma_music_genre(x),
            ObjectId::MoviesRating(x) => lemma_movies_rating(x),
            ObjectId::MoviesFranchise(x) => lemma_movies_franchise(x),
            ObjectId::MusicArtist(x) => lemma_music_artist(x),
            ObjectId::TvSeries(x) => lemma_tv_series(x),
            ObjectId::Dir { root_id, rel_dir } => {
                lemma_firsts();
                lemma_number(root_id);
                encoding::decoding_undoes_encoding(rel_dir);
            },
            _ => {},
        }
    } else {
        lemma_firsts();
        match o {
            ObjectId::MusicAlbum { artist, album } => {
                encoding::decoding_undoes_encoding(artist);
                encoding::decoding_undoes_encoding(album);
            },
            ObjectId::TvSeason { series, season } => {
                encoding::decoding_undoes_encoding(series);
                lemma_number(season);
            },
            _ => {},
        }
    }
}

/// Parsing a node's id gives back the node.
pub proof fn ids_round_trip(o: ObjectId<Seq<char>>)
    ensures
        parsed(id_of(o)) == Some(o),
{
    reveal_strlit(":");
    assert(":"@ =~= seq![':']);
    lemma_parts(o);
    text::splitting_undoes_joining(parts_of(o), ':', ":"@);
    lemma_named(o);
}

proof fn lemma_number(n: i64)
    ensures
        number(text::decimal(n as int)) == Some(n),
{
    text::decimal_round_trip(n as int);
}

proof fn lemma_index(n: usize)
    ensures
        text::integer_usize(text::decimal(n as int)) == Some(n as int),
{
    text::decimal_round_trip(n as int);
    text::lemma_nat_digits(n as int);
}

/// No two nodes have one id.
pub proof fn ids_are_distinct(a: ObjectId<Seq<char>>, b: ObjectId<Seq<char>>)
    requires
        id_of(a) == id_of(b),
    ensures
        a == b,
{
    ids_round_trip(a);
    ids_round_trip(b);
}

} // verus!
