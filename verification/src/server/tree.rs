//! The content tree: the children of each container, and each node itself.
use vstd::prelude::*;
use crate::db::models::{BrowseItem, MediaKind, Root};
use crate::lists;
use crate::server::objectid::{id_of, ObjectId};
use crate::text;

verus! {

pub const CLASS_FOLDER: &'static str = "object.container.storageFolder";

pub const CLASS_MOVIE_GENRE: &'static str = "object.container.genre.movieGenre";

pub const CLASS_MUSIC_GENRE: &'static str = "object.container.genre.musicGenre";

pub const CLASS_ARTIST: &'static str = "object.container.person.musicArtist";

pub const CLASS_PERSON: &'static str = "object.container.person";

pub const CLASS_ALBUM: &'static str = "object.container.album.musicAlbum";

/// By Rating buckets, by label; the last one holds the unrated.
pub const RATING_BUCKETS: [&'static str; 5] = [
    "9 and above",
    "8 – 9",
    "7 – 8",
    "6 – 7",
    "Below 6",
];

/// The bounds of the rating buckets in tenths: lo <= rating < hi.
pub const RATING_BOUNDS: [(i64, i64); 5] = [(90, 101), (80, 90), (70, 80), (60, 70), (0, 60)];

/// One DIDL-Lite entry, fully resolved (ids as strings, parent included).
#[derive(Debug)]
pub enum Entry {
    Container {
        id: String,
        parent: String,
        title: String,
        class: &'static str,
        /// A file id whose /art/{id} image decorates this container.
        art_item: Option<i64>,
    },
    Item {
        id: String,
        parent: String,
        item: BrowseItem,
    },
}

/// An item but for its title.
pub open spec fn untitled(item: BrowseItem) -> BrowseItem {
    BrowseItem { title: arbitrary(), ..item }
}

#[verifier::ext_equal]
pub enum EntryView {
    Container {
        id: Seq<char>,
        parent: Seq<char>,
        title: Seq<char>,
        class: Seq<char>,
        art_item: Option<i64>,
    },
    Item {
        id: Seq<char>,
        parent: Seq<char>,
        title: Seq<char>,
        item: BrowseItem,
    },
}

impl View for Entry {
    type V = EntryView;

    open spec fn view(&self) -> EntryView {
        match *self {
            Entry::Container { id, parent, title, class, art_item } => EntryView::Container {
                id: id@,
                parent: parent@,
                title: title@,
                class: class@,
                art_item,
            },
            Entry::Item { id, parent, item } => EntryView::Item {
                id: id@,
                parent: parent@,
                title: item.title@,
                item: untitled(item),
            },
        }
    }
}

pub open spec fn entry_views(v: Seq<Entry>) -> Seq<EntryView> {
    Seq::new(v.len(), |i: int| v[i]@)
}

pub type Node = ObjectId<Seq<char>>;

pub open spec fn boxed(
    id: Node,
    parent: Node,
    title: Seq<char>,
    class: Seq<char>,
    art_item: Option<i64>,
) -> EntryView {
    EntryView::Container { id: id_of(id), parent: id_of(parent), title, class, art_item }
}

/// A plain folder.
pub open spec fn folder(id: Node, parent: Node, title: Seq<char>) -> EntryView {
    boxed(id, parent, title, CLASS_FOLDER@, None)
}

fn container(
    id: &ObjectId,
    parent: &ObjectId,
    title: &str,
    class: &'static str,
    art_item: Option<i64>,
) -> (r: Entry)
    ensures
        r@ == boxed(id@, parent@, title@, class@, art_item),
{
    Entry::Container {
        id: id.to_id(),
        parent: parent.to_id(),
        title: title.to_owned(),
        class,
        art_item,
    }
}

fn push(out: &mut Vec<Entry>, e: Entry)
    ensures
        entry_views(final(out)@) == entry_views(old(out)@).push(e@),
{
    let ghost before = out@;
    out.push(e);
    assert(entry_views(out@) =~= entry_views(before).push(e@));
}

fn push_folder(out: &mut Vec<Entry>, id: &ObjectId, parent: &ObjectId, title: &str)
    ensures
        entry_views(final(out)@) == entry_views(old(out)@).push(folder(id@, parent@, title@)),
{
    let e = container(id, parent, title, CLASS_FOLDER, None);
    push(out, e);
}

// ------------------------------------------------------------------- titles

/// The last component of a root's path.
pub open spec fn root_name(path: Seq<char>) -> Seq<char> {
    match text::rcut_once(path, "/"@) {
        Some((_, name)) => name,
        None => path,
    }
}

pub fn root_title(path: &str) -> (r: String)
    ensures
        r@ == root_name(path@),
{
    match text::rsplit_once(path, "/") {
        Some((_, name)) => name,
        None => path.to_owned(),
    }
}

pub open spec fn season_name(season: int) -> Seq<char> {
    if season == 0 {
        "Specials"@
    } else {
        "Season "@ + text::decimal(season)
    }
}

pub fn season_title(season: i64) -> (r: String)
    ensures
        r@ == season_name(season as int),
{
    if season == 0 {
        "Specials".to_owned()
    } else {
        let mut out = "Season ".to_owned();
        let n = text::dec(season);
        out.push_str(n.as_str());
        out
    }
}

pub open spec fn bucket_name(bucket: int) -> Seq<char> {
    if 0 <= bucket < RATING_BUCKETS@.len() {
        RATING_BUCKETS@[bucket]@
    } else {
        "Unrated"@
    }
}

pub fn rating_bucket_title(bucket: usize) -> (r: String)
    ensures
        r@ == bucket_name(bucket as int),
{
    if bucket < RATING_BUCKETS.len() {
        RATING_BUCKETS[bucket].to_owned()
    } else {
        "Unrated".to_owned()
    }
}

/// An episode away from its season: "Series SxxEyy - Title".
pub open spec fn qualified_episode(item: BrowseItem) -> Seq<char> {
    match (item.series, item.season, item.episode) {
        (Some(series), Some(season), Some(episode)) => series@ + " S"@ + text::padded(
            season as int,
            2,
        ) + "E"@ + text::padded(episode as int, 2) + " - "@ + item.title@,
        (Some(series), _, _) => series@ + " - "@ + item.title@,
        _ => item.title@,
    }
}

/// An episode's title where its series and season are not in sight.
pub fn recent_tv_title(item: &BrowseItem) -> (r: String)
    ensures
        r@ == qualified_episode(*item),
{
    match (&item.series, item.season, item.episode) {
        (Some(series), Some(season), Some(episode)) => {
            let mut out = series.clone();
            out.push_str(" S");
            let s = text::dec_padded(season, 2);
            out.push_str(s.as_str());
            out.push_str("E");
            let e = text::dec_padded(episode, 2);
            out.push_str(e.as_str());
            out.push_str(" - ");
            out.push_str(item.title.as_str());
            out
        },
        (Some(series), _, _) => {
            let mut out = series.clone();
            out.push_str(" - ");
            out.push_str(item.title.as_str());
            out
        },
        _ => item.title.clone(),
    }
}

/// A track away from its album: "Artist - Title".
pub open spec fn qualified_track(item: BrowseItem) -> Seq<char> {
    match item.artist {
        Some(artist) => artist@ + " - "@ + item.title@,
        None => item.title@,
    }
}

/// A track's title where its artist is not in sight.
pub fn recent_track_title(item: &BrowseItem) -> (r: String)
    ensures
        r@ == qualified_track(*item),
{
    match &item.artist {
        Some(artist) => {
            let mut out = artist.clone();
            out.push_str(" - ");
            out.push_str(item.title.as_str());
            out
        },
        None => item.title.clone(),
    }
}

/// How a listing dresses the titles of its items.
#[derive(Debug, Clone, Copy, PartialEq, Eq, Structural)]
pub enum Dress {
    Plain,
    /// The score in front (DIDL has no widely-supported rating field, so it
    /// rides in the display name).
    Rating,
    /// The episode's number in front.
    Episode,
    /// Series and number, or artist, in front.
    Qualified,
}

/// The title that a listing shows.
pub open spec fn dressed(item: BrowseItem, dress: Dress) -> Seq<char> {
    match dress {
        Dress::Plain => item.title@,
        Dress::Rating => match item.rating {
            Some(score) => score.label@ + " · "@ + item.title@,
            None => item.title@,
        },
        Dress::Episode => match item.episode {
            Some(n) => text::padded(n as int, 2) + " - "@ + item.title@,
            None => item.title@,
        },
        Dress::Qualified => if item.kind == MediaKind::Music {
            qualified_track(item)
        } else {
            qualified_episode(item)
        },
    }
}

fn dress_up(item: &BrowseItem, dress: Dress) -> (r: String)
    ensures
        r@ == dressed(*item, dress),
{
    match dress {
        Dress::Plain => item.title.clone(),
        Dress::Rating => match &item.rating {
            Some(score) => {
                let mut out = score.label.clone();
                out.push_str(" · ");
                out.push_str(item.title.as_str());
                out
            },
            None => item.title.clone(),
        },
        Dress::Episode => match item.episode {
            Some(n) => {
                let mut out = text::dec_padded(n, 2);
                out.push_str(" - ");
                out.push_str(item.title.as_str());
                out
            },
            None => item.title.clone(),
        },
        Dress::Qualified => if item.kind == MediaKind::Music {
            recent_track_title(item)
        } else {
            recent_tv_title(item)
        },
    }
}

pub open spec fn item_view(parent: Node, item: BrowseItem, dress: Dress) -> EntryView {
    EntryView::Item {
        id: id_of(ObjectId::Item(item.file_id)),
        parent: id_of(parent),
        title: dressed(item, dress),
        item: untitled(item),
    }
}

pub open spec fn item_views(parent: Node, list: Seq<BrowseItem>, dress: Dress) -> Seq<EntryView> {
    Seq::new(list.len(), |i: int| item_view(parent, list[i], dress))
}

fn items(out: &mut Vec<Entry>, parent: &ObjectId, list: Vec<BrowseItem>, dress: Dress)
    ensures
        entry_views(final(out)@) == entry_views(old(out)@) + item_views(parent@, list@, dress),
{
    let ghost all = list@;
    let ghost goal = item_views(parent@, all, dress);
    let mut rest = lists::reversed(list);
    assert(entry_views(out@) =~= entry_views(old(out)@) + goal.take(0));
    while rest.len() > 0
        invariant
            rest@.len() <= all.len(),
            goal == item_views(parent@, all, dress),
            rest@ == all.reverse().take(rest@.len() as int),
            entry_views(out@) == entry_views(old(out)@) + goal.take(all.len() - rest@.len()),
        decreases rest.len(),
    {
        let ghost n: int = rest@.len() as int;
        assert(rest@.last() == all[all.len() - n]);
        match rest.pop() {
            Some(item) => {
                assert(rest@ =~= all.reverse().take(n - 1));
                let mut item = item;
                let ghost was = item;
                item.title = dress_up(&item, dress);
                let e = Entry::Item {
                    id: ObjectId::<String>::Item(item.file_id).to_id(),
                    parent: parent.to_id(),
                    item,
                };
                assert(e@ == item_view(parent@, was, dress));
                push(out, e);
                assert(entry_views(out@) =~= entry_views(old(out)@) + goal.take(
                    all.len() - (n - 1),
                ));
            },
            None => {},
        }
    }
    assert(goal.take(all.len() as int) =~= goal);
}

// --------------------------------------------------------------------- rows

/// What the catalog holds for a container's listing.
#[derive(Debug)]
pub enum Rows {
    Nothing,
    Roots(Vec<Root>),
    Items(Vec<BrowseItem>),
    /// Years, decades or seasons.
    Numbers(Vec<i64>),
    /// Genres or directors.
    Named(Vec<(i64, String)>),
    /// Artists or franchises.
    Names(Vec<String>),
    /// An artist's albums, or series, each with a file whose artwork it shows.
    Arted(Vec<(String, Option<i64>)>),
    /// Albums, each with its artist and such a file.
    Albums(Vec<(String, String, Option<i64>)>),
    /// What is in a directory: its subdirectories, and its files.
    Folder(Vec<String>, Vec<BrowseItem>),
}

pub open spec fn year_views(parent: Node, rows: Seq<i64>) -> Seq<EntryView> {
    Seq::new(rows.len(), |i: int| folder(ObjectId::MoviesYear(rows[i]), parent, text::decimal(rows[i] as int)))
}

fn years(out: &mut Vec<Entry>, parent: &ObjectId, rows: &Vec<i64>)
    ensures
        entry_views(final(out)@) == entry_views(old(out)@) + year_views(parent@, rows@),
{
    let ghost goal = year_views(parent@, rows@);
    let mut i: usize = 0;
    assert(entry_views(out@) =~= entry_views(old(out)@) + goal.take(0));
    while i < rows.len()
        invariant
            i <= rows.len(),
            goal == year_views(parent@, rows@),
            entry_views(out@) == entry_views(old(out)@) + goal.take(i as int),
        decreases rows.len() - i,
    {
        let row = &rows[i];
        let title = text::dec(*row);
        let id: ObjectId = ObjectId::MoviesYear(*row);
        let e = container(&id, parent, title.as_str(), CLASS_FOLDER, None);
        assert(e@ == goal[i as int]);
        push(out, e);
        i += 1;
        assert(entry_views(out@) =~= entry_views(old(out)@) + goal.take(i as int));
    }
    assert(goal.take(i as int) =~= goal);
}

pub open spec fn decade_views(parent: Node, rows: Seq<i64>) -> Seq<EntryView> {
    Seq::new(rows.len(), |i: int| folder(ObjectId::MoviesDecade(rows[i]), parent, text::decimal(rows[i] as int)
        + "s"@))
}

fn decades(out: &mut Vec<Entry>, parent: &ObjectId, rows: &Vec<i64>)
    ensures
        entry_views(final(out)@) == entry_views(old(out)@) + decade_views(parent@, rows@),
{
    let ghost goal = decade_views(parent@, rows@);
    let mut i: usize = 0;
    assert(entry_views(out@) =~= entry_views(old(out)@) + goal.take(0));
    while i < rows.len()
        invariant
            i <= rows.len(),
            goal == decade_views(parent@, rows@),
            entry_views(out@) == entry_views(old(out)@) + goal.take(i as int),
        decreases rows.len() - i,
    {
        let row = &rows[i];
        let mut title = text::dec(*row);
        title.push_str("s");
        let id: ObjectId = ObjectId::MoviesDecade(*row);
        let e = container(&id, parent, title.as_str(), CLASS_FOLDER, None);
        assert(e@ == goal[i as int]);
        push(out, e);
        i += 1;
        assert(entry_views(out@) =~= entry_views(old(out)@) + goal.take(i as int));
    }
    assert(goal.take(i as int) =~= goal);
}

pub open spec fn season_views(parent: Node, series: Seq<char>, rows: Seq<i64>) -> Seq<EntryView> {
    Seq::new(rows.len(), |i: int| folder(ObjectId::TvSeason { series, season: rows[i] }, parent, season_name(rows[i] as int)))
}

fn seasons(out: &mut Vec<Entry>, parent: &ObjectId, series: &String, rows: &Vec<i64>)
    ensures
        entry_views(final(out)@) == entry_views(old(out)@) + season_views(parent@, series@, rows@),
{
    let ghost goal = season_views(parent@, series@, rows@);
    let mut i: usize = 0;
    assert(entry_views(out@) =~= entry_views(old(out)@) + goal.take(0));
    while i < rows.len()
        invariant
            i <= rows.len(),
            goal == season_views(parent@, series@, rows@),
            entry_views(out@) == entry_views(old(out)@) + goal.take(i as int),
        decreases rows.len() - i,
    {
        let row = &rows[i];
        let title = season_title(*row);
        let id: ObjectId = ObjectId::TvSeason { series: series.clone(), season: *row };
        let e = container(&id, parent, title.as_str(), CLASS_FOLDER, None);
        assert(e@ == goal[i as int]);
        push(out, e);
        i += 1;
        assert(entry_views(out@) =~= entry_views(old(out)@) + goal.take(i as int));
    }
    assert(goal.take(i as int) =~= goal);
}

pub open spec fn movie_genre_views(parent: Node, rows: Seq<(i64, String)>) -> Seq<EntryView> {
    Seq::new(rows.len(), |i: int| boxed(ObjectId::MoviesGenre(rows[i].0), parent, rows[i].1@, CLASS_MOVIE_GENRE@, None))
}

fn movie_genres(out: &mut Vec<Entry>, parent: &ObjectId, rows: &Vec<(i64, String)>)
    ensures
        entry_views(final(out)@) == entry_views(old(out)@) + movie_genre_views(parent@, rows@),
{
    let ghost goal = movie_genre_views(parent@, rows@);
    let mut i: usize = 0;
    assert(entry_views(out@) =~= entry_views(old(out)@) + goal.take(0));
    while i < rows.len()
        invariant
            i <= rows.len(),
            goal == movie_genre_views(parent@, rows@),
            entry_views(out@) == entry_views(old(out)@) + goal.take(i as int),
        decreases rows.len() - i,
    {
        let row = &rows[i];
        let id: ObjectId = ObjectId::MoviesGenre(row.0);
        let e = container(&id, parent, row.1.as_str(), CLASS_MOVIE_GENRE, None);
        assert(e@ == goal[i as int]);
        push(out, e);
        i += 1;
        assert(entry_views(out@) =~= entry_views(old(out)@) + goal.take(i as int));
    }
    assert(goal.take(i as int) =~= goal);
}

pub open spec fn director_views(parent: Node, rows: Seq<(i64, String)>) -> Seq<EntryView> {
    Seq::new(rows.len(), |i: int| boxed(ObjectId::MoviesDirector(rows[i].0), parent, rows[i].1@, CLASS_PERSON@, None))
}

fn directors(out: &mut Vec<Entry>, parent: &ObjectId, rows: &Vec<(i64, String)>)
    ensures
        entry_views(final(out)@) == entry_views(old(out)@) + director_views(parent@, rows@),
{
    let ghost goal = director_views(parent@, rows@);
    let mut i: usize = 0;
    assert(entry_views(out@) =~= entry_views(old(out)@) + goal.take(0));
    while i < rows.len()
        invariant
            i <= rows.len(),
            goal == director_views(parent@, rows@),
            entry_views(out@) == entry_views(old(out)@) + goal.take(i as int),
        decreases rows.len() - i,
    {
        let row = &rows[i];
        let id: ObjectId = ObjectId::MoviesDirector(row.0);
        let e = container(&id, parent, row.1.as_str(), CLASS_PERSON, None);
        assert(e@ == goal[i as int]);
        push(out, e);
        i += 1;
        assert(entry_views(out@) =~= entry_views(old(out)@) + goal.take(i as int));
    }
    assert(goal.take(i as int) =~= goal);
}

pub open spec fn music_genre_views(parent: Node, rows: Seq<(i64, String)>) -> Seq<EntryView> {
    Seq::new(rows.len(), |i: int| boxed(ObjectId::MusicGenre(rows[i].0), parent, rows[i].1@, CLASS_MUSIC_GENRE@, None))
}

fn music_genres(out: &mut Vec<Entry>, parent: &ObjectId, rows: &Vec<(i64, String)>)
    ensures
        entry_views(final(out)@) == entry_views(old(out)@) + music_genre_views(parent@, rows@),
{
    let ghost goal = music_genre_views(parent@, rows@);
    let mut i: usize = 0;
    assert(entry_views(out@) =~= entry_views(old(out)@) + goal.take(0));
    while i < rows.len()
        invariant
            i <= rows.len(),
            goal == music_genre_views(parent@, rows@),
            entry_views(out@) == entry_views(old(out)@) + goal.take(i as int),
        decreases rows.len() - i,
    {
        let row = &rows[i];
        let id: ObjectId = ObjectId::MusicGenre(row.0);
        let e = container(&id, parent, row.1.as_str(), CLASS_MUSIC_GENRE, None);
        assert(e@ == goal[i as int]);
        push(out, e);
        i += 1;
        assert(entry_views(out@) =~= entry_views(old(out)@) + goal.take(i as int));
    }
    assert(goal.take(i as int) =~= goal);
}

pub open spec fn franchise_views(parent: Node, rows: Seq<String>) -> Seq<EntryView> {
    Seq::new(rows.len(), |i: int| boxed(ObjectId::MoviesFranchise(rows[i]@), parent, rows[i]@, CLASS_FOLDER@, None))
}

fn franchises(out: &mut Vec<Entry>, parent: &ObjectId, rows: &Vec<String>)
    ensures
        entry_views(final(out)@) == entry_views(old(out)@) + franchise_views(parent@, rows@),
{
    let ghost goal = franchise_views(parent@, rows@);
    let mut i: usize = 0;
    assert(entry_views(out@) =~= entry_views(old(out)@) + goal.take(0));
    while i < rows.len()
        invariant
            i <= rows.len(),
            goal == franchise_views(parent@, rows@),
            entry_views(out@) == entry_views(old(out)@) + goal.take(i as int),
        decreases rows.len() - i,
    {
        let row = &rows[i];
        let id: ObjectId = ObjectId::MoviesFranchise(row.clone());
        let e = container(&id, parent, row.as_str(), CLASS_FOLDER, None);
        assert(e@ == goal[i as int]);
        push(out, e);
        i += 1;
        assert(entry_views(out@) =~= entry_views(old(out)@) + goal.take(i as int));
    }
    assert(goal.take(i as int) =~= goal);
}

pub open spec fn artist_views(parent: Node, rows: Seq<String>) -> Seq<EntryView> {
    Seq::new(rows.len(), |i: int| boxed(ObjectId::MusicArtist(rows[i]@), parent, rows[i]@, CLASS_ARTIST@, None))
}

fn artists(out: &mut Vec<Entry>, parent: &ObjectId, rows: &Vec<String>)
    ensures
        entry_views(final(out)@) == entry_views(old(out)@) + artist_views(parent@, rows@),
{
    let ghost goal = artist_views(parent@, rows@);
    let mut i: usize = 0;
    assert(entry_views(out@) =~= entry_views(old(out)@) + goal.take(0));
    while i < rows.len()
        invariant
            i <= rows.len(),
            goal == artist_views(parent@, rows@),
            entry_views(out@) == entry_views(old(out)@) + goal.take(i as int),
        decreases rows.len() - i,
    {
        let row = &rows[i];
        let id: ObjectId = ObjectId::MusicArtist(row.clone());
        let e = container(&id, parent, row.as_str(), CLASS_ARTIST, None);
        assert(e@ == goal[i as int]);
        push(out, e);
        i += 1;
        assert(entry_views(out@) =~= entry_views(old(out)@) + goal.take(i as int));
    }
    assert(goal.take(i as int) =~= goal);
}

pub open spec fn artist_album_views(parent: Node, artist: Seq<char>, rows: Seq<(String, Option<i64>)>) -> Seq<EntryView> {
    Seq::new(rows.len(), |i: int| boxed(ObjectId::MusicAlbum { artist, album: rows[i].0@ }, parent, rows[i].0@, CLASS_ALBUM@, rows[i].1))
}

fn artist_albums(out: &mut Vec<Entry>, parent: &ObjectId, artist: &String, rows: &Vec<(String, Option<i64>)>)
    ensures
        entry_views(final(out)@) == entry_views(old(out)@) + artist_album_views(parent@, artist@, rows@),
{
    let ghost goal = artist_album_views(parent@, artist@, rows@);
    let mut i: usize = 0;
    assert(entry_views(out@) =~= entry_views(old(out)@) + goal.take(0));
    while i < rows.len()
        invariant
            i <= rows.len(),
            goal == artist_album_views(parent@, artist@, rows@),
            entry_views(out@) == entry_views(old(out)@) + goal.take(i as int),
        decreases rows.len() - i,
    {
        let row = &rows[i];
        let id: ObjectId = ObjectId::MusicAlbum { artist: artist.clone(), album: row.0.clone() };
        let e = container(&id, parent, row.0.as_str(), CLASS_ALBUM, row.1);
        assert(e@ == goal[i as int]);
        push(out, e);
        i += 1;
        assert(entry_views(out@) =~= entry_views(old(out)@) + goal.take(i as int));
    }
    assert(goal.take(i as int) =~= goal);
}

pub open spec fn album_views(parent: Node, rows: Seq<(String, String, Option<i64>)>) -> Seq<EntryView> {
    Seq::new(rows.len(), |i: int| boxed(ObjectId::MusicAlbum { artist: rows[i].0@, album: rows[i].1@ }, ObjectId::MusicArtist(rows[i].0@), rows[i].1@, CLASS_ALBUM@, rows[i].2))
}

fn albums(out: &mut Vec<Entry>, parent: &ObjectId, rows: &Vec<(String, String, Option<i64>)>)
    ensures
        entry_views(final(out)@) == entry_views(old(out)@) + album_views(parent@, rows@),
{
    let ghost goal = album_views(parent@, rows@);
    let mut i: usize = 0;
    assert(entry_views(out@) =~= entry_views(old(out)@) + goal.take(0));
    while i < rows.len()
        invariant
            i <= rows.len(),
            goal == album_views(parent@, rows@),
            entry_views(out@) == entry_views(old(out)@) + goal.take(i as int),
        decreases rows.len() - i,
    {
        let row = &rows[i];
        let id: ObjectId = ObjectId::MusicAlbum { artist: row.0.clone(), album: row.1.clone() };
        let artist: ObjectId = ObjectId::MusicArtist(row.0.clone());
        let e = container(&id, &artist, row.1.as_str(), CLASS_ALBUM, row.2);
        assert(e@ == goal[i as int]);
        push(out, e);
        i += 1;
        assert(entry_views(out@) =~= entry_views(old(out)@) + goal.take(i as int));
    }
    assert(goal.take(i as int) =~= goal);
}

pub open spec fn series_views(parent: Node, rows: Seq<(String, Option<i64>)>) -> Seq<EntryView> {
    Seq::new(rows.len(), |i: int| boxed(ObjectId::TvSeries(rows[i].0@), parent, rows[i].0@, CLASS_FOLDER@, rows[i].1))
}

fn series(out: &mut Vec<Entry>, parent: &ObjectId, rows: &Vec<(String, Option<i64>)>)
    ensures
        entry_views(final(out)@) == entry_views(old(out)@) + series_views(parent@, rows@),
{
    let ghost goal = series_views(parent@, rows@);
    let mut i: usize = 0;
    assert(entry_views(out@) =~= entry_views(old(out)@) + goal.take(0));
    while i < rows.len()
        invariant
            i <= rows.len(),
            goal == series_views(parent@, rows@),
            entry_views(out@) == entry_views(old(out)@) + goal.take(i as int),
        decreases rows.len() - i,
    {
        let row = &rows[i];
        let id: ObjectId = ObjectId::TvSeries(row.0.clone());
        let e = container(&id, parent, row.0.as_str(), CLASS_FOLDER, row.1);
        assert(e@ == goal[i as int]);
        push(out, e);
        i += 1;
        assert(entry_views(out@) =~= entry_views(old(out)@) + goal.take(i as int));
    }
    assert(goal.take(i as int) =~= goal);
}

pub open spec fn root_views(parent: Node, rows: Seq<Root>) -> Seq<EntryView> {
    Seq::new(rows.len(), |i: int| folder(ObjectId::Dir { root_id: rows[i].id, rel_dir: seq![] }, parent, root_name(rows[i].path@)))
}

fn folder_roots(out: &mut Vec<Entry>, parent: &ObjectId, rows: &Vec<Root>)
    ensures
        entry_views(final(out)@) == entry_views(old(out)@) + root_views(parent@, rows@),
{
    let ghost goal = root_views(parent@, rows@);
    let mut i: usize = 0;
    assert(entry_views(out@) =~= entry_views(old(out)@) + goal.take(0));
    while i < rows.len()
        invariant
            i <= rows.len(),
            goal == root_views(parent@, rows@),
            entry_views(out@) == entry_views(old(out)@) + goal.take(i as int),
        decreases rows.len() - i,
    {
        let row = &rows[i];
        let title = root_title(row.path.as_str());
        let rel_dir = String::new();
        assert(rel_dir@ =~= seq![]);
        let id: ObjectId = ObjectId::Dir { root_id: row.id, rel_dir };
        let e = container(&id, parent, title.as_str(), CLASS_FOLDER, None);
        assert(e@ == goal[i as int]);
        push(out, e);
        i += 1;
        assert(entry_views(out@) =~= entry_views(old(out)@) + goal.take(i as int));
    }
    assert(goal.take(i as int) =~= goal);
}

/// The path of a subdirectory.
pub open spec fn sub_of(dir: Seq<char>, name: Seq<char>) -> Seq<char> {
    if dir.len() == 0 {
        name
    } else {
        dir + "/"@ + name
    }
}

fn sub_path(dir: &str, name: &str) -> (r: String)
    ensures
        r@ == sub_of(dir@, name@),
{
    if dir.is_empty() {
        name.to_owned()
    } else {
        let mut out = dir.to_owned();
        out.push_str("/");
        out.push_str(name);
        out
    }
}

pub open spec fn subdir_views(parent: Node, root_id: i64, dir: Seq<char>, rows: Seq<String>) -> Seq<EntryView> {
    Seq::new(rows.len(), |i: int| folder(ObjectId::Dir { root_id, rel_dir: sub_of(dir, rows[i]@) }, parent, rows[i]@))
}

fn subdirs(out: &mut Vec<Entry>, parent: &ObjectId, root_id: i64, dir: &str, rows: &Vec<String>)
    ensures
        entry_views(final(out)@) == entry_views(old(out)@) + subdir_views(parent@, root_id, dir@, rows@),
{
    let ghost goal = subdir_views(parent@, root_id, dir@, rows@);
    let mut i: usize = 0;
    assert(entry_views(out@) =~= entry_views(old(out)@) + goal.take(0));
    while i < rows.len()
        invariant
            i <= rows.len(),
            goal == subdir_views(parent@, root_id, dir@, rows@),
            entry_views(out@) == entry_views(old(out)@) + goal.take(i as int),
        decreases rows.len() - i,
    {
        let row = &rows[i];
        let id: ObjectId = ObjectId::Dir { root_id, rel_dir: sub_path(dir, row.as_str()) };
        let e = container(&id, parent, row.as_str(), CLASS_FOLDER, None);
        assert(e@ == goal[i as int]);
        push(out, e);
        i += 1;
        assert(entry_views(out@) =~= entry_views(old(out)@) + goal.take(i as int));
    }
    assert(goal.take(i as int) =~= goal);
}

pub open spec fn holds_kind(roots: Seq<Root>, kind: MediaKind) -> bool {
    exists|i: int| 0 <= i < roots.len() && (#[trigger] roots[i]).kind == kind
}

fn any_of_kind(roots: &Vec<Root>, kind: MediaKind) -> (r: bool)
    ensures
        r == holds_kind(roots@, kind),
{
    let mut i: usize = 0;
    while i < roots.len()
        invariant
            i <= roots.len(),
            forall|k: int| 0 <= k < i ==> (#[trigger] roots@[k]).kind != kind,
        decreases roots.len() - i,
    {
        if roots[i].kind == kind {
            return true;
        }
        i += 1;
    }
    false
}

/// A section, where a root holds media of its kind.
pub open spec fn section(roots: Seq<Root>, kind: MediaKind, id: Node, title: Seq<char>) -> Seq<
    EntryView,
> {
    if holds_kind(roots, kind) {
        seq![folder(id, ObjectId::Root, title)]
    } else {
        seq![]
    }
}

pub open spec fn bucket_views(parent: Node) -> Seq<EntryView> {
    Seq::new(
        6,
        |i: int| folder(ObjectId::MoviesRating(i as usize), parent, bucket_name(i)),
    )
}

/// The children of a container, as the catalog's rows have them; none where
/// the rows are not those of such a container.
pub open spec fn children(o: Node, rows: Rows) -> Seq<EntryView> {
    match (o, rows) {
        (ObjectId::Root, Rows::Roots(rs)) => section(
            rs@,
            MediaKind::Movies,
            ObjectId::Movies,
            "Movies"@,
        ) + section(rs@, MediaKind::Music, ObjectId::Music, "Music"@) + section(
            rs@,
            MediaKind::Tv,
            ObjectId::Tv,
            "TV Shows"@,
        ),
        (ObjectId::Movies, _) => seq![
            folder(ObjectId::MoviesAll, o, "All Movies"@),
            folder(ObjectId::MoviesByYear, o, "By Year"@),
            folder(ObjectId::MoviesByGenre, o, "By Genre"@),
            folder(ObjectId::MoviesByDirector, o, "By Director"@),
            folder(ObjectId::MoviesByRating, o, "By Rating"@),
            folder(ObjectId::MoviesFolders, o, "Folders"@),
        ],
        (ObjectId::MoviesByYear, Rows::Numbers(rs)) => year_views(o, rs@),
        (ObjectId::MoviesByDecade, Rows::Numbers(rs)) => decade_views(o, rs@),
        (ObjectId::MoviesByGenre, Rows::Named(rs)) => movie_genre_views(o, rs@),
        (ObjectId::MoviesByDirector, Rows::Named(rs)) => director_views(o, rs@),
        (ObjectId::MoviesByFranchise, Rows::Names(rs)) => franchise_views(o, rs@),
        (ObjectId::MoviesByRating, _) => bucket_views(o),
        (ObjectId::MoviesRating(_), Rows::Items(rs)) => item_views(o, rs@, Dress::Rating),
        (ObjectId::Music, _) => seq![
            folder(ObjectId::MusicArtists, o, "Artists"@),
            folder(ObjectId::MusicAlbums, o, "Albums"@),
            folder(ObjectId::MusicByGenre, o, "Genres"@),
            folder(ObjectId::MusicFolders, o, "Folders"@),
        ],
        (ObjectId::MusicArtists, Rows::Names(rs)) => artist_views(o, rs@),
        (ObjectId::MusicArtist(artist), Rows::Arted(rs)) => artist_album_views(o, artist, rs@),
        (ObjectId::MusicAlbums, Rows::Albums(rs)) => album_views(o, rs@),
        (ObjectId::MusicByGenre, Rows::Named(rs)) => music_genre_views(o, rs@),
        (ObjectId::MusicRecent, Rows::Items(rs)) => item_views(o, rs@, Dress::Qualified),
        (ObjectId::Tv, Rows::Arted(rs)) => seq![folder(ObjectId::TvFolders, o, "Folders"@)]
            + series_views(o, rs@),
        (ObjectId::TvSeries(series), Rows::Numbers(rs)) => season_views(o, series, rs@),
        (ObjectId::TvSeason { .. }, Rows::Items(rs)) => item_views(o, rs@, Dress::Episode),
        (ObjectId::TvRecent, Rows::Items(rs)) => item_views(o, rs@, Dress::Qualified),
        (ObjectId::TvUhd, Rows::Items(rs)) => item_views(o, rs@, Dress::Qualified),
        (ObjectId::MoviesFolders, Rows::Roots(rs)) => root_views(o, rs@),
        (ObjectId::MusicFolders, Rows::Roots(rs)) => root_views(o, rs@),
        (ObjectId::TvFolders, Rows::Roots(rs)) => root_views(o, rs@),
        (ObjectId::Dir { root_id, rel_dir }, Rows::Folder(subs, files)) => subdir_views(
            o,
            root_id,
            rel_dir,
            subs@,
        ) + item_views(o, files@, Dress::Plain),
        (ObjectId::Item(_), _) => seq![],
        (_, Rows::Items(rs)) => if lists_items(o) {
            item_views(o, rs@, Dress::Plain)
        } else {
            seq![]
        },
        _ => seq![],
    }
}

/// The containers that list movies, albums or tracks as they are titled.
pub open spec fn lists_items(o: Node) -> bool {
    match o {
        ObjectId::MoviesAll => true,
        ObjectId::MoviesRecent => true,
        ObjectId::MoviesUhd => true,
        ObjectId::MoviesYear(_) => true,
        ObjectId::MoviesDecade(_) => true,
        ObjectId::MoviesGenre(_) => true,
        ObjectId::MoviesDirector(_) => true,
        ObjectId::MoviesFranchise(_) => true,
        ObjectId::MusicAlbum { .. } => true,
        ObjectId::MusicGenre(_) => true,
        _ => false,
    }
}

fn lists_plain_items(o: &ObjectId) -> (r: bool)
    ensures
        r == lists_items(o@),
{
    match o {
        ObjectId::MoviesAll => true,
        ObjectId::MoviesRecent => true,
        ObjectId::MoviesUhd => true,
        ObjectId::MoviesYear(_) => true,
        ObjectId::MoviesDecade(_) => true,
        ObjectId::MoviesGenre(_) => true,
        ObjectId::MoviesDirector(_) => true,
        ObjectId::MoviesFranchise(_) => true,
        ObjectId::MusicAlbum { .. } => true,
        ObjectId::MusicGenre(_) => true,
        _ => false,
    }
}

fn push_section(out: &mut Vec<Entry>, roots: &Vec<Root>, kind: MediaKind, id: &ObjectId, title: &str)
    ensures
        entry_views(final(out)@) == entry_views(old(out)@) + section(roots@, kind, id@, title@),
{
    if any_of_kind(roots, kind) {
        let root: ObjectId = ObjectId::Root;
        push_folder(out, id, &root, title);
        assert(entry_views(out@) =~= entry_views(old(out)@) + section(
            roots@,
            kind,
            id@,
            title@,
        ));
    } else {
        assert(entry_views(out@) =~= entry_views(old(out)@) + section(
            roots@,
            kind,
            id@,
            title@,
        ));
    }
}

fn sections(out: &mut Vec<Entry>, roots: &Vec<Root>)
    ensures
        entry_views(final(out)@) == entry_views(old(out)@) + section(
            roots@,
            MediaKind::Movies,
            ObjectId::Movies,
            "Movies"@,
        ) + section(roots@, MediaKind::Music, ObjectId::Music, "Music"@) + section(
            roots@,
            MediaKind::Tv,
            ObjectId::Tv,
            "TV Shows"@,
        ),
{
    let movies: ObjectId = ObjectId::Movies;
    push_section(out, roots, MediaKind::Movies, &movies, "Movies");
    let music: ObjectId = ObjectId::Music;
    push_section(out, roots, MediaKind::Music, &music, "Music");
    let tv: ObjectId = ObjectId::Tv;
    push_section(out, roots, MediaKind::Tv, &tv, "TV Shows");
}

fn buckets(out: &mut Vec<Entry>, parent: &ObjectId)
    ensures
        entry_views(final(out)@) == entry_views(old(out)@) + bucket_views(parent@),
{
    let ghost goal = bucket_views(parent@);
    let mut i: usize = 0;
    assert(entry_views(out@) =~= entry_views(old(out)@) + goal.take(0));
    while i < 6
        invariant
            i <= 6,
            goal == bucket_views(parent@),
            entry_views(out@) == entry_views(old(out)@) + goal.take(i as int),
        decreases 6 - i,
    {
        let id: ObjectId = ObjectId::MoviesRating(i);
        let title = rating_bucket_title(i);
        push_folder(out, &id, parent, title.as_str());
        i += 1;
        assert(entry_views(out@) =~= entry_views(old(out)@) + goal.take(i as int));
    }
    assert(goal.take(6) =~= goal);
}

fn movie_views(out: &mut Vec<Entry>, o: &ObjectId, rows: &Rows)
    requires
        old(out)@.len() == 0,
        o@ == ObjectId::<Seq<char>>::Movies,
    ensures
        entry_views(final(out)@) == children(o@, *rows),
{
    let all: ObjectId = ObjectId::MoviesAll;
    push_folder(out, &all, o, "All Movies");
    let year: ObjectId = ObjectId::MoviesByYear;
    push_folder(out, &year, o, "By Year");
    let genre: ObjectId = ObjectId::MoviesByGenre;
    push_folder(out, &genre, o, "By Genre");
    let director: ObjectId = ObjectId::MoviesByDirector;
    push_folder(out, &director, o, "By Director");
    let rating: ObjectId = ObjectId::MoviesByRating;
    push_folder(out, &rating, o, "By Rating");
    let folders: ObjectId = ObjectId::MoviesFolders;
    push_folder(out, &folders, o, "Folders");
    assert(entry_views(old(out)@) =~= seq![]);
    assert(entry_views(out@) =~= children(o@, *rows));
}

fn music_views(out: &mut Vec<Entry>, o: &ObjectId, rows: &Rows)
    requires
        old(out)@.len() == 0,
        o@ == ObjectId::<Seq<char>>::Music,
    ensures
        entry_views(final(out)@) == children(o@, *rows),
{
    let artists: ObjectId = ObjectId::MusicArtists;
    push_folder(out, &artists, o, "Artists");
    let albums: ObjectId = ObjectId::MusicAlbums;
    push_folder(out, &albums, o, "Albums");
    let genres: ObjectId = ObjectId::MusicByGenre;
    push_folder(out, &genres, o, "Genres");
    let folders: ObjectId = ObjectId::MusicFolders;
    push_folder(out, &folders, o, "Folders");
    assert(entry_views(old(out)@) =~= seq![]);
    assert(entry_views(out@) =~= children(o@, *rows));
}

/// Children of a container, for BrowseDirectChildren.
pub fn browse_children(oid: &ObjectId, rows: Rows) -> (r: Vec<Entry>)
    ensures
        entry_views(r@) == children(oid@, rows),
{
    let ghost all = rows;
    let mut out: Vec<Entry> = Vec::new();
    assert(entry_views(out@) =~= seq![]);
    match oid {
        ObjectId::Movies => {
            movie_views(&mut out, oid, &rows);
            return out;
        },
        ObjectId::Music => {
            music_views(&mut out, oid, &rows);
            return out;
        },
        ObjectId::MoviesByRating => {
            buckets(&mut out, oid);
            assert(entry_views(out@) =~= children(oid@, all));
            return out;
        },
        ObjectId::Item(_) => {
            return out;
        },
        _ => {},
    }
    match rows {
        Rows::Nothing => {},
        Rows::Roots(rs) => match oid {
            ObjectId::Root => sections(&mut out, &rs),
            ObjectId::MoviesFolders => folder_roots(&mut out, oid, &rs),
            ObjectId::MusicFolders => folder_roots(&mut out, oid, &rs),
            ObjectId::TvFolders => folder_roots(&mut out, oid, &rs),
            _ => {},
        },
        Rows::Items(rs) => match oid {
            ObjectId::MoviesRating(_) => items(&mut out, oid, rs, Dress::Rating),
            ObjectId::TvSeason { .. } => items(&mut out, oid, rs, Dress::Episode),
            ObjectId::MusicRecent => items(&mut out, oid, rs, Dress::Qualified),
            ObjectId::TvRecent => items(&mut out, oid, rs, Dress::Qualified),
            ObjectId::TvUhd => items(&mut out, oid, rs, Dress::Qualified),
            _ => {
                if lists_plain_items(oid) {
                    items(&mut out, oid, rs, Dress::Plain);
                }
            },
        },
        Rows::Numbers(rs) => match oid {
            ObjectId::MoviesByYear => years(&mut out, oid, &rs),
            ObjectId::MoviesByDecade => decades(&mut out, oid, &rs),
            ObjectId::TvSeries(s) => seasons(&mut out, oid, s, &rs),
            _ => {},
        },
        Rows::Named(rs) => match oid {
            ObjectId::MoviesByGenre => movie_genres(&mut out, oid, &rs),
            ObjectId::MoviesByDirector => directors(&mut out, oid, &rs),
            ObjectId::MusicByGenre => music_genres(&mut out, oid, &rs),
            _ => {},
        },
        Rows::Names(rs) => match oid {
            ObjectId::MoviesByFranchise => franchises(&mut out, oid, &rs),
            ObjectId::MusicArtists => artists(&mut out, oid, &rs),
            _ => {},
        },
        Rows::Arted(rs) => match oid {
            ObjectId::MusicArtist(artist) => artist_albums(&mut out, oid, artist, &rs),
            ObjectId::Tv => {
                let folders: ObjectId = ObjectId::TvFolders;
                push_folder(&mut out, &folders, oid, "Folders");
                assert(entry_views(out@) =~= seq![folder(
                    ObjectId::TvFolders,
                    oid@,
                    "Folders"@,
                )]);
                series(&mut out, oid, &rs)
            },
            _ => {},
        },
        Rows::Albums(rs) => match oid {
            ObjectId::MusicAlbums => albums(&mut out, oid, &rs),
            _ => {},
        },
        Rows::Folder(subs, files) => match oid {
            ObjectId::Dir { root_id, rel_dir } => {
                subdirs(&mut out, oid, *root_id, rel_dir.as_str(), &subs);
                items(&mut out, oid, files, Dress::Plain);
            },
            _ => {},
        },
    }
    assert(entry_views(out@) =~= children(oid@, all));
    out
}

// ----------------------------------------------------------------- metadata

/// What the catalog says of a node.
#[derive(Debug)]
pub enum Known {
    Nothing,
    /// The name of a genre or a director.
    Name(String),
    /// The root of a directory.
    Root(Root),
    /// An item, the root of its file, and the file's path in it.
    Item(BrowseItem, i64, String),
}

/// The catalog has no such genre, director, root or item.
#[derive(Debug, Clone, Copy, PartialEq, Eq, Structural)]
pub struct NoSuchNode;

/// The folders node of a media kind.
pub open spec fn folders_of(kind: MediaKind) -> Node {
    match kind {
        MediaKind::Movies => ObjectId::MoviesFolders,
        MediaKind::Music => ObjectId::MusicFolders,
        MediaKind::Tv => ObjectId::TvFolders,
    }
}

fn folders_node(kind: MediaKind) -> (r: ObjectId)
    ensures
        r@ == folders_of(kind),
{
    match kind {
        MediaKind::Movies => ObjectId::MoviesFolders,
        MediaKind::Music => ObjectId::MusicFolders,
        MediaKind::Tv => ObjectId::TvFolders,
    }
}

/// The directory that a path is in.
pub open spec fn dir_of(path: Seq<char>) -> Seq<char> {
    match text::rcut_once(path, "/"@) {
        Some((dir, _)) => dir,
        None => seq![],
    }
}

fn dir_in(path: &str) -> (r: String)
    ensures
        r@ == dir_of(path@),
{
    match text::rsplit_once(path, "/") {
        Some((dir, _)) => dir,
        None => {
            let s = String::new();
            assert(s@ =~= seq![]);
            s
        },
    }
}

/// A node that needs no catalog to be described: its parent and its title.
pub open spec fn fixed(o: Node) -> Option<(Node, Seq<char>)> {
    match o {
        ObjectId::Root => Some((ObjectId::Root, "Media"@)),
        ObjectId::Movies => Some((ObjectId::Root, "Movies"@)),
        ObjectId::MoviesAll => Some((ObjectId::Movies, "All Movies"@)),
        ObjectId::MoviesRecent => Some((ObjectId::Movies, "Recently Added"@)),
        ObjectId::MoviesUhd => Some((ObjectId::Movies, "4K"@)),
        ObjectId::MoviesByYear => Some((ObjectId::Movies, "By Year"@)),
        ObjectId::MoviesByDecade => Some((ObjectId::Movies, "By Decade"@)),
        ObjectId::MoviesByGenre => Some((ObjectId::Movies, "By Genre"@)),
        ObjectId::MoviesByDirector => Some((ObjectId::Movies, "By Director"@)),
        ObjectId::MoviesByFranchise => Some((ObjectId::Movies, "By Franchise"@)),
        ObjectId::MoviesByRating => Some((ObjectId::Movies, "By Rating"@)),
        ObjectId::MoviesFolders => Some((ObjectId::Movies, "Folders"@)),
        ObjectId::Music => Some((ObjectId::Root, "Music"@)),
        ObjectId::MusicRecent => Some((ObjectId::Music, "Recently Added"@)),
        ObjectId::MusicArtists => Some((ObjectId::Music, "Artists"@)),
        ObjectId::MusicAlbums => Some((ObjectId::Music, "Albums"@)),
        ObjectId::MusicByGenre => Some((ObjectId::Music, "Genres"@)),
        ObjectId::MusicFolders => Some((ObjectId::Music, "Folders"@)),
        ObjectId::Tv => Some((ObjectId::Root, "TV Shows"@)),
        ObjectId::TvRecent => Some((ObjectId::Tv, "Recently Added"@)),
        ObjectId::TvUhd => Some((ObjectId::Tv, "4K"@)),
        ObjectId::TvFolders => Some((ObjectId::Tv, "Folders"@)),
        _ => None,
    }
}

fn fixed_node(o: &ObjectId) -> (r: Option<(ObjectId, &'static str)>)
    ensures
        match r {
            Some((p, t)) => fixed(o@) == Some((p@, t@)),
            None => fixed(o@) is None,
        },
{
    match o {
        ObjectId::Root => Some((ObjectId::Root, "Media")),
        ObjectId::Movies => Some((ObjectId::Root, "Movies")),
        ObjectId::MoviesAll => Some((ObjectId::Movies, "All Movies")),
        ObjectId::MoviesRecent => Some((ObjectId::Movies, "Recently Added")),
        ObjectId::MoviesUhd => Some((ObjectId::Movies, "4K")),
        ObjectId::MoviesByYear => Some((ObjectId::Movies, "By Year")),
        ObjectId::MoviesByDecade => Some((ObjectId::Movies, "By Decade")),
        ObjectId::MoviesByGenre => Some((ObjectId::Movies, "By Genre")),
        ObjectId::MoviesByDirector => Some((ObjectId::Movies, "By Director")),
        ObjectId::MoviesByFranchise => Some((ObjectId::Movies, "By Franchise")),
        ObjectId::MoviesByRating => Some((ObjectId::Movies, "By Rating")),
        ObjectId::MoviesFolders => Some((ObjectId::Movies, "Folders")),
        ObjectId::Music => Some((ObjectId::Root, "Music")),
        ObjectId::MusicRecent => Some((ObjectId::Music, "Recently Added")),
        ObjectId::MusicArtists => Some((ObjectId::Music, "Artists")),
        ObjectId::MusicAlbums => Some((ObjectId::Music, "Albums")),
        ObjectId::MusicByGenre => Some((ObjectId::Music, "Genres")),
        ObjectId::MusicFolders => Some((ObjectId::Music, "Folders")),
        ObjectId::Tv => Some((ObjectId::Root, "TV Shows")),
        ObjectId::TvRecent => Some((ObjectId::Tv, "Recently Added")),
        ObjectId::TvUhd => Some((ObjectId::Tv, "4K")),
        ObjectId::TvFolders => Some((ObjectId::Tv, "Folders")),
        _ => None,
    }
}

/// A node itself, as the catalog knows it.
pub open spec fn described(o: Node, known: Known) -> Option<EntryView> {
    match fixed(o) {
        Some((parent, title)) => Some(folder(o, parent, title)),
        None => match (o, known) {
            (ObjectId::MoviesYear(y), _) => Some(
                folder(o, ObjectId::MoviesByYear, text::decimal(y as int)),
            ),
            (ObjectId::MoviesDecade(d), _) => Some(
                folder(o, ObjectId::MoviesByDecade, text::decimal(d as int) + "s"@),
            ),
            (ObjectId::MoviesGenre(_), Known::Name(n)) => Some(
                boxed(o, ObjectId::MoviesByGenre, n@, CLASS_MOVIE_GENRE@, None),
            ),
            (ObjectId::MoviesDirector(_), Known::Name(n)) => Some(
                boxed(o, ObjectId::MoviesByDirector, n@, CLASS_PERSON@, None),
            ),
            (ObjectId::MoviesFranchise(n), _) => Some(folder(o, ObjectId::MoviesByFranchise, n)),
            (ObjectId::MoviesRating(b), _) => Some(
                folder(o, ObjectId::MoviesByRating, bucket_name(b as int)),
            ),
            (ObjectId::MusicArtist(a), _) => Some(
                boxed(o, ObjectId::MusicArtists, a, CLASS_ARTIST@, None),
            ),
            (ObjectId::MusicAlbum { artist, album }, _) => Some(
                boxed(o, ObjectId::MusicArtist(artist), album, CLASS_ALBUM@, None),
            ),
            (ObjectId::MusicGenre(_), Known::Name(n)) => Some(
                boxed(o, ObjectId::MusicByGenre, n@, CLASS_MUSIC_GENRE@, None),
            ),
            (ObjectId::TvSeries(s), _) => Some(folder(o, ObjectId::Tv, s)),
            (ObjectId::TvSeason { series, season }, _) => Some(
                folder(o, ObjectId::TvSeries(series), season_name(season as int)),
            ),
            (ObjectId::Dir { root_id, rel_dir }, Known::Root(root)) => Some(
                if rel_dir.len() == 0 {
                    folder(o, folders_of(root.kind), root_name(root.path@))
                } else {
                    folder(
                        o,
                        ObjectId::Dir { root_id, rel_dir: dir_of(rel_dir) },
                        root_name(rel_dir),
                    )
                },
            ),
            (ObjectId::Item(_), Known::Item(item, root_id, path)) => Some(
                item_view(
                    ObjectId::Dir { root_id, rel_dir: dir_of(path@) },
                    item,
                    Dress::Plain,
                ),
            ),
            _ => None,
        },
    }
}

/// The object itself, for BrowseMetadata.
pub fn browse_metadata(oid: &ObjectId, known: Known) -> (r: Result<Entry, NoSuchNode>)
    ensures
        match r {
            Ok(e) => described(oid@, known) == Some(e@),
            Err(_) => described(oid@, known) is None,
        },
{
    if let Some((parent, title)) = fixed_node(oid) {
        return Ok(container(oid, &parent, title, CLASS_FOLDER, None));
    }
    match (oid, known) {
        (ObjectId::MoviesYear(y), _) => {
            let title = text::dec(*y);
            let parent: ObjectId = ObjectId::MoviesByYear;
            Ok(container(oid, &parent, title.as_str(), CLASS_FOLDER, None))
        },
        (ObjectId::MoviesDecade(d), _) => {
            let mut title = text::dec(*d);
            title.push_str("s");
            let parent: ObjectId = ObjectId::MoviesByDecade;
            Ok(container(oid, &parent, title.as_str(), CLASS_FOLDER, None))
        },
        (ObjectId::MoviesGenre(_), Known::Name(n)) => {
            let parent: ObjectId = ObjectId::MoviesByGenre;
            Ok(container(oid, &parent, n.as_str(), CLASS_MOVIE_GENRE, None))
        },
        (ObjectId::MoviesDirector(_), Known::Name(n)) => {
            let parent: ObjectId = ObjectId::MoviesByDirector;
            Ok(container(oid, &parent, n.as_str(), CLASS_PERSON, None))
        },
        (ObjectId::MoviesFranchise(n), _) => {
            let parent: ObjectId = ObjectId::MoviesByFranchise;
            Ok(container(oid, &parent, n.as_str(), CLASS_FOLDER, None))
        },
        (ObjectId::MoviesRating(b), _) => {
            let title = rating_bucket_title(*b);
            let parent: ObjectId = ObjectId::MoviesByRating;
            Ok(container(oid, &parent, title.as_str(), CLASS_FOLDER, None))
        },
        (ObjectId::MusicArtist(a), _) => {
            let parent: ObjectId = ObjectId::MusicArtists;
            Ok(container(oid, &parent, a.as_str(), CLASS_ARTIST, None))
        },
        (ObjectId::MusicAlbum { artist, album }, _) => {
            let parent: ObjectId = ObjectId::MusicArtist(artist.clone());
            Ok(container(oid, &parent, album.as_str(), CLASS_ALBUM, None))
        },
        (ObjectId::MusicGenre(_), Known::Name(n)) => {
            let parent: ObjectId = ObjectId::MusicByGenre;
            Ok(container(oid, &parent, n.as_str(), CLASS_MUSIC_GENRE, None))
        },
        (ObjectId::TvSeries(s), _) => {
            let parent: ObjectId = ObjectId::Tv;
            Ok(container(oid, &parent, s.as_str(), CLASS_FOLDER, None))
        },
        (ObjectId::TvSeason { series, season }, _) => {
            let parent: ObjectId = ObjectId::TvSeries(series.clone());
            let title = season_title(*season);
            Ok(container(oid, &parent, title.as_str(), CLASS_FOLDER, None))
        },
        (ObjectId::Dir { root_id, rel_dir }, Known::Root(root)) => {
            if rel_dir.as_str().is_empty() {
                let parent = folders_node(root.kind);
                let title = root_title(root.path.as_str());
                Ok(container(oid, &parent, title.as_str(), CLASS_FOLDER, None))
            } else {
                let parent: ObjectId = ObjectId::Dir {
                    root_id: *root_id,
                    rel_dir: dir_in(rel_dir.as_str()),
                };
                let title = root_title(rel_dir.as_str());
                Ok(container(oid, &parent, title.as_str(), CLASS_FOLDER, None))
            }
        },
        (ObjectId::Item(_), Known::Item(item, root_id, path)) => {
            let parent: ObjectId = ObjectId::Dir { root_id, rel_dir: dir_in(path.as_str()) };
            Ok(
                Entry::Item {
                    id: ObjectId::<String>::Item(item.file_id).to_id(),
                    parent: parent.to_id(),
                    item,
                },
            )
        },
        _ => Err(NoSuchNode),
    }
}

/// Items as entries of a container, in their order.
pub fn entries_for(parent: &ObjectId, list: Vec<BrowseItem>) -> (r: Vec<Entry>)
    ensures
        entry_views(r@) == item_views(parent@, list@, Dress::Plain),
{
    let mut out: Vec<Entry> = Vec::new();
    let ghost goal = item_views(parent@, list@, Dress::Plain);
    assert(entry_views(out@) =~= seq![]);
    items(&mut out, parent, list, Dress::Plain);
    assert(entry_views(out@) =~= goal);
    out
}

// -------------------------------------------------------------------- laws

pub open spec fn parent_id(e: EntryView) -> Seq<char> {
    match e {
        EntryView::Container { parent, .. } => parent,
        EntryView::Item { parent, .. } => parent,
    }
}

/// What a container lists names the container as its parent; but for the
/// albums of all artists, each of which is its artist's.
pub proof fn children_name_their_parent(o: Node, rows: Rows, i: int)
    requires
        0 <= i < children(o, rows).len(),
        o != ObjectId::<Seq<char>>::MusicAlbums,
    ensures
        parent_id(children(o, rows)[i]) == id_of(o),
{
    match (o, rows) {
        (ObjectId::Root, Rows::Roots(rs)) => {
            let a = section(rs@, MediaKind::Movies, ObjectId::Movies, "Movies"@);
            let b = section(rs@, MediaKind::Music, ObjectId::Music, "Music"@);
            let c = section(rs@, MediaKind::Tv, ObjectId::Tv, "TV Shows"@);
            if i < a.len() {
                assert(children(o, rows)[i] == a[i]);
            } else if i < a.len() + b.len() {
                assert(children(o, rows)[i] == b[i - a.len()]);
            } else {
                assert(children(o, rows)[i] == c[i - a.len() - b.len()]);
            }
        },
        (ObjectId::Tv, Rows::Arted(rs)) => {
            if i > 0 {
                assert(children(o, rows)[i] == series_views(o, rs@)[i - 1]);
            }
        },
        (ObjectId::Dir { root_id, rel_dir }, Rows::Folder(subs, files)) => {
            let a = subdir_views(o, root_id, rel_dir, subs@);
            if i < a.len() {
                assert(children(o, rows)[i] == a[i]);
            } else {
                assert(children(o, rows)[i] == item_views(o, files@, Dress::Plain)[i - a.len()]);
            }
        },
        _ => {},
    }
}

/// A directory that a folder lists is in that folder, by its own account.
pub proof fn directories_stay_in_place(root_id: i64, dir: Seq<char>, name: Seq<char>, root: Root)
    requires
        name.len() > 0,
        text::lacks(name, '/'),
    ensures
        described(
            ObjectId::Dir { root_id, rel_dir: sub_of(dir, name) },
            Known::Root(root),
        ) == Some(
            folder(
                ObjectId::Dir { root_id, rel_dir: sub_of(dir, name) },
                ObjectId::Dir { root_id, rel_dir: dir },
                name,
            ),
        ),
{
    reveal_strlit("/");
    let path = sub_of(dir, name);
    if dir.len() == 0 {
        assert(dir =~= seq![]);
        assert(text::rcut_once(path, "/"@) is None) by {
            assert forall|i: int| !text::occurs_at(path, "/"@, i) by {
                if text::occurs_at(path, "/"@, i) {
                    assert(path.subrange(i, i + 1)[0] == path[i]);
                    assert(path[i] != '/');
                }
            }
        }
    } else {
        let i = dir.len() as int;
        assert(text::occurs_at(path, "/"@, i)) by {
            assert(path.subrange(i, i + 1) =~= "/"@);
        }
        assert forall|j: int| i < j implies !text::occurs_at(path, "/"@, j) by {
            if text::occurs_at(path, "/"@, j) {
                assert(path.subrange(j, j + 1)[0] == path[j]);
                assert(path[j] == name[j - i - 1]);
            }
        }
        text::lemma_rcut_once(path, "/"@, i);
        assert(path.take(i) =~= dir);
        assert(path.skip(i + 1) =~= name);
    }
}

/// What a container lists is what each node says of itself.
pub proof fn listings_agree_with_nodes(
    o: Node,
    numbers: Vec<i64>,
    names: Vec<String>,
    series: Seq<char>,
    i: int,
)
    ensures
        0 <= i < numbers@.len() ==> {
            &&& Some(children(ObjectId::MoviesByYear, Rows::Numbers(numbers))[i]) == described(
                ObjectId::MoviesYear(numbers@[i]),
                Known::Nothing,
            )
            &&& Some(children(ObjectId::MoviesByDecade, Rows::Numbers(numbers))[i]) == described(
                ObjectId::MoviesDecade(numbers@[i]),
                Known::Nothing,
            )
            &&& Some(children(ObjectId::TvSeries(series), Rows::Numbers(numbers))[i])
                == described(ObjectId::TvSeason { series, season: numbers@[i] }, Known::Nothing)
        },
        0 <= i < names@.len() ==> {
            &&& Some(children(ObjectId::MoviesByFranchise, Rows::Names(names))[i]) == described(
                ObjectId::MoviesFranchise(names@[i]@),
                Known::Nothing,
            )
            &&& Some(children(ObjectId::MusicArtists, Rows::Names(names))[i]) == described(
                ObjectId::MusicArtist(names@[i]@),
                Known::Nothing,
            )
        },
        0 <= i < 6 ==> Some(children(ObjectId::MoviesByRating, Rows::Nothing)[i]) == described(
            ObjectId::MoviesRating(i as usize),
            Known::Nothing,
        ),
{
}

/// Genres and directors are listed as they describe themselves, under the
/// names that the catalog has for them.
pub proof fn named_rows_agree_with_nodes(rows: Vec<(i64, String)>, i: int)
    requires
        0 <= i < rows@.len(),
    ensures
        Some(children(ObjectId::MoviesByGenre, Rows::Named(rows))[i]) == described(
            ObjectId::MoviesGenre(rows@[i].0),
            Known::Name(rows@[i].1),
        ),
        Some(children(ObjectId::MoviesByDirector, Rows::Named(rows))[i]) == described(
            ObjectId::MoviesDirector(rows@[i].0),
            Known::Name(rows@[i].1),
        ),
        Some(children(ObjectId::MusicByGenre, Rows::Named(rows))[i]) == described(
            ObjectId::MusicGenre(rows@[i].0),
            Known::Name(rows@[i].1),
        ),
{
}

/// A fixed node that a fixed container lists describes itself as it is listed.
pub open spec fn listed_as_described(e: EntryView, n: Node) -> bool {
    fixed(n) is Some && described(n, Known::Nothing) == Some(e)
}

/// The views of movies and music, and the sections at the top, are nodes that
/// describe themselves as they are listed.
pub proof fn fixed_listings_agree_with_nodes(roots: Vec<Root>, i: int)
    ensures
        children(ObjectId::Movies, Rows::Nothing).len() == 6,
        children(ObjectId::Music, Rows::Nothing).len() == 4,
        0 <= i < 6 ==> exists|n: Node|
            #[trigger] listed_as_described(children(ObjectId::Movies, Rows::Nothing)[i], n)
                && fixed(n)->Some_0.0 == ObjectId::<Seq<char>>::Movies,
        0 <= i < 4 ==> exists|n: Node|
            #[trigger] listed_as_described(children(ObjectId::Music, Rows::Nothing)[i], n)
                && fixed(n)->Some_0.0 == ObjectId::<Seq<char>>::Music,
{
    let m = children(ObjectId::Movies, Rows::Nothing);
    assert(listed_as_described(m[0], ObjectId::MoviesAll));
    assert(listed_as_described(m[1], ObjectId::MoviesByYear));
    assert(listed_as_described(m[2], ObjectId::MoviesByGenre));
    assert(listed_as_described(m[3], ObjectId::MoviesByDirector));
    assert(listed_as_described(m[4], ObjectId::MoviesByRating));
    assert(listed_as_described(m[5], ObjectId::MoviesFolders));
    let u = children(ObjectId::Music, Rows::Nothing);
    assert(listed_as_described(u[0], ObjectId::MusicArtists));
    assert(listed_as_described(u[1], ObjectId::MusicAlbums));
    assert(listed_as_described(u[2], ObjectId::MusicByGenre));
    assert(listed_as_described(u[3], ObjectId::MusicFolders));
}

/// A section stands at the top where, and only where, a root holds media of
/// its kind; movies come first, then music, then TV shows.
pub proof fn sections_are_those_with_media(roots: Vec<Root>)
    ensures
        ({
            let top = children(ObjectId::Root, Rows::Roots(roots));
            let movies = exists|i: int|
                0 <= i < roots@.len() && (#[trigger] roots@[i]).kind == MediaKind::Movies;
            let music = exists|i: int|
                0 <= i < roots@.len() && (#[trigger] roots@[i]).kind == MediaKind::Music;
            let tv = exists|i: int|
                0 <= i < roots@.len() && (#[trigger] roots@[i]).kind == MediaKind::Tv;
            &&& top.len() == (if movies {
                1int
            } else {
                0
            }) + (if music {
                1int
            } else {
                0
            }) + (if tv {
                1int
            } else {
                0
            })
            &&& movies ==> Some(top[0]) == described(ObjectId::Movies, Known::Nothing)
            &&& tv ==> Some(top.last()) == described(ObjectId::Tv, Known::Nothing)
            &&& music ==> Some(
                top[if movies {
                    1
                } else {
                    0
                }],
            ) == described(ObjectId::Music, Known::Nothing)
        }),
{
}

pub open spec fn shown_title(e: EntryView) -> Seq<char> {
    match e {
        EntryView::Container { title, .. } => title,
        EntryView::Item { title, .. } => title,
    }
}

/// Titles are dressed where a listing calls for it: with the number of the
/// episode in its season, with the rating where films are listed by it, with
/// series and number or the artist where those are out of sight; everywhere
/// else they stand as they are.
pub proof fn titles_are_dressed_for_their_listing(
    items: Vec<BrowseItem>,
    series: Seq<char>,
    season: i64,
    bucket: usize,
    year: i64,
    i: int,
)
    requires
        0 <= i < items@.len(),
    ensures
        ({
            let item = items@[i];
            let rows = Rows::Items(items);
            &&& item.episode is Some ==> shown_title(
                children(ObjectId::TvSeason { series, season }, rows)[i],
            ) == text::padded(item.episode->Some_0 as int, 2) + " - "@ + item.title@
            &&& item.episode is None ==> shown_title(
                children(ObjectId::TvSeason { series, season }, rows)[i],
            ) == item.title@
            &&& item.rating is Some ==> shown_title(
                children(ObjectId::MoviesRating(bucket), rows)[i],
            ) == item.rating->Some_0.label@ + " · "@ + item.title@
            &&& item.rating is None ==> shown_title(
                children(ObjectId::MoviesRating(bucket), rows)[i],
            ) == item.title@
            &&& item.kind == MediaKind::Tv && item.series is Some && item.season is Some
                && item.episode is Some ==> {
                let name = item.series->Some_0@ + " S"@ + text::padded(
                    item.season->Some_0 as int,
                    2,
                ) + "E"@ + text::padded(item.episode->Some_0 as int, 2) + " - "@ + item.title@;
                &&& shown_title(children(ObjectId::TvRecent, rows)[i]) == name
                &&& shown_title(children(ObjectId::TvUhd, rows)[i]) == name
            }
            &&& item.kind == MediaKind::Music && item.artist is Some ==> shown_title(
                children(ObjectId::MusicRecent, rows)[i],
            ) == item.artist->Some_0@ + " - "@ + item.title@
            &&& shown_title(children(ObjectId::MoviesAll, rows)[i]) == item.title@
            &&& shown_title(children(ObjectId::MoviesYear(year), rows)[i]) == item.title@
            &&& shown_title(children(ObjectId::MoviesRecent, rows)[i]) == item.title@
            &&& shown_title(children(ObjectId::MoviesGenre(year), rows)[i]) == item.title@
        }),
{
}

/// Every rating up to ten falls into one bucket, and only into that one.
pub proof fn buckets_part_the_ratings(tenths: i64)
    requires
        0 <= tenths <= 100,
    ensures
        tenths >= 90 ==> RATING_BOUNDS@[0].0 <= tenths < RATING_BOUNDS@[0].1,
        forall|k: int|
            1 <= k < 5 ==> (#[trigger] RATING_BOUNDS@[k]).1 == RATING_BOUNDS@[k - 1].0,
        RATING_BOUNDS@[1].0 == 80 && RATING_BOUNDS@[2].0 == 70 && RATING_BOUNDS@[3].0 == 60
            && RATING_BOUNDS@[4].0 == 0,
        bucket_name(0) == "9 and above"@,
        bucket_name(1) == "8 – 9"@,
        bucket_name(2) == "7 – 8"@,
        bucket_name(3) == "6 – 7"@,
        bucket_name(4) == "Below 6"@,
        bucket_name(5) == "Unrated"@,
{
    assert(RATING_BOUNDS@[0] == (90i64, 101i64));
    assert(RATING_BOUNDS@[1] == (80i64, 90i64));
    assert(RATING_BOUNDS@[2] == (70i64, 80i64));
    assert(RATING_BOUNDS@[3] == (60i64, 70i64));
    assert(RATING_BOUNDS@[4] == (0i64, 60i64));
    assert(RATING_BUCKETS@.len() == 5);
    assert(RATING_BUCKETS@[0]@ == "9 and above"@);
    assert(RATING_BUCKETS@[1]@ == "8 – 9"@);
    assert(RATING_BUCKETS@[2]@ == "7 – 8"@);
    assert(RATING_BUCKETS@[3]@ == "6 – 7"@);
    assert(RATING_BUCKETS@[4]@ == "Below 6"@);
    assert forall|k: int| 1 <= k < 5 implies (#[trigger] RATING_BOUNDS@[k]).1 == RATING_BOUNDS@[k
        - 1].0 by {
        assert(k == 1 || k == 2 || k == 3 || k == 4);
    }
}

/// The season of specials is called so, every other by its number.
pub proof fn seasons_go_by_their_number(season: int)
    ensures
        season_name(0) == "Specials"@,
        season != 0 ==> season_name(season) == "Season "@ + text::decimal(season),
{
}

} // verus!
