//! The player and captions pages, and the details card.
use vstd::prelude::*;
use crate::db::models::{BrowseItem, MediaKind, Rendition, Segment};
use crate::db::queries::files::ItemDetail;
use crate::server::assets;
use crate::server::assets::{CAPTIONS_SCRIPT, CAPTIONS_STYLE, CC_PANEL_SCRIPT, CC_STYLE, PLAYER_STYLE};
use crate::server::browse;
use crate::server::didl;
use crate::server::formats;
use crate::server::objectid::{id_of, ObjectId};
use crate::server::page;
use crate::server::page::PAGE_CLOSE;
use crate::text;

verus! {

// ------------------------------------------------------------------ context

/// A link to a node's browse page.
pub open spec fn node_link(id: Seq<char>, label: Seq<char>) -> Seq<char> {
    "<a href=\"/browse/"@ + id + "\">"@ + label + "</a>"@
}

pub fn link_node(o: &ObjectId, label: &str) -> (r: String)
    ensures
        r@ == node_link(id_of(o@), label@),
{
    let mut out = "<a href=\"/browse/".to_owned();
    let id = o.to_id();
    out.push_str(id.as_str());
    out.push_str("\">");
    out.push_str(label);
    out.push_str("</a>");
    out
}

pub open spec fn tv_context(series: Seq<char>, season: i64, episode: i64) -> Seq<char> {
    node_link(id_of(ObjectId::TvSeries(series)), didl::escaped(series)) + " — "@ + node_link(
        id_of(ObjectId::TvSeason { series, season }),
        "Season "@ + text::decimal(season as int),
    ) + ", Episode "@ + text::decimal(episode as int)
}

/// "Series — Season N, Episode M" with the series and season linked into
/// their browse pages, so an episode reached via search (or a bookmark)
/// is one click from its siblings rather than a trip back to the root.
pub fn tv_context_html(series: &str, season: i64, episode: i64) -> (r: String)
    ensures
        r@ == tv_context(series@, season, episode),
{
    let label = didl::xml_escape(series);
    let node: ObjectId = ObjectId::TvSeries(series.to_owned());
    let mut out = link_node(&node, label.as_str());
    out.push_str(" — ");
    let mut label = "Season ".to_owned();
    let n = text::dec(season);
    label.push_str(n.as_str());
    let node: ObjectId = ObjectId::TvSeason { series: series.to_owned(), season };
    let link = link_node(&node, label.as_str());
    out.push_str(link.as_str());
    out.push_str(", Episode ");
    let e = text::dec(episode);
    out.push_str(e.as_str());
    out
}

/// The artist that the browse tree files a track under.
pub open spec fn key_artist(d: ItemDetail, artist: Seq<char>) -> Seq<char> {
    match d.album_artist {
        Some(a) => a@,
        None => artist,
    }
}

pub open spec fn music_context(d: ItemDetail, with_track: bool) -> Seq<char> {
    match d.artist {
        None => ""@,
        Some(artist) => {
            let key = key_artist(d, artist@);
            node_link(id_of(ObjectId::MusicArtist(key)), didl::escaped(artist@)) + (match d.album {
                None => ""@,
                Some(album) => " — "@ + node_link(
                    id_of(ObjectId::MusicAlbum { artist: key, album: album@ }),
                    didl::escaped(album@),
                ) + (match d.track_no {
                    Some(n) if with_track => ", track "@ + text::decimal(n as int),
                    _ => ""@,
                }),
            })
        },
    }
}

/// "Artist — Album" (optionally ", track N") with the artist and album
/// linked into their browse pages. The browse tree keys on the album
/// artist when one is set, so the links use that even though the text
/// shows the track's own artist (the two differ on compilations).
pub fn music_context_html(detail: &ItemDetail, with_track: bool) -> (r: String)
    ensures
        r@ == music_context(*detail, with_track),
{
    match &detail.artist {
        None => "".to_owned(),
        Some(artist) => {
            let key = match &detail.album_artist {
                Some(a) => a.clone(),
                None => artist.clone(),
            };
            let label = didl::xml_escape(artist.as_str());
            let node: ObjectId = ObjectId::MusicArtist(key.clone());
            let mut out = link_node(&node, label.as_str());
            let rest = match &detail.album {
                None => "".to_owned(),
                Some(album) => {
                    let mut rest = " — ".to_owned();
                    let label = didl::xml_escape(album.as_str());
                    let node: ObjectId = ObjectId::MusicAlbum { artist: key, album: album.clone() };
                    let link = link_node(&node, label.as_str());
                    rest.push_str(link.as_str());
                    let track = match detail.track_no {
                        Some(n) => if with_track {
                            let mut t = ", track ".to_owned();
                            let n = text::dec(n);
                            t.push_str(n.as_str());
                            t
                        } else {
                            "".to_owned()
                        },
                        None => "".to_owned(),
                    };
                    rest.push_str(track.as_str());
                    rest
                },
            };
            out.push_str(rest.as_str());
            out
        },
    }
}

/// Where an item sits: its series and season, or its artist and album.
pub open spec fn context_of(d: ItemDetail, with_track: bool) -> Seq<char> {
    match (d.series, d.season, d.episode) {
        (Some(series), Some(season), Some(episode)) => tv_context(series@, season, episode),
        _ => music_context(d, with_track),
    }
}

pub fn context_html(detail: &ItemDetail, with_track: bool) -> (r: String)
    ensures
        r@ == context_of(*detail, with_track),
{
    match (&detail.series, detail.season, detail.episode) {
        (Some(series), Some(season), Some(episode)) => tv_context_html(
            series.as_str(),
            season,
            episode,
        ),
        _ => music_context_html(detail, with_track),
    }
}

// --------------------------------------------------------------- neighbours

/// Whose items an item's neighbours are among.
#[derive(Debug)]
pub enum Siblings {
    /// Movies have no natural neighbours.
    Nobody,
    /// The whole series in season/episode order, so the last episode of a
    /// season continues into the next season.
    Series(String),
    /// Same keys the browse tree uses: album artist first, and the "Unknown"
    /// placeholders for untagged files.
    Album { artist: String, album: String },
}

/// Whose items an item's neighbours are among.
pub fn siblings_of(detail: &ItemDetail) -> (r: Siblings)
    ensures
        match detail.kind {
            MediaKind::Tv => match detail.series {
                Some(s) => r matches Siblings::Series(t) && t@ == s@,
                None => r is Nobody,
            },
            MediaKind::Music => r matches Siblings::Album { artist, album } && artist@ == (
            match (detail.album_artist, detail.artist) {
                (Some(a), _) => a@,
                (None, Some(a)) => a@,
                (None, None) => "Unknown Artist"@,
            }) && album@ == (match detail.album {
                Some(a) => a@,
                None => "Unknown Album"@,
            }),
            MediaKind::Movies => r is Nobody,
        },
{
    match detail.kind {
        MediaKind::Tv => match &detail.series {
            Some(s) => Siblings::Series(s.clone()),
            None => Siblings::Nobody,
        },
        MediaKind::Music => {
            let artist = match (&detail.album_artist, &detail.artist) {
                (Some(a), _) => a.clone(),
                (None, Some(a)) => a.clone(),
                (None, None) => "Unknown Artist".to_owned(),
            };
            let album = match &detail.album {
                Some(a) => a.clone(),
                None => "Unknown Album".to_owned(),
            };
            Siblings::Album { artist, album }
        },
        MediaKind::Movies => Siblings::Nobody,
    }
}

/// Whether an item is of a file: as its primary or as another rendition.
pub open spec fn is_of(item: BrowseItem, file_id: i64) -> bool {
    item.file_id == file_id || exists|i: int|
        0 <= i < item.renditions@.len() && (#[trigger] item.renditions@[i]).file_id == file_id
}

fn any_rendition(rs: &Vec<Rendition>, file_id: i64) -> (r: bool)
    ensures
        r == exists|i: int| 0 <= i < rs@.len() && (#[trigger] rs@[i]).file_id == file_id,
{
    let mut i: usize = 0;
    while i < rs.len()
        invariant
            i <= rs.len(),
            forall|k: int| 0 <= k < i ==> (#[trigger] rs@[k]).file_id != file_id,
        decreases rs.len() - i,
    {
        if rs[i].file_id == file_id {
            return true;
        }
        i += 1;
    }
    false
}

/// The place of a file among its siblings: the first item that is of it.
pub open spec fn place_of(siblings: Seq<BrowseItem>, file_id: i64) -> Option<int>
    decreases siblings.len(),
{
    if siblings.len() == 0 {
        None
    } else {
        match place_of(siblings.drop_last(), file_id) {
            Some(i) => Some(i),
            None => if is_of(siblings.last(), file_id) {
                Some(siblings.len() - 1)
            } else {
                None
            },
        }
    }
}

proof fn lemma_place(siblings: Seq<BrowseItem>, file_id: i64, k: int)
    requires
        0 <= k <= siblings.len(),
        place_of(siblings.take(k), file_id) is Some,
    ensures
        place_of(siblings, file_id) == place_of(siblings.take(k), file_id),
    decreases siblings.len() - k,
{
    if k < siblings.len() {
        assert(siblings.take(k + 1).drop_last() =~= siblings.take(k));
        lemma_place(siblings, file_id, k + 1);
    } else {
        assert(siblings.take(k) =~= siblings);
    }
}

/// The episode (or track) before and after this one, in series (album) order,
/// by index. Renditions of one episode are merged there, so a lower-quality
/// copy still finds its place.
pub fn neighbours(siblings: &Vec<BrowseItem>, file_id: i64) -> (r: (Option<usize>, Option<usize>))
    ensures
        match place_of(siblings@, file_id) {
            Some(i) => (r.0 is Some <==> i > 0) && (r.0 matches Some(p) ==> p == i - 1) && (r.1 is Some
                <==> i + 1 < siblings@.len()) && (r.1 matches Some(n) ==> n == i + 1),
            None => r.0 is None && r.1 is None,
        },
        r.0 matches Some(p) ==> p < siblings@.len(),
        r.1 matches Some(n) ==> n < siblings@.len(),
{
    let mut i: usize = 0;
    assert(siblings@.take(0) =~= seq![]);
    while i < siblings.len()
        invariant
            i <= siblings.len(),
            place_of(siblings@.take(i as int), file_id) is None,
        decreases siblings.len() - i,
    {
        assert(siblings@.take(i + 1).drop_last() =~= siblings@.take(i as int));
        assert(siblings@.take(i + 1).last() == siblings@[i as int]);
        let item = &siblings[i];
        if item.file_id == file_id || any_rendition(&item.renditions, file_id) {
            proof {
                lemma_place(siblings@, file_id, i + 1);
            }
            let prev: Option<usize> = if i > 0 {
                Some(i - 1)
            } else {
                None
            };
            let next: Option<usize> = if i < siblings.len() - 1 {
                Some(i + 1)
            } else {
                None
            };
            return (prev, next);
        }
        i += 1;
    }
    assert(siblings@.take(i as int) =~= siblings@);
    (None, None)
}

pub open spec fn noun_of(kind: MediaKind) -> Seq<char> {
    match kind {
        MediaKind::Music => "song"@,
        _ => "episode"@,
    }
}

pub fn neighbour_noun(kind: MediaKind) -> (r: &'static str)
    ensures
        r@ == noun_of(kind),
{
    match kind {
        MediaKind::Music => "song",
        _ => "episode",
    }
}

pub open spec fn label_of(kind: MediaKind, season: Option<i64>, item: BrowseItem) -> Seq<char> {
    match (kind, item.episode, item.track_no) {
        (MediaKind::Tv, Some(n), _) => (match item.season {
            Some(s) if Some(s) != season => "S"@ + text::decimal(s as int) + " "@,
            _ => ""@,
        }) + text::padded(n as int, 2) + " - "@ + didl::escaped(item.title@),
        (MediaKind::Music, _, Some(n)) => text::decimal(n as int) + ". "@ + didl::escaped(
            item.title@,
        ),
        _ => didl::escaped(item.title@),
    }
}

/// "03 - Title" for an episode (prefixed "S2 " when it is in a different
/// season than the one being viewed), "3. Title" for a track.
pub fn neighbour_label(kind: MediaKind, season: Option<i64>, item: &BrowseItem) -> (r: String)
    ensures
        r@ == label_of(kind, season, *item),
{
    let title = didl::xml_escape(item.title.as_str());
    match (kind, item.episode, item.track_no) {
        (MediaKind::Tv, Some(n), _) => {
            let other = match (item.season, season) {
                (Some(s), Some(here)) => s != here,
                (Some(_), None) => true,
                (None, _) => false,
            };
            let mut out = "".to_owned();
            if other {
                if let Some(s) = item.season {
                    out = "S".to_owned();
                    let s = text::dec(s);
                    out.push_str(s.as_str());
                    out.push_str(" ");
                }
            }
            let n = text::dec_padded(n, 2);
            out.push_str(n.as_str());
            out.push_str(" - ");
            out.push_str(title.as_str());
            out
        },
        (MediaKind::Music, _, Some(n)) => {
            let mut out = text::dec(n);
            out.push_str(". ");
            out.push_str(title.as_str());
            out
        },
        _ => title,
    }
}

/// A link that a player's script swaps in without a navigation; otherwise a plain
/// link.
pub open spec fn swap_link_of(page_path: Seq<char>, file_id: i64, label: Seq<char>) -> Seq<char> {
    "<a href=\""@ + page_path + text::decimal(file_id as int) + "\" data-swap-id=\""@
        + text::decimal(file_id as int) + "\">"@ + label + "</a>"@
}

/// A link that a player's script swaps in without a navigation; otherwise a plain
/// link.
pub fn swap_link(page_path: &str, file_id: i64, label: &str) -> (r: String)
    ensures
        r@ == swap_link_of(page_path@, file_id, label@),
{
    let mut out = "<a href=\"".to_owned();
    out.push_str(page_path);
    let part1 = text::dec(file_id);
    out.push_str(part1.as_str());
    out.push_str("\" data-swap-id=\"");
    let part2 = text::dec(file_id);
    out.push_str(part2.as_str());
    out.push_str("\">");
    out.push_str(label);
    out.push_str("</a>");
    out
}

/// The link to the prior item.
pub open spec fn prior_link(
    path: Seq<char>,
    kind: MediaKind,
    season: Option<i64>,
    item: Option<BrowseItem>,
) -> Seq<char> {
    match item {
        Some(i) => swap_link_of(
            path,
            i.file_id,
            "« Prior "@ + noun_of(kind) + ": "@ + label_of(kind, season, i),
        ),
        None => ""@,
    }
}

/// The link to the next item.
pub open spec fn next_link(
    path: Seq<char>,
    kind: MediaKind,
    season: Option<i64>,
    item: Option<BrowseItem>,
) -> Seq<char> {
    match item {
        Some(i) => swap_link_of(
            path,
            i.file_id,
            "Next "@ + noun_of(kind) + ": "@ + label_of(kind, season, i) + " »"@,
        ),
        None => ""@,
    }
}

pub open spec fn item_view(o: Option<&BrowseItem>) -> Option<BrowseItem> {
    match o {
        Some(i) => Some(*i),
        None => None,
    }
}

fn link_prior(path: &str, kind: MediaKind, season: Option<i64>, item: Option<&BrowseItem>) -> (r: String)
    ensures
        r@ == prior_link(path@, kind, season, item_view(item)),
{
    match item {
        Some(i) => {
            let mut t = "« Prior ".to_owned();
            t.push_str(neighbour_noun(kind));
            t.push_str(": ");
            let l = neighbour_label(kind, season, i);
            t.push_str(l.as_str());
            swap_link(path, i.file_id, t.as_str())
        },
        None => "".to_owned(),
    }
}

fn link_next(path: &str, kind: MediaKind, season: Option<i64>, item: Option<&BrowseItem>) -> (r: String)
    ensures
        r@ == next_link(path@, kind, season, item_view(item)),
{
    match item {
        Some(i) => {
            let mut t = "Next ".to_owned();
            t.push_str(neighbour_noun(kind));
            t.push_str(": ");
            let l = neighbour_label(kind, season, i);
            t.push_str(l.as_str());
            t.push_str(" »");
            swap_link(path, i.file_id, t.as_str())
        },
        None => "".to_owned(),
    }
}

pub open spec fn nav_of(
    kind: MediaKind,
    season: Option<i64>,
    prev: Option<BrowseItem>,
    next: Option<BrowseItem>,
) -> Seq<char> {
    if prev is None && next is None {
        ""@
    } else {
        "<p style=\"clear:both;display:flex;justify-content:space-between;gap:2em;margin-top:1.5em;padding-top:.8em;border-top:1px solid #ddd\"><span>"@
            + prior_link("/item/"@, kind, season, prev) + "</span><span style=\"text-align:right\">"@
            + next_link("/item/"@, kind, season, next) + "</span></p>"@
    }
}

/// "« Prior episode: Title" on the left, "Next episode: Title »" on the
/// right, spanning the same width as the details above. Empty spans keep a
/// lone "next" on the right and a lone "prior" on the left; clear:both drops
/// the row below the floated poster.
pub fn neighbour_nav_html(
    kind: MediaKind,
    season: Option<i64>,
    prev: Option<&BrowseItem>,
    next: Option<&BrowseItem>,
) -> (r: String)
    ensures
        r@ == nav_of(kind, season, item_view(prev), item_view(next)),
{
    if prev.is_none() && next.is_none() {
        return "".to_owned();
    }
    let mut out =
        "<p style=\"clear:both;display:flex;justify-content:space-between;gap:2em;margin-top:1.5em;padding-top:.8em;border-top:1px solid #ddd\"><span>".to_owned();
    let p = link_prior("/item/", kind, season, prev);
    out.push_str(p.as_str());
    out.push_str("</span><span style=\"text-align:right\">");
    let n = link_next("/item/", kind, season, next);
    out.push_str(n.as_str());
    out.push_str("</span></p>");
    out
}

// --------------------------------------------------------------------- card

pub open spec fn heading_of(d: ItemDetail) -> Seq<char> {
    page::dated(didl::escaped(d.title@), d.year)
}

pub fn heading(d: &ItemDetail) -> (r: String)
    ensures
        r@ == heading_of(*d),
{
    let t = didl::xml_escape(d.title.as_str());
    page::with_year(t.as_str(), d.year)
}

/// The synopsis of an item, where it is not blank.
pub open spec fn plot_of(d: ItemDetail) -> Option<Seq<char>> {
    match d.plot {
        Some(p) if text::trimmed(p@).len() > 0 => Some(p@),
        _ => None,
    }
}

pub fn shown_plot(d: &ItemDetail) -> (r: Option<&str>)
    ensures
        page::opt_str(r) == plot_of(*d),
{
    match &d.plot {
        Some(p) => {
            let t = text::trim(p.as_str());
            if t.as_str().is_empty() {
                None
            } else {
                Some(p.as_str())
            }
        },
        None => None,
    }
}

/// The rating, linked to the IMDb entry when we know it — the episode's own
/// tconst for TV, the film's for movies.
pub open spec fn imdb_fact(d: ItemDetail) -> Seq<Seq<char>> {
    match (d.rating, browse::printable_id(text::opt_text(d.imdb_id))) {
        (Some(s), Some(id)) => seq![
            "<a href=\"https://www.imdb.com/title/"@ + id + "/\">IMDb "@ + s.label@ + "</a>"@,
        ],
        (Some(s), None) => seq!["IMDb "@ + s.label@],
        (None, Some(id)) => seq!["<a href=\"https://www.imdb.com/title/"@ + id + "/\">IMDb</a>"@],
        (None, None) => seq![],
    }
}

pub open spec fn opt_fact(o: Option<Seq<char>>) -> Seq<Seq<char>> {
    match o {
        Some(s) => seq![s],
        None => seq![],
    }
}

pub open spec fn escaped_opt(o: Option<String>) -> Option<Seq<char>> {
    match o {
        Some(s) => Some(didl::escaped(s@)),
        None => None,
    }
}

/// The facts on a card: rating, genre, director, duration, resolution, codec,
/// size.
pub open spec fn facts_of(d: ItemDetail) -> Seq<Seq<char>> {
    imdb_fact(d) + opt_fact(escaped_opt(d.genre)) + opt_fact(
        match d.director {
            Some(s) => Some("dir. "@ + didl::escaped(s@)),
            None => None,
        },
    ) + opt_fact(
        match d.duration_ms {
            Some(ms) => Some(formats::duration_text(ms as int)),
            None => None,
        },
    ) + opt_fact(
        match (d.width, d.height) {
            (Some(w), Some(h)) => Some(
                text::decimal(w as int) + "×"@ + text::decimal(h as int) + (if formats::uhd(
                    d.width,
                    d.height,
                ) {
                    " (4K)"@
                } else {
                    ""@
                }),
            ),
            _ => None,
        },
    ) + opt_fact(escaped_opt(d.video_codec)) + seq![formats::size_text(d.size as int)]
}

fn push_opt(out: &mut Vec<String>, o: Option<String>)
    ensures
        text::texts(final(out)@) == text::texts(old(out)@) + opt_fact(text::opt_text(o)),
{
    match o {
        Some(s) => {
            text::push_text(out, s.as_str());
            assert(text::texts(out@) =~= text::texts(old(out)@) + opt_fact(text::opt_text(o)));
        },
        None => {
            assert(text::texts(out@) =~= text::texts(old(out)@) + opt_fact(text::opt_text(o)));
        },
    }
}

pub fn escape_opt(o: &Option<String>) -> (r: Option<String>)
    ensures
        text::opt_text(r) == escaped_opt(*o),
{
    match o {
        Some(s) => Some(didl::xml_escape(s.as_str())),
        None => None,
    }
}

fn imdb_text(d: &ItemDetail) -> (r: Option<String>)
    ensures
        opt_fact(text::opt_text(r)) == imdb_fact(*d),
{
    match (&d.rating, browse::print_id(&d.imdb_id)) {
        (Some(s), Some(id)) => {
            let mut out = "<a href=\"https://www.imdb.com/title/".to_owned();
            out.push_str(id);
            out.push_str("/\">IMDb ");
            out.push_str(s.label.as_str());
            out.push_str("</a>");
            Some(out)
        },
        (Some(s), None) => {
            let mut out = "IMDb ".to_owned();
            out.push_str(s.label.as_str());
            Some(out)
        },
        (None, Some(id)) => {
            let mut out = "<a href=\"https://www.imdb.com/title/".to_owned();
            out.push_str(id);
            out.push_str("/\">IMDb</a>");
            Some(out)
        },
        (None, None) => None,
    }
}

fn director_text(d: &ItemDetail) -> (r: Option<String>)
    ensures
        text::opt_text(r) == (match d.director {
            Some(s) => Some("dir. "@ + didl::escaped(s@)),
            None => None,
        }),
{
    match &d.director {
        Some(s) => {
            let mut out = "dir. ".to_owned();
            let e = didl::xml_escape(s.as_str());
            out.push_str(e.as_str());
            Some(out)
        },
        None => None,
    }
}

fn resolution_text(d: &ItemDetail) -> (r: Option<String>)
    ensures
        text::opt_text(r) == (match (d.width, d.height) {
            (Some(w), Some(h)) => Some(
                text::decimal(w as int) + "×"@ + text::decimal(h as int) + (if formats::uhd(
                    d.width,
                    d.height,
                ) {
                    " (4K)"@
                } else {
                    ""@
                }),
            ),
            _ => None,
        }),
{
    match (d.width, d.height) {
        (Some(w), Some(h)) => {
            let mut out = text::dec(w);
            out.push_str("×");
            let h = text::dec(h);
            out.push_str(h.as_str());
            out.push_str(if formats::is_uhd(d.width, d.height) { " (4K)" } else { "" });
            Some(out)
        },
        _ => None,
    }
}

fn facts(d: &ItemDetail) -> (r: Vec<String>)
    ensures
        text::texts(r@) == facts_of(*d),
{
    let mut out: Vec<String> = Vec::new();
    assert(text::texts(out@) =~= seq![]);
    push_opt(&mut out, imdb_text(d));
    assert(text::texts(out@) =~= imdb_fact(*d));
    push_opt(&mut out, escape_opt(&d.genre));
    push_opt(&mut out, director_text(d));
    let duration = match d.duration_ms {
        Some(ms) => Some(formats::human_duration(ms)),
        None => None,
    };
    push_opt(&mut out, duration);
    push_opt(&mut out, resolution_text(d));
    push_opt(&mut out, escape_opt(&d.video_codec));
    let ghost before = text::texts(out@);
    let size = formats::human_size(d.size);
    text::push_text(&mut out, size.as_str());
    assert(text::texts(out@) =~= before + seq![size@]);
    out
}

pub open spec fn card_of(id: i64, d: ItemDetail, context: Seq<char>) -> Seq<char> {
    (if d.has_art {
        "<img src=\"/art/"@ + text::decimal(id as int) + "\" alt=\"\">"@
    } else {
        ""@
    }) + "<strong>"@ + heading_of(d) + "</strong>"@ + (if context.len() == 0 {
        ""@
    } else {
        "<br>"@ + context
    }) + (match plot_of(d) {
        Some(p) => "<span class=\"plot\">"@ + didl::escaped(page::truncated(p, 400)) + "</span>"@,
        None => ""@,
    }) + "<span class=\"facts\">"@ + text::joined(facts_of(d), " · "@) + "</span>"@
}

/// The details card for an item: poster, title and year, where it sits
/// (series/season or artist/album), the plot cut to a card's worth, and
/// a line of facts — IMDb rating linked to the entry, genre, director,
/// duration, resolution, codec, size. The player renders it inline on
/// its "details" link; the browse pages' cover grid fetches it from
/// /card/{id} on hover.
pub fn info_card(id: i64, detail: &ItemDetail, context: &str) -> (r: String)
    ensures
        r@ == card_of(id, *detail, context@),
{
    let mut out = if detail.has_art {
        let mut img = "<img src=\"/art/".to_owned();
        let id = text::dec(id);
        img.push_str(id.as_str());
        img.push_str("\" alt=\"\">");
        img
    } else {
        "".to_owned()
    };
    out.push_str("<strong>");
    let h = heading(detail);
    out.push_str(h.as_str());
    out.push_str("</strong>");
    let place = if context.is_empty() {
        "".to_owned()
    } else {
        let mut p = "<br>".to_owned();
        p.push_str(context);
        p
    };
    out.push_str(place.as_str());
    let plot = match shown_plot(detail) {
        Some(p) => {
            let mut s = "<span class=\"plot\">".to_owned();
            // Keep the card a card: truncate long synopses on a word boundary.
            let cut = page::truncate_words(p, 400);
            let cut = didl::xml_escape(cut.as_str());
            s.push_str(cut.as_str());
            s.push_str("</span>");
            s
        },
        None => "".to_owned(),
    };
    out.push_str(plot.as_str());
    out.push_str("<span class=\"facts\">");
    let fs = facts(detail);
    let line = text::join(&fs, " · ");
    out.push_str(line.as_str());
    out.push_str("</span>");
    out
}

// -------------------------------------------------------------- player page

/// Whether an item has captions to show, and where from.
#[derive(Debug, Clone, Copy, PartialEq, Eq, Structural)]
pub enum Subs {
    /// A sidecar, or a track that was extracted before: a plain server-rendered
    /// <track>.
    Instant,
    /// An embedded track that can take a minute of demuxing on a big file — so
    /// the video starts immediately and a few lines of script fetch the track
    /// asynchronously with a visible status, attaching it when ready.
    Extract,
    Missing,
}

/// A segment for the script, in seconds to match currentTime.
pub open spec fn segment_of(kind: Seq<char>, start_ms: i64, end_ms: i64) -> Seq<char> {
    "{\"kind\":\""@ + kind + "\",\"start\":"@ + formats::seconds_text(start_ms as int)
        + ",\"end\":"@ + formats::seconds_text(end_ms as int) + "}"@
}

/// A segment for the script, in seconds to match currentTime.
fn segment_json(kind: &str, start_ms: i64, end_ms: i64) -> (r: String)
    ensures
        r@ == segment_of(kind@, start_ms, end_ms),
{
    let mut out = "{\"kind\":\"".to_owned();
    out.push_str(kind);
    out.push_str("\",\"start\":");
    let part1 = formats::seconds(start_ms);
    out.push_str(part1.as_str());
    out.push_str(",\"end\":");
    let part2 = formats::seconds(end_ms);
    out.push_str(part2.as_str());
    out.push_str("}");
    out
}

pub open spec fn segment_texts(segments: Seq<Segment>) -> Seq<Seq<char>> {
    Seq::new(
        segments.len(),
        |i: int| segment_of(segments[i].kind.name(), segments[i].start_ms, segments[i].end_ms),
    )
}

/// Skippable segments (intro/credits) for the script. Kinds come from the
/// schema's CHECK set, JSON-safe as-is.
pub open spec fn segments_of(segments: Seq<Segment>) -> Seq<char> {
    "["@ + text::joined(segment_texts(segments), ","@) + "]"@
}

fn segments_json(segments: &Vec<Segment>) -> (r: String)
    ensures
        r@ == segments_of(segments@),
{
    let mut parts: Vec<String> = Vec::new();
    let ghost goal = segment_texts(segments@);
    let mut i: usize = 0;
    assert(text::texts(parts@) =~= goal.take(0));
    while i < segments.len()
        invariant
            i <= segments.len(),
            goal == segment_texts(segments@),
            text::texts(parts@) == goal.take(i as int),
        decreases segments.len() - i,
    {
        let s = &segments[i];
        let one = segment_json(s.kind.as_str(), s.start_ms, s.end_ms);
        text::push_text(&mut parts, one.as_str());
        i += 1;
        assert(text::texts(parts@) =~= goal.take(i as int));
    }
    assert(goal.take(i as int) =~= goal);
    let mut out = "[".to_owned();
    let inner = text::join(&parts, ",");
    out.push_str(inner.as_str());
    out.push_str("]");
    out
}

pub open spec fn subs_note_of(extract: bool, id: i64) -> Seq<char> {
    "<p id=\"subs\" data-swap data-extract=\""@ + (if extract {
        text::decimal(id as int)
    } else {
        ""@
    }) + "\" style=\"color:#888;font-size:.85em\">"@ + (if extract {
        "⏳ Extracting subtitles from the file — the video can play meanwhile; captions appear when ready (may take a minute for large files)…"@
    } else {
        ""@
    }) + "</p>"@
}

fn subs_note(extract: bool, id: i64) -> (r: String)
    ensures
        r@ == subs_note_of(extract, id),
{
    let mut out = "<p id=\"subs\" data-swap data-extract=\"".to_owned();
    let n = if extract {
        text::dec(id)
    } else {
        "".to_owned()
    };
    out.push_str(n.as_str());
    out.push_str("\" style=\"color:#888;font-size:.85em\">");
    out.push_str(
        if extract {
            "⏳ Extracting subtitles from the file — the video can play meanwhile; captions appear when ready (may take a minute for large files)…"
        } else {
            ""
        },
    );
    out.push_str("</p>");
    out
}

pub open spec fn track_of(subs: Subs, id: i64) -> Seq<char> {
    if subs == Subs::Instant {
        "<track kind=\"subtitles\" src=\"/subs/"@ + text::decimal(id as int)
            + ".vtt\" srclang=\"en\" label=\"Subtitles\" default>"@
    } else {
        ""@
    }
}

fn track_html(subs: Subs, id: i64) -> (r: String)
    ensures
        r@ == track_of(subs, id),
{
    if subs == Subs::Instant {
        let mut out = "<track kind=\"subtitles\" src=\"/subs/".to_owned();
        let id = text::dec(id);
        out.push_str(id.as_str());
        out.push_str(".vtt\" srclang=\"en\" label=\"Subtitles\" default>");
        out
    } else {
        "".to_owned()
    }
}

/// What is said of the item after this one.
pub open spec fn next_note(path: Seq<char>, kind: MediaKind, season: Option<i64>, next: Option<BrowseItem>) -> Seq<
    char,
> {
    match next {
        Some(n) => "Next up: "@ + swap_link_of(path, n.file_id, label_of(kind, season, n)),
        None => "This is the last "@ + noun_of(kind) + " available."@,
    }
}

pub fn next_note_html(path: &str, kind: MediaKind, season: Option<i64>, next: Option<&BrowseItem>) -> (r: String)
    ensures
        r@ == next_note(path@, kind, season, item_view(next)),
{
    match next {
        Some(n) => {
            let mut out = "Next up: ".to_owned();
            let l = neighbour_label(kind, season, n);
            let link = swap_link(path, n.file_id, l.as_str());
            out.push_str(link.as_str());
            out
        },
        None => {
            let mut out = "This is the last ".to_owned();
            out.push_str(neighbour_noun(kind));
            out.push_str(" available.");
            out
        },
    }
}

/// Episodes and album tracks continue into the next one when it ends; the
/// script swaps the player's contents in place.
pub open spec fn autonext_of(d: ItemDetail, next: Option<BrowseItem>) -> Seq<char> {
    if d.kind == MediaKind::Movies {
        ""@
    } else {
        "<p class=\"controls\" style=\"color:#aaa;font-size:.9em\"><label><input type=\"checkbox\" id=\"autonext\" checked> Auto-play next "@
            + noun_of(d.kind) + "</label><span id=\"next-note\" data-swap>"@ + next_note(
            "/play/"@,
            d.kind,
            d.season,
            next,
        ) + "</span></p>"@
    }
}

fn autonext_html(d: &ItemDetail, next: Option<&BrowseItem>) -> (r: String)
    ensures
        r@ == autonext_of(*d, item_view(next)),
{
    if d.kind == MediaKind::Movies {
        return "".to_owned();
    }
    let mut out =
        "<p class=\"controls\" style=\"color:#aaa;font-size:.9em\"><label><input type=\"checkbox\" id=\"autonext\" checked> Auto-play next ".to_owned();
    out.push_str(neighbour_noun(d.kind));
    out.push_str("</label><span id=\"next-note\" data-swap>");
    let note = next_note_html("/play/", d.kind, d.season, next);
    out.push_str(note.as_str());
    out.push_str("</span></p>");
    out
}

/// The card in the player: prior/next for serial programs come with it. The
/// links stay in the player (and swap in place).
pub open spec fn player_card(
    id: i64,
    d: ItemDetail,
    prev: Option<BrowseItem>,
    next: Option<BrowseItem>,
) -> Seq<char> {
    card_of(id, d, context_of(d, false)) + (if prev is None && next is None {
        ""@
    } else {
        "<span class=\"nav\"><span>"@ + prior_link("/play/"@, d.kind, d.season, prev)
            + "</span><span>"@ + next_link("/play/"@, d.kind, d.season, next) + "</span></span>"@
    })
}

fn player_card_html(id: i64, d: &ItemDetail, prev: Option<&BrowseItem>, next: Option<&BrowseItem>) -> (r:
    String)
    ensures
        r@ == player_card(id, *d, item_view(prev), item_view(next)),
{
    let context = context_html(d, false);
    let mut out = info_card(id, d, context.as_str());
    let nav = if prev.is_none() && next.is_none() {
        "".to_owned()
    } else {
        let mut n = "<span class=\"nav\"><span>".to_owned();
        let p = link_prior("/play/", d.kind, d.season, prev);
        n.push_str(p.as_str());
        n.push_str("</span><span>");
        let x = link_next("/play/", d.kind, d.season, next);
        n.push_str(x.as_str());
        n.push_str("</span></span>");
        n
    };
    out.push_str(nav.as_str());
    out
}

/// Which season/episode (or artist/album) this is. Always present (hidden when
/// empty) so an in-place episode swap has an element to replace.
pub open spec fn context_line(context: Seq<char>) -> Seq<char> {
    "<p id=\"context\" data-swap style=\"color:#aaa;margin:.2em 0 .8em"@ + (if context.len() == 0 {
        ";display:none"@
    } else {
        ""@
    }) + "\">"@ + context + "</p>"@
}

fn context_line_html(d: &ItemDetail) -> (r: String)
    ensures
        r@ == context_line(context_of(*d, false)),
{
    let context = context_html(d, false);
    let mut out = "<p id=\"context\" data-swap style=\"color:#aaa;margin:.2em 0 .8em".to_owned();
    out.push_str(if context.as_str().is_empty() { ";display:none" } else { "" });
    out.push_str("\">");
    out.push_str(context.as_str());
    out.push_str("</p>");
    out
}

pub const CC_PANEL: &'static str =
    "<aside id=\"cc-panel\" hidden aria-label=\"Captions\"><div class=\"head\"><span id=\"cc-title\">Captions</span><span class=\"tools\"><button type=\"button\" id=\"cc-pop\" title=\"Open the captions in a window of their own\" aria-label=\"Pop the captions out into a window\">⧉</button><button type=\"button\" id=\"cc-close\" aria-label=\"Close the captions panel\">×</button></span></div><div id=\"cc-list\"><div id=\"cc-track\"></div></div></aside>";

/// Everything that the player page shows.
#[derive(Debug)]
pub struct PlayPage {
    pub id: i64,
    pub detail: ItemDetail,
    /// The MIME type of the file as it is served.
    pub mime: String,
    pub prev: Option<BrowseItem>,
    pub next: Option<BrowseItem>,
    pub segments: Vec<Segment>,
    pub subs: Subs,
    /// The origin of links, and the server's name.
    pub base: String,
    pub site: String,
}

pub open spec fn id_path(path: Seq<char>, id: i64) -> Seq<char> {
    path + text::decimal(id as int)
}

pub fn path_to(path: &str, id: i64) -> (r: String)
    ensures
        r@ == id_path(path@, id),
{
    let mut out = path.to_owned();
    let id = text::dec(id);
    out.push_str(id.as_str());
    out
}

pub open spec fn play_head(p: PlayPage) -> Seq<char> {
    page::head(
        didl::escaped(page::tab_of(p.detail)),
        CC_STYLE@ + PLAYER_STYLE@ + page::item_preview(
            p.base@,
            id_path("/play/"@, p.id),
            p.detail,
            p.site@,
        ),
    )
}

fn play_head_html(p: &PlayPage) -> (r: String)
    ensures
        r@ == play_head(*p),
{
    let tab = page::tab_title(&p.detail);
    let tab = didl::xml_escape(tab.as_str());
    let mut extra = CC_STYLE.to_owned();
    extra.push_str(PLAYER_STYLE);
    let path = path_to("/play/", p.id);
    let og = page::item_og_meta(p.base.as_str(), path.as_str(), &p.detail, p.site.as_str());
    extra.push_str(og.as_str());
    page::page_head(tab.as_str(), extra.as_str())
}

pub open spec fn next_id(next: Option<BrowseItem>) -> Seq<char> {
    match next {
        Some(n) => text::decimal(n.file_id as int),
        None => ""@,
    }
}

pub fn next_id_text(next: Option<&BrowseItem>) -> (r: String)
    ensures
        r@ == next_id(item_view(next)),
{
    match next {
        Some(n) => text::dec(n.file_id),
        None => "".to_owned(),
    }
}

/// The video itself: native controls, poster art, the subtitle track, and the
/// button that skips a segment.
pub open spec fn video_of(p: PlayPage) -> Seq<char> {
    "<div class=\"videowrap\"><video id=\"player\" controls autoplay playsinline"@ + (
    if p.detail.has_art {
        " poster=\"/art/"@ + text::decimal(p.id as int) + "\""@
    } else {
        ""@
    }) + " data-id=\""@ + text::decimal(p.id as int) + "\" data-next=\""@ + next_id(p.next)
        + "\" data-segments=\""@ + didl::escaped(segments_of(p.segments@))
        + "\"><source src=\"/media/"@ + text::decimal(p.id as int) + "\" type=\""@ + didl::escaped(
        p.mime@,
    ) + "\">"@ + track_of(p.subs, p.id)
       
            + "Your browser cannot play this format.</video><button id=\"skipseg\" hidden style=\"position:absolute;right:1.2em;bottom:3.4em;font-size:1em;padding:.55em 1.1em;background:rgba(15,15,15,.85);color:#fff;border:1px solid #999;border-radius:4px;cursor:pointer\">Skip</button></div>"@
}

fn as_ref(o: &Option<BrowseItem>) -> (r: Option<&BrowseItem>)
    ensures
        item_view(r) == *o,
{
    match o {
        Some(i) => Some(i),
        None => None,
    }
}

fn video_html(p: &PlayPage) -> (r: String)
    ensures
        r@ == video_of(*p),
{
    let id = text::dec(p.id);
    let mut out =
        "<div class=\"videowrap\"><video id=\"player\" controls autoplay playsinline".to_owned();
    let poster = if p.detail.has_art {
        let mut s = " poster=\"/art/".to_owned();
        s.push_str(id.as_str());
        s.push_str("\"");
        s
    } else {
        "".to_owned()
    };
    out.push_str(poster.as_str());
    out.push_str(" data-id=\"");
    out.push_str(id.as_str());
    out.push_str("\" data-next=\"");
    let next = next_id_text(as_ref(&p.next));
    out.push_str(next.as_str());
    out.push_str("\" data-segments=\"");
    let segments = segments_json(&p.segments);
    let segments = didl::xml_escape(segments.as_str());
    out.push_str(segments.as_str());
    out.push_str("\"><source src=\"/media/");
    out.push_str(id.as_str());
    out.push_str("\" type=\"");
    let mime = didl::xml_escape(p.mime.as_str());
    out.push_str(mime.as_str());
    out.push_str("\">");
    let track = track_html(p.subs, p.id);
    out.push_str(track.as_str());
    out.push_str(
        "Your browser cannot play this format.</video><button id=\"skipseg\" hidden style=\"position:absolute;right:1.2em;bottom:3.4em;font-size:1em;padding:.55em 1.1em;background:rgba(15,15,15,.85);color:#fff;border:1px solid #999;border-radius:4px;cursor:pointer\">Skip</button></div>",
    );
    out
}

/// The hint line, with the "CC" toggle for the captions panel at its right
/// border. A program without captions keeps the button hidden rather than
/// absent, so an in-place episode swap has an element to replace either way.
pub open spec fn hint_of(has_subs: bool) -> Seq<char> {
    "<p class=\"hint\"><span>← / → skip 10 seconds · space play/pause</span><span id=\"rejoin\" hidden></span><span class=\"right\"><button id=\"cc\" type=\"button\" data-swap aria-pressed=\"false\" aria-controls=\"cc-panel\" title=\"Captions panel: every line along the running time — click one to jump there\""@
        + (if has_subs {
        ""@
    } else {
        " hidden"@
    }) + ">CC</button></span></p>"@
}

fn hint_html(has_subs: bool) -> (r: String)
    ensures
        r@ == hint_of(has_subs),
{
    let mut out =
        "<p class=\"hint\"><span>← / → skip 10 seconds · space play/pause</span><span id=\"rejoin\" hidden></span><span class=\"right\"><button id=\"cc\" type=\"button\" data-swap aria-pressed=\"false\" aria-controls=\"cc-panel\" title=\"Captions panel: every line along the running time — click one to jump there\"".to_owned();
    out.push_str(if has_subs { "" } else { " hidden" });
    out.push_str(">CC</button></span></p>");
    out
}

pub open spec fn play_page_of(p: PlayPage) -> Seq<char> {
    play_head(p)
       
            + "<body class=\"player\"><h2 id=\"heading\" data-swap style=\"margin-bottom:.1em\"><a href=\"/\" class=\"home\" title=\"Home\" aria-label=\"Home\">⌂</a>"@
        + heading_of(p.detail) + "<span class=\"infowrap\"><a href=\"/item/"@ + text::decimal(p.id as int)
        + "\">details</a><span class=\"card\">"@ + player_card(p.id, p.detail, p.prev, p.next)
        + "</span></span></h2>"@ + context_line(context_of(p.detail, false)) + video_of(p) + hint_of(
        p.subs != Subs::Missing,
    ) + autonext_of(p.detail, p.next) + CC_PANEL@ + subs_note_of(p.subs == Subs::Extract, p.id)
        + CC_PANEL_SCRIPT@ + assets::player_script_text() + PAGE_CLOSE@
}

/// In-browser player: native <video> controls, poster art, the .srt
/// sidecar as a selectable subtitle track, and the "CC" captions panel
/// that lists the track's lines along the running time. Everything the detail
/// page knows is in a hover card on the "details" link beside the heading —
/// the same card the cover grid fetches.
pub fn play_page(p: &PlayPage) -> (r: String)
    ensures
        r@ == play_page_of(*p),
{
    let mut out = play_head_html(p);
    out.push_str(
        "<body class=\"player\"><h2 id=\"heading\" data-swap style=\"margin-bottom:.1em\"><a href=\"/\" class=\"home\" title=\"Home\" aria-label=\"Home\">⌂</a>",
    );
    let h = heading(&p.detail);
    out.push_str(h.as_str());
    out.push_str("<span class=\"infowrap\"><a href=\"/item/");
    let id = text::dec(p.id);
    out.push_str(id.as_str());
    out.push_str("\">details</a><span class=\"card\">");
    let card = player_card_html(p.id, &p.detail, as_ref(&p.prev), as_ref(&p.next));
    out.push_str(card.as_str());
    out.push_str("</span></span></h2>");
    let context = context_line_html(&p.detail);
    out.push_str(context.as_str());
    let video = video_html(p);
    out.push_str(video.as_str());
    let hint = hint_html(p.subs != Subs::Missing);
    out.push_str(hint.as_str());
    let autonext = autonext_html(&p.detail, as_ref(&p.next));
    out.push_str(autonext.as_str());
    out.push_str(CC_PANEL);
    let note = subs_note(p.subs == Subs::Extract, p.id);
    out.push_str(note.as_str());
    out.push_str(CC_PANEL_SCRIPT);
    let script = assets::player_script();
    out.push_str(script.as_str());
    out.push_str(PAGE_CLOSE);
    out
}

/// The pop-out captions window for a program: the panel as a page of its
/// own, following the player tab that opened it.
pub open spec fn captions_page_of(detail: ItemDetail) -> Seq<char> {
    page::head("Captions — "@ + didl::escaped(page::tab_of(detail)), CC_STYLE@ + CAPTIONS_STYLE@)
        + "<body class=\"captions\"><aside id=\"cc-panel\" aria-label=\"Captions\"><div class=\"head\"><span id=\"cc-title\">"@
        + didl::escaped(page::tab_of(detail))
        + "</span><span class=\"tools\"><button type=\"button\" id=\"cc-dock\" title=\"Back into the player page\">dock</button></span></div><div id=\"cc-list\"><div id=\"cc-track\"></div></div></aside>"@
        + CC_PANEL_SCRIPT@ + CAPTIONS_SCRIPT@ + PAGE_CLOSE@
}

/// The pop-out captions window for a program: the panel as a page of its
/// own, following the player tab that opened it.
pub fn captions_page(detail: &ItemDetail) -> (r: String)
    ensures
        r@ == captions_page_of(*detail),
{
    let mut out = captions_head(detail);
    out.push_str("<body class=\"captions\"><aside id=\"cc-panel\" aria-label=\"Captions\"><div class=\"head\"><span id=\"cc-title\">");
    let part2 = tab_html(detail);
    out.push_str(part2.as_str());
    out.push_str("</span><span class=\"tools\"><button type=\"button\" id=\"cc-dock\" title=\"Back into the player page\">dock</button></span></div><div id=\"cc-list\"><div id=\"cc-track\"></div></div></aside>");
    out.push_str(CC_PANEL_SCRIPT);
    out.push_str(CAPTIONS_SCRIPT);
    out.push_str(PAGE_CLOSE);
    out
}

fn tab_html(d: &ItemDetail) -> (r: String)
    ensures
        r@ == didl::escaped(page::tab_of(*d)),
{
    let t = page::tab_title(d);
    didl::xml_escape(t.as_str())
}

fn captions_head(d: &ItemDetail) -> (r: String)
    ensures
        r@ == page::head(
            "Captions — "@ + didl::escaped(page::tab_of(*d)),
            CC_STYLE@ + CAPTIONS_STYLE@,
        ),
{
    let mut title = "Captions — ".to_owned();
    let t = tab_html(d);
    title.push_str(t.as_str());
    let mut extra = CC_STYLE.to_owned();
    extra.push_str(CAPTIONS_STYLE);
    page::page_head(title.as_str(), extra.as_str())
}

// -------------------------------------------------------------------- laws

/// Going on and coming back are one another's reverse: the next item's prior
/// one is this one, where each file is of one item only.
pub proof fn neighbours_are_mutual(siblings: Seq<BrowseItem>, i: int)
    requires
        0 <= i,
        i + 1 < siblings.len(),
        forall|a: int, b: int|
            #![trigger siblings[a], siblings[b]]
            0 <= a < siblings.len() && 0 <= b < siblings.len() && a != b ==> !is_of(
                siblings[a],
                siblings[b].file_id,
            ),
    ensures
        place_of(siblings, siblings[i].file_id) == Some(i),
        place_of(siblings, siblings[i + 1].file_id) == Some(i + 1),
{
    lemma_only_place(siblings, i);
    lemma_only_place(siblings, i + 1);
}

proof fn lemma_only_place(siblings: Seq<BrowseItem>, i: int)
    requires
        0 <= i < siblings.len(),
        forall|a: int, b: int|
            #![trigger siblings[a], siblings[b]]
            0 <= a < siblings.len() && 0 <= b < siblings.len() && a != b ==> !is_of(
                siblings[a],
                siblings[b].file_id,
            ),
    ensures
        place_of(siblings, siblings[i].file_id) == Some(i),
{
    lemma_no_place(siblings, siblings[i].file_id, i, i);
    let upto = siblings.take(i + 1);
    assert(upto.drop_last() =~= siblings.take(i));
    assert(upto.last() == siblings[i]);
    lemma_place(siblings, siblings[i].file_id, i + 1);
}

proof fn lemma_no_place(siblings: Seq<BrowseItem>, file_id: i64, i: int, n: int)
    requires
        0 <= n <= i < siblings.len(),
        file_id == siblings[i].file_id,
        forall|a: int, b: int|
            #![trigger siblings[a], siblings[b]]
            0 <= a < siblings.len() && 0 <= b < siblings.len() && a != b ==> !is_of(
                siblings[a],
                siblings[b].file_id,
            ),
    ensures
        place_of(siblings.take(n), file_id) is None,
    decreases n,
{
    if n > 0 {
        lemma_no_place(siblings, file_id, i, n - 1);
        assert(siblings.take(n).drop_last() =~= siblings.take(n - 1));
        assert(siblings.take(n).last() == siblings[n - 1]);
        assert(!is_of(siblings[n - 1], siblings[i].file_id));
    }
}

proof fn lemma_no_place_of(siblings: Seq<BrowseItem>, file_id: i64)
    requires
        forall|j: int| 0 <= j < siblings.len() ==> !is_of(#[trigger] siblings[j], file_id),
    ensures
        place_of(siblings, file_id) is None,
    decreases siblings.len(),
{
    if siblings.len() > 0 {
        let head = siblings.drop_last();
        assert(siblings[siblings.len() - 1] == siblings.last());
        assert forall|j: int| 0 <= j < head.len() implies !is_of(#[trigger] head[j], file_id) by {
            assert(head[j] == siblings[j]);
        }
        lemma_no_place_of(head, file_id);
    }
}

/// A file's place among its siblings is that of the first item that is of it,
/// whether as its primary or as another copy; without one it has none.
pub proof fn copies_find_their_place(siblings: Seq<BrowseItem>, file_id: i64, i: int)
    ensures
        (forall|j: int|
            0 <= j < siblings.len() ==> (#[trigger] siblings[j]).file_id != file_id && forall|k: int|
                0 <= k < siblings[j].renditions@.len() ==> (
                #[trigger] siblings[j].renditions@[k]).file_id != file_id) ==> place_of(
            siblings,
            file_id,
        ) is None,
        0 <= i < siblings.len() && (siblings[i].file_id == file_id || exists|k: int|
            0 <= k < siblings[i].renditions@.len() && (
            #[trigger] siblings[i].renditions@[k]).file_id == file_id) && (forall|j: int|
            0 <= j < i ==> !is_of(#[trigger] siblings[j], file_id)) ==> place_of(siblings, file_id)
            == Some(i),
    decreases siblings.len(),
{
    if forall|j: int|
        0 <= j < siblings.len() ==> (#[trigger] siblings[j]).file_id != file_id && forall|k: int|
            0 <= k < siblings[j].renditions@.len() ==> (
            #[trigger] siblings[j].renditions@[k]).file_id != file_id {
        assert forall|j: int| 0 <= j < siblings.len() implies !is_of(
            #[trigger] siblings[j],
            file_id,
        ) by {
            assert(siblings[j].file_id != file_id);
        }
        lemma_no_place_of(siblings, file_id);
    }
    if 0 <= i < siblings.len() && is_of(siblings[i], file_id) && (forall|j: int|
        0 <= j < i ==> !is_of(#[trigger] siblings[j], file_id)) {
        let head = siblings.drop_last();
        assert forall|j: int| 0 <= j < i implies !is_of(#[trigger] head[j], file_id) by {
            assert(head[j] == siblings[j]);
        }
        if i < head.len() {
            assert(head[i] == siblings[i]);
            copies_find_their_place(head, file_id, i);
        } else {
            lemma_no_place_of(head, file_id);
        }
    }
}

/// A neighbour is labelled with its number, and with its season where that is
/// another than the one that is shown.
pub proof fn neighbours_are_labelled_by_number(item: BrowseItem, season: Option<i64>, s: i64, n: i64)
    ensures
        item.episode == Some(n) && item.season == Some(s) && season == Some(s) ==> label_of(
            MediaKind::Tv,
            season,
            item,
        ) == text::padded(n as int, 2) + " - "@ + didl::escaped(item.title@),
        item.episode == Some(n) && item.season == Some(s) && season != Some(s) ==> label_of(
            MediaKind::Tv,
            season,
            item,
        ) == "S"@ + text::decimal(s as int) + " "@ + text::padded(n as int, 2) + " - "@
            + didl::escaped(item.title@),
        item.track_no == Some(n) ==> label_of(MediaKind::Music, season, item) == text::decimal(
            n as int,
        ) + ". "@ + didl::escaped(item.title@),
        label_of(MediaKind::Movies, season, item) == didl::escaped(item.title@),
{
    reveal_strlit("");
    assert(""@ + text::padded(n as int, 2) =~= text::padded(n as int, 2));
}

} // verus!
