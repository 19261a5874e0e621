//! The detail page of an item.
use vstd::prelude::*;
use crate::db::models::{BrowseItem, MediaKind, Score};
use crate::db::queries::files::ItemDetail;
use crate::server::assets;
use crate::server::assets::PLAYER_STYLE;
use crate::server::browse;
use crate::server::didl;
use crate::server::formats;
use crate::server::objectid::{id_of, ObjectId};
use crate::server::page;
use crate::server::page::PAGE_CLOSE;
use crate::server::player;
use crate::server::player::item_view;
use crate::text;

verus! {

/// Everything that the detail page shows.
#[derive(Debug)]
pub struct ItemPage {
    pub id: i64,
    pub detail: ItemDetail,
    /// The genres and directors of the item, by id: their browse categories.
    pub genres: Vec<(i64, String)>,
    pub directors: Vec<(i64, String)>,
    /// The audio sample rate in kHz, as it is shown.
    pub sample_rate: Option<String>,
    /// What the browser calls itself.
    pub user_agent: String,
    pub prev: Option<BrowseItem>,
    pub next: Option<BrowseItem>,
    /// The origin of links, and the server's name.
    pub base: String,
    pub site: String,
}

// -------------------------------------------------------------------- facts

/// One row of the table of facts.
pub open spec fn fact_of(name: Seq<char>, value: Seq<char>) -> Seq<char> {
    "<tr><td style=\"color:#666;padding-right:1em;white-space:nowrap\">"@ + name + "</td><td>"@
        + value + "</td></tr>"@
}

/// One row of the table of facts.
fn fact(name: &str, value: &str) -> (r: String)
    ensures
        r@ == fact_of(name@, value@),
{
    let mut out = "<tr><td style=\"color:#666;padding-right:1em;white-space:nowrap\">".to_owned();
    out.push_str(name);
    out.push_str("</td><td>");
    out.push_str(value);
    out.push_str("</td></tr>");
    out
}

pub open spec fn opt_fact_of(name: Seq<char>, value: Option<Seq<char>>) -> Seq<char> {
    match value {
        Some(v) => fact_of(name, v),
        None => ""@,
    }
}

fn opt_fact(name: &str, value: Option<String>) -> (r: String)
    ensures
        r@ == opt_fact_of(name@, text::opt_text(value)),
{
    match value {
        Some(v) => fact(name, v.as_str()),
        None => "".to_owned(),
    }
}

/// A link to an IMDb entry.
pub open spec fn imdb_link_of(id: Seq<char>) -> Seq<char> {
    "<a href=\"https://www.imdb.com/title/"@ + id + "/\">"@ + id + "</a>"@
}

/// A link to an IMDb entry.
fn imdb_link(id: &str) -> (r: String)
    ensures
        r@ == imdb_link_of(id@),
{
    let mut out = "<a href=\"https://www.imdb.com/title/".to_owned();
    out.push_str(id);
    out.push_str("/\">");
    out.push_str(id);
    out.push_str("</a>");
    out
}

pub open spec fn imdb_row_of(rating: Option<Score>, id: Option<Seq<char>>) -> Seq<char> {
    match (rating, id) {
        (Some(s), Some(id)) => fact_of("IMDb"@, s.label@ + " / 10 — "@ + imdb_link_of(id)),
        (Some(s), None) => fact_of("IMDb rating"@, s.label@ + " / 10"@),
        (None, Some(id)) => fact_of("IMDb"@, imdb_link_of(id)),
        (None, None) => ""@,
    }
}

fn imdb_row(d: &ItemDetail) -> (r: String)
    ensures
        r@ == imdb_row_of(d.rating, browse::printable_id(text::opt_text(d.imdb_id))),
{
    match (&d.rating, browse::print_id(&d.imdb_id)) {
        (Some(s), Some(id)) => {
            let mut v = s.label.clone();
            v.push_str(" / 10 — ");
            let link = imdb_link(id);
            v.push_str(link.as_str());
            fact("IMDb", v.as_str())
        },
        (Some(s), None) => {
            let mut v = s.label.clone();
            v.push_str(" / 10");
            fact("IMDb rating", v.as_str())
        },
        (None, Some(id)) => {
            let link = imdb_link(id);
            fact("IMDb", link.as_str())
        },
        (None, None) => "".to_owned(),
    }
}

/// A link into a browse category.
pub open spec fn category_link_of(prefix: Seq<char>, id: i64, name: Seq<char>) -> Seq<char> {
    "<a href=\"/browse/"@ + prefix + ":"@ + text::decimal(id as int) + "\">"@ + didl::escaped(name) + "</a>"@
}

/// A link into a browse category.
fn category_link(prefix: &str, id: i64, name: &str) -> (r: String)
    ensures
        r@ == category_link_of(prefix@, id, name@),
{
    let mut out = "<a href=\"/browse/".to_owned();
    out.push_str(prefix);
    out.push_str(":");
    let part1 = text::dec(id);
    out.push_str(part1.as_str());
    out.push_str("\">");
    let part2 = didl::xml_escape(name);
    out.push_str(part2.as_str());
    out.push_str("</a>");
    out
}

pub open spec fn category_links(prefix: Seq<char>, pairs: Seq<(i64, String)>) -> Seq<Seq<char>> {
    Seq::new(pairs.len(), |i: int| category_link_of(prefix, pairs[i].0, pairs[i].1@))
}

/// Labels that link into their browse categories; where no category is known,
/// the plain name.
pub open spec fn labels_row(
    name: Seq<char>,
    prefix: Seq<char>,
    pairs: Seq<(i64, String)>,
    plain: Option<Seq<char>>,
) -> Seq<char> {
    if pairs.len() > 0 {
        fact_of(name, text::joined(category_links(prefix, pairs), ", "@))
    } else {
        match plain {
            Some(p) => fact_of(name, didl::escaped(p)),
            None => ""@,
        }
    }
}

fn labels(name: &str, prefix: &str, pairs: &Vec<(i64, String)>, plain: &Option<String>) -> (r: String)
    ensures
        r@ == labels_row(name@, prefix@, pairs@, text::opt_text(*plain)),
{
    if pairs.len() > 0 {
        let mut links: Vec<String> = Vec::new();
        let ghost goal = category_links(prefix@, pairs@);
        let mut i: usize = 0;
        assert(text::texts(links@) =~= goal.take(0));
        while i < pairs.len()
            invariant
                i <= pairs.len(),
                goal == category_links(prefix@, pairs@),
                text::texts(links@) == goal.take(i as int),
            decreases pairs.len() - i,
        {
            let one = category_link(prefix, pairs[i].0, pairs[i].1.as_str());
            text::push_text(&mut links, one.as_str());
            i += 1;
            assert(text::texts(links@) =~= goal.take(i as int));
        }
        assert(goal.take(i as int) =~= goal);
        let all = text::join(&links, ", ");
        fact(name, all.as_str())
    } else {
        match plain {
            Some(p) => {
                let p = didl::xml_escape(p.as_str());
                fact(name, p.as_str())
            },
            None => "".to_owned(),
        }
    }
}

pub open spec fn genre_prefix(kind: MediaKind) -> Seq<char> {
    match kind {
        MediaKind::Music => "mu:genre"@,
        _ => "mv:genre"@,
    }
}

fn genre_prefix_text(kind: MediaKind) -> (r: &'static str)
    ensures
        r@ == genre_prefix(kind),
{
    match kind {
        MediaKind::Music => "mu:genre",
        _ => "mv:genre",
    }
}

pub open spec fn franchise_row(collection: Option<Seq<char>>) -> Seq<char> {
    match collection {
        Some(c) => fact_of(
            "Franchise"@,
            player::node_link(id_of(ObjectId::MoviesFranchise(c)), didl::escaped(c)),
        ),
        None => ""@,
    }
}

fn franchise(collection: &Option<String>) -> (r: String)
    ensures
        r@ == franchise_row(text::opt_text(*collection)),
{
    match collection {
        Some(c) => {
            let label = didl::xml_escape(c.as_str());
            let node: ObjectId = ObjectId::MoviesFranchise(c.clone());
            let link = player::link_node(&node, label.as_str());
            fact("Franchise", link.as_str())
        },
        None => "".to_owned(),
    }
}

pub open spec fn duration_row(ms: Option<i64>) -> Seq<char> {
    match ms {
        Some(ms) => fact_of("Duration"@, formats::duration_text(ms as int)),
        None => ""@,
    }
}

fn duration(ms: Option<i64>) -> (r: String)
    ensures
        r@ == duration_row(ms),
{
    match ms {
        Some(ms) => {
            let t = formats::human_duration(ms);
            fact("Duration", t.as_str())
        },
        None => "".to_owned(),
    }
}

pub open spec fn resolution_row(d: ItemDetail) -> Seq<char> {
    match (d.width, d.height) {
        (Some(w), Some(h)) => fact_of(
            "Resolution"@,
            text::decimal(w as int) + " × "@ + text::decimal(h as int) + (match d.frame_rate {
                Some(fps) => " @ "@ + fps@ + " fps"@,
                None => ""@,
            }),
        ),
        _ => ""@,
    }
}

fn resolution(d: &ItemDetail) -> (r: String)
    ensures
        r@ == resolution_row(*d),
{
    match (d.width, d.height) {
        (Some(w), Some(h)) => {
            let mut v = text::dec(w);
            v.push_str(" × ");
            let h = text::dec(h);
            v.push_str(h.as_str());
            let fps = match &d.frame_rate {
                Some(fps) => {
                    let mut t = " @ ".to_owned();
                    t.push_str(fps.as_str());
                    t.push_str(" fps");
                    t
                },
                None => "".to_owned(),
            };
            v.push_str(fps.as_str());
            fact("Resolution", v.as_str())
        },
        _ => "".to_owned(),
    }
}

/// The audio format: the profile where there is one, else the codec.
pub open spec fn audio_of(d: ItemDetail) -> Option<Seq<char>> {
    match d.audio_profile {
        Some(p) => Some(p@),
        None => text::opt_text(d.audio_codec),
    }
}

pub open spec fn codecs_row(video: Option<Seq<char>>, audio: Option<Seq<char>>) -> Seq<char> {
    match (video, audio) {
        (Some(v), Some(a)) => fact_of("Codecs"@, didl::escaped(v + " video, "@ + a + " audio"@)),
        (Some(v), None) => fact_of("Codecs"@, didl::escaped(v + " video"@)),
        (None, Some(a)) => fact_of("Codec"@, didl::escaped(a)),
        (None, None) => ""@,
    }
}

fn codecs(d: &ItemDetail) -> (r: String)
    ensures
        r@ == codecs_row(text::opt_text(d.video_codec), audio_of(*d)),
{
    let audio = match &d.audio_profile {
        Some(p) => Some(p.clone()),
        None => d.audio_codec.clone(),
    };
    match (&d.video_codec, &audio) {
        (Some(v), Some(a)) => {
            let mut t = v.clone();
            t.push_str(" video, ");
            t.push_str(a.as_str());
            t.push_str(" audio");
            let t = didl::xml_escape(t.as_str());
            fact("Codecs", t.as_str())
        },
        (Some(v), None) => {
            let mut t = v.clone();
            t.push_str(" video");
            let t = didl::xml_escape(t.as_str());
            fact("Codecs", t.as_str())
        },
        (None, Some(a)) => {
            let t = didl::xml_escape(a.as_str());
            fact("Codec", t.as_str())
        },
        (None, None) => "".to_owned(),
    }
}

/// A row of a number with its unit behind it.
pub open spec fn number_row(name: Seq<char>, n: Option<i64>, unit: Seq<char>) -> Seq<char> {
    match n {
        Some(n) => fact_of(name, text::decimal(n as int) + unit),
        None => ""@,
    }
}

fn number(name: &str, n: Option<i64>, unit: &str) -> (r: String)
    ensures
        r@ == number_row(name@, n, unit@),
{
    match n {
        Some(n) => {
            let mut v = text::dec(n);
            v.push_str(unit);
            fact(name, v.as_str())
        },
        None => "".to_owned(),
    }
}

pub open spec fn channels_text(n: i64) -> Seq<char> {
    if n == 1 {
        "mono"@
    } else if n == 2 {
        "stereo"@
    } else if n == 6 {
        "5.1"@
    } else if n == 8 {
        "7.1"@
    } else {
        text::decimal(n as int) + " channels"@
    }
}

pub open spec fn channels_row(n: Option<i64>) -> Seq<char> {
    match n {
        Some(n) => fact_of("Channels"@, channels_text(n)),
        None => ""@,
    }
}

fn channels(n: Option<i64>) -> (r: String)
    ensures
        r@ == channels_row(n),
{
    match n {
        Some(n) => {
            let label = if n == 1 {
                "mono".to_owned()
            } else if n == 2 {
                "stereo".to_owned()
            } else if n == 6 {
                "5.1".to_owned()
            } else if n == 8 {
                "7.1".to_owned()
            } else {
                let mut t = text::dec(n);
                t.push_str(" channels");
                t
            };
            fact("Channels", label.as_str())
        },
        None => "".to_owned(),
    }
}

/// The facts that every file has.
pub open spec fn file_rows(d: ItemDetail) -> Seq<char> {
    fact_of("File size"@, formats::size_text(d.size as int)) + fact_of(
        "MIME type"@,
        didl::escaped(d.mime@),
    ) + fact_of("Added"@, didl::escaped(d.added_at_text@)) + fact_of(
        "File"@,
        didl::escaped(d.rel_path@),
    )
}

fn file_facts(d: &ItemDetail) -> (r: String)
    ensures
        r@ == file_rows(*d),
{
    let size = formats::human_size(d.size);
    let mut out = fact("File size", size.as_str());
    let mime = didl::xml_escape(d.mime.as_str());
    let row = fact("MIME type", mime.as_str());
    out.push_str(row.as_str());
    let added = didl::xml_escape(d.added_at_text.as_str());
    let row = fact("Added", added.as_str());
    out.push_str(row.as_str());
    let file = didl::xml_escape(d.rel_path.as_str());
    let row = fact("File", file.as_str());
    out.push_str(row.as_str());
    out
}

pub open spec fn khz(rate: Option<Seq<char>>) -> Option<Seq<char>> {
    match rate {
        Some(r) => Some(r + " kHz"@),
        None => None,
    }
}

fn in_khz(rate: &Option<String>) -> (r: Option<String>)
    ensures
        text::opt_text(r) == khz(text::opt_text(*rate)),
{
    match rate {
        Some(r) => {
            let mut t = r.clone();
            t.push_str(" kHz");
            Some(t)
        },
        None => None,
    }
}

/// What the catalog knows about an item, one row for each fact that it knows.
pub open spec fn facts_rows(p: ItemPage) -> Seq<char> {
    imdb_row_of(p.detail.rating, browse::printable_id(text::opt_text(p.detail.imdb_id)))
        + labels_row("Genre"@, genre_prefix(p.detail.kind), p.genres@, text::opt_text(p.detail.genre))
        + franchise_row(text::opt_text(p.detail.collection))
        + labels_row("Director"@, "mv:director"@, p.directors@, text::opt_text(p.detail.director))
        + duration_row(p.detail.duration_ms) + resolution_row(p.detail)
        + codecs_row(text::opt_text(p.detail.video_codec), audio_of(p.detail))
        + number_row("Bitrate"@, p.detail.audio_bitrate, " kbps"@)
        + opt_fact_of("Sample rate"@, khz(text::opt_text(p.sample_rate)))
        + number_row("Bit depth"@, p.detail.audio_bit_depth, "-bit"@)
        + channels_row(p.detail.audio_channels)
        + opt_fact_of("Container"@, player::escaped_opt(p.detail.container)) + file_rows(p.detail)
}

/// What the catalog knows about an item, one row for each fact that it knows.
fn facts_table(p: &ItemPage) -> (r: String)
    ensures
        r@ == facts_rows(*p),
{
    let mut out = imdb_row(&p.detail);
    let part2 = labels("Genre", genre_prefix_text(p.detail.kind), &p.genres, &p.detail.genre);
    out.push_str(part2.as_str());
    let part3 = franchise(&p.detail.collection);
    out.push_str(part3.as_str());
    let part4 = labels("Director", "mv:director", &p.directors, &p.detail.director);
    out.push_str(part4.as_str());
    let part5 = duration(p.detail.duration_ms);
    out.push_str(part5.as_str());
    let part6 = resolution(&p.detail);
    out.push_str(part6.as_str());
    let part7 = codecs(&p.detail);
    out.push_str(part7.as_str());
    let part8 = number("Bitrate", p.detail.audio_bitrate, " kbps");
    out.push_str(part8.as_str());
    let part9 = opt_fact("Sample rate", in_khz(&p.sample_rate));
    out.push_str(part9.as_str());
    let part10 = number("Bit depth", p.detail.audio_bit_depth, "-bit");
    out.push_str(part10.as_str());
    let part11 = channels(p.detail.audio_channels);
    out.push_str(part11.as_str());
    let part12 = opt_fact("Container", player::escape_opt(&p.detail.container));
    out.push_str(part12.as_str());
    let part13 = file_facts(&p.detail);
    out.push_str(part13.as_str());
    out
}

// ------------------------------------------------------------------ warning

/// Known browser blind spots: Firefox neither range-streams non-WebM Matroska
/// (it downloads the whole file linearly) nor, on most platforms, decodes HEVC;
/// Safari does HEVC fine but cannot open the Matroska container at all.
pub open spec fn is_firefox(user_agent: Seq<char>) -> bool {
    text::holds(user_agent, "Firefox/"@) && !text::holds(user_agent, "Seamonkey"@)
}

pub open spec fn is_safari(user_agent: Seq<char>) -> bool {
    text::holds(user_agent, "Safari/"@) && !text::holds(user_agent, "Chrome/"@) && !text::holds(
        user_agent,
        "Chromium/"@,
    ) && !text::holds(user_agent, "CriOS/"@) && !text::holds(user_agent, "Edg/"@)
}

pub open spec fn is_hevc(codec: Option<Seq<char>>) -> bool {
    codec == Some("hevc"@) || codec == Some("h265"@) || codec == Some("x265"@)
}

/// What it is that a browser likely cannot play, and the browser's name.
pub open spec fn problem_of(user_agent: Seq<char>, mkv: bool, hevc: bool) -> Option<
    (Seq<char>, Seq<char>),
> {
    if is_firefox(user_agent) && (mkv || hevc) {
        Some(
            (
                if mkv && hevc {
                    "an MKV with HEVC video"@
                } else if mkv {
                    "an MKV file"@
                } else {
                    "HEVC video"@
                },
                "Firefox"@,
            ),
        )
    } else if is_safari(user_agent) && mkv {
        Some(("an MKV file"@, "Safari"@))
    } else {
        None
    }
}

pub open spec fn pair_view(o: Option<(&'static str, &'static str)>) -> Option<(Seq<char>, Seq<char>)> {
    match o {
        Some((a, b)) => Some((a@, b@)),
        None => None,
    }
}

/// What it is that a browser likely cannot play, and the browser's name.
pub fn problem(user_agent: &str, mkv: bool, hevc: bool) -> (r: Option<(&'static str, &'static str)>)
    ensures
        pair_view(r) == problem_of(user_agent@, mkv, hevc),
{
    let firefox = text::contains(user_agent, "Firefox/") && !text::contains(user_agent, "Seamonkey");
    let safari = text::contains(user_agent, "Safari/") && !text::contains(user_agent, "Chrome/")
        && !text::contains(user_agent, "Chromium/") && !text::contains(user_agent, "CriOS/")
        && !text::contains(user_agent, "Edg/");
    if firefox && (mkv || hevc) {
        let what = if mkv && hevc {
            "an MKV with HEVC video"
        } else if mkv {
            "an MKV file"
        } else {
            "HEVC video"
        };
        Some((what, "Firefox"))
    } else if safari && mkv {
        Some(("an MKV file", "Safari"))
    } else {
        None
    }
}

fn hevc(codec: &Option<String>) -> (r: bool)
    ensures
        r == is_hevc(text::opt_text(*codec)),
{
    match codec {
        Some(c) => text::same(c.as_str(), "hevc") || text::same(c.as_str(), "h265") || text::same(
            c.as_str(),
            "x265",
        ),
        None => false,
    }
}

/// Warn rather than let anyone pull gigabytes for nothing.
pub open spec fn warning_of(what: Seq<char>, browser: Seq<char>) -> Seq<char> {
    "<p style=\"color:#c00;font-size:.85em;max-width:38em\">⚠ This is "@ + what + ", which "@
        + browser
        + " likely cannot play — it may download the entire file without ever starting. Use the direct stream link in VLC instead.</p>"@
}

/// Warn rather than let anyone pull gigabytes for nothing.
fn warning(what: &str, browser: &str) -> (r: String)
    ensures
        r@ == warning_of(what@, browser@),
{
    let mut out = "<p style=\"color:#c00;font-size:.85em;max-width:38em\">⚠ This is ".to_owned();
    out.push_str(what);
    out.push_str(", which ");
    out.push_str(browser);
    out.push_str(" likely cannot play — it may download the entire file without ever starting. Use the direct stream link in VLC instead.</p>");
    out
}

pub open spec fn play_links_of(p: ItemPage) -> Seq<char> {
    "<p><a href=\"/play/"@ + text::decimal(p.id as int)
        + "\" style=\"font-size:1.1em\">▶ Play in browser</a> &nbsp; <small><a href=\"/media/"@
        + text::decimal(p.id as int) + "\">direct stream</a></small></p>"@ + (match problem_of(
        p.user_agent@,
        p.detail.mime@ == "video/x-matroska"@,
        is_hevc(text::opt_text(p.detail.video_codec)),
    ) {
        Some((what, browser)) => warning_of(what, browser),
        None => ""@,
    })
}

fn play_links(p: &ItemPage) -> (r: String)
    ensures
        r@ == play_links_of(*p),
{
    let id = text::dec(p.id);
    let mut out = "<p><a href=\"/play/".to_owned();
    out.push_str(id.as_str());
    out.push_str(
        "\" style=\"font-size:1.1em\">▶ Play in browser</a> &nbsp; <small><a href=\"/media/",
    );
    out.push_str(id.as_str());
    out.push_str("\">direct stream</a></small></p>");
    let mkv = text::same(p.detail.mime.as_str(), "video/x-matroska");
    let told = match problem(p.user_agent.as_str(), mkv, hevc(&p.detail.video_codec)) {
        Some((what, browser)) => warning(what, browser),
        None => "".to_owned(),
    };
    out.push_str(told.as_str());
    out
}

// --------------------------------------------------------------------- page

pub const UHD_MARK: &'static str =
    " <span style=\"font-size:.45em;border:1.5px solid #666;border-radius:4px;padding:.05em .35em;color:#555;vertical-align:middle\">4K</span>";

/// The heading; the 4K chip is markup for the heading only, the tab takes the
/// plain text.
pub open spec fn heading_html(d: ItemDetail) -> Seq<char> {
    player::heading_of(d) + (if formats::uhd(d.width, d.height) {
        UHD_MARK@
    } else {
        ""@
    })
}

pub open spec fn subtitle_html(context: Seq<char>) -> Seq<char> {
    if context.len() == 0 {
        ""@
    } else {
        "<p><strong>"@ + context + "</strong></p>"@
    }
}

fn subtitle(d: &ItemDetail) -> (r: String)
    ensures
        r@ == subtitle_html(player::context_of(*d, true)),
{
    let context = player::context_html(d, true);
    if context.as_str().is_empty() {
        "".to_owned()
    } else {
        let mut out = "<p><strong>".to_owned();
        out.push_str(context.as_str());
        out.push_str("</strong></p>");
        out
    }
}

pub open spec fn plot_html_of(plot: Option<Seq<char>>) -> Seq<char> {
    match plot {
        Some(p) => "<p style=\"max-width:38em\">"@ + didl::escaped(p) + "</p>"@,
        None => ""@,
    }
}

fn plot(d: &ItemDetail) -> (r: String)
    ensures
        r@ == plot_html_of(player::plot_of(*d)),
{
    match player::shown_plot(d) {
        Some(p) => {
            let mut out = "<p style=\"max-width:38em\">".to_owned();
            let e = didl::xml_escape(p);
            out.push_str(e.as_str());
            out.push_str("</p>");
            out
        },
        None => "".to_owned(),
    }
}

/// The art, the heading, where the item sits and its synopsis.
pub open spec fn about_of(p: ItemPage) -> Seq<char> {
    (if p.detail.has_art {
        "<img src=\"/art/"@ + text::decimal(p.id as int) + "\" alt=\"\" class=\"art\">"@
    } else {
        ""@
    }) + "<h1 style=\"margin-bottom:.2em\">"@ + heading_html(p.detail) + "</h1>"@ + subtitle_html(
        player::context_of(p.detail, true),
    ) + plot_html_of(player::plot_of(p.detail))
}

fn about(p: &ItemPage) -> (r: String)
    ensures
        r@ == about_of(*p),
{
    let mut out = if p.detail.has_art {
        let mut img = "<img src=\"/art/".to_owned();
        let id = text::dec(p.id);
        img.push_str(id.as_str());
        img.push_str("\" alt=\"\" class=\"art\">");
        img
    } else {
        "".to_owned()
    };
    out.push_str("<h1 style=\"margin-bottom:.2em\">");
    let mut h = player::heading(&p.detail);
    h.push_str(if formats::is_uhd(p.detail.width, p.detail.height) { UHD_MARK } else { "" });
    out.push_str(h.as_str());
    out.push_str("</h1>");
    let s = subtitle(&p.detail);
    out.push_str(s.as_str());
    let t = plot(&p.detail);
    out.push_str(t.as_str());
    out
}

pub open spec fn section_link(kind: MediaKind) -> Seq<char> {
    match kind {
        MediaKind::Movies => "<a href=\"/browse/mv\">Movies</a>"@,
        MediaKind::Tv => "<a href=\"/browse/tv\">TV Shows</a>"@,
        MediaKind::Music => "<a href=\"/browse/mu\">Music</a>"@,
    }
}

/// Same home icon as the browse pages, plus a jump to the item's section.
pub open spec fn top_nav_of(kind: MediaKind) -> Seq<char> {
    "<a href=\"/\" class=\"home\" title=\"Home\" aria-label=\"Home\">⌂</a> · "@ + section_link(kind)
}

fn top_nav(kind: MediaKind) -> (r: String)
    ensures
        r@ == top_nav_of(kind),
{
    let mut out =
        "<a href=\"/\" class=\"home\" title=\"Home\" aria-label=\"Home\">⌂</a> · ".to_owned();
    out.push_str(
        match kind {
            MediaKind::Movies => "<a href=\"/browse/mv\">Movies</a>",
            MediaKind::Tv => "<a href=\"/browse/tv\">TV Shows</a>",
            MediaKind::Music => "<a href=\"/browse/mu\">Music</a>",
        },
    );
    out
}

pub open spec fn item_head(p: ItemPage) -> Seq<char> {
    page::head(
        didl::escaped(page::tab_of(p.detail)),
        PLAYER_STYLE@ + page::item_preview(
            p.base@,
            player::id_path("/item/"@, p.id),
            p.detail,
            p.site@,
        ),
    )
}

fn head(p: &ItemPage) -> (r: String)
    ensures
        r@ == item_head(*p),
{
    let tab = page::tab_title(&p.detail);
    let tab = didl::xml_escape(tab.as_str());
    let mut extra = PLAYER_STYLE.to_owned();
    let path = player::path_to("/item/", p.id);
    let og = page::item_og_meta(p.base.as_str(), path.as_str(), &p.detail, p.site.as_str());
    extra.push_str(og.as_str());
    page::page_head(tab.as_str(), extra.as_str())
}

fn borrowed(o: &Option<BrowseItem>) -> (r: Option<&BrowseItem>)
    ensures
        item_view(r) == *o,
{
    match o {
        Some(i) => Some(i),
        None => None,
    }
}

pub open spec fn table_of(p: ItemPage) -> Seq<char> {
    "<table style=\"border-collapse:collapse\">"@ + facts_rows(p) + "</table>"@ + player::nav_of(
        p.detail.kind,
        p.detail.season,
        p.prev,
        p.next,
    )
}

fn table(p: &ItemPage) -> (r: String)
    ensures
        r@ == table_of(*p),
{
    let mut out = "<table style=\"border-collapse:collapse\">".to_owned();
    let rows = facts_table(p);
    out.push_str(rows.as_str());
    out.push_str("</table>");
    let nav = player::neighbour_nav_html(
        p.detail.kind,
        p.detail.season,
        borrowed(&p.prev),
        borrowed(&p.next),
    );
    out.push_str(nav.as_str());
    out
}

/// What is said of the song after this one.
pub open spec fn song_note(p: ItemPage) -> Seq<char> {
    match p.next {
        Some(n) => "Next up: "@ + player::swap_link_of(
            "/item/"@,
            n.file_id,
            player::label_of(p.detail.kind, p.detail.season, n),
        ),
        None => "This is the last song available."@,
    }
}

fn song_note_html(p: &ItemPage) -> (r: String)
    ensures
        r@ == song_note(*p),
{
    match &p.next {
        Some(n) => {
            let mut out = "Next up: ".to_owned();
            let l = player::neighbour_label(p.detail.kind, p.detail.season, n);
            let link = player::swap_link("/item/", n.file_id, l.as_str());
            out.push_str(link.as_str());
            out
        },
        None => "This is the last song available.".to_owned(),
    }
}

/// The player lives on the detail page itself, and the next track is swapped in
/// place when one ends: the regions marked data-swap are replaced, the <audio>
/// stays.
pub open spec fn music_body_of(p: ItemPage) -> Seq<char> {
    "<body class=\"detail\"><p id=\"top\" data-swap>"@ + top_nav_of(p.detail.kind)
        + "</p><div id=\"above\" data-swap>"@ + about_of(p)
        + "</div><div style=\"overflow:hidden\"><audio id=\"player\" controls preload=\"metadata\" data-id=\""@
        + text::decimal(p.id as int) + "\" data-next=\""@ + player::next_id(p.next)
        + "\" style=\"display:block;width:100%\"><source src=\"/media/"@
        + text::decimal(p.id as int) + "\" type=\""@ + didl::escaped(p.detail.mime@)
        + "\"></audio><p class=\"controls\" style=\"color:#666;font-size:.9em;margin:.4em 0\"><label><input type=\"checkbox\" id=\"autonext\" checked> Auto-play next song</label><span id=\"next-note\" data-swap>"@
        + song_note(p) + "</span><small id=\"direct\" data-swap><a href=\"/media/"@
        + text::decimal(p.id as int)
        + "\">direct stream</a></small></p><p id=\"resume\" style=\"color:#393;font-size:.9em\"></p></div><div id=\"below\" data-swap>"@
        + table_of(p) + "</div>"@ + assets::player_script_text()
}

/// The player lives on the detail page itself, and the next track is swapped in
/// place when one ends: the regions marked data-swap are replaced, the <audio>
/// stays.
fn music_body(p: &ItemPage) -> (r: String)
    ensures
        r@ == music_body_of(*p),
{
    let mut out = "<body class=\"detail\"><p id=\"top\" data-swap>".to_owned();
    let part1 = top_nav(p.detail.kind);
    out.push_str(part1.as_str());
    out.push_str("</p><div id=\"above\" data-swap>");
    let part2 = about(p);
    out.push_str(part2.as_str());
    out.push_str("</div><div style=\"overflow:hidden\"><audio id=\"player\" controls preload=\"metadata\" data-id=\"");
    let part3 = text::dec(p.id);
    out.push_str(part3.as_str());
    out.push_str("\" data-next=\"");
    let part4 = player::next_id_text(borrowed(&p.next));
    out.push_str(part4.as_str());
    out.push_str("\" style=\"display:block;width:100%\"><source src=\"/media/");
    let part5 = text::dec(p.id);
    out.push_str(part5.as_str());
    out.push_str("\" type=\"");
    let part6 = didl::xml_escape(p.detail.mime.as_str());
    out.push_str(part6.as_str());
    out.push_str("\"></audio><p class=\"controls\" style=\"color:#666;font-size:.9em;margin:.4em 0\"><label><input type=\"checkbox\" id=\"autonext\" checked> Auto-play next song</label><span id=\"next-note\" data-swap>");
    let part7 = song_note_html(p);
    out.push_str(part7.as_str());
    out.push_str("</span><small id=\"direct\" data-swap><a href=\"/media/");
    let part8 = text::dec(p.id);
    out.push_str(part8.as_str());
    out.push_str("\">direct stream</a></small></p><p id=\"resume\" style=\"color:#393;font-size:.9em\"></p></div><div id=\"below\" data-swap>");
    let part9 = table(p);
    out.push_str(part9.as_str());
    out.push_str("</div>");
    let part10 = assets::player_script();
    out.push_str(part10.as_str());
    out
}

/// A film or an episode links to its player.
pub open spec fn video_body_of(p: ItemPage) -> Seq<char> {
    "<body class=\"detail\"><p>"@ + top_nav_of(p.detail.kind) + "</p>"@ + about_of(p)
        + play_links_of(p) + table_of(p)
}

/// A film or an episode links to its player.
fn video_body(p: &ItemPage) -> (r: String)
    ensures
        r@ == video_body_of(*p),
{
    let mut out = "<body class=\"detail\"><p>".to_owned();
    let part1 = top_nav(p.detail.kind);
    out.push_str(part1.as_str());
    out.push_str("</p>");
    let part2 = about(p);
    out.push_str(part2.as_str());
    let part3 = play_links(p);
    out.push_str(part3.as_str());
    let part4 = table(p);
    out.push_str(part4.as_str());
    out
}

pub open spec fn item_page_of(p: ItemPage) -> Seq<char> {
    item_head(p) + (if p.detail.kind == MediaKind::Music {
        music_body_of(p)
    } else {
        video_body_of(p)
    }) + PAGE_CLOSE@
}

/// Detail page: everything the catalog knows about one item.
pub fn item_page(p: &ItemPage) -> (r: String)
    ensures
        r@ == item_page_of(*p),
{
    let mut out = head(p);
    let body = if p.detail.kind == MediaKind::Music {
        music_body(p)
    } else {
        video_body(p)
    };
    out.push_str(body.as_str());
    out.push_str(PAGE_CLOSE);
    out
}

} // verus!
