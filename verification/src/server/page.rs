//! What the pages share: their head, and what a shared link unfurls into.
use vstd::prelude::*;
use crate::db::models::MediaKind;
use crate::db::queries::files::ItemDetail;
use crate::server::assets::BASE_STYLE;
use crate::server::didl;
use crate::text;

verus! {

/// Everything before <body>: doctype, <html>/<head>, charset, viewport,
/// the title, the device icon as favicon / home-screen icon (the same
/// PNGs device.xml advertises) and any page-specific head markup. Every
/// page ends with PAGE_CLOSE.
pub open spec fn head(title: Seq<char>, extra: Seq<char>) -> Seq<char> {
    "<!doctype html>\n<html lang=\"en\"><head><meta charset=\"utf-8\"><meta name=\"viewport\" content=\"width=device-width, initial-scale=1\"><title>"@
        + title
        + "</title><link rel=\"icon\" type=\"image/png\" sizes=\"48x48\" href=\"/icon/48.png\"><link rel=\"icon\" type=\"image/png\" sizes=\"120x120\" href=\"/icon/120.png\"><link rel=\"apple-touch-icon\" href=\"/icon/120.png\">"@
        + BASE_STYLE@ + extra + "</head>\n"@
}

/// Everything before <body>: doctype, <html>/<head>, charset, viewport,
/// the title, the device icon as favicon / home-screen icon (the same
/// PNGs device.xml advertises) and any page-specific head markup. Every
/// page ends with PAGE_CLOSE.
pub fn page_head(title: &str, extra: &str) -> (r: String)
    ensures
        r@ == head(title@, extra@),
{
    let mut out = "<!doctype html>\n<html lang=\"en\"><head><meta charset=\"utf-8\"><meta name=\"viewport\" content=\"width=device-width, initial-scale=1\"><title>".to_owned();
    out.push_str(title);
    out.push_str("</title><link rel=\"icon\" type=\"image/png\" sizes=\"48x48\" href=\"/icon/48.png\"><link rel=\"icon\" type=\"image/png\" sizes=\"120x120\" href=\"/icon/120.png\"><link rel=\"apple-touch-icon\" href=\"/icon/120.png\">");
    out.push_str(BASE_STYLE);
    out.push_str(extra);
    out.push_str("</head>\n");
    out
}

pub const PAGE_CLOSE: &'static str = "\n</body></html>\n";

/// A text cut to at most `max` characters, at a space where there is one, and
/// an ellipsis.
pub open spec fn truncated(s: Seq<char>, max: int) -> Seq<char> {
    if s.len() <= max {
        s
    } else {
        let cut = s.take(max);
        (match text::rcut_once(cut, " "@) {
            Some((head, _)) => head,
            None => cut,
        }) + "…"@
    }
}

/// Truncate on a word boundary with an ellipsis. Long synopses are cut
/// down for the player's hover card and for link-preview descriptions.
pub fn truncate_words(s: &str, max: usize) -> (r: String)
    ensures
        r@ == truncated(s@, max as int),
{
    let v = text::chars_of(s);
    if v.len() <= max {
        return s.to_owned();
    }
    let cut = text::string_of(&v, 0, max);
    assert(cut@ =~= s@.take(max as int));
    let mut out = match text::rsplit_once(cut.as_str(), " ") {
        Some((head, _)) => head,
        None => cut,
    };
    out.push_str("…");
    out
}

/// What is cut is never longer than the limit and the ellipsis.
pub proof fn truncation_is_bounded(s: Seq<char>, max: int)
    requires
        0 <= max,
    ensures
        truncated(s, max).len() <= max + 1,
{
    reveal_strlit("…");
    reveal_strlit(" ");
    if s.len() > max {
        let cut = s.take(max);
        if text::rcut_once(cut, " "@) is Some {
            crate::db::queries::files::lemma_rcut_parts(cut, " "@);
        }
    }
}

pub open spec fn meta_property(name: Seq<char>, content: Seq<char>) -> Seq<char> {
    "<meta property=\"og:"@ + name + "\" content=\""@ + content + "\">"@
}

fn property(name: &str, content: &str) -> (r: String)
    ensures
        r@ == meta_property(name@, content@),
{
    let mut out = "<meta property=\"og:".to_owned();
    out.push_str(name);
    out.push_str("\" content=\"");
    out.push_str(content);
    out.push_str("\">");
    out
}

/// The description that a link preview shows: none where it is blank.
pub open spec fn shown_description(description: Option<Seq<char>>) -> Seq<char> {
    match description {
        Some(d) => if text::trimmed(d).len() == 0 {
            ""@
        } else {
            meta_property(
                "description"@,
                didl::escaped(truncated(text::trimmed(d), 300)),
            )
        },
        None => ""@,
    }
}

fn description_meta(description: Option<&str>) -> (r: String)
    ensures
        r@ == shown_description(opt_str(description)),
{
    match description {
        Some(d) => {
            let d = text::trim(d);
            if d.as_str().is_empty() {
                "".to_owned()
            } else {
                let cut = truncate_words(d.as_str(), 300);
                let cut = didl::xml_escape(cut.as_str());
                property("description", cut.as_str())
            }
        },
        None => "".to_owned(),
    }
}

pub open spec fn opt_str(o: Option<&str>) -> Option<Seq<char>> {
    match o {
        Some(s) => Some(s@),
        None => None,
    }
}

/// The picture that a link preview shows.
pub open spec fn shown_image(base: Seq<char>, art_id: Option<i64>) -> Seq<char> {
    match art_id {
        Some(id) => meta_property(
            "image"@,
            didl::escaped(base) + "/art/"@ + text::decimal(id as int) + "/og.jpg"@,
        ),
        None => ""@,
    }
}

fn image_meta(base: &str, art_id: Option<i64>) -> (r: String)
    ensures
        r@ == shown_image(base@, art_id),
{
    match art_id {
        Some(id) => {
            let mut url = didl::xml_escape(base);
            url.push_str("/art/");
            let id = text::dec(id);
            url.push_str(id.as_str());
            url.push_str("/og.jpg");
            property("image", url.as_str())
        },
        None => "".to_owned(),
    }
}

/// Open Graph tags of a page.
pub open spec fn preview(
    base: Seq<char>,
    path: Seq<char>,
    kind: Seq<char>,
    title: Seq<char>,
    description: Option<Seq<char>>,
    art_id: Option<i64>,
    site: Seq<char>,
) -> Seq<char> {
    meta_property("type"@, kind) + meta_property("site_name"@, didl::escaped(site))
        + meta_property("url"@, didl::escaped(base) + didl::escaped(path)) + meta_property(
        "title"@,
        didl::escaped(title),
    ) + "<meta name=\"twitter:card\" content=\"summary\">"@ + shown_description(description)
        + shown_image(base, art_id)
}

/// Open Graph tags (plus a Twitter card hint) for the page head, so a
/// link shared into a chat or feed unfurls into a title / description /
/// poster card. Scrapers resolve no relative URLs, so everything is
/// absolute against the origin the visitor actually used; the image is
/// the downscaled /art/{id}/og.jpg rendition because several platforms
/// silently drop preview images beyond a few hundred KB.
pub fn og_meta(
    base: &str,
    path: &str,
    kind: &str,
    title: &str,
    description: Option<&str>,
    art_id: Option<i64>,
    site: &str,
) -> (r: String)
    ensures
        r@ == preview(base@, path@, kind@, title@, opt_str(description), art_id, site@),
{
    let mut out = property("type", kind);
    let site = didl::xml_escape(site);
    let site = property("site_name", site.as_str());
    out.push_str(site.as_str());
    let mut url = didl::xml_escape(base);
    let path = didl::xml_escape(path);
    url.push_str(path.as_str());
    let url = property("url", url.as_str());
    out.push_str(url.as_str());
    let title = didl::xml_escape(title);
    let title = property("title", title.as_str());
    out.push_str(title.as_str());
    out.push_str("<meta name=\"twitter:card\" content=\"summary\">");
    let desc = description_meta(description);
    out.push_str(desc.as_str());
    let image = image_meta(base, art_id);
    out.push_str(image.as_str());
    out
}

/// A title with its year.
pub open spec fn dated(title: Seq<char>, year: Option<i64>) -> Seq<char> {
    match year {
        Some(y) => title + " ("@ + text::decimal(y as int) + ")"@,
        None => title,
    }
}

pub fn with_year(title: &str, year: Option<i64>) -> (r: String)
    ensures
        r@ == dated(title@, year),
{
    let mut out = title.to_owned();
    if let Some(y) = year {
        out.push_str(" (");
        let y = text::dec(y);
        out.push_str(y.as_str());
        out.push_str(")");
    }
    out
}

/// The browser-tab title of an item.
pub open spec fn tab_of(d: ItemDetail) -> Seq<char> {
    match (d.series, d.season) {
        (Some(series), Some(season)) => d.title@ + " (S"@ + text::padded(season as int, 2) + " - "@
            + series@ + ")"@,
        _ => dated(d.title@, d.year),
    }
}

/// The browser-tab <title> for one playable item. Episodes carry their
/// season and series — "Do Not Resuscitate (S02 - The Sopranos)" — so a
/// tab stays identifiable among others; everything else is the title
/// with its year.
pub fn tab_title(detail: &ItemDetail) -> (r: String)
    ensures
        r@ == tab_of(*detail),
{
    match (&detail.series, detail.season) {
        (Some(series), Some(season)) => {
            let mut out = detail.title.clone();
            out.push_str(" (S");
            let s = text::dec_padded(season, 2);
            out.push_str(s.as_str());
            out.push_str(" - ");
            out.push_str(series.as_str());
            out.push_str(")");
            out
        },
        _ => with_year(detail.title.as_str(), detail.year),
    }
}

/// What an item is called where its context is out of sight: series and SxxEyy
/// for TV, the artist for music, the year for movies.
pub open spec fn shared_title(d: ItemDetail) -> Seq<char> {
    match (d.series, d.season, d.episode) {
        (Some(series), Some(season), Some(episode)) => series@ + " S"@ + text::padded(
            season as int,
            2,
        ) + "E"@ + text::padded(episode as int, 2) + " — "@ + d.title@,
        _ => match d.artist {
            Some(artist) if d.kind == MediaKind::Music => artist@ + " — "@ + d.title@,
            _ => dated(d.title@, d.year),
        },
    }
}

fn share_title(d: &ItemDetail) -> (r: String)
    ensures
        r@ == shared_title(*d),
{
    if let (Some(series), Some(season), Some(episode)) = (&d.series, d.season, d.episode) {
        let mut out = series.clone();
        out.push_str(" S");
        let s = text::dec_padded(season, 2);
        out.push_str(s.as_str());
        out.push_str("E");
        let e = text::dec_padded(episode, 2);
        out.push_str(e.as_str());
        out.push_str(" — ");
        out.push_str(d.title.as_str());
        return out;
    }
    if let Some(artist) = &d.artist {
        if d.kind == MediaKind::Music {
            let mut out = artist.clone();
            out.push_str(" — ");
            out.push_str(d.title.as_str());
            return out;
        }
    }
    with_year(d.title.as_str(), d.year)
}

/// What describes an item: its synopsis; tracks have none, so the album is the
/// next best context.
pub open spec fn synopsis(d: ItemDetail) -> Option<Seq<char>> {
    match d.plot {
        Some(p) if text::trimmed(p@).len() > 0 => Some(p@),
        _ => if d.kind == MediaKind::Music {
            text::opt_text(d.album)
        } else {
            None
        },
    }
}

fn synopsis_of(d: &ItemDetail) -> (r: Option<&str>)
    ensures
        opt_str(r) == synopsis(*d),
{
    if let Some(p) = &d.plot {
        let t = text::trim(p.as_str());
        if !t.as_str().is_empty() {
            return Some(p.as_str());
        }
    }
    if d.kind == MediaKind::Music {
        match &d.album {
            Some(a) => Some(a.as_str()),
            None => None,
        }
    } else {
        None
    }
}

pub open spec fn og_kind(kind: MediaKind) -> Seq<char> {
    match kind {
        MediaKind::Movies => "video.movie"@,
        MediaKind::Tv => "video.episode"@,
        MediaKind::Music => "music.song"@,
    }
}

pub open spec fn item_preview(base: Seq<char>, path: Seq<char>, d: ItemDetail, site: Seq<char>) -> Seq<
    char,
> {
    preview(
        base,
        path,
        og_kind(d.kind),
        shared_title(d),
        synopsis(d),
        if d.has_art {
            Some(d.file_id)
        } else {
            None
        },
        site,
    )
}

/// OG tags for one playable item, shared by the detail and player pages.
/// The plain-text title carries the context a bare episode or track title
/// lacks when it lands in a chat: series and SxxEyy for TV, the artist
/// for music, the year for movies.
pub fn item_og_meta(base: &str, path: &str, detail: &ItemDetail, site: &str) -> (r: String)
    ensures
        r@ == item_preview(base@, path@, *detail, site@),
{
    let title = share_title(detail);
    let kind = match detail.kind {
        MediaKind::Movies => "video.movie",
        MediaKind::Tv => "video.episode",
        MediaKind::Music => "music.song",
    };
    let art: Option<i64> = if detail.has_art {
        Some(detail.file_id)
    } else {
        None
    };
    og_meta(base, path, kind, title.as_str(), synopsis_of(detail), art, site)
}

} // verus!
