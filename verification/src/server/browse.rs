//! The browse and search pages.
use vstd::prelude::*;
use crate::db::models::{BrowseItem, MediaKind, Score};
use crate::db::queries::tv::SeriesMeta;
use crate::order;
use crate::server::assets::COVERS_SCRIPT;
use crate::server::counts;
use crate::server::counts::Counts;
use crate::server::didl;
use crate::server::formats;
use crate::server::objectid::{parsed, ObjectId};
use crate::server::page;
use crate::server::page::PAGE_CLOSE;
use crate::server::search::SEARCH_LIMIT;
use crate::server::security;
use crate::server::tree::Entry;
use crate::text;

verus! {

/// The search box shown on browse pages, scoped to the current container.
pub open spec fn search_box(scope_oid: Seq<char>, current: Seq<char>) -> Seq<char> {
    "<form action=\"/search\" method=\"get\" style=\"margin:.6em 0\"><input type=\"hidden\" name=\"in\" value=\""@
        + didl::escaped(scope_oid) + "\"><input name=\"mq\" value=\""@ + didl::escaped(current)
        + "\" autocomplete=\"off\" placeholder=\"Search here and below…\" style=\"padding:.35em;width:16em\"> <button type=\"submit\">Search</button></form>"@
}

/// The search box shown on browse pages, scoped to the current container.
pub fn search_form(scope_oid: &str, current: &str) -> (r: String)
    ensures
        r@ == search_box(scope_oid@, current@),
{
    let mut out = "<form action=\"/search\" method=\"get\" style=\"margin:.6em 0\"><input type=\"hidden\" name=\"in\" value=\"".to_owned();
    let part1 = didl::xml_escape(scope_oid);
    out.push_str(part1.as_str());
    out.push_str("\"><input name=\"mq\" value=\"");
    let part2 = didl::xml_escape(current);
    out.push_str(part2.as_str());
    out.push_str("\" autocomplete=\"off\" placeholder=\"Search here and below…\" style=\"padding:.35em;width:16em\"> <button type=\"submit\">Search</button></form>");
    out
}

// --------------------------------------------------------------------- rows

/// (background, text) for a rating: green from 7.5, yellow from 5.5, red
/// below — white text on green/red, dark on yellow.
pub open spec fn colours_of(micros: int) -> (Seq<char>, Seq<char>) {
    if micros >= 7_500_000 {
        ("#2e7d32"@, "#fff"@)
    } else if micros >= 5_500_000 {
        ("#fbc02d"@, "#222"@)
    } else {
        ("#c62828"@, "#fff"@)
    }
}

/// (background, text) for a rating: green from 7.5, yellow from 5.5, red
/// below — white text on green/red, dark on yellow.
pub fn rating_colours(rating: &Score) -> (r: (&'static str, &'static str))
    ensures
        (r.0@, r.1@) == colours_of(rating.micros as int),
{
    if rating.micros >= 7_500_000 {
        ("#2e7d32", "#fff")
    } else if rating.micros >= 5_500_000 {
        ("#fbc02d", "#222")
    } else {
        ("#c62828", "#fff")
    }
}

/// The IMDb rating as a small coloured box at the right edge of a listing
/// row. Empty when the item has no rating.
pub open spec fn chip_of(rating: Option<Score>) -> Seq<char> {
    match rating {
        None => ""@,
        Some(s) => "<span title=\"IMDb rating\" style=\"margin-left:auto;flex-shrink:0;font-size:.75em;font-weight:bold;color:"@
            + colours_of(s.micros as int).1 + ";background:"@ + colours_of(s.micros as int).0
            + ";border-radius:3px;padding:.1em .45em;min-width:2.4em;text-align:center\">"@
            + s.label@ + "</span>"@,
    }
}

/// The IMDb rating as a small coloured box at the right edge of a listing
/// row. Empty when the item has no rating.
pub fn rating_chip(rating: &Option<Score>) -> (r: String)
    ensures
        r@ == chip_of(*rating),
{
    match rating {
        None => "".to_owned(),
        Some(s) => {
            let (background, colour) = rating_colours(s);
            let mut out =
                "<span title=\"IMDb rating\" style=\"margin-left:auto;flex-shrink:0;font-size:.75em;font-weight:bold;color:".to_owned();
            out.push_str(colour);
            out.push_str(";background:");
            out.push_str(background);
            out.push_str(
                ";border-radius:3px;padding:.1em .45em;min-width:2.4em;text-align:center\">",
            );
            out.push_str(s.label.as_str());
            out.push_str("</span>");
            out
        },
    }
}

/// A small "4K" chip; hidden-but-space-reserving for non-4K rows so
/// listing titles align.
pub open spec fn uhd_chip_of(uhd: bool) -> Seq<char> {
    "<span style=\"display:inline-block;font-size:.7em;border:1px solid #999;border-radius:3px;padding:0 .3em;margin-right:.5em;color:#666;vertical-align:middle;"@
        + (if uhd { ""@ } else { "visibility:hidden"@ }) + "\">4K</span>"@
}

/// A small "4K" chip; hidden-but-space-reserving for non-4K rows so
/// listing titles align.
pub fn uhd_chip(uhd: bool) -> (r: String)
    ensures
        r@ == uhd_chip_of(uhd),
{
    let mut out = "<span style=\"display:inline-block;font-size:.7em;border:1px solid #999;border-radius:3px;padding:0 .3em;margin-right:.5em;color:#666;vertical-align:middle;".to_owned();
    let part1 = (if uhd { "".to_owned() } else { "visibility:hidden".to_owned() });
    out.push_str(part1.as_str());
    out.push_str("\">4K</span>");
    out
}

/// One listing row.
pub open spec fn row_of(item: BrowseItem) -> Seq<char> {
    "<li style=\"display:flex;align-items:center\">"@ + (if item.kind == MediaKind::Music {
        ""@
    } else {
        uhd_chip_of(formats::uhd(item.width, item.height))
    }) + "<a href=\"/item/"@ + text::decimal(item.file_id as int) + "\">"@ + didl::escaped(item.title@)
        + "</a>"@ + chip_of(item.rating) + "</li>"@
}

/// One listing row: 4K chip, title, and the IMDb rating (movies and
/// episodes that have one) boxed at the right edge.
pub fn listing_row(item: &BrowseItem) -> (r: String)
    ensures
        r@ == row_of(*item),
{
    let mut out = "<li style=\"display:flex;align-items:center\">".to_owned();
    let chip = if item.kind == MediaKind::Music {
        "".to_owned()
    } else {
        uhd_chip(formats::is_uhd(item.width, item.height))
    };
    out.push_str(chip.as_str());
    out.push_str("<a href=\"/item/");
    let id = text::dec(item.file_id);
    out.push_str(id.as_str());
    out.push_str("\">");
    let title = didl::xml_escape(item.title.as_str());
    out.push_str(title.as_str());
    out.push_str("</a>");
    let rating = rating_chip(&item.rating);
    out.push_str(rating.as_str());
    out.push_str("</li>");
    out
}

pub open spec fn rows_of(items: Seq<BrowseItem>) -> Seq<char>
    decreases items.len(),
{
    if items.len() == 0 {
        seq![]
    } else {
        rows_of(items.drop_last()) + row_of(items.last())
    }
}

fn listing_rows(items: &Vec<BrowseItem>) -> (r: String)
    ensures
        r@ == rows_of(items@),
{
    let mut out = String::new();
    assert(out@ =~= seq![]);
    let mut i: usize = 0;
    assert(items@.take(0) =~= seq![]);
    while i < items.len()
        invariant
            i <= items.len(),
            out@ == rows_of(items@.take(i as int)),
        decreases items.len() - i,
    {
        assert(items@.take(i + 1).drop_last() =~= items@.take(i as int));
        let row = listing_row(&items[i]);
        out.push_str(row.as_str());
        i += 1;
    }
    assert(items@.take(i as int) =~= items@);
    out
}

// ------------------------------------------------------------------- search

/// What a search came to, in words.
pub open spec fn summary_of(no_terms: bool, hits: int, scope_title: Seq<char>) -> Seq<char> {
    if no_terms {
        "Enter a search term."@
    } else if hits == 0 {
        "No matches in "@ + didl::escaped(scope_title) + "."@
    } else {
        text::decimal(hits) + " match"@ + (if hits == 1 {
            ""@
        } else {
            "es"@
        }) + " in "@ + didl::escaped(scope_title) + (if hits == SEARCH_LIMIT {
            " (showing the first 500)"@
        } else {
            ""@
        })
    }
}

fn summary(no_terms: bool, hits: usize, scope_title: &str) -> (r: String)
    ensures
        r@ == summary_of(no_terms, hits as int, scope_title@),
{
    if no_terms {
        "Enter a search term.".to_owned()
    } else if hits == 0 {
        let mut out = "No matches in ".to_owned();
        let t = didl::xml_escape(scope_title);
        out.push_str(t.as_str());
        out.push_str(".");
        out
    } else {
        let mut out = text::dec_usize(hits);
        out.push_str(" match");
        out.push_str(if hits == 1 { "" } else { "es" });
        out.push_str(" in ");
        let t = didl::xml_escape(scope_title);
        out.push_str(t.as_str());
        out.push_str(if hits == SEARCH_LIMIT { " (showing the first 500)" } else { "" });
        out
    }
}

/// Search results page, scoped to a container and everything below it. With no
/// terms nothing was searched for.
pub open spec fn search_page_of(scope_id: Seq<char>, scope_title: Seq<char>, query: Seq<char>, no_terms: bool, hits: Seq<BrowseItem>) -> Seq<char> {
    page::head("Search"@, ""@) + "<body><h1>Search</h1><p><a href=\"/browse/"@
        + didl::escaped(scope_id) + "\">← Back to "@ + didl::escaped(scope_title) + "</a></p>"@
        + search_box(scope_id, query) + "<p>"@
        + summary_of(no_terms, hits.len() as int, scope_title)
        + "</p><ul style=\"list-style:none;padding:0;line-height:1.7\">"@ + rows_of(hits) + "</ul>"@
        + PAGE_CLOSE@
}

/// Search results page, scoped to a container and everything below it. With no
/// terms nothing was searched for.
pub fn search_page(scope_id: &str, scope_title: &str, query: &str, no_terms: bool, hits: &Vec<BrowseItem>) -> (r: String)
    ensures
        r@ == search_page_of(scope_id@, scope_title@, query@, no_terms, hits@),
{
    let mut out = page::page_head("Search", "");
    out.push_str("<body><h1>Search</h1><p><a href=\"/browse/");
    let part2 = didl::xml_escape(scope_id);
    out.push_str(part2.as_str());
    out.push_str("\">← Back to ");
    let part3 = didl::xml_escape(scope_title);
    out.push_str(part3.as_str());
    out.push_str("</a></p>");
    let part4 = search_form(scope_id, query);
    out.push_str(part4.as_str());
    out.push_str("<p>");
    let part5 = summary(no_terms, hits.len(), scope_title);
    out.push_str(part5.as_str());
    out.push_str("</p><ul style=\"list-style:none;padding:0;line-height:1.7\">");
    let part6 = listing_rows(hits);
    out.push_str(part6.as_str());
    out.push_str("</ul>");
    out.push_str(PAGE_CLOSE);
    out
}

// -------------------------------------------------------------------- series

/// A rating out of ten and a link to the IMDb entry, as far as they are known.
pub open spec fn imdb_line(rating: Option<Score>, id: Option<Seq<char>>) -> Option<Seq<char>> {
    match (rating, id) {
        (Some(s), Some(id)) => Some(
            "IMDb "@ + s.label@ + " / 10 — <a href=\"https://www.imdb.com/title/"@ + id + "/\">"@ + id
                + "</a>"@,
        ),
        (Some(s), None) => Some("IMDb "@ + s.label@ + " / 10"@),
        (None, Some(id)) => Some(
            "IMDb — <a href=\"https://www.imdb.com/title/"@ + id + "/\">"@ + id + "</a>"@,
        ),
        (None, None) => None,
    }
}

/// The id of an IMDb entry, where it is fit to print.
pub open spec fn printable_id(id: Option<Seq<char>>) -> Option<Seq<char>> {
    match id {
        Some(id) if security::title_id(id) => Some(id),
        _ => None,
    }
}

pub fn print_id(id: &Option<String>) -> (r: Option<&str>)
    ensures
        security::opt_str(r) == printable_id(text::opt_text(*id)),
{
    match id {
        Some(id) => security::imdb_title_id(id.as_str()),
        None => None,
    }
}

fn imdb_text(rating: &Option<Score>, id: Option<&str>) -> (r: Option<String>)
    ensures
        text::opt_text(r) == imdb_line(*rating, security::opt_str(id)),
{
    match (rating, id) {
        (Some(s), Some(id)) => {
            let mut out = "IMDb ".to_owned();
            out.push_str(s.label.as_str());
            out.push_str(" / 10 — <a href=\"https://www.imdb.com/title/");
            out.push_str(id);
            out.push_str("/\">");
            out.push_str(id);
            out.push_str("</a>");
            Some(out)
        },
        (Some(s), None) => {
            let mut out = "IMDb ".to_owned();
            out.push_str(s.label.as_str());
            out.push_str(" / 10");
            Some(out)
        },
        (None, Some(id)) => {
            let mut out = "IMDb — <a href=\"https://www.imdb.com/title/".to_owned();
            out.push_str(id);
            out.push_str("/\">");
            out.push_str(id);
            out.push_str("</a>");
            Some(out)
        },
        (None, None) => None,
    }
}

pub open spec fn plot_paragraph(plot: Seq<char>) -> Seq<char> {
    "<p style=\"max-width:38em\">"@ + didl::escaped(plot) + "</p>"@
}

pub fn plot_html(plot: &str) -> (r: String)
    ensures
        r@ == plot_paragraph(plot@),
{
    let mut out = "<p style=\"max-width:38em\">".to_owned();
    let p = didl::xml_escape(plot);
    out.push_str(p.as_str());
    out.push_str("</p>");
    out
}

pub open spec fn series_meta_of(meta: SeriesMeta) -> Seq<char> {
    (match meta.plot {
        Some(p) => plot_paragraph(p@),
        None => ""@,
    }) + (match imdb_line(meta.rating, printable_id(text::opt_text(meta.imdb_id))) {
        Some(line) => "<p style=\"color:#666\">"@ + line + "</p>"@,
        None => ""@,
    })
}

/// Series description plus an IMDb rating/link, same idiom as the detail
/// page's facts table.
pub fn series_meta_html(meta: &SeriesMeta) -> (r: String)
    ensures
        r@ == series_meta_of(*meta),
{
    let mut out = match &meta.plot {
        Some(p) => plot_html(p.as_str()),
        None => "".to_owned(),
    };
    let line = match imdb_text(&meta.rating, print_id(&meta.imdb_id)) {
        Some(line) => {
            let mut p = "<p style=\"color:#666\">".to_owned();
            p.push_str(line.as_str());
            p.push_str("</p>");
            p
        },
        None => "".to_owned(),
    };
    out.push_str(line.as_str());
    out
}

// --------------------------------------------------------------------- grid

/// Whether an episode has its place in the grid.
pub open spec fn numbered(e: BrowseItem) -> bool {
    e.season is Some && (e.episode matches Some(n) && n > 0)
}

/// The highest episode number, none where nothing is numbered.
pub open spec fn last_episode(eps: Seq<BrowseItem>) -> int
    decreases eps.len(),
{
    if eps.len() == 0 {
        0
    } else {
        let head = last_episode(eps.drop_last());
        let e = eps.last();
        if numbered(e) && e.episode->Some_0 > head {
            e.episode->Some_0 as int
        } else {
            head
        }
    }
}

/// The seasons of the numbered episodes, as they come.
pub open spec fn seasons_in(eps: Seq<BrowseItem>) -> Seq<i64>
    decreases eps.len(),
{
    if eps.len() == 0 {
        seq![]
    } else if numbered(eps.last()) {
        seasons_in(eps.drop_last()).push(eps.last().season->Some_0)
    } else {
        seasons_in(eps.drop_last())
    }
}

/// Whether numbers are the distinct ones of a list, in order.
pub open spec fn distinct_sorted(r: Seq<i64>, s: Seq<i64>) -> bool {
    &&& forall|i: int, j: int| 0 <= i < j < r.len() ==> #[trigger] r[i] < #[trigger] r[j]
    &&& forall|x: i64| #[trigger] r.contains(x) <==> s.contains(x)
}

fn dedup_sorted(s: &Vec<i64>) -> (r: Vec<i64>)
    ensures
        distinct_sorted(r@, s@),
{
    let o = order::sorted_numbers(s);
    let mut out: Vec<i64> = Vec::new();
    let mut i: usize = 0;
    while i < o.len()
        invariant
            i <= o.len(),
            order::sorts_numbers(o@, s@, s@.len() as int),
            forall|a: int, b: int| 0 <= a < b < out@.len() ==> #[trigger] out@[a] < #[trigger] out@[b],
            forall|k: int| 0 <= k < i ==> out@.contains(s@[#[trigger] o@[k] as int]),
            forall|a: int| 0 <= a < out@.len() ==> s@.contains(#[trigger] out@[a]),
            out@.len() > 0 ==> i > 0 && out@.last() == s@[o@[i - 1] as int],
            i > 0 ==> out@.len() > 0,
        decreases o.len() - i,
    {
        let k = o[i];
        let x = s[k];
        let ghost before = out@;
        let n = out.len();
        if i > 0 {
            assert(order::number_first(s@, o@[i - 1] as int, o@[i as int] as int));
        }
        if n > 0 && out[n - 1] == x {
        } else {
            out.push(x);
            assert(out@[out@.len() - 1] == x);
            assert forall|j: int| 0 <= j < i implies out@.contains(s@[#[trigger] o@[j] as int]) by {
                let y = s@[o@[j] as int];
                let m = choose|m: int| 0 <= m < before.len() && before[m] == y;
                assert(out@[m] == y);
            }
        }
        assert(out@.contains(x)) by {
            assert(out@[out@.len() - 1] == x);
        }
        i += 1;
    }
    proof {
        assert forall|x: i64| #[trigger] out@.contains(x) <==> s@.contains(x) by {
            if s@.contains(x) {
                let k = choose|k: int| 0 <= k < s@.len() && s@[k] == x;
                order::lemma_listed(o@, s@, s@.len() as int, k);
                let p = choose|p: int| 0 <= p < o@.len() && #[trigger] o@[p] == k;
                assert(out@.contains(s@[o@[p] as int]));
            }
        }
    }
    out
}

/// The episode at a place of the grid.
pub open spec fn cell_at(eps: Seq<BrowseItem>, season: i64, n: int) -> Option<int>
    decreases eps.len(),
{
    if eps.len() == 0 {
        None
    } else {
        match cell_at(eps.drop_last(), season, n) {
            Some(i) => Some(i),
            None => {
                let e = eps.last();
                if numbered(e) && e.season == Some(season) && e.episode->Some_0 == n {
                    Some(eps.len() - 1)
                } else {
                    None
                }
            },
        }
    }
}

proof fn lemma_cell(eps: Seq<BrowseItem>, season: i64, n: int, k: int)
    requires
        0 <= k <= eps.len(),
        cell_at(eps.take(k), season, n) is Some,
    ensures
        cell_at(eps, season, n) == cell_at(eps.take(k), season, n),
    decreases eps.len() - k,
{
    if k < eps.len() {
        assert(eps.take(k + 1).drop_last() =~= eps.take(k));
        lemma_cell(eps, season, n, k + 1);
    } else {
        assert(eps.take(k) =~= eps);
    }
}

fn find_cell(eps: &Vec<BrowseItem>, season: i64, n: i64) -> (r: Option<usize>)
    ensures
        match r {
            Some(i) => i < eps@.len() && cell_at(eps@, season, n as int) == Some(i as int),
            None => cell_at(eps@, season, n as int) is None,
        },
{
    let mut i: usize = 0;
    assert(eps@.take(0) =~= seq![]);
    while i < eps.len()
        invariant
            i <= eps.len(),
            cell_at(eps@.take(i as int), season, n as int) is None,
        decreases eps.len() - i,
    {
        let e = &eps[i];
        assert(eps@.take(i + 1).drop_last() =~= eps@.take(i as int));
        assert(eps@.take(i + 1).last() == *e);
        if let (Some(s), Some(k)) = (e.season, e.episode) {
            if k > 0 && s == season && k == n {
                proof {
                    lemma_cell(eps@, season, n as int, i + 1);
                }
                return Some(i);
            }
        }
        i += 1;
    }
    assert(eps@.take(i as int) =~= eps@);
    None
}

/// The colours and the text of an episode's box; grey where it has no rating.
pub open spec fn box_of(rating: Option<Score>) -> (Seq<char>, Seq<char>, Seq<char>) {
    match rating {
        Some(s) => (colours_of(s.micros as int).0, colours_of(s.micros as int).1, s.label@),
        None => ("#ddd"@, "#555"@, "–"@),
    }
}

/// An episode's box.
pub open spec fn grid_box_of(file_id: i64, season: i64, n: i64, title: Seq<char>, background: Seq<char>, colour: Seq<char>, label: Seq<char>) -> Seq<char> {
    "<td><a href=\"/item/"@ + text::decimal(file_id as int) + "\" title=\"S"@
        + text::padded(season as int, 2) + "E"@ + text::padded(n as int, 2) + " · "@
        + didl::escaped(title)
        + "\" style=\"display:block;min-width:2.6em;padding:.15em .2em;text-align:center;font-weight:bold;text-decoration:none;border-radius:3px;color:"@
        + colour + ";background:"@ + background + "\">"@ + label + "</a></td>"@
}

/// An episode's box.
fn grid_box(file_id: i64, season: i64, n: i64, title: &str, background: &str, colour: &str, label: &str) -> (r: String)
    ensures
        r@ == grid_box_of(file_id, season, n, title@, background@, colour@, label@),
{
    let mut out = "<td><a href=\"/item/".to_owned();
    let part1 = text::dec(file_id);
    out.push_str(part1.as_str());
    out.push_str("\" title=\"S");
    let part2 = text::dec_padded(season, 2);
    out.push_str(part2.as_str());
    out.push_str("E");
    let part3 = text::dec_padded(n, 2);
    out.push_str(part3.as_str());
    out.push_str(" · ");
    let part4 = didl::xml_escape(title);
    out.push_str(part4.as_str());
    out.push_str("\" style=\"display:block;min-width:2.6em;padding:.15em .2em;text-align:center;font-weight:bold;text-decoration:none;border-radius:3px;color:");
    out.push_str(colour);
    out.push_str(";background:");
    out.push_str(background);
    out.push_str("\">");
    out.push_str(label);
    out.push_str("</a></td>");
    out
}

pub const GRID_LABEL: &'static str =
    "color:#666;font-size:.75em;font-weight:normal;text-align:center;padding:0 .2em";

pub open spec fn grid_cell(eps: Seq<BrowseItem>, season: i64, n: i64) -> Seq<char> {
    match cell_at(eps, season, n as int) {
        Some(i) => {
            let (background, colour, label) = box_of(eps[i].rating);
            grid_box_of(eps[i].file_id, season, n, eps[i].title@, background, colour, label)
        },
        None => "<td></td>"@,
    }
}

fn cell_html(eps: &Vec<BrowseItem>, season: i64, n: i64) -> (r: String)
    ensures
        r@ == grid_cell(eps@, season, n),
{
    match find_cell(eps, season, n) {
        Some(i) => {
            let e = &eps[i];
            match &e.rating {
                Some(s) => {
                    let (background, colour) = rating_colours(s);
                    grid_box(
                        e.file_id,
                        season,
                        n,
                        e.title.as_str(),
                        background,
                        colour,
                        s.label.as_str(),
                    )
                },
                None => grid_box(e.file_id, season, n, e.title.as_str(), "#ddd", "#555", "–"),
            }
        },
        None => "<td></td>".to_owned(),
    }
}

/// The cells of a season up to an episode number.
pub open spec fn season_cells(eps: Seq<BrowseItem>, season: i64, n: nat) -> Seq<char>
    decreases n,
{
    if n == 0 {
        "<tr><th style=\""@ + GRID_LABEL@ + "\">S"@ + text::decimal(season as int) + "</th>"@
    } else {
        season_cells(eps, season, (n - 1) as nat) + grid_cell(eps, season, n as i64)
    }
}

/// The numbers above the grid.
pub open spec fn grid_heads(n: nat) -> Seq<char>
    decreases n,
{
    if n == 0 {
        "<h2 style=\"font-size:1em;margin-top:1.5em\">Episode ratings</h2><div style=\"overflow-x:auto\"><table style=\"border-collapse:separate;border-spacing:3px;font-size:.85em\"><tr><th></th>"@
    } else {
        grid_heads((n - 1) as nat) + "<th style=\""@ + GRID_LABEL@ + "\">"@ + text::decimal(n as int)
            + "</th>"@
    }
}

pub open spec fn season_rows(eps: Seq<BrowseItem>, seasons: Seq<i64>, max: nat) -> Seq<char>
    decreases seasons.len(),
{
    if seasons.len() == 0 {
        grid_heads(max) + "</tr>"@
    } else {
        season_rows(eps, seasons.drop_last(), max) + season_cells(eps, seasons.last(), max)
            + "</tr>"@
    }
}

/// Whether a text is the season × episode grid of a series.
pub open spec fn grid_of(s: Seq<char>, eps: Seq<BrowseItem>) -> bool {
    if last_episode(eps) == 0 {
        s.len() == 0
    } else {
        exists|seasons: Seq<i64>|
            distinct_sorted(seasons, seasons_in(eps)) && s == #[trigger] season_rows(
                eps,
                seasons,
                last_episode(eps) as nat,
            ) + "</table></div>"@
    }
}

fn cells_html(eps: &Vec<BrowseItem>, season: i64, max: i64) -> (r: String)
    requires
        0 <= max,
    ensures
        r@ == season_cells(eps@, season, max as nat),
{
    let mut out = "<tr><th style=\"".to_owned();
    out.push_str(GRID_LABEL);
    out.push_str("\">S");
    let s = text::dec(season);
    out.push_str(s.as_str());
    out.push_str("</th>");
    let mut n: i64 = 0;
    while n < max
        invariant
            0 <= n <= max,
            out@ == season_cells(eps@, season, n as nat),
        decreases max - n,
    {
        n += 1;
        let c = cell_html(eps, season, n);
        out.push_str(c.as_str());
    }
    out
}

fn heads_html(max: i64) -> (r: String)
    requires
        0 <= max,
    ensures
        r@ == grid_heads(max as nat),
{
    let mut out =
        "<h2 style=\"font-size:1em;margin-top:1.5em\">Episode ratings</h2><div style=\"overflow-x:auto\"><table style=\"border-collapse:separate;border-spacing:3px;font-size:.85em\"><tr><th></th>".to_owned();
    let mut n: i64 = 0;
    while n < max
        invariant
            0 <= n <= max,
            out@ == grid_heads(n as nat),
        decreases max - n,
    {
        n += 1;
        out.push_str("<th style=\"");
        out.push_str(GRID_LABEL);
        out.push_str("\">");
        let k = text::dec(n);
        out.push_str(k.as_str());
        out.push_str("</th>");
    }
    out
}

/// Season × episode grid of rating boxes for a series page: seasons down,
/// episode numbers across, each box linking to the episode's page. Grey
/// "–" for episodes without a rating; blank where a number is missing.
/// Empty when nothing is numbered.
pub fn episode_grid_html(episodes: &Vec<BrowseItem>) -> (r: String)
    ensures
        grid_of(r@, episodes@),
{
    let ghost eps = episodes@;
    let mut max: i64 = 0;
    let mut all: Vec<i64> = Vec::new();
    let mut i: usize = 0;
    assert(eps.take(0) =~= seq![]);
    assert(all@ =~= seasons_in(eps.take(0)));
    while i < episodes.len()
        invariant
            i <= episodes.len(),
            eps == episodes@,
            0 <= max,
            max == last_episode(eps.take(i as int)),
            all@ == seasons_in(eps.take(i as int)),
        decreases episodes.len() - i,
    {
        assert(eps.take(i + 1).drop_last() =~= eps.take(i as int));
        assert(eps.take(i + 1).last() == eps[i as int]);
        let e = &episodes[i];
        if let (Some(s), Some(n)) = (e.season, e.episode) {
            if n > 0 {
                if n > max {
                    max = n;
                }
                all.push(s);
            }
        }
        i += 1;
    }
    assert(eps.take(i as int) =~= eps);
    if max == 0 {
        return String::new();
    }
    let seasons = dedup_sorted(&all);
    let mut out = heads_html(max);
    out.push_str("</tr>");
    let mut k: usize = 0;
    assert(seasons@.take(0) =~= seq![]);
    while k < seasons.len()
        invariant
            k <= seasons.len(),
            0 < max,
            eps == episodes@,
            out@ == season_rows(eps, seasons@.take(k as int), max as nat),
        decreases seasons.len() - k,
    {
        assert(seasons@.take(k + 1).drop_last() =~= seasons@.take(k as int));
        let cells = cells_html(episodes, seasons[k], max);
        out.push_str(cells.as_str());
        out.push_str("</tr>");
        k += 1;
    }
    assert(seasons@.take(k as int) =~= seasons@);
    out.push_str("</table></div>");
    assert(out@ == season_rows(eps, seasons@, last_episode(eps) as nat) + "</table></div>"@);
    out
}

// -------------------------------------------------------------------- covers

/// The address of an item's art.
pub open spec fn art_address(item: BrowseItem) -> Seq<char> {
    let id = match item.art_file_id {
        Some(id) => id,
        None => item.file_id,
    };
    "/art/"@ + text::decimal(id as int) + (match item.art_version {
        Some(v) => "?v="@ + text::decimal(v as int),
        None => ""@,
    })
}

/// An item's art URL, versioned by its extraction time when known so the
/// response can be cached for a year: artwork changes re-extract the
/// file, which changes the version and so the URL.
pub fn art_url(item: &BrowseItem) -> (r: String)
    ensures
        r@ == art_address(*item),
{
    let id: i64 = match item.art_file_id {
        Some(id) => id,
        None => item.file_id,
    };
    let mut out = "/art/".to_owned();
    let id = text::dec(id);
    out.push_str(id.as_str());
    let version = match item.art_version {
        Some(v) => {
            let mut q = "?v=".to_owned();
            let v = text::dec(v);
            q.push_str(v.as_str());
            q
        },
        None => "".to_owned(),
    };
    out.push_str(version.as_str());
    out
}

pub open spec fn cover_art_of(file_id: i64, title: Seq<char>, art: Seq<char>) -> Seq<char> {
    "<a href=\"/item/"@ + text::decimal(file_id as int) + "\" title=\""@ + didl::escaped(title)
        + "\"><img src=\""@ + art + "\" alt=\""@ + didl::escaped(title)
        + "\" loading=\"lazy\"></a>"@
}

fn cover_with_art(file_id: i64, title: &str, art: &str) -> (r: String)
    ensures
        r@ == cover_art_of(file_id, title@, art@),
{
    let mut out = "<a href=\"/item/".to_owned();
    let part1 = text::dec(file_id);
    out.push_str(part1.as_str());
    out.push_str("\" title=\"");
    let part2 = didl::xml_escape(title);
    out.push_str(part2.as_str());
    out.push_str("\"><img src=\"");
    out.push_str(art);
    out.push_str("\" alt=\"");
    let part3 = didl::xml_escape(title);
    out.push_str(part3.as_str());
    out.push_str("\" loading=\"lazy\"></a>");
    out
}

pub open spec fn cover_noart_of(file_id: i64, title: Seq<char>) -> Seq<char> {
    "<a class=\"noart\" href=\"/item/"@ + text::decimal(file_id as int) + "\" title=\""@
        + didl::escaped(title) + "\"><span>"@ + didl::escaped(title) + "</span></a>"@
}

fn cover_without_art(file_id: i64, title: &str) -> (r: String)
    ensures
        r@ == cover_noart_of(file_id, title@),
{
    let mut out = "<a class=\"noart\" href=\"/item/".to_owned();
    let part1 = text::dec(file_id);
    out.push_str(part1.as_str());
    out.push_str("\" title=\"");
    let part2 = didl::xml_escape(title);
    out.push_str(part2.as_str());
    out.push_str("\"><span>");
    let part3 = didl::xml_escape(title);
    out.push_str(part3.as_str());
    out.push_str("</span></a>");
    out
}

/// A movie's cover: a movie without a poster holds its place as an outlined
/// card with its name. The details card sits beside the link, not inside it (a
/// card holds links of its own, and anchors do not nest); COVERS_SCRIPT fills
/// it from /card/{id} on hover.
pub open spec fn cover_of(item: BrowseItem) -> Seq<char> {
    "<span class=\"cover\" data-card=\""@ + text::decimal(item.file_id as int) + "\">"@ + (
    if item.has_art {
        cover_art_of(item.file_id, item.title@, art_address(item))
    } else {
        cover_noart_of(item.file_id, item.title@)
    }) + "<span class=\"card\"></span></span>"@
}

fn cover_html(item: &BrowseItem) -> (r: String)
    ensures
        r@ == cover_of(*item),
{
    let mut out = "<span class=\"cover\" data-card=\"".to_owned();
    let id = text::dec(item.file_id);
    out.push_str(id.as_str());
    out.push_str("\">");
    let link = if item.has_art {
        let art = art_url(item);
        cover_with_art(item.file_id, item.title.as_str(), art.as_str())
    } else {
        cover_without_art(item.file_id, item.title.as_str())
    };
    out.push_str(link.as_str());
    out.push_str("<span class=\"card\"></span></span>");
    out
}

/// Whether an entry has its cover in the grid.
pub open spec fn has_cover(e: Entry) -> bool {
    e matches Entry::Item { item, .. } && item.kind == MediaKind::Movies
}

pub open spec fn cover_strip(es: Seq<Entry>) -> Seq<char>
    decreases es.len(),
{
    if es.len() == 0 {
        seq![]
    } else {
        let head = cover_strip(es.drop_last());
        match es.last() {
            Entry::Item { item, .. } if item.kind == MediaKind::Movies => head + cover_of(item),
            _ => head,
        }
    }
}

pub open spec fn any_cover(es: Seq<Entry>) -> bool {
    exists|i: int| 0 <= i < es.len() && has_cover(#[trigger] es[i])
}

/// A leaf grouping of movies (a franchise, a genre, a year, All Movies) also
/// gets its covers under the listing, wrapping into as many rows as it takes:
/// the same order and the same links.
pub open spec fn covers_of(es: Seq<Entry>) -> Seq<char> {
    if any_cover(es) {
        "<div class=\"covers\">"@ + cover_strip(es) + "</div>"@
    } else {
        ""@
    }
}

fn covers_html(es: &Vec<Entry>) -> (r: (String, bool))
    ensures
        r.0@ == covers_of(es@),
        r.1 == any_cover(es@),
{
    let mut strip = String::new();
    let mut any = false;
    assert(strip@ =~= seq![]);
    let mut i: usize = 0;
    assert(es@.take(0) =~= seq![]);
    while i < es.len()
        invariant
            i <= es.len(),
            strip@ == cover_strip(es@.take(i as int)),
            any == exists|k: int| 0 <= k < i && has_cover(#[trigger] es@[k]),
        decreases es.len() - i,
    {
        assert(es@.take(i + 1).drop_last() =~= es@.take(i as int));
        assert(es@.take(i + 1).last() == es@[i as int]);
        if let Entry::Item { item, .. } = &es[i] {
            if item.kind == MediaKind::Movies {
                assert(has_cover(es@[i as int]));
                let c = cover_html(item);
                strip.push_str(c.as_str());
                any = true;
            }
        }
        i += 1;
    }
    assert(es@.take(i as int) =~= es@);
    if any {
        let mut out = "<div class=\"covers\">".to_owned();
        out.push_str(strip.as_str());
        out.push_str("</div>");
        (out, true)
    } else {
        ("".to_owned(), false)
    }
}

// -------------------------------------------------------------- browse page

/// The count beside a container's link.
pub open spec fn count_of(id: Seq<char>, counted: Map<Seq<char>, int>) -> Seq<char> {
    match parsed(id) {
        Some(child) => if counted.dom().contains(counts::key_of(child)) {
            " <span style=\"color:#666\">("@ + text::decimal(counted[counts::key_of(child)])
                + ")</span>"@
        } else {
            ""@
        },
        None => ""@,
    }
}

fn count_html(id: &str, counted: &Counts) -> (r: String)
    requires
        counted.wf(),
    ensures
        r@ == count_of(id@, counted@),
{
    match ObjectId::parse(id) {
        Some(child) => {
            let key = counts::canon(&child);
            match counted.get(key.as_str()) {
                Some(n) => {
                    let mut out = " <span style=\"color:#666\">(".to_owned();
                    let n = text::dec(n);
                    out.push_str(n.as_str());
                    out.push_str(")</span>");
                    out
                },
                None => "".to_owned(),
            }
        },
        None => "".to_owned(),
    }
}

pub open spec fn entry_row(e: Entry, counted: Map<Seq<char>, int>) -> Seq<char> {
    match e {
        Entry::Container { id, title, .. } => "<li>📁 <a href=\"/browse/"@ + id@ + "\">"@
            + didl::escaped(title@) + "</a>"@ + count_of(id@, counted) + "</li>"@,
        Entry::Item { item, .. } => row_of(item),
    }
}

fn entry_html(e: &Entry, counted: &Counts) -> (r: String)
    requires
        counted.wf(),
    ensures
        r@ == entry_row(*e, counted@),
{
    match e {
        Entry::Container { id, title, .. } => {
            let mut out = "<li>📁 <a href=\"/browse/".to_owned();
            out.push_str(id.as_str());
            out.push_str("\">");
            let t = didl::xml_escape(title.as_str());
            out.push_str(t.as_str());
            out.push_str("</a>");
            let count = count_html(id.as_str(), counted);
            out.push_str(count.as_str());
            out.push_str("</li>");
            out
        },
        Entry::Item { item, .. } => listing_row(item),
    }
}

pub open spec fn entry_rows(es: Seq<Entry>, counted: Map<Seq<char>, int>) -> Seq<char>
    decreases es.len(),
{
    if es.len() == 0 {
        seq![]
    } else {
        entry_rows(es.drop_last(), counted) + entry_row(es.last(), counted)
    }
}

fn entries_html(es: &Vec<Entry>, counted: &Counts) -> (r: String)
    requires
        counted.wf(),
    ensures
        r@ == entry_rows(es@, counted@),
{
    let mut out = String::new();
    assert(out@ =~= seq![]);
    let mut i: usize = 0;
    assert(es@.take(0) =~= seq![]);
    while i < es.len()
        invariant
            i <= es.len(),
            counted.wf(),
            out@ == entry_rows(es@.take(i as int), counted@),
        decreases es.len() - i,
    {
        assert(es@.take(i + 1).drop_last() =~= es@.take(i as int));
        let row = entry_html(&es[i], counted);
        out.push_str(row.as_str());
        i += 1;
    }
    assert(es@.take(i as int) =~= es@);
    out
}

/// The way up: the parent of the page's container, unless that is the
/// container itself.
#[derive(Debug)]
pub struct Parent {
    pub id: String,
    pub title: String,
}

pub open spec fn is_root(id: Seq<char>) -> bool {
    parsed(id) == Some(ObjectId::<Seq<char>>::Root)
}

/// "Back to <parent>" one level up; the root points at itself, so skip.
pub open spec fn back_of(oid: Seq<char>, parent: Option<(Seq<char>, Seq<char>)>) -> Seq<char> {
    match parent {
        Some((id, title)) => if id == oid || parsed(id) is None {
            ""@
        } else {
            "<p><a href=\"/browse/"@ + id + "\">← "@ + (if is_root(id) {
                "Back to top"@
            } else {
                "Back to "@ + didl::escaped(title)
            }) + "</a></p>"@
        },
        None => ""@,
    }
}

pub open spec fn parent_view(p: Option<Parent>) -> Option<(Seq<char>, Seq<char>)> {
    match p {
        Some(p) => Some((p.id@, p.title@)),
        None => None,
    }
}

fn back_html(oid: &str, parent: &Option<Parent>) -> (r: String)
    ensures
        r@ == back_of(oid@, parent_view(*parent)),
{
    match parent {
        Some(p) => {
            if text::same(p.id.as_str(), oid) {
                return "".to_owned();
            }
            match ObjectId::parse(p.id.as_str()) {
                None => "".to_owned(),
                Some(node) => {
                    let label = match node {
                        ObjectId::Root => "Back to top".to_owned(),
                        _ => {
                            let mut l = "Back to ".to_owned();
                            let t = didl::xml_escape(p.title.as_str());
                            l.push_str(t.as_str());
                            l
                        },
                    };
                    let mut out = "<p><a href=\"/browse/".to_owned();
                    out.push_str(p.id.as_str());
                    out.push_str("\">← ");
                    out.push_str(label.as_str());
                    out.push_str("</a></p>");
                    out
                },
            }
        },
        None => "".to_owned(),
    }
}

/// What a series or season page says about it: its description, and the plot in
/// it for link previews.
#[derive(Debug)]
pub enum About {
    Nothing,
    Series(SeriesMeta),
    Season(String),
}

pub open spec fn about_html_of(about: About) -> Seq<char> {
    match about {
        About::Nothing => ""@,
        About::Series(meta) => series_meta_of(meta),
        About::Season(plot) => plot_paragraph(plot@),
    }
}

pub open spec fn about_plot(about: About) -> Option<Seq<char>> {
    match about {
        About::Nothing => None,
        About::Series(meta) => text::opt_text(meta.plot),
        About::Season(plot) => Some(plot@),
    }
}

pub open spec fn described(html: Seq<char>) -> Seq<char> {
    if html.len() == 0 {
        ""@
    } else {
        "<div class=\"hdr-desc\">"@ + html + "</div>"@
    }
}

fn describe(about: &About) -> (r: String)
    ensures
        r@ == described(about_html_of(*about)),
{
    let html = match about {
        About::Nothing => "".to_owned(),
        About::Series(meta) => series_meta_html(meta),
        About::Season(plot) => plot_html(plot.as_str()),
    };
    if html.as_str().is_empty() {
        "".to_owned()
    } else {
        let mut out = "<div class=\"hdr-desc\">".to_owned();
        out.push_str(html.as_str());
        out.push_str("</div>");
        out
    }
}

fn plot_of(about: &About) -> (r: Option<&str>)
    ensures
        page::opt_str(r) == about_plot(*about),
{
    match about {
        About::Nothing => None,
        About::Series(meta) => match &meta.plot {
            Some(p) => Some(p.as_str()),
            None => None,
        },
        About::Season(plot) => Some(plot.as_str()),
    }
}

pub open spec fn art_image(art_item: Option<i64>) -> Seq<char> {
    match art_item {
        Some(id) => "<img src=\"/art/"@ + text::decimal(id as int) + "\" alt=\"\" class=\"art\">"@,
        None => ""@,
    }
}

fn art_img(art_item: Option<i64>) -> (r: String)
    ensures
        r@ == art_image(art_item),
{
    match art_item {
        Some(id) => {
            let mut out = "<img src=\"/art/".to_owned();
            let id = text::dec(id);
            out.push_str(id.as_str());
            out.push_str("\" alt=\"\" class=\"art\">");
            out
        },
        None => "".to_owned(),
    }
}

/// Everything that a browse page shows.
#[derive(Debug)]
pub struct BrowsePage {
    /// The container's id, as it was asked for.
    pub oid: String,
    pub title: String,
    pub parent: Option<Parent>,
    /// A file whose artwork the container shows.
    pub art_item: Option<i64>,
    pub children: Vec<Entry>,
    pub about: About,
    /// The episodes of a series, for the grid of ratings.
    pub episodes: Vec<BrowseItem>,
    /// The origin of links, and the server's name.
    pub base: String,
    pub site: String,
}

pub open spec fn is_series(oid: Seq<char>) -> bool {
    parsed(oid) matches Some(ObjectId::TvSeries(_))
}

pub open spec fn browse_path(oid: Seq<char>) -> Seq<char> {
    if oid == "0"@ {
        "/"@
    } else {
        "/browse/"@ + oid
    }
}

fn path_of(oid: &str) -> (r: String)
    ensures
        r@ == browse_path(oid@),
{
    if text::same(oid, "0") {
        "/".to_owned()
    } else {
        let mut out = "/browse/".to_owned();
        out.push_str(oid);
        out
    }
}

/// The page's head: shared links unfurl into a poster/description card. Series
/// and season pages have both; other containers at least name themselves.
pub open spec fn browse_head(p: BrowsePage) -> Seq<char> {
    page::head(
        didl::escaped(p.title@),
        page::preview(
            p.base@,
            browse_path(p.oid@),
            if is_series(p.oid@) {
                "video.tv_show"@
            } else {
                "website"@
            },
            p.title@,
            about_plot(p.about),
            p.art_item,
            p.site@,
        ),
    )
}

fn head_of(p: &BrowsePage) -> (r: String)
    ensures
        r@ == browse_head(*p),
{
    let series = match ObjectId::parse(p.oid.as_str()) {
        Some(ObjectId::TvSeries(_)) => true,
        _ => false,
    };
    let path = path_of(p.oid.as_str());
    let og = page::og_meta(
        p.base.as_str(),
        path.as_str(),
        if series {
            "video.tv_show"
        } else {
            "website"
        },
        p.title.as_str(),
        plot_of(&p.about),
        p.art_item,
        p.site.as_str(),
    );
    let title = didl::xml_escape(p.title.as_str());
    page::page_head(title.as_str(), og.as_str())
}

/// Whether a text is the browse page of a container.
pub open spec fn browse_page_is(s: Seq<char>, p: BrowsePage, counted: Map<Seq<char>, int>) -> bool {
    exists|grid: Seq<char>|
        #[trigger] grid_of(grid, p.episodes@) && s == browse_head(p)
            + "<body><div class=\"hdr\"><div class=\"hdr-top\"><h1>"@ + didl::escaped(p.title@)
            + "</h1>"@ + back_of(p.oid@, parent_view(p.parent)) + search_box(p.oid@, ""@) + "</div>"@
            + art_image(p.art_item) + described(about_html_of(p.about))
            + "</div><ul style=\"list-style:none;padding:0;line-height:1.7\">"@ + entry_rows(
            p.children@,
            counted,
        ) + "</ul>"@ + covers_of(p.children@) + grid + (if any_cover(p.children@) {
            COVERS_SCRIPT@
        } else {
            ""@
        }) + PAGE_CLOSE@
}

/// HTML mirror of the virtual tree: every container is browsable, and items
/// link to their own pages.
///
/// A container with representative art (a series or season, borrowing an
/// episode's poster) shows it to the right of the header block — title, way
/// up, search, then the description — the same shape every container page
/// has, art or not; on narrow screens the art slots in between search and
/// description.
pub fn browse_page(p: &BrowsePage, counted: &Counts) -> (r: String)
    requires
        counted.wf(),
    ensures
        browse_page_is(r@, *p, counted@),
{
    let mut out = head_of(p);
    out.push_str("<body><div class=\"hdr\"><div class=\"hdr-top\"><h1>");
    let title = didl::xml_escape(p.title.as_str());
    out.push_str(title.as_str());
    out.push_str("</h1>");
    let back = back_html(p.oid.as_str(), &p.parent);
    out.push_str(back.as_str());
    let search = search_form(p.oid.as_str(), "");
    out.push_str(search.as_str());
    out.push_str("</div>");
    let art = art_img(p.art_item);
    out.push_str(art.as_str());
    let description = describe(&p.about);
    out.push_str(description.as_str());
    out.push_str("</div><ul style=\"list-style:none;padding:0;line-height:1.7\">");
    let rows = entries_html(&p.children, counted);
    out.push_str(rows.as_str());
    out.push_str("</ul>");
    let (covers, any) = covers_html(&p.children);
    out.push_str(covers.as_str());
    let grid = episode_grid_html(&p.episodes);
    assert(grid_of(grid@, p.episodes@));
    out.push_str(grid.as_str());
    out.push_str(if any { COVERS_SCRIPT } else { "" });
    out.push_str(PAGE_CLOSE);
    out
}

} // verus!
