//! What The Movie Database says of films, series, seasons and episodes.
use std::collections::HashMap;
use vstd::prelude::*;
use crate::json;
use crate::json::{Json, JsonView};
use crate::text;

verus! {

broadcast use vstd::std_specs::hash::group_hash_axioms;

pub const BASE: &'static str = "https://api.themoviedb.org/3";

#[derive(Debug)]
pub struct MovieInfo {
    pub tmdb_id: i64,
    pub title: String,
    pub year: Option<i64>,
    pub plot: Option<String>,
    pub genres: Vec<String>,
    pub directors: Vec<String>,
    pub poster_path: Option<String>,
    pub imdb_id: Option<String>,
    /// TMDB collection ("Harry Potter Collection") — franchise membership.
    pub collection: Option<String>,
}

#[verifier::ext_equal]
pub struct MovieView {
    pub tmdb_id: i64,
    pub title: Seq<char>,
    pub year: Option<int>,
    pub plot: Option<Seq<char>>,
    pub genres: Seq<Seq<char>>,
    pub directors: Seq<Seq<char>>,
    pub poster_path: Option<Seq<char>>,
    pub imdb_id: Option<Seq<char>>,
    pub collection: Option<Seq<char>>,
}

impl View for MovieInfo {
    type V = MovieView;

    open spec fn view(&self) -> MovieView {
        MovieView {
            tmdb_id: self.tmdb_id,
            title: self.title@,
            year: text::opt_int(self.year),
            plot: text::opt_text(self.plot),
            genres: text::texts(self.genres@),
            directors: text::texts(self.directors@),
            poster_path: text::opt_text(self.poster_path),
            imdb_id: text::opt_text(self.imdb_id),
            collection: text::opt_text(self.collection),
        }
    }
}

#[derive(Debug)]
pub struct SeriesInfo {
    pub tmdb_id: i64,
    pub name: String,
    pub poster_path: Option<String>,
    pub plot: Option<String>,
    pub imdb_id: Option<String>,
}

/// One season of a series: its own overview plus every episode's
/// (title, overview) keyed by episode number.
#[derive(Debug)]
pub struct SeasonInfo {
    pub overview: Option<String>,
    pub episodes: HashMap<i64, (String, String)>,
}

/// A TMDB "API Read Access Token" (v4, a JWT) goes in the Authorization
/// header; a classic v3 key goes in the api_key query parameter.
pub fn is_bearer(key: &str) -> (r: bool)
    ensures
        r == text::begins(key@, "eyJ"@),
{
    text::starts_with(key, "eyJ")
}

/// What an answer's status says.
#[derive(Debug, Clone, Copy, PartialEq, Eq, Structural)]
pub enum Answer {
    /// The API key was rejected.
    Unauthorized,
    /// There is no such thing.
    Missing,
    /// Some other failure.
    Failed,
    /// The body is the answer.
    Found,
}

pub fn answer(status: u16) -> (r: Answer)
    ensures
        r == (if status == 401 {
            Answer::Unauthorized
        } else if status == 404 {
            Answer::Missing
        } else if 200 <= status < 300 {
            Answer::Found
        } else {
            Answer::Failed
        }),
{
    if status == 401 {
        Answer::Unauthorized
    } else if status == 404 {
        Answer::Missing
    } else if 200 <= status && status < 300 {
        Answer::Found
    } else {
        Answer::Failed
    }
}

/// A text that says something.
pub open spec fn said(t: Option<Seq<char>>) -> Option<Seq<char>> {
    match t {
        Some(s) => if s.len() > 0 {
            Some(s)
        } else {
            None
        },
        None => None,
    }
}

fn non_empty(t: Option<String>) -> (r: Option<String>)
    ensures
        text::opt_text(r) == said(text::opt_text(t)),
{
    match t {
        Some(s) => if s.as_str().is_empty() {
            None
        } else {
            Some(s)
        },
        None => None,
    }
}

/// The names of a list of objects that have one.
pub open spec fn names(list: Seq<JsonView>) -> Seq<Seq<char>>
    decreases list.len(),
{
    if list.len() == 0 {
        seq![]
    } else {
        match json::as_text(json::field(list.last(), "name"@)) {
            Some(n) => names(list.drop_last()).push(n),
            None => names(list.drop_last()),
        }
    }
}

/// Those of a crew that directed.
pub open spec fn direct(crew: Seq<JsonView>) -> Seq<JsonView>
    decreases crew.len(),
{
    if crew.len() == 0 {
        seq![]
    } else if json::as_text(json::field(crew.last(), "job"@)) == Some("Director"@) {
        direct(crew.drop_last()).push(crew.last())
    } else {
        direct(crew.drop_last())
    }
}

/// The first four characters of a date as a number.
pub open spec fn year_of(date: Option<Seq<char>>) -> Option<int> {
    match date {
        Some(d) => if d.len() >= 4 {
            text::integer_i64(d.take(4))
        } else {
            None
        },
        None => None,
    }
}

/// The IMDb id: the document's own, else the one among its external ids.
/// Where the document has one of another kind, there is none.
pub open spec fn imdb_of(details: JsonView) -> Option<Seq<char>> {
    said(
        json::as_text(
            match json::field(details, "imdb_id"@) {
                Some(j) => Some(j),
                None => json::inner(details, "external_ids"@, "imdb_id"@),
            },
        ),
    )
}

pub open spec fn movie_of(tmdb_id: i64, details: JsonView, fallback: Seq<char>) -> MovieView {
    MovieView {
        tmdb_id,
        title: match json::as_text(json::field(details, "title"@)) {
            Some(t) => t,
            None => fallback,
        },
        year: year_of(json::as_text(json::field(details, "release_date"@))),
        plot: said(json::as_text(json::field(details, "overview"@))),
        genres: names(json::items(json::field(details, "genres"@))),
        directors: names(direct(json::items(json::inner(details, "credits"@, "crew"@)))),
        poster_path: json::as_text(json::field(details, "poster_path"@)),
        imdb_id: imdb_of(details),
        collection: json::as_text(json::inner(details, "belongs_to_collection"@, "name"@)),
    }
}

fn year_in(date: Option<String>) -> (r: Option<i64>)
    ensures
        text::opt_int(r) == year_of(text::opt_text(date)),
{
    match date {
        Some(d) => {
            let v = text::chars_of(d.as_str());
            if v.len() >= 4 {
                let y = text::string_of(&v, 0, 4);
                assert(y@ =~= d@.take(4));
                text::parse_i64(y.as_str())
            } else {
                None
            }
        },
        None => None,
    }
}

/// The names of those in a list of objects that have one; with `directing`,
/// of those who directed.
fn names_in(list: Option<&Json>, directing: bool) -> (r: Vec<String>)
    ensures
        text::texts(r@) == names(
            if directing {
                direct(json::items(json::borrowed(list)))
            } else {
                json::items(json::borrowed(list))
            },
        ),
{
    let mut out: Vec<String> = Vec::new();
    assert(text::texts(out@) =~= seq![]);
    if let Some(Json::Array(v)) = list {
        let ghost l = json::list_of(v@);
        proof {
            json::lemma_list(v@);
        }
        let mut i: usize = 0;
        assert(l.take(0) =~= seq![]);
        while i < v.len()
            invariant
                i <= v.len(),
                l.len() == v@.len(),
                forall|k: int| 0 <= k < l.len() ==> (#[trigger] l[k]) == v@[k]@,
                text::texts(out@) == names(
                    if directing {
                        direct(l.take(i as int))
                    } else {
                        l.take(i as int)
                    },
                ),
            decreases v.len() - i,
        {
            assert(l.take(i + 1).drop_last() =~= l.take(i as int));
            assert(l[i as int] == v@[i as int]@);
            let ghost before = direct(l.take(i as int));
            let job = json::text_of(v[i].get("job"));
            let counts = !directing || match job {
                Some(j) => text::same(j.as_str(), "Director"),
                None => false,
            };
            if counts {
                assert(before.push(l[i as int]).drop_last() =~= before);
                if let Some(name) = json::text_of(v[i].get("name")) {
                    text::push_text(&mut out, name.as_str());
                }
            }
            i += 1;
        }
        assert(l.take(i as int) =~= l);
    }
    out
}

/// One details call (credits and external ids appended) supplies
/// genres, directors, imdb id, and collection membership together.
pub fn movie_details(tmdb_id: i64, details: &Json, fallback_title: &str) -> (r: MovieInfo)
    ensures
        r@ == movie_of(tmdb_id, details@, fallback_title@),
{
    let title = match json::text_of(details.get("title")) {
        Some(t) => t,
        None => fallback_title.to_owned(),
    };
    let imdb = match details.get("imdb_id") {
        Some(j) => json::text_of(Some(j)),
        None => json::text_of(details.get_inner("external_ids", "imdb_id")),
    };
    MovieInfo {
        tmdb_id,
        title,
        year: year_in(json::text_of(details.get("release_date"))),
        plot: non_empty(json::text_of(details.get("overview"))),
        genres: names_in(details.get("genres"), false),
        directors: names_in(details.get_inner("credits", "crew"), true),
        poster_path: json::text_of(details.get("poster_path")),
        imdb_id: non_empty(imdb),
        collection: json::text_of(details.get_inner("belongs_to_collection", "name")),
    }
}

/// The first hit of a search, if there is any.
pub open spec fn first_of(found: JsonView) -> Option<JsonView> {
    let hits = json::items(json::field(found, "results"@));
    if hits.len() > 0 {
        Some(hits[0])
    } else {
        None
    }
}

pub fn first_result(found: &Json) -> (r: Option<&Json>)
    ensures
        json::borrowed(r) == first_of(found@),
{
    match found.get("results") {
        Some(Json::Array(v)) => if v.len() > 0 {
            assert(json::list_of(v@)[0] == v@[0]@) by {
                json::lemma_list(v@);
            }
            Some(&v[0])
        } else {
            None
        },
        _ => None,
    }
}

/// How a film is searched for.
#[derive(Debug, Clone, Copy, PartialEq, Eq, Structural)]
pub enum Search {
    /// By the year of its first release.
    PrimaryYear(i64),
    /// By any year that it was released in somewhere.
    AnyYear(i64),
    NoYear,
}

/// The searches to make, in order, until one has a hit. Search precision
/// matters: TMDB's "year" parameter is loose (any regional release year),
/// which can rank a sibling film first — Deathly Hallows Part 1, with 2011
/// home releases, outranked Part 2 for year=2011. So: strict
/// primary_release_year first, loose year as fallback (filename years
/// are sometimes regional). A filename year is never dropped: a
/// year-less search for a remake's title returns the original (The
/// Mummy 2026 -> The Mummy 1999), and a wrong identity is worse than
/// none — an unmatched file is listed at the end and can be pinned.
pub fn movie_searches(year: Option<i64>) -> (r: Vec<Search>)
    ensures
        r@ == (match year {
            Some(y) => seq![Search::PrimaryYear(y), Search::AnyYear(y)],
            None => seq![Search::NoYear],
        }),
{
    let mut out: Vec<Search> = Vec::new();
    match year {
        Some(y) => {
            out.push(Search::PrimaryYear(y));
            out.push(Search::AnyYear(y));
        },
        None => {
            out.push(Search::NoYear);
        },
    }
    out
}

pub open spec fn pair_views(v: Seq<(String, String)>) -> Seq<(Seq<char>, Seq<char>)> {
    Seq::new(v.len(), |i: int| (v[i].0@, v[i].1@))
}

/// The query of a search.
pub fn search_params(title: &str, search: Search) -> (r: Vec<(String, String)>)
    ensures
        pair_views(r@) == seq![("query"@, title@), ("include_adult"@, "false"@)] + (match search {
            Search::PrimaryYear(y) => seq![("primary_release_year"@, text::decimal(y as int))],
            Search::AnyYear(y) => seq![("year"@, text::decimal(y as int))],
            Search::NoYear => seq![],
        }),
{
    let mut out: Vec<(String, String)> = Vec::new();
    out.push(("query".to_owned(), title.to_owned()));
    out.push(("include_adult".to_owned(), "false".to_owned()));
    match search {
        Search::PrimaryYear(y) => {
            out.push(("primary_release_year".to_owned(), text::dec(y)));
        },
        Search::AnyYear(y) => {
            out.push(("year".to_owned(), text::dec(y)));
        },
        Search::NoYear => {},
    }
    assert(pair_views(out@) =~= seq![("query"@, title@), ("include_adult"@, "false"@)] + (
    match search {
        Search::PrimaryYear(y) => seq![("primary_release_year"@, text::decimal(y as int))],
        Search::AnyYear(y) => seq![("year"@, text::decimal(y as int))],
        Search::NoYear => seq![],
    }));
    out
}

/// The id of a search hit.
pub fn hit_id(hit: &Json) -> (r: Option<i64>)
    ensures
        r == json::as_int(json::field(hit@, "id"@)),
{
    json::int_of(hit.get("id"))
}

/// A series. The search hit settles the identity; one follow-up details call
/// supplies the overview and IMDb id (the search response has no external
/// ids), and where it gave nothing the hit itself has to do.
pub fn series_info(tmdb_id: i64, hit: &Json, details: Option<&Json>, name: &str) -> (r: SeriesInfo)
    ensures
        ({
            let source = match details {
                Some(d) => d@,
                None => hit@,
            };
            &&& r.tmdb_id == tmdb_id
            &&& r.name@ == (match json::as_text(json::field(source, "name"@)) {
                Some(n) => n,
                None => name@,
            })
            &&& text::opt_text(r.poster_path) == json::as_text(json::field(source, "poster_path"@))
            &&& text::opt_text(r.plot) == said(json::as_text(json::field(source, "overview"@)))
            &&& text::opt_text(r.imdb_id) == (match details {
                Some(d) => said(json::as_text(json::inner(d@, "external_ids"@, "imdb_id"@))),
                None => None,
            })
        }),
{
    let source = match details {
        Some(d) => d,
        None => hit,
    };
    let called = match json::text_of(source.get("name")) {
        Some(n) => n,
        None => name.to_owned(),
    };
    let imdb_id = match details {
        Some(d) => non_empty(json::text_of(d.get_inner("external_ids", "imdb_id"))),
        None => None,
    };
    SeriesInfo {
        tmdb_id,
        name: called,
        poster_path: json::text_of(source.get("poster_path")),
        plot: non_empty(json::text_of(source.get("overview"))),
        imdb_id,
    }
}

/// Each episode's title and overview by its number; of equal numbers the
/// later one counts, and an episode without a number or a name does not.
pub open spec fn episodes_of(list: Seq<JsonView>) -> Map<i64, (Seq<char>, Seq<char>)>
    decreases list.len(),
{
    if list.len() == 0 {
        Map::empty()
    } else {
        let head = episodes_of(list.drop_last());
        let e = list.last();
        match (
            json::as_int(json::field(e, "episode_number"@)),
            json::as_text(json::field(e, "name"@)),
        ) {
            (Some(n), Some(name)) => head.insert(
                n,
                (
                    name,
                    match json::as_text(json::field(e, "overview"@)) {
                        Some(o) => o,
                        None => ""@,
                    },
                ),
            ),
            _ => head,
        }
    }
}

/// An episode table holds these titles and overviews.
pub open spec fn holds_episodes(
    table: Map<i64, (String, String)>,
    wanted: Map<i64, (Seq<char>, Seq<char>)>,
) -> bool {
    &&& table.dom() == wanted.dom()
    &&& forall|n: i64|
        wanted.dom().contains(n) ==> (#[trigger] table[n]).0@ == wanted[n].0 && table[n].1@
            == wanted[n].1
}

/// One season of a series — its overview and every episode's
/// (title, overview). A season TMDB doesn't know just yields no data.
pub fn season_details(season: Option<&Json>) -> (r: SeasonInfo)
    ensures
        match season {
            Some(j) => text::opt_text(r.overview) == said(
                json::as_text(json::field(j@, "overview"@)),
            ) && holds_episodes(
                r.episodes@,
                episodes_of(json::items(json::field(j@, "episodes"@))),
            ),
            None => r.overview is None && r.episodes@ == Map::<i64, (String, String)>::empty(),
        },
{
    let mut episodes: HashMap<i64, (String, String)> = HashMap::new();
    let j = match season {
        Some(j) => j,
        None => {
            return SeasonInfo { overview: None, episodes };
        },
    };
    let overview = non_empty(json::text_of(j.get("overview")));
    if let Some(Json::Array(v)) = j.get("episodes") {
        let ghost l = json::list_of(v@);
        proof {
            json::lemma_list(v@);
        }
        let mut i: usize = 0;
        assert(l.take(0) =~= seq![]);
        assert(episodes@.dom() =~= Set::<i64>::empty());
        while i < v.len()
            invariant
                i <= v.len(),
                l.len() == v@.len(),
                forall|k: int| 0 <= k < l.len() ==> (#[trigger] l[k]) == v@[k]@,
                holds_episodes(episodes@, episodes_of(l.take(i as int))),
            decreases v.len() - i,
        {
            assert(l.take(i + 1).drop_last() =~= l.take(i as int));
            assert(l[i as int] == v@[i as int]@);
            let number = json::int_of(v[i].get("episode_number"));
            let name = json::text_of(v[i].get("name"));
            if let (Some(number), Some(name)) = (number, name) {
                let overview = match json::text_of(v[i].get("overview")) {
                    Some(o) => o,
                    None => "".to_owned(),
                };
                let ghost before = episodes@;
                episodes.insert(number, (name, overview));
                assert(episodes@.dom() =~= before.dom().insert(number));
            }
            i += 1;
        }
        assert(l.take(i as int) =~= l);
    }
    SeasonInfo { overview, episodes }
}

/// The IMDb id for one episode; an unknown episode has none.
pub fn episode_imdb_id(ids: Option<&Json>) -> (r: Option<String>)
    ensures
        text::opt_text(r) == (match ids {
            Some(j) => said(json::as_text(json::field(j@, "imdb_id"@))),
            None => None,
        }),
{
    match ids {
        Some(j) => non_empty(json::text_of(j.get("imdb_id"))),
        None => None,
    }
}

fn numbered(out: &mut String, before: &str, n: i64)
    ensures
        final(out)@ == old(out)@ + before@ + text::decimal(n as int),
{
    out.push_str(before);
    out.push_str(text::dec(n).as_str());
}

/// The endpoint of a film.
pub fn movie_path(tmdb_id: i64) -> (r: String)
    ensures
        r@ == "/movie/"@ + text::decimal(tmdb_id as int),
{
    let mut out = "/movie/".to_owned();
    out.push_str(text::dec(tmdb_id).as_str());
    out
}

/// The endpoint of a season.
pub fn season_path(series_id: i64, season: i64) -> (r: String)
    ensures
        r@ == "/tv/"@ + text::decimal(series_id as int) + "/season/"@ + text::decimal(
            season as int,
        ),
{
    let mut out = "/tv/".to_owned();
    out.push_str(text::dec(series_id).as_str());
    numbered(&mut out, "/season/", season);
    out
}

/// The endpoint of an episode's external ids.
pub fn episode_ids_path(series_id: i64, season: i64, episode: i64) -> (r: String)
    ensures
        r@ == "/tv/"@ + text::decimal(series_id as int) + "/season/"@ + text::decimal(
            season as int,
        ) + "/episode/"@ + text::decimal(episode as int) + "/external_ids"@,
{
    let mut out = season_path(series_id, season);
    numbered(&mut out, "/episode/", episode);
    out.push_str("/external_ids");
    out
}

/// Where a poster is downloaded from (w500 rendition, ~500x750).
pub fn poster_url(poster_path: &str) -> (r: String)
    ensures
        r@ == "https://image.tmdb.org/t/p/w500"@ + poster_path@,
{
    let mut out = "https://image.tmdb.org/t/p/w500".to_owned();
    out.push_str(poster_path);
    out
}

/// A w500 poster is ~50 KB; no more than this is read from the CDN.
pub const MAX_POSTER_BYTES: u64 = 16_777_216;

// -------------------------------------------------------------------- laws

/// A film's title is the details' own, else the one it was searched under; an
/// empty overview says nothing; the year is that of the release date, and the
/// id at IMDb is the film's own before one among its external ids.
pub proof fn films_are_what_their_details_say(id: i64, details: JsonView, fallback: Seq<char>)
    ensures
        ({
            let m = movie_of(id, details, fallback);
            let title = json::as_text(json::field(details, "title"@));
            let plot = json::as_text(json::field(details, "overview"@));
            &&& m.tmdb_id == id
            &&& title is Some ==> m.title == title->Some_0
            &&& title is None ==> m.title == fallback
            &&& plot is Some && plot->Some_0.len() > 0 ==> m.plot == plot
            &&& plot is None || plot->Some_0.len() == 0 ==> m.plot is None
            &&& m.poster_path == json::as_text(json::field(details, "poster_path"@))
            &&& m.collection == json::as_text(
                json::inner(details, "belongs_to_collection"@, "name"@),
            )
            &&& m.genres == names(json::items(json::field(details, "genres"@)))
            &&& m.directors == names(direct(json::items(json::inner(details, "credits"@, "crew"@))))
            &&& json::field(details, "imdb_id"@) is None && json::as_text(
                json::inner(details, "external_ids"@, "imdb_id"@),
            ) is Some && json::as_text(
                json::inner(details, "external_ids"@, "imdb_id"@),
            )->Some_0.len() > 0 ==> m.imdb_id == json::as_text(
                json::inner(details, "external_ids"@, "imdb_id"@),
            )
            &&& json::as_text(json::field(details, "imdb_id"@)) is Some && json::as_text(
                json::field(details, "imdb_id"@),
            )->Some_0.len() > 0 ==> m.imdb_id == json::as_text(json::field(details, "imdb_id"@))
        }),
{
}

/// Of a crew those count whose job is to direct, in their order; of a list
/// those that have a name.
pub proof fn directors_direct(list: Seq<JsonView>, e: JsonView)
    ensures
        json::as_text(json::field(e, "job"@)) == Some("Director"@) ==> direct(list.push(e))
            == direct(list).push(e),
        json::as_text(json::field(e, "job"@)) != Some("Director"@) ==> direct(list.push(e))
            == direct(list),
        json::as_text(json::field(e, "name"@)) is Some ==> names(list.push(e)) == names(list).push(
            json::as_text(json::field(e, "name"@))->Some_0,
        ),
        json::as_text(json::field(e, "name"@)) is None ==> names(list.push(e)) == names(list),
        direct(seq![]).len() == 0,
        names(seq![]).len() == 0,
{
    assert(list.push(e).drop_last() =~= list);
}

/// The year of a date is the number in its first four characters.
pub proof fn dates_begin_with_their_year(year: Seq<char>, rest: Seq<char>)
    requires
        year.len() == 4,
    ensures
        year_of(Some(year + rest)) == text::integer_i64(year),
        year_of(Some(year.take(3))) is None,
        year_of(None) is None,
{
    assert((year + rest).take(4) =~= year);
}

/// Of a search the first hit counts; a search without one found nothing.
pub proof fn the_first_hit_counts(found: JsonView)
    ensures
        ({
            let hits = json::items(json::field(found, "results"@));
            &&& hits.len() > 0 ==> first_of(found) == Some(hits[0])
            &&& hits.len() == 0 ==> first_of(found) is None
        }),
{
}

/// An episode is known by its number, the later of two with one number; one
/// without a number or without a name is passed over, and one without an
/// overview has an empty one.
pub proof fn episodes_are_known_by_their_number(list: Seq<JsonView>, e: JsonView)
    ensures
        ({
            let n = json::as_int(json::field(e, "episode_number"@));
            let name = json::as_text(json::field(e, "name"@));
            let plot = json::as_text(json::field(e, "overview"@));
            let after = episodes_of(list.push(e));
            &&& n is Some && name is Some ==> {
                &&& after.dom() == episodes_of(list).dom().insert(n->Some_0)
                &&& after[n->Some_0].0 == name->Some_0
                &&& plot is Some ==> after[n->Some_0].1 == plot->Some_0
                &&& plot is None ==> after[n->Some_0].1.len() == 0
                &&& forall|k: i64| k != n->Some_0 ==> #[trigger] after[k] == episodes_of(list)[k]
            }
            &&& n is None || name is None ==> after == episodes_of(list)
        }),
{
    reveal_strlit("");
    assert(list.push(e).drop_last() =~= list);
}

} // verus!
