//! Kodi-style .nfo sidecars.
use vstd::prelude::*;
use crate::text;
use crate::xml;
use crate::xml::{EventView, XmlEvent};

verus! {

/// Fields a Kodi-style .nfo sidecar can override. Movie nfos use
/// <movie><title><year><genre>; episode nfos use <episodedetails> with
/// <showtitle><title><season><episode>.
#[derive(Debug)]
pub struct NfoData {
    pub title: Option<String>,
    pub year: Option<i64>,
    pub genres: Vec<String>,
    pub directors: Vec<String>,
    /// The ratings given, as written. "NaN", "inf" and 1e308 are among what
    /// may stand there; the first that is a real 0–10 rating is the rating.
    pub ratings: Vec<String>,
    pub plot: Option<String>,
    pub imdb_id: Option<String>,
    /// Movie set/collection (Kodi flat <set> form).
    pub set: Option<String>,
    pub show_title: Option<String>,
    pub season: Option<i64>,
    pub episode: Option<i64>,
}

#[verifier::ext_equal]
pub struct NfoView {
    pub title: Option<Seq<char>>,
    pub year: Option<int>,
    pub genres: Seq<Seq<char>>,
    pub directors: Seq<Seq<char>>,
    pub ratings: Seq<Seq<char>>,
    pub plot: Option<Seq<char>>,
    pub imdb_id: Option<Seq<char>>,
    pub set: Option<Seq<char>>,
    pub show_title: Option<Seq<char>>,
    pub season: Option<int>,
    pub episode: Option<int>,
}

impl View for NfoData {
    type V = NfoView;

    open spec fn view(&self) -> NfoView {
        NfoView {
            title: text::opt_text(self.title),
            year: text::opt_int(self.year),
            genres: text::texts(self.genres@),
            directors: text::texts(self.directors@),
            ratings: text::texts(self.ratings@),
            plot: text::opt_text(self.plot),
            imdb_id: text::opt_text(self.imdb_id),
            set: text::opt_text(self.set),
            show_title: text::opt_text(self.show_title),
            season: text::opt_int(self.season),
            episode: text::opt_int(self.episode),
        }
    }
}

pub open spec fn nothing() -> NfoView {
    NfoView {
        title: None,
        year: None,
        genres: seq![],
        directors: seq![],
        ratings: seq![],
        plot: None,
        imdb_id: None,
        set: None,
        show_title: None,
        season: None,
        episode: None,
    }
}

impl NfoData {
    pub fn empty() -> (r: NfoData)
        ensures
            r@ == nothing(),
    {
        let r = NfoData {
            title: None,
            year: None,
            genres: Vec::new(),
            directors: Vec::new(),
            ratings: Vec::new(),
            plot: None,
            imdb_id: None,
            set: None,
            show_title: None,
            season: None,
            episode: None,
        };
        assert(r@ =~= nothing());
        r
    }
}

// -------------------------------------------------------------- one value

/// Control characters that are never meant; line breaks and tabs stay.
pub open spec fn stray(c: char) -> bool {
    (c as int <= 31 || 127 <= c as int <= 159) && c != '\n' && c != '\t'
}

pub const MAX_CHARS: usize = 8192;

pub open spec fn fit(value: Seq<char>) -> Seq<char> {
    let kept = value.filter(|c: char| !stray(c));
    if kept.len() <= MAX_CHARS {
        kept
    } else {
        kept.take(MAX_CHARS as int)
    }
}

/// Text from a sidecar, fit to store: control characters dropped (they
/// are never meant, and one in a title makes the DIDL/SOAP response for
/// the whole container unparseable to strict clients — line breaks and
/// tabs in plots stay), and bounded in length.
pub fn clean(value: &str) -> (r: String)
    ensures
        r@ == fit(value@),
{
    let v = text::chars_of(value);
    let mut kept: Vec<char> = Vec::new();
    let mut i: usize = 0;
    let ghost keep = |c: char| !stray(c);
    proof {
        reveal(Seq::filter);
        assert(v@.take(0) =~= seq![]);
    }
    while i < v.len()
        invariant
            i <= v.len(),
            keep == (|c: char| !stray(c)),
            kept@ == v@.take(i as int).filter(keep),
        decreases v.len() - i,
    {
        proof {
            reveal(Seq::filter);
            assert(v@.take(i + 1).drop_last() =~= v@.take(i as int));
        }
        let c = v[i];
        let u = text::code(c);
        if !((u <= 31 || (127 <= u && u <= 159)) && c != '\n' && c != '\t') {
            kept.push(c);
        }
        i += 1;
    }
    assert(v@.take(i as int) =~= value@);
    let n: usize = if kept.len() <= MAX_CHARS {
        kept.len()
    } else {
        MAX_CHARS
    };
    let r = text::string_of(&kept, 0, n);
    assert(r@ =~= fit(value@));
    r
}

/// Whether a value is a real title id: "tt" and seven to nine digits.
pub open spec fn title_id(value: Seq<char>) -> bool {
    text::begins(value, "tt"@) && ({
        let digits = value.skip("tt"@.len() as int);
        7 <= digits.len() <= 9 && text::all_digits(digits)
    })
}

fn is_title_id(value: &str) -> (r: bool)
    ensures
        r == title_id(value@),
{
    match text::strip_prefix(value, "tt") {
        None => false,
        Some(digits) => {
            let v = text::chars_of(digits.as_str());
            if v.len() < 7 || v.len() > 9 {
                return false;
            }
            let mut i: usize = 0;
            while i < v.len()
                invariant
                    i <= v.len(),
                    v@ == digits@,
                    text::begins(value@, "tt"@),
                    digits@ == value@.skip("tt"@.len() as int),
                    forall|k: int| 0 <= k < i ==> text::is_digit(#[trigger] v@[k]),
                decreases v.len() - i,
            {
                let u = text::code(v[i]);
                if u < 48 || u > 57 {
                    assert(!text::is_digit(v@[i as int]));
                    return false;
                }
                i += 1;
            }
            true
        },
    }
}

pub open spec fn first<T>(have: Option<T>, new: T) -> Option<T> {
    match have {
        Some(h) => Some(h),
        None => Some(new),
    }
}

pub open spec fn number_or(value: Seq<char>, otherwise: int) -> int {
    match text::integer_i64(value) {
        Some(n) => n,
        None => otherwise,
    }
}

/// The data with one more element's value. Only the first of each counts,
/// but for genres, directors and ratings. <season> in episode nfos,
/// <seasonnumber> in Kodi's season.nfo — both name the season. Only a real
/// title id is kept: the value ends up in links on the web pages.
pub open spec fn taken(d: NfoView, element: Seq<char>, value: Seq<char>, imdb: bool) -> NfoView {
    if value.len() == 0 {
        d
    } else if element == "title"@ {
        NfoView { title: first(d.title, value), ..d }
    } else if element == "showtitle"@ {
        NfoView { show_title: first(d.show_title, value), ..d }
    } else if element == "year"@ {
        NfoView { year: first(d.year, number_or(value, 0)), ..d }
    } else if element == "season"@ || element == "seasonnumber"@ {
        NfoView { season: first(d.season, number_or(value, -1)), ..d }
    } else if element == "episode"@ {
        NfoView { episode: first(d.episode, number_or(value, -1)), ..d }
    } else if element == "plot"@ {
        NfoView { plot: first(d.plot, value), ..d }
    } else if element == "uniqueid"@ {
        if imdb && title_id(value) {
            NfoView { imdb_id: first(d.imdb_id, value), ..d }
        } else {
            d
        }
    } else if element == "set"@ {
        NfoView { set: first(d.set, value), ..d }
    } else if element == "genre"@ {
        NfoView { genres: d.genres.push(value), ..d }
    } else if element == "director"@ {
        NfoView { directors: d.directors.push(value), ..d }
    } else if element == "rating"@ {
        NfoView { ratings: d.ratings.push(value), ..d }
    } else {
        d
    }
}

fn number(value: &str, otherwise: i64) -> (r: i64)
    ensures
        r == number_or(value@, otherwise as int),
{
    match text::parse_i64(value) {
        Some(n) => n,
        None => otherwise,
    }
}

fn or_first(have: Option<String>, new: String) -> (r: Option<String>)
    ensures
        text::opt_text(r) == first(text::opt_text(have), new@),
{
    match have {
        Some(h) => Some(h),
        None => Some(new),
    }
}

fn or_first_number(have: Option<i64>, new: i64) -> (r: Option<i64>)
    ensures
        text::opt_int(r) == first(text::opt_int(have), new as int),
{
    match have {
        Some(h) => Some(h),
        None => Some(new),
    }
}

/// The data with one more element's value; `imdb` says that the element is
/// marked as an IMDb id.
pub fn take_value(data: NfoData, element: &str, value: String, imdb: bool) -> (r: NfoData)
    ensures
        r@ == taken(data@, element@, value@, imdb),
{
    let mut d = data;
    if value.as_str().is_empty() {
        return d;
    }
    if text::same(element, "title") {
        d.title = or_first(d.title, value);
    } else if text::same(element, "showtitle") {
        d.show_title = or_first(d.show_title, value);
    } else if text::same(element, "year") {
        d.year = or_first_number(d.year, number(value.as_str(), 0));
    } else if text::same(element, "season") || text::same(element, "seasonnumber") {
        d.season = or_first_number(d.season, number(value.as_str(), -1));
    } else if text::same(element, "episode") {
        d.episode = or_first_number(d.episode, number(value.as_str(), -1));
    } else if text::same(element, "plot") {
        d.plot = or_first(d.plot, value);
    } else if text::same(element, "uniqueid") {
        if imdb && is_title_id(value.as_str()) {
            d.imdb_id = or_first(d.imdb_id, value);
        }
    } else if text::same(element, "set") {
        d.set = or_first(d.set, value);
    } else if text::same(element, "genre") {
        text::push_text(&mut d.genres, value.as_str());
    } else if text::same(element, "director") {
        text::push_text(&mut d.directors, value.as_str());
    } else if text::same(element, "rating") {
        text::push_text(&mut d.ratings, value.as_str());
    }
    assert(d@ =~= taken(data@, element@, value@, imdb));
    d
}

/// What is left once a document has been read: years, seasons and episodes
/// that can be ones.
pub open spec fn plausible(d: NfoView) -> NfoView {
    NfoView {
        year: match d.year {
            Some(y) if 1801 <= y < 2200 => Some(y),
            _ => None,
        },
        season: match d.season {
            Some(s) if s >= 0 => Some(s),
            _ => None,
        },
        episode: match d.episode {
            Some(e) if e >= 0 => Some(e),
            _ => None,
        },
        ..d
    }
}

fn keep_plausible(data: NfoData) -> (r: NfoData)
    ensures
        r@ == plausible(data@),
{
    let mut d = data;
    d.year = match d.year {
        Some(y) => if 1801 <= y && y < 2200 {
            Some(y)
        } else {
            None
        },
        None => None,
    };
    d.season = match d.season {
        Some(s) => if s >= 0 {
            Some(s)
        } else {
            None
        },
        None => None,
    };
    d.episode = match d.episode {
        Some(e) => if e >= 0 {
            Some(e)
        } else {
            None
        },
        None => None,
    };
    d
}

// ------------------------------------------------------------ the document

/// A document read so far. The reader hands character and entity references
/// over as events of their own, so an element's text is reassembled until its
/// end tag.
#[verifier::ext_equal]
pub struct Reading {
    pub data: NfoView,
    pub current: Option<Seq<char>>,
    pub imdb: bool,
    pub buf: Seq<char>,
}

/// Whether a tag's attributes mark an IMDb id.
pub open spec fn marks_imdb(attributes: Seq<u8>) -> bool {
    match xml::decoded(attributes) {
        Some(a) => xml::xml_attribute(a, "type"@) == Some("imdb"@),
        None => false,
    }
}

/// One more event; an error where its text cannot be decoded.
pub open spec fn read_one(r: Reading, e: EventView) -> Result<Reading, ()> {
    match e {
        EventView::Open(name, attributes) => {
            let name = text::lossy(name);
            Ok(
                Reading {
                    data: r.data,
                    current: Some(name),
                    imdb: if name == "uniqueid"@ {
                        marks_imdb(attributes)
                    } else {
                        r.imdb
                    },
                    buf: seq![],
                },
            )
        },
        EventView::Close => match r.current {
            None => Ok(r),
            Some(element) => Ok(
                Reading {
                    data: taken(r.data, element, fit(text::trimmed(r.buf)), r.imdb),
                    current: None,
                    imdb: r.imdb,
                    buf: seq![],
                },
            ),
        },
        _ => match (r.current, xml::text_added(e)) {
            (Some(_), Some(Ok(t))) => Ok(Reading { buf: r.buf + t, ..r }),
            (Some(_), Some(Err(_))) => Err(()),
            _ => Ok(r),
        },
    }
}

/// The events from the `i`-th on, up to the end of the document; an error
/// where it is malformed.
pub open spec fn read_from(events: Seq<EventView>, i: int, r: Reading) -> Result<Reading, ()>
    decreases events.len() - i,
{
    if i < 0 || i >= events.len() || events[i] == EventView::Ended {
        Ok(r)
    } else if events[i] == EventView::Failed {
        Err(())
    } else {
        match read_one(r, events[i]) {
            Ok(next) => read_from(events, i + 1, next),
            Err(_) => Err(()),
        }
    }
}

pub open spec fn unread() -> Reading {
    Reading { data: nothing(), current: None, imdb: false, buf: seq![] }
}

/// What a document of these events says.
pub open spec fn nfo_of(events: Seq<EventView>) -> Result<NfoView, ()> {
    match read_from(events, 0, unread()) {
        Ok(r) => Ok(plausible(r.data)),
        Err(_) => Err(()),
    }
}

/// What a document of these events says; nothing where it is malformed.
pub fn parse_events(events: &Vec<XmlEvent>) -> (r: Option<NfoData>)
    ensures
        match nfo_of(xml::event_views(events@)) {
            Ok(d) => r matches Some(data) && data@ == d,
            Err(_) => r is None,
        },
{
    let ghost es = xml::event_views(events@);
    let ghost goal = read_from(es, 0, unread());
    let mut data = NfoData::empty();
    let mut current: Option<String> = None;
    let mut imdb = false;
    let mut buf = String::new();
    let ghost mut state = unread();
    let mut i: usize = 0;
    assert(buf@ =~= seq![]);
    while i < events.len()
        invariant_except_break
            read_from(es, i as int, state) == goal,
        invariant
            i <= events.len(),
            es == xml::event_views(events@),
            goal == read_from(es, 0, unread()),
            state.data == data@,
            state.current == text::opt_text(current),
            state.imdb == imdb,
            state.buf == buf@,
        ensures
            goal == Ok::<Reading, ()>(state),
        decreases events.len() - i,
    {
        let e = &events[i];
        assert(es[i as int] == events@[i as int]@);
        match e {
            XmlEvent::Ended => {
                break;
            },
            XmlEvent::Failed => {
                return None;
            },
            XmlEvent::Open(name, attributes) => {
                let name = text::from_utf8_lossy(name);
                if text::same(name.as_str(), "uniqueid") {
                    imdb = match xml::decode(attributes) {
                        Some(a) => match xml::attribute(a.as_str(), "type") {
                            Some(v) => text::same(v.as_str(), "imdb"),
                            None => false,
                        },
                        None => false,
                    };
                }
                current = Some(name);
                buf = String::new();
                assert(buf@ =~= seq![]);
            },
            XmlEvent::Close => {
                match current.take() {
                    None => {},
                    Some(element) => {
                        let t = text::trim(buf.as_str());
                        let value = clean(t.as_str());
                        buf = String::new();
                        assert(buf@ =~= seq![]);
                        data = take_value(data, element.as_str(), value, imdb);
                    },
                }
            },
            _ => {
                if current.is_some() {
                    match xml::added_text(e) {
                        Ok(t) => {
                            buf.push_str(t.as_str());
                            assert(xml::text_added(e@) is None ==> buf@ =~= state.buf);
                        },
                        Err(_) => {
                            return None;
                        },
                    }
                }
            },
        }
        proof {
            let next = Reading {
                data: data@,
                current: text::opt_text(current),
                imdb,
                buf: buf@,
            };
            assert(read_one(state, es[i as int])->Ok_0 =~= next);
            state = next;
        }
        i += 1;
    }
    Some(keep_plausible(data))
}

/// What an .nfo says; nothing where it is malformed — the nfo is an optional
/// enhancement, never a failure.
pub fn parse(document: &str) -> (r: Option<NfoData>)
    ensures
        match nfo_of(xml::xml_events(document@)) {
            Ok(d) => r matches Some(data) && data@ == d,
            Err(_) => r is None,
        },
{
    let events = xml::read_events(document);
    parse_events(&events)
}

// -------------------------------------------------------------------- laws

/// Whatever a document holds, the IMDb id that comes out of it is a title id,
/// fit to stand in a link.
pub proof fn only_title_ids_are_kept(d: NfoView, element: Seq<char>, value: Seq<char>, imdb: bool)
    requires
        d.imdb_id matches Some(id) ==> title_id(id),
    ensures
        taken(d, element, value, imdb).imdb_id matches Some(id) ==> title_id(id),
{
}

/// A value that is stored holds no stray control character, and is bounded.
pub proof fn stored_text_is_fit(value: Seq<char>)
    ensures
        fit(value).len() <= MAX_CHARS,
        forall|i: int| 0 <= i < fit(value).len() ==> !stray(#[trigger] fit(value)[i]),
{
    let keep = |c: char| !stray(c);
    let kept = value.filter(keep);
    assert forall|i: int| 0 <= i < fit(value).len() implies !stray(#[trigger] fit(value)[i]) by {
        assert(fit(value)[i] == kept[i]);
        value.lemma_filter_pred(keep, i);
    }
}

/// Of each element the first value counts, and it settles its own field alone;
/// genres, directors and ratings are all kept. An empty value says nothing.
pub proof fn elements_settle_their_own_field(d: NfoView, value: Seq<char>, imdb: bool)
    requires
        value.len() > 0,
    ensures
        taken(d, "title"@, value, imdb) == (NfoView {
            title: if d.title is Some {
                d.title
            } else {
                Some(value)
            },
            ..d
        }),
        taken(d, "showtitle"@, value, imdb) == (NfoView {
            show_title: if d.show_title is Some {
                d.show_title
            } else {
                Some(value)
            },
            ..d
        }),
        taken(d, "plot"@, value, imdb) == (NfoView {
            plot: if d.plot is Some {
                d.plot
            } else {
                Some(value)
            },
            ..d
        }),
        taken(d, "set"@, value, imdb) == (NfoView {
            set: if d.set is Some {
                d.set
            } else {
                Some(value)
            },
            ..d
        }),
        taken(d, "genre"@, value, imdb) == (NfoView { genres: d.genres.push(value), ..d }),
        taken(d, "director"@, value, imdb) == (NfoView { directors: d.directors.push(value), ..d }),
        taken(d, "rating"@, value, imdb) == (NfoView { ratings: d.ratings.push(value), ..d }),
        text::integer_i64(value) is Some ==> {
            &&& taken(d, "year"@, value, imdb) == (NfoView {
                year: if d.year is Some {
                    d.year
                } else {
                    text::integer_i64(value)
                },
                ..d
            })
            &&& taken(d, "season"@, value, imdb) == (NfoView {
                season: if d.season is Some {
                    d.season
                } else {
                    text::integer_i64(value)
                },
                ..d
            })
            &&& taken(d, "seasonnumber"@, value, imdb) == taken(d, "season"@, value, imdb)
            &&& taken(d, "episode"@, value, imdb) == (NfoView {
                episode: if d.episode is Some {
                    d.episode
                } else {
                    text::integer_i64(value)
                },
                ..d
            })
        },
        !imdb ==> taken(d, "uniqueid"@, value, imdb) == d,
        imdb && title_id(value) ==> taken(d, "uniqueid"@, value, imdb) == (NfoView {
            imdb_id: if d.imdb_id is Some {
                d.imdb_id
            } else {
                Some(value)
            },
            ..d
        }),
        !title_id(value) ==> taken(d, "uniqueid"@, value, imdb) == d,
        forall|element: Seq<char>| #[trigger] taken(d, element, seq![], imdb) == d,
{
    reveal_strlit("title");
    reveal_strlit("showtitle");
    reveal_strlit("year");
    reveal_strlit("season");
    reveal_strlit("seasonnumber");
    reveal_strlit("episode");
    reveal_strlit("plot");
    reveal_strlit("uniqueid");
    reveal_strlit("set");
    reveal_strlit("genre");
    reveal_strlit("director");
    reveal_strlit("rating");
    assert("title"@.len() == 5 && "genre"@.len() == 5 && "title"@[0] == 't' && "genre"@[0] == 'g');
    assert("showtitle"@.len() == 9 && "seasonnumber"@.len() == 12 && "episode"@.len() == 7
        && "set"@.len() == 3);
    assert("year"@.len() == 4 && "plot"@.len() == 4 && "year"@[0] == 'y' && "plot"@[0] == 'p');
    assert("season"@.len() == 6 && "rating"@.len() == 6 && "season"@[0] == 's' && "rating"@[0]
        == 'r');
    assert("uniqueid"@.len() == 8 && "director"@.len() == 8 && "uniqueid"@[0] == 'u'
        && "director"@[0] == 'd');
}

/// A year is kept from 1801 to 2199, and a season or an episode from nought on;
/// nothing else of what was read changes.
pub proof fn implausible_numbers_are_dropped(d: NfoView)
    ensures
        ({
            let p = plausible(d);
            &&& p.year == (if d.year is Some && 1800 < d.year->Some_0 && d.year->Some_0 < 2200 {
                d.year
            } else {
                None
            })
            &&& p.season == (if d.season is Some && d.season->Some_0 >= 0 {
                d.season
            } else {
                None
            })
            &&& p.episode == (if d.episode is Some && d.episode->Some_0 >= 0 {
                d.episode
            } else {
                None
            })
            &&& p == (NfoView { year: p.year, season: p.season, episode: p.episode, ..d })
        }),
{
}

/// A title id is "tt" and seven, eight or nine digits, nothing else.
pub proof fn title_ids_are_numbers(digits: Seq<char>)
    ensures
        title_id("tt"@ + digits) <==> text::all_digits(digits) && (digits.len() == 7 || digits.len()
            == 8 || digits.len() == 9),
{
    reveal_strlit("tt");
    let s = "tt"@ + digits;
    assert(s.subrange(0, 2) =~= "tt"@);
    assert(s.skip(2) =~= digits);
}

/// An element's value is the text between its tags, white space at its ends
/// aside; only an element that is marked as an IMDb id gives one.
pub proof fn elements_are_read_between_their_tags(
    r: Reading,
    name: Seq<u8>,
    attributes: Seq<u8>,
    content: EventView,
    t: Seq<char>,
)
    requires
        xml::text_added(content) == Some(Ok::<Seq<char>, ()>(t)),
        !(content is Open),
        !(content is Close),
    ensures
        ({
            let opened = read_one(r, EventView::Open(name, attributes));
            &&& opened is Ok
            &&& read_one(opened->Ok_0, content) is Ok
            &&& read_one(read_one(opened->Ok_0, content)->Ok_0, EventView::Close) is Ok
            &&& read_one(
                read_one(opened->Ok_0, content)->Ok_0,
                EventView::Close,
            )->Ok_0.data == taken(
                r.data,
                text::lossy(name),
                fit(text::trimmed(t)),
                if text::lossy(name) == "uniqueid"@ {
                    marks_imdb(attributes)
                } else {
                    r.imdb
                },
            )
        }),
{
    assert(Seq::<char>::empty() + t =~= t);
}

/// Text outside any element says nothing, and a document that breaks off says
/// nothing at all.
pub proof fn broken_documents_say_nothing(events: Seq<EventView>, i: int, r: Reading)
    requires
        0 <= i < events.len(),
        events[i] == EventView::Failed,
    ensures
        read_from(events, i, r) is Err,
        r.current is None ==> read_one(r, EventView::Close) == Ok::<Reading, ()>(r),
{
}

} // verus!
