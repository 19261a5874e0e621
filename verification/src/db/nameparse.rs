//! Names of media files: titles, years, seasons and episodes.
use vstd::prelude::*;
use crate::patterns;
use crate::patterns::{GroupsView, Groups, Match};
use crate::text;

verus! {

/// Dots and underscores as spaces.
pub open spec fn spaced(s: Seq<char>) -> Seq<char> {
    Seq::new(
        s.len(),
        |i: int|
            if s[i] == '.' || s[i] == '_' {
                ' '
            } else {
                s[i]
            },
    )
}

/// What is stripped from the ends of a name.
pub open spec fn stray(c: char) -> bool {
    c == '-' || c == ' ' || c == '(' || c == '['
}

pub open spec fn strip_front(s: Seq<char>) -> Seq<char>
    decreases s.len(),
{
    if s.len() > 0 && stray(s[0]) {
        strip_front(s.drop_first())
    } else {
        s
    }
}

pub open spec fn strip_back(s: Seq<char>) -> Seq<char>
    decreases s.len(),
{
    if s.len() > 0 && stray(s.last()) {
        strip_back(s.drop_last())
    } else {
        s
    }
}

/// A text without stray separators at its ends.
pub open spec fn unstrayed(s: Seq<char>) -> Seq<char> {
    strip_back(strip_front(s))
}

/// A scene-style name as words: dots and underscores are spaces, runs of
/// white space one space, and no stray separators at the ends.
pub open spec fn cleaned(s: Seq<char>) -> Seq<char> {
    unstrayed(text::joined(text::words_of(spaced(s)), " "@))
}

fn strip_stray(s: &str) -> (r: String)
    ensures
        r@ == unstrayed(s@),
{
    let v = text::chars_of(s);
    let mut lo: usize = 0;
    assert(v@.skip(0) =~= s@);
    while lo < v.len() && (v[lo] == '-' || v[lo] == ' ' || v[lo] == '(' || v[lo] == '[')
        invariant
            lo <= v.len(),
            strip_front(v@.skip(lo as int)) == strip_front(s@),
        decreases v.len() - lo,
    {
        assert(v@.skip(lo as int).drop_first() =~= v@.skip(lo + 1));
        lo += 1;
    }
    let mut hi: usize = v.len();
    assert(v@.subrange(lo as int, hi as int) =~= v@.skip(lo as int));
    while hi > lo && (v[hi - 1] == '-' || v[hi - 1] == ' ' || v[hi - 1] == '(' || v[hi - 1] == '[')
        invariant
            lo <= hi <= v.len(),
            strip_back(v@.subrange(lo as int, hi as int)) == unstrayed(s@),
        decreases hi,
    {
        assert(v@.subrange(lo as int, hi as int).drop_last() =~= v@.subrange(lo as int, hi - 1));
        hi -= 1;
    }
    text::string_of(&v, lo, hi)
}

/// Normalize scene-style names: dots/underscores to spaces, collapse runs,
/// trim stray separators.
pub fn clean_name(s: &str) -> (r: String)
    ensures
        r@ == cleaned(s@),
{
    let v = text::chars_of(s);
    let mut out = String::new();
    let mut i: usize = 0;
    while i < v.len()
        invariant
            i <= v.len(),
            v@ == s@,
            out@ == spaced(s@).take(i as int),
        decreases v.len() - i,
    {
        if v[i] == '.' || v[i] == '_' {
            out.push(' ');
        } else {
            out.push(v[i]);
        }
        i += 1;
        assert(out@ =~= spaced(s@).take(i as int));
    }
    assert(spaced(s@).take(i as int) =~= spaced(s@));
    let words = text::words(out.as_str());
    let joined = text::join(&words, " ");
    strip_stray(joined.as_str())
}

/// A title without a leading English article.
pub open spec fn without_article(s: Seq<char>) -> Seq<char> {
    if text::begins(text::ascii_lower(s), "the "@) {
        s.skip(4)
    } else if text::begins(text::ascii_lower(s), "a "@) {
        s.skip(2)
    } else if text::begins(text::ascii_lower(s), "an "@) {
        s.skip(3)
    } else {
        s
    }
}

/// What a title is sorted by: what follows its leading punctuation, unless
/// it is nothing else, without a leading article.
pub open spec fn sort_key(title: Seq<char>) -> Seq<char> {
    let s = text::from_run(title);
    without_article(if s.len() == 0 {
        title
    } else {
        s
    })
}

/// Sort key: ignore leading punctuation ("Wuthering Heights" — the 2026
/// film's official title includes the quotes — must sort under W), then
/// drop a leading English article.
pub fn sort_title(title: &str) -> (r: String)
    ensures
        r@ == sort_key(title@),
{
    let v = text::chars_of(title);
    assert(v@.skip(0) =~= title@);
    let mut lo = text::run_start(&v, 0);
    if lo == v.len() {
        lo = 0;
    }
    let base = text::string_of(&v, lo, v.len());
    assert(base@ =~= v@.skip(lo as int));
    let lower = text::to_ascii_lowercase(base.as_str());
    let n: usize = if text::starts_with(lower.as_str(), "the ") {
        4
    } else if text::starts_with(lower.as_str(), "a ") {
        2
    } else if text::starts_with(lower.as_str(), "an ") {
        3
    } else {
        0
    };
    proof {
        reveal_strlit("the ");
        reveal_strlit("a ");
        reveal_strlit("an ");
        assert("the "@.len() == 4);
        assert("a "@.len() == 2);
        assert("an "@.len() == 3);
    }
    let b = text::chars_of(base.as_str());
    assert(n <= b@.len());
    let r = text::string_of(&b, n, b.len());
    assert(r@ =~= base@.skip(n as int));
    r
}

pub open spec fn delimiter(c: char) -> bool {
    c == '.' || c == ' ' || c == '_' || c == '-' || c == '(' || c == ')' || c == '[' || c == ']'
}

pub fn is_name_delimiter(c: char) -> (r: bool)
    ensures
        r == delimiter(c),
{
    c == '.' || c == ' ' || c == '_' || c == '-' || c == '(' || c == ')' || c == '[' || c == ']'
}

/// Release-tag words that sometimes precede the year in scene names
/// ("Wall.Street.REMASTERED.1987") and would pollute the title. Stripped
/// only from the end of a parsed title, and never down to nothing.
pub const JUNK_WORDS: [&'static str; 22] = [
    "remastered",
    "unrated",
    "extended",
    "uncut",
    "repack",
    "proper",
    "imax",
    "theatrical",
    "criterion",
    "restored",
    "bluray",
    "brrip",
    "webrip",
    "hdrip",
    "dvdrip",
    "2160p",
    "1080p",
    "720p",
    "4k",
    "x264",
    "x265",
    "hevc",
];

/// Words without the junk at their end; the first word stays.
pub open spec fn without_junk(words: Seq<Seq<char>>) -> Seq<Seq<char>>
    decreases words.len(),
{
    if words.len() > 1 && text::listed(text::lowered(words.last()), JUNK_WORDS@) {
        without_junk(words.drop_last())
    } else {
        words
    }
}

/// A title without the release tags at its end.
pub open spec fn dejunked(title: Seq<char>) -> Seq<char> {
    text::joined(without_junk(text::pieces(title, ' ')), " "@)
}

pub fn strip_junk(title: &str) -> (r: String)
    ensures
        r@ == dejunked(title@),
{
    let mut words = text::split(title, ' ');
    while words.len() > 1
        invariant
            without_junk(text::texts(words@)) == without_junk(text::pieces(title@, ' ')),
        ensures
            text::texts(words@) == without_junk(text::pieces(title@, ' ')),
        decreases words.len(),
    {
        let n = words.len();
        let last = text::to_lowercase(words[n - 1].as_str());
        if !text::is_one_of(last.as_str(), &JUNK_WORDS) {
            break;
        }
        let ghost before = words@;
        let _ = words.pop();
        assert(text::texts(words@) =~= text::texts(before).drop_last());
    }
    text::join(&words, " ")
}

/// Whether a match is a year that stands apart: something and a delimiter
/// before it, a delimiter or the end after it.
pub open spec fn delimited(m: (Seq<char>, Seq<char>, Seq<char>)) -> bool {
    &&& m.0.len() > 0
    &&& delimiter(m.0.last())
    &&& m.2.len() == 0 || delimiter(m.2[0])
    &&& text::integer_i64(m.1) is Some
}

/// The last of the matches that is a year that stands apart, with what
/// stands before it.
pub open spec fn last_year(found: Seq<(Seq<char>, Seq<char>, Seq<char>)>) -> Option<(Seq<char>, int)>
    decreases found.len(),
{
    if found.len() == 0 {
        None
    } else if delimited(found.last()) {
        Some((found.last().0, text::integer_i64(found.last().1)->Some_0))
    } else {
        last_year(found.drop_last())
    }
}

/// The title and the year of a movie's stem, given the years in it: what
/// stands before the last year that stands apart, unless that is nothing.
pub open spec fn movie_named(
    stem: Seq<char>,
    found: Seq<(Seq<char>, Seq<char>, Seq<char>)>,
) -> (Seq<char>, Option<int>) {
    match last_year(found) {
        Some((before, year)) => if dejunked(cleaned(before)).len() > 0 {
            (dejunked(cleaned(before)), Some(year))
        } else {
            (dejunked(cleaned(stem)), None)
        },
        None => (dejunked(cleaned(stem)), None),
    }
}

/// The title and year of a movie, given the matches of the year expression
/// in its stem.
pub fn movie_from_years(stem: &str, found: &Vec<Match>) -> (r: (String, Option<i64>))
    ensures
        (r.0@, text::opt_int(r.1)) == movie_named(stem@, patterns::match_views(found@)),
{
    let ghost all = patterns::match_views(found@);
    let mut i: usize = found.len();
    assert(all.take(i as int) =~= all);
    while i > 0
        invariant
            i <= found.len(),
            all == patterns::match_views(found@),
            last_year(all) == last_year(all.take(i as int)),
        decreases i,
    {
        let m = &found[i - 1];
        assert(all.take(i as int).drop_last() =~= all.take(i - 1));
        assert(all.take(i as int).last() == m@);
        let b = text::chars_of(m.before.as_str());
        let a = text::chars_of(m.after.as_str());
        let year = text::parse_i64(m.matched.as_str());
        let apart = b.len() > 0 && is_name_delimiter(b[b.len() - 1]) && (a.len() == 0
            || is_name_delimiter(a[0]));
        if apart {
            match year {
                Some(y) => {
                    let cleaned = clean_name(m.before.as_str());
                    let title = strip_junk(cleaned.as_str());
                    if !title.as_str().is_empty() {
                        return (title, Some(y));
                    }
                    let whole = clean_name(stem);
                    return (strip_junk(whole.as_str()), None);
                },
                None => {},
            }
        }
        i -= 1;
    }
    let whole = clean_name(stem);
    (strip_junk(whole.as_str()), None)
}

/// Parse a movie filename stem like "Heat (1995)" or "Heat.1995.1080p".
/// Returns (title, year). The year must appear after some title text so a
/// name that IS a year ("2012.mkv") stays a title.
pub fn movie(stem: &str) -> (r: (String, Option<i64>))
    ensures
        (r.0@, text::opt_int(r.1)) == movie_named(
            stem@,
            patterns::regex_find_iter(patterns::YEAR@, stem@),
        ),
{
    let found = patterns::find_iter(patterns::YEAR, stem);
    movie_from_years(stem, &found)
}

/// A series' name without what is left of it once its year is gone, unless
/// that is nothing.
pub open spec fn named_series(series: Seq<char>, without_year: Seq<char>) -> Seq<char> {
    if text::trimmed(without_year).len() == 0 {
        series
    } else {
        text::trimmed(without_year)
    }
}

/// A series' name, given the name with its trailing year taken out.
pub fn series_from_replaced(series: &str, without_year: &str) -> (r: String)
    ensures
        r@ == named_series(series@, without_year@),
{
    let t = text::trim(without_year);
    if t.as_str().is_empty() {
        series.to_owned()
    } else {
        t
    }
}

pub open spec fn series_name(series: Seq<char>) -> Seq<char> {
    named_series(series, patterns::regex_replace(patterns::SERIES_YEAR@, series, ""@))
}

/// Drop a trailing year — "The Boys (2019)", "A Woman of Substance 2026" —
/// so release-name variants of the same show group together.
fn strip_series_year(series: &str) -> (r: String)
    ensures
        r@ == series_name(series@),
{
    let without = patterns::replace(patterns::SERIES_YEAR, series, "");
    series_from_replaced(series, without.as_str())
}

/// A word without the opening brackets in front.
pub open spec fn unbracketed(s: Seq<char>) -> Seq<char>
    decreases s.len(),
{
    if s.len() > 0 && (s[0] == '(' || s[0] == '[') {
        unbracketed(s.drop_first())
    } else {
        s
    }
}

fn strip_brackets(s: &str) -> (r: String)
    ensures
        r@ == unbracketed(s@),
{
    let v = text::chars_of(s);
    let mut lo: usize = 0;
    assert(v@.skip(0) =~= s@);
    while lo < v.len() && (v[lo] == '(' || v[lo] == '[')
        invariant
            lo <= v.len(),
            unbracketed(v@.skip(lo as int)) == unbracketed(s@),
        decreases v.len() - lo,
    {
        assert(v@.skip(lo as int).drop_first() =~= v@.skip(lo + 1));
        lo += 1;
    }
    let r = text::string_of(&v, lo, v.len());
    assert(r@ =~= v@.skip(lo as int));
    r
}

/// The words before the first that is junk.
pub open spec fn before_junk(words: Seq<Seq<char>>, junk: Seq<bool>) -> Seq<Seq<char>>
    decreases words.len(),
{
    if words.len() == 0 || junk[0] {
        seq![]
    } else {
        seq![words[0]] + before_junk(words.drop_first(), junk.drop_first())
    }
}

/// The title made of the words before the first that is junk.
pub fn title_before_junk(words: &Vec<String>, junk: &Vec<bool>) -> (r: String)
    requires
        junk@.len() == words@.len(),
    ensures
        r@ == unstrayed(text::joined(before_junk(text::texts(words@), junk@), " "@)),
{
    let ghost ws = text::texts(words@);
    let mut kept: Vec<String> = Vec::new();
    let mut i: usize = 0;
    proof {
        assert(ws.skip(0) =~= ws);
        assert(junk@.skip(0) =~= junk@);
        assert(text::texts(kept@) + before_junk(ws, junk@) =~= before_junk(ws, junk@));
    }
    while i < words.len() && !junk[i]
        invariant
            i <= words.len(),
            junk@.len() == words@.len(),
            ws == text::texts(words@),
            text::texts(kept@) + before_junk(ws.skip(i as int), junk@.skip(i as int))
                == before_junk(ws, junk@),
        decreases words.len() - i,
    {
        let w = words[i].clone();
        proof {
            text::lemma_texts_push(kept@, w);
            assert(ws.skip(i as int).drop_first() =~= ws.skip(i + 1));
            assert(junk@.skip(i as int).drop_first() =~= junk@.skip(i + 1));
            let rest = before_junk(ws.skip(i + 1), junk@.skip(i + 1));
            assert(text::texts(kept@) + (seq![w@] + rest) =~= text::texts(kept@).push(w@) + rest);
        }
        kept.push(w);
        i += 1;
    }
    assert(text::texts(kept@) + Seq::<Seq<char>>::empty() =~= text::texts(kept@));
    let joined = text::join(&kept, " ");
    strip_stray(joined.as_str())
}

/// Which words are release tags.
pub open spec fn junk_flags(words: Seq<Seq<char>>) -> Seq<bool> {
    Seq::new(
        words.len(),
        |i: int| patterns::regex_is_match(patterns::RELEASE_JUNK@, unbracketed(words[i])),
    )
}

/// A title up to its first release tag.
pub open spec fn cut_title(title: Seq<char>) -> Seq<char> {
    unstrayed(
        text::joined(before_junk(text::words_of(title), junk_flags(text::words_of(title))), " "@),
    )
}

/// Truncate an episode title at the first release-junk token, so
/// "Grave Danger 1080p Web-DL x264-OFT" becomes "Grave Danger" and a
/// title that is pure junk becomes empty (callers fall back to Episode N).
fn cut_release_junk(title: &str) -> (r: String)
    ensures
        r@ == cut_title(title@),
{
    let words = text::words(title);
    let ghost ws = text::texts(words@);
    assert(ws.len() == words@.len());
    let mut junk: Vec<bool> = Vec::new();
    let mut i: usize = 0;
    while i < words.len()
        invariant
            i <= words.len(),
            ws == text::texts(words@),
            junk@ == junk_flags(ws).take(i as int),
        decreases words.len() - i,
    {
        let bare = strip_brackets(words[i].as_str());
        let flag = patterns::is_match(patterns::RELEASE_JUNK, bare.as_str());
        junk.push(flag);
        i += 1;
        assert(junk@ =~= junk_flags(ws).take(i as int));
    }
    assert(junk_flags(ws).take(i as int) =~= junk_flags(ws));
    title_before_junk(&words, &junk)
}

#[derive(Debug)]
pub struct ParsedEpisode {
    pub series: String,
    pub season: i64,
    pub episode: i64,
    pub title: String,
}

pub struct EpisodeView {
    pub series: Seq<char>,
    pub season: int,
    pub episode: int,
    pub title: Seq<char>,
}

impl View for ParsedEpisode {
    type V = EpisodeView;

    open spec fn view(&self) -> EpisodeView {
        EpisodeView {
            series: self.series@,
            season: self.season as int,
            episode: self.episode as int,
            title: self.title@,
        }
    }
}

/// The season and the episode that a match of the episode expression gives:
/// groups 1 and 2, or 3 and 4.
pub open spec fn numbered(g: GroupsView) -> Option<(int, int)> {
    let (s, e) = if g.group(1) is Some && g.group(2) is Some {
        (g.group(1), g.group(2))
    } else {
        (g.group(3), g.group(4))
    };
    match (s, e) {
        (Some(s), Some(e)) => match (text::integer_i64(s), text::integer_i64(e)) {
            (Some(s), Some(e)) => Some((s, e)),
            _ => None,
        },
        _ => None,
    }
}

/// Whether a cleaned directory name can name a series: it is not empty and
/// not that of a season's folder.
pub open spec fn names_series(dir: Seq<char>) -> bool {
    let lower = text::lowered(dir);
    dir.len() > 0 && !text::begins(lower, "season"@) && !text::begins(lower, "series"@)
}

/// The cleaned name of the nearest directory that can name a series, if any.
pub open spec fn naming_dir(dirs: Seq<Seq<char>>) -> Option<Seq<char>>
    decreases dirs.len(),
{
    if dirs.len() == 0 {
        None
    } else if names_series(cleaned(dirs.last())) {
        Some(cleaned(dirs.last()))
    } else {
        naming_dir(dirs.drop_last())
    }
}

/// The series of an episode: what the stem says before the number, else what
/// the nearest directory says.
pub open spec fn episode_series(before: Seq<char>, dirs: Seq<Seq<char>>) -> Seq<char> {
    let own = series_name(cleaned(before));
    let series = if own.len() == 0 {
        match naming_dir(dirs) {
            Some(dir) => series_name(dir),
            None => own,
        }
    } else {
        own
    };
    if series.len() == 0 {
        "Unknown Series"@
    } else {
        series
    }
}

/// What a stem and the directories above it say of an episode, given the
/// match of the episode expression in the stem.
pub open spec fn episode_named(g: GroupsView, dirs: Seq<Seq<char>>) -> Option<EpisodeView> {
    match numbered(g) {
        None => None,
        Some((season, episode)) => {
            let title = cut_title(cleaned(g.after));
            Some(
                EpisodeView {
                    series: episode_series(g.before, dirs),
                    season,
                    episode,
                    title: if title.len() == 0 {
                        "Episode "@ + text::decimal(episode)
                    } else {
                        title
                    },
                },
            )
        },
    }
}

pub open spec fn opt_episode(o: Option<ParsedEpisode>) -> Option<EpisodeView> {
    match o {
        Some(e) => Some(e@),
        None => None,
    }
}

fn season_and_episode(g: &Groups) -> (r: Option<(i64, i64)>)
    ensures
        (match r {
            Some((s, e)) => Some((s as int, e as int)),
            None => None,
        }) == numbered(g@),
{
    let (first, second) = (g.group(1), g.group(2));
    let (s, e) = if first.is_some() && second.is_some() {
        (first, second)
    } else {
        (g.group(3), g.group(4))
    };
    match (s, e) {
        (Some(s), Some(e)) => match (text::parse_i64(s.as_str()), text::parse_i64(e.as_str())) {
            (Some(s), Some(e)) => Some((s, e)),
            _ => None,
        },
        _ => None,
    }
}

fn nearest_dir(parent_dirs: &Vec<String>) -> (r: Option<String>)
    ensures
        text::opt_text(r) == naming_dir(text::texts(parent_dirs@)),
{
    let ghost ds = text::texts(parent_dirs@);
    let mut i: usize = parent_dirs.len();
    assert(ds.take(i as int) =~= ds);
    while i > 0
        invariant
            i <= parent_dirs.len(),
            ds == text::texts(parent_dirs@),
            naming_dir(ds) == naming_dir(ds.take(i as int)),
        decreases i,
    {
        assert(ds.take(i as int).drop_last() =~= ds.take(i - 1));
        assert(ds.take(i as int).last() == parent_dirs@[i - 1]@);
        let name = clean_name(parent_dirs[i - 1].as_str());
        let lower = text::to_lowercase(name.as_str());
        if !text::starts_with(lower.as_str(), "season") && !text::starts_with(
            lower.as_str(),
            "series",
        ) && !name.as_str().is_empty() {
            return Some(name);
        }
        i -= 1;
    }
    None
}

/// An episode, given the match of the episode expression in its stem.
pub fn episode_from_groups(g: &Groups, parent_dirs: &Vec<String>) -> (r: Option<ParsedEpisode>)
    ensures
        opt_episode(r) == episode_named(g@, text::texts(parent_dirs@)),
{
    let (season, episode) = match season_and_episode(g) {
        None => {
            return None;
        },
        Some(n) => n,
    };
    let own = clean_name(g.before.as_str());
    let mut series = strip_series_year(own.as_str());
    if series.as_str().is_empty() {
        // Nearest ancestor that isn't a season folder.
        match nearest_dir(parent_dirs) {
            Some(dir) => {
                series = strip_series_year(dir.as_str());
            },
            None => {},
        }
    }
    if series.as_str().is_empty() {
        series = "Unknown Series".to_owned();
    }
    let tail = clean_name(g.after.as_str());
    let mut title = cut_release_junk(tail.as_str());
    if title.as_str().is_empty() {
        title = "Episode ".to_owned();
        title.push_str(text::dec(episode).as_str());
    }
    Some(ParsedEpisode { series, season, episode, title })
}

/// Parse a TV episode from its stem plus ancestor directory names, e.g.
/// "The Wire S01E03 The Buys" or "The Wire/Season 1/1x03 The Buys".
/// Falls back to directory names for the series when the stem has none.
pub fn episode(stem: &str, parent_dirs: &Vec<String>) -> (r: Option<ParsedEpisode>)
    ensures
        opt_episode(r) == (match patterns::regex_captures(patterns::EPISODE@, stem@) {
            Some(g) => episode_named(g, text::texts(parent_dirs@)),
            None => None,
        }),
{
    match patterns::captures(patterns::EPISODE, stem) {
        None => None,
        Some(g) => episode_from_groups(&g, parent_dirs),
    }
}

/// What a path says of a track.
pub struct TrackName {
    pub artist: Option<Seq<char>>,
    pub album: Option<Seq<char>>,
    pub track_no: Option<int>,
    pub title: Seq<char>,
}

/// What an "Artist/Album/NN - Title" style path says of a track, given the
/// match of the track expression in its stem.
pub open spec fn track_named(
    stem: Seq<char>,
    g: Option<GroupsView>,
    dirs: Seq<Seq<char>>,
) -> TrackName {
    let n = dirs.len();
    TrackName {
        artist: if n >= 2 {
            Some(cleaned(dirs[n - 2]))
        } else {
            None
        },
        album: if n >= 1 {
            Some(cleaned(dirs[n - 1]))
        } else {
            None
        },
        track_no: match g {
            Some(g) => match g.group(1) {
                Some(no) => text::integer_i64(no),
                None => None,
            },
            None => None,
        },
        title: match g {
            Some(g) => match g.group(2) {
                Some(t) => cleaned(t),
                None => cleaned(stem),
            },
            None => cleaned(stem),
        },
    }
}

pub open spec fn track_view(
    r: (Option<String>, Option<String>, Option<i64>, String),
) -> TrackName {
    TrackName {
        artist: text::opt_text(r.0),
        album: text::opt_text(r.1),
        track_no: text::opt_int(r.2),
        title: r.3@,
    }
}

/// A track, given the match of the track expression in its stem.
pub fn track_from_groups(stem: &str, g: Option<Groups>, parent_dirs: &Vec<String>) -> (r: (
    Option<String>,
    Option<String>,
    Option<i64>,
    String,
))
    ensures
        track_view(r) == track_named(
            stem@,
            match g {
                Some(g) => Some(g@),
                None => None,
            },
            text::texts(parent_dirs@),
        ),
{
    let (track_no, title): (Option<i64>, String) = match &g {
        Some(g) => {
            let no: Option<i64> = match g.group(1) {
                Some(no) => text::parse_i64(no.as_str()),
                None => None,
            };
            let title = match g.group(2) {
                Some(t) => clean_name(t.as_str()),
                None => clean_name(stem),
            };
            (no, title)
        },
        None => (None, clean_name(stem)),
    };
    let n = parent_dirs.len();
    let album = if n >= 1 {
        Some(clean_name(parent_dirs[n - 1].as_str()))
    } else {
        None
    };
    let artist = if n >= 2 {
        Some(clean_name(parent_dirs[n - 2].as_str()))
    } else {
        None
    };
    (artist, album, track_no, title)
}

/// Fallback music metadata from an "Artist/Album/NN - Title" style path.
/// Returns (artist, album, track_no, title).
pub fn music_from_path(stem: &str, parent_dirs: &Vec<String>) -> (r: (
    Option<String>,
    Option<String>,
    Option<i64>,
    String,
))
    ensures
        track_view(r) == track_named(
            stem@,
            patterns::regex_captures(patterns::TRACK@, stem@),
            text::texts(parent_dirs@),
        ),
{
    let g = patterns::captures(patterns::TRACK, stem);
    track_from_groups(stem, g, parent_dirs)
}

// -------------------------------------------------------------------- laws

/// White space is single spaces.
pub open spec fn single_spaced(s: Seq<char>) -> bool {
    &&& forall|i: int| 0 <= i < s.len() && text::white(#[trigger] s[i]) ==> s[i] == ' '
    &&& forall|i: int, j: int|
        0 <= i && j == i + 1 && j < s.len() && (#[trigger] s[i]) == ' ' ==> (#[trigger] s[j]) != ' '
}

/// No dot and no underscore.
pub open spec fn undotted(s: Seq<char>) -> bool {
    forall|i: int| 0 <= i < s.len() ==> (#[trigger] s[i]) != '.' && s[i] != '_'
}

/// A clean name: words with single spaces between them, without dots,
/// underscores and stray separators at the ends.
pub open spec fn clean(s: Seq<char>) -> bool {
    &&& single_spaced(s)
    &&& undotted(s)
    &&& s.len() > 0 ==> !stray(s[0]) && !stray(s.last())
}

/// A word: something, and no white space in it.
spec fn is_word(w: Seq<char>) -> bool {
    w.len() > 0 && undotted(w) && forall|i: int| 0 <= i < w.len() ==> !text::white(#[trigger] w[i])
}

proof fn lemma_word(s: Seq<char>)
    requires
        undotted(s),
    ensures
        0 <= text::word_len(s) <= s.len(),
        text::word_len(s) < s.len() ==> text::white(s[text::word_len(s)]),
        text::word_len(s) > 0 ==> is_word(s.take(text::word_len(s))),
    decreases s.len(),
{
    if s.len() > 0 && !text::white(s[0]) {
        let rest = s.drop_first();
        lemma_word(rest);
        let n = text::word_len(rest);
        let w = s.take(n + 1);
        assert forall|i: int| 0 <= i < w.len() implies !text::white(#[trigger] w[i]) && w[i] != '.'
            && w[i] != '_' by {
            if i > 0 {
                assert(rest.take(n)[i - 1] == w[i]);
            }
        }
    }
}

proof fn lemma_trim_start_skips(s: Seq<char>) -> (k: int)
    ensures
        0 <= k <= s.len(),
        text::trim_start_of(s) == s.skip(k),
        k < s.len() ==> !text::white(s[k]),
    decreases s.len(),
{
    if s.len() > 0 && text::white(s[0]) {
        let k = lemma_trim_start_skips(s.drop_first());
        assert(s.drop_first().skip(k) =~= s.skip(k + 1));
        k + 1
    } else {
        assert(s.skip(0) =~= s);
        0
    }
}

proof fn lemma_words(s: Seq<char>)
    requires
        undotted(s),
    ensures
        forall|i: int| 0 <= i < text::words_of(s).len() ==> is_word(#[trigger] text::words_of(s)[i]),
    decreases s.len(),
{
    let k = lemma_trim_start_skips(s);
    let t = text::trim_start_of(s);
    if t.len() > 0 {
        assert(!text::white(t[0]));
        text::lemma_word_len(t);
        lemma_word(t);
        let n = text::word_len(t);
        lemma_words(t.skip(n));
        let rest = text::words_of(t.skip(n));
        assert forall|i: int| 0 <= i < text::words_of(s).len() implies is_word(
            #[trigger] text::words_of(s)[i],
        ) by {
            if i > 0 {
                assert(text::words_of(s)[i] == rest[i - 1]);
            }
        }
    }
}

/// Words with single spaces between them.
proof fn lemma_joined_words(ws: Seq<Seq<char>>)
    requires
        forall|i: int| 0 <= i < ws.len() ==> is_word(#[trigger] ws[i]),
    ensures
        ({
            let j = text::joined(ws, " "@);
            &&& single_spaced(j)
            &&& undotted(j)
            &&& ws.len() > 0 ==> j.len() > 0 && !text::white(j[0]) && !text::white(j.last())
            &&& ws.len() == 0 ==> j.len() == 0
        }),
    decreases ws.len(),
{
    reveal_strlit(" ");
    assert(" "@ =~= seq![' ']);
    if ws.len() == 1 {
        assert(is_word(ws[0]));
    } else if ws.len() > 1 {
        let head = ws.drop_last();
        assert forall|i: int| 0 <= i < head.len() implies is_word(#[trigger] head[i]) by {
            assert(is_word(ws[i]));
        }
        lemma_joined_words(head);
        let h = text::joined(head, " "@);
        let w = ws.last();
        assert(is_word(ws[ws.len() - 1]));
        let j = text::joined(ws, " "@);
        assert(j =~= h + seq![' '] + w);
        assert forall|i: int| 0 <= i < j.len() implies (#[trigger] j[i]) == (if i < h.len() {
            h[i]
        } else if i == h.len() {
            ' '
        } else {
            w[i - h.len() - 1]
        }) by {}
        assert forall|i: int, k: int|
            0 <= i && k == i + 1 && k < j.len() && (#[trigger] j[i]) == ' ' implies (
        #[trigger] j[k]) != ' ' by {
            if k < h.len() {
                assert(h[i] == ' ');
                assert(h[k] != ' ');
            } else if k == h.len() {
                assert(h.last() == h[i]);
            } else if i == h.len() {
                assert(!text::white(w[0]));
            } else {
                assert(!text::white(w[i - h.len() - 1]));
            }
        }
    }
}

proof fn lemma_joined_front(w: Seq<char>, ws: Seq<Seq<char>>)
    requires
        ws.len() > 0,
    ensures
        text::joined(seq![w] + ws, " "@) == w + " "@ + text::joined(ws, " "@),
    decreases ws.len(),
{
    let all = seq![w] + ws;
    assert(all.drop_last() =~= seq![w] + ws.drop_last());
    assert(all.last() == ws.last());
    if ws.len() == 1 {
        assert(all.drop_last() =~= seq![w]);
        assert(text::joined(seq![w], " "@) == w);
    } else {
        lemma_joined_front(w, ws.drop_last());
        assert(text::joined(all, " "@) =~= w + " "@ + text::joined(ws, " "@));
    }
}

/// Single-spaced words are what joining them gives.
proof fn lemma_rejoined(s: Seq<char>)
    requires
        single_spaced(s),
        undotted(s),
        s.len() > 0 ==> !text::white(s[0]) && !text::white(s.last()),
    ensures
        text::joined(text::words_of(s), " "@) == s,
        s.len() > 0 ==> text::words_of(s).len() > 0,
    decreases s.len(),
{
    reveal_strlit(" ");
    assert(" "@ =~= seq![' ']);
    assert(text::trim_start_of(s) == s);
    if s.len() > 0 {
        text::lemma_word_len(s);
        lemma_word(s);
        let n = text::word_len(s);
        let w = s.take(n);
        let rest = s.skip(n);
        if n == s.len() {
            assert(rest =~= seq![]);
            assert(text::words_of(rest) =~= seq![]);
            assert(text::words_of(s) =~= seq![w]);
            assert(w =~= s);
        } else {
            assert(s[n] == ' ');
            assert(s.last() == s[s.len() - 1]);
            let r2 = s.skip(n + 1);
            assert(s[n + 1] != ' ');
            assert(!text::white(r2[0]));
            assert(r2.last() == s.last());
            assert(rest.drop_first() =~= r2);
            assert(text::white(' '));
            assert(text::trim_start_of(r2) == r2);
            assert(text::trim_start_of(rest) == r2);
            assert(text::words_of(rest) == text::words_of(r2));
            assert forall|i: int| 0 <= i < r2.len() implies (#[trigger] r2[i]) == s[i + n + 1] by {}
            assert forall|i: int, j: int|
                0 <= i && j == i + 1 && j < r2.len() && (#[trigger] r2[i]) == ' ' implies (
            #[trigger] r2[j]) != ' ' by {
                assert(s[i + n + 1] == ' ');
                assert(s[j + n + 1] != ' ');
            }
            lemma_rejoined(r2);
            assert(text::words_of(s) =~= seq![w] + text::words_of(r2));
            lemma_joined_front(w, text::words_of(r2));
            assert(w + " "@ + r2 =~= s);
        }
    }
}

proof fn lemma_strip_front(s: Seq<char>) -> (k: int)
    ensures
        0 <= k <= s.len(),
        strip_front(s) == s.skip(k),
        k < s.len() ==> !stray(s[k]),
    decreases s.len(),
{
    if s.len() > 0 && stray(s[0]) {
        let k = lemma_strip_front(s.drop_first());
        assert(s.drop_first().skip(k) =~= s.skip(k + 1));
        k + 1
    } else {
        assert(s.skip(0) =~= s);
        0
    }
}

proof fn lemma_strip_back(s: Seq<char>) -> (k: int)
    ensures
        0 <= k <= s.len(),
        strip_back(s) == s.take(k),
        k > 0 ==> !stray(s[k - 1]),
    decreases s.len(),
{
    if s.len() > 0 && stray(s.last()) {
        let k = lemma_strip_back(s.drop_last());
        assert(s.drop_last().take(k) =~= s.take(k));
        k
    } else {
        assert(s.take(s.len() as int) =~= s);
        s.len() as int
    }
}

/// A cleaned name is clean, whatever it came from, and cleaning it again
/// changes nothing.
pub proof fn cleaned_names_are_clean(s: Seq<char>)
    ensures
        clean(cleaned(s)),
        cleaned(cleaned(s)) == cleaned(s),
{
    let t = spaced(s);
    lemma_words(t);
    lemma_joined_words(text::words_of(t));
    let j = text::joined(text::words_of(t), " "@);
    let lo = lemma_strip_front(j);
    let f = j.skip(lo);
    let n = lemma_strip_back(f);
    let r = cleaned(s);
    assert(r =~= j.subrange(lo, lo + n));
    assert forall|i: int| 0 <= i < r.len() implies (#[trigger] r[i]) == j[i + lo] by {}
    assert forall|i: int, k: int|
        0 <= i && k == i + 1 && k < r.len() && (#[trigger] r[i]) == ' ' implies (
    #[trigger] r[k]) != ' ' by {
        assert(j[i + lo] == ' ');
        assert(j[k + lo] != ' ');
    }
    if n > 0 {
        assert(r[0] == j[lo]);
        assert(r.last() == f[n - 1]);
    }
    assert(clean(r));
    assert(spaced(r) =~= r);
    if r.len() > 0 {
        assert(r[0] != ' ' && r.last() != ' ');
        assert(r.last() == r[r.len() - 1]);
    }
    lemma_rejoined(r);
    assert(strip_front(r) == r);
    assert(strip_back(r) == r);
}

/// A number is read as what it says where it is written: of "S01E03" the number
/// behind the S is the season and the one behind the E the episode, and of
/// "1x03" the one before the x the season and the one behind it the episode.
/// The first form counts where both are there.
pub proof fn numbers_are_read_where_they_stand(
    g: GroupsView,
    dirs: Seq<Seq<char>>,
    season: Seq<char>,
    episode: Seq<char>,
)
    requires
        text::integer_i64(season) is Some,
        text::integer_i64(episode) is Some,
        g.groups.len() == 5,
    ensures
        g.groups[1] == Some(season) && g.groups[2] == Some(episode) ==> {
            &&& episode_named(g, dirs) is Some
            &&& Some(episode_named(g, dirs)->Some_0.season) == text::integer_i64(season)
            &&& Some(episode_named(g, dirs)->Some_0.episode) == text::integer_i64(episode)
        },
        (g.groups[1] is None || g.groups[2] is None) && g.groups[3] == Some(season) && g.groups[4]
            == Some(episode) ==> {
            &&& episode_named(g, dirs) is Some
            &&& Some(episode_named(g, dirs)->Some_0.season) == text::integer_i64(season)
            &&& Some(episode_named(g, dirs)->Some_0.episode) == text::integer_i64(episode)
        },
        (g.groups[1] is None || g.groups[2] is None) && (g.groups[3] is None || g.groups[4] is None)
            ==> episode_named(g, dirs) is None,
{
}

/// The series is what stands in front of the number; where nothing does, what
/// the nearest folder says that is not a season's; and where there is no such
/// folder, it is unknown. A year at its end is not part of it.
pub proof fn series_are_named_by_stem_or_folder(
    g: GroupsView,
    dirs: Seq<Seq<char>>,
    at: int,
)
    requires
        episode_named(g, dirs) is Some,
        -1 <= at < dirs.len(),
        forall|k: int|
            at < k < dirs.len() ==> {
                ||| cleaned(#[trigger] dirs[k]).len() == 0
                ||| text::begins(text::lowered(cleaned(dirs[k])), "season"@)
                ||| text::begins(text::lowered(cleaned(dirs[k])), "series"@)
            },
        at >= 0 ==> {
            &&& cleaned(dirs[at]).len() > 0
            &&& !text::begins(text::lowered(cleaned(dirs[at])), "season"@)
            &&& !text::begins(text::lowered(cleaned(dirs[at])), "series"@)
        },
    ensures
        ({
            let own = series_name(cleaned(g.before));
            let series = episode_named(g, dirs)->Some_0.series;
            &&& own.len() > 0 ==> series == own
            &&& own.len() == 0 && at >= 0 && series_name(cleaned(dirs[at])).len() > 0 ==> series
                == series_name(cleaned(dirs[at]))
            &&& own.len() == 0 && at < 0 ==> series == "Unknown Series"@
        }),
{
    lemma_naming_dir(dirs, at);
}

proof fn lemma_naming_dir(dirs: Seq<Seq<char>>, at: int)
    requires
        -1 <= at < dirs.len(),
        forall|k: int| at < k < dirs.len() ==> !names_series(cleaned(#[trigger] dirs[k])),
        at >= 0 ==> names_series(cleaned(dirs[at])),
    ensures
        naming_dir(dirs) == (if at >= 0 {
            Some(cleaned(dirs[at]))
        } else {
            None
        }),
    decreases dirs.len(),
{
    if dirs.len() > 0 && at < dirs.len() - 1 {
        assert(!names_series(cleaned(dirs[dirs.len() - 1])));
        assert forall|k: int| at < k < dirs.drop_last().len() implies !names_series(
            cleaned(#[trigger] dirs.drop_last()[k]),
        ) by {
            assert(!names_series(cleaned(dirs[k])));
        }
        lemma_naming_dir(dirs.drop_last(), at);
    }
}

/// An episode's title is made of the words behind its number up to the first
/// release tag; where there is none, it goes by its number.
pub proof fn titles_end_at_release_tags(g: GroupsView, dirs: Seq<Seq<char>>, n: int)
    requires
        episode_named(g, dirs) is Some,
        ({
            let words = text::words_of(cleaned(g.after));
            &&& 0 <= n <= words.len()
            &&& forall|i: int|
                0 <= i < n ==> !patterns::regex_is_match(
                    patterns::RELEASE_JUNK@,
                    unbracketed(#[trigger] words[i]),
                )
            &&& n < words.len() ==> patterns::regex_is_match(
                patterns::RELEASE_JUNK@,
                unbracketed(words[n]),
            )
        }),
    ensures
        ({
            let kept = unstrayed(
                text::joined(text::words_of(cleaned(g.after)).take(n), " "@),
            );
            let e = episode_named(g, dirs)->Some_0;
            &&& kept.len() > 0 ==> e.title == kept
            &&& kept.len() == 0 ==> e.title == "Episode "@ + text::decimal(e.episode)
        }),
{
    let words = text::words_of(cleaned(g.after));
    let junk = junk_flags(words);
    assert forall|i: int| 0 <= i < n implies !#[trigger] junk[i] by {
        assert(!patterns::regex_is_match(patterns::RELEASE_JUNK@, unbracketed(words[i])));
    }
    lemma_before_junk(words, junk, n);
}

proof fn lemma_before_junk(words: Seq<Seq<char>>, junk: Seq<bool>, n: int)
    requires
        junk.len() == words.len(),
        0 <= n <= words.len(),
        forall|i: int| 0 <= i < n ==> !#[trigger] junk[i],
        n < words.len() ==> junk[n],
    ensures
        before_junk(words, junk) == words.take(n),
    decreases words.len(),
{
    if n > 0 {
        assert(!junk[0]);
        let (w, j) = (words.drop_first(), junk.drop_first());
        assert forall|i: int| 0 <= i < n - 1 implies !#[trigger] j[i] by {
            assert(!junk[i + 1]);
        }
        lemma_before_junk(w, j, n - 1);
        assert(words.take(n) =~= seq![words[0]] + w.take(n - 1));
    } else {
        assert(words.take(0) =~= seq![]);
    }
}

/// What sets a year apart from what stands around it.
pub open spec fn sets_apart(c: char) -> bool {
    c == '.' || c == ' ' || c == '_' || c == '-' || c == '(' || c == ')' || c == '[' || c == ']'
}

/// A match is a number that stands apart behind something.
pub open spec fn stands_apart(m: (Seq<char>, Seq<char>, Seq<char>)) -> bool {
    &&& m.0.len() > 0 && sets_apart(m.0[m.0.len() - 1])
    &&& m.2.len() == 0 || sets_apart(m.2[0])
    &&& text::integer_i64(m.1) is Some
}

/// A film's year is the last number like one that stands apart, and its title
/// what is before it; where that is nothing, or there is no such number, the
/// whole name is the title and there is no year.
pub proof fn the_last_year_is_the_films(
    stem: Seq<char>,
    found: Seq<(Seq<char>, Seq<char>, Seq<char>)>,
    k: int,
)
    requires
        -1 <= k < found.len(),
        k >= 0 ==> stands_apart(found[k]),
        forall|i: int| k < i < found.len() ==> !stands_apart(#[trigger] found[i]),
    ensures
        ({
            let (title, year) = movie_named(stem, found);
            let before = dejunked(cleaned(found[k].0));
            &&& k >= 0 && before.len() > 0 ==> title == before && year == text::integer_i64(
                found[k].1,
            )
            &&& k < 0 || before.len() == 0 ==> title == dejunked(cleaned(stem)) && year is None
        }),
    decreases found.len(),
{
    if k < found.len() - 1 {
        assert(!stands_apart(found[found.len() - 1]));
        let head = found.drop_last();
        assert forall|i: int| k < i < head.len() implies !stands_apart(#[trigger] head[i]) by {
            assert(!stands_apart(found[i]));
        }
        the_last_year_is_the_films(stem, head, k);
    }
}

/// The tags that a release adds to a title.
pub open spec fn release_tag(word: Seq<char>) -> bool {
    let w = text::lowered(word);
    ||| w == "remastered"@ || w == "unrated"@ || w == "extended"@ || w == "uncut"@ || w == "repack"@
    ||| w == "proper"@ || w == "imax"@ || w == "theatrical"@ || w == "criterion"@
    ||| w == "restored"@ || w == "bluray"@ || w == "brrip"@ || w == "webrip"@ || w == "hdrip"@
    ||| w == "dvdrip"@ || w == "2160p"@ || w == "1080p"@ || w == "720p"@ || w == "4k"@
    ||| w == "x264"@ || w == "x265"@ || w == "hevc"@
}

proof fn lemma_release_tag(word: Seq<char>)
    ensures
        text::listed(text::lowered(word), JUNK_WORDS@) == release_tag(word),
{
    let j = JUNK_WORDS@;
    assert(j[0]@ == "remastered"@ && j[1]@ == "unrated"@ && j[2]@ == "extended"@ && j[3]@
        == "uncut"@ && j[4]@ == "repack"@ && j[5]@ == "proper"@ && j[6]@ == "imax"@ && j[7]@
        == "theatrical"@);
    assert(j[8]@ == "criterion"@ && j[9]@ == "restored"@ && j[10]@ == "bluray"@ && j[11]@
        == "brrip"@ && j[12]@ == "webrip"@ && j[13]@ == "hdrip"@ && j[14]@ == "dvdrip"@);
    assert(j[15]@ == "2160p"@ && j[16]@ == "1080p"@ && j[17]@ == "720p"@ && j[18]@ == "4k"@
        && j[19]@ == "x264"@ && j[20]@ == "x265"@ && j[21]@ == "hevc"@);
}

/// A title loses the release tags at its end, all of them, and nothing else;
/// its first word stays.
pub proof fn only_tags_at_the_end_go(title: Seq<char>, n: int)
    requires
        ({
            let words = text::pieces(title, ' ');
            &&& 1 <= n <= words.len()
            &&& n > 1 ==> !release_tag(words[n - 1])
            &&& forall|i: int| n <= i < words.len() ==> release_tag(#[trigger] words[i])
        }),
    ensures
        dejunked(title) == text::joined(text::pieces(title, ' ').take(n), " "@),
{
    lemma_without_junk(text::pieces(title, ' '), n);
}

proof fn lemma_without_junk(words: Seq<Seq<char>>, n: int)
    requires
        1 <= n <= words.len(),
        n > 1 ==> !release_tag(words[n - 1]),
        forall|i: int| n <= i < words.len() ==> release_tag(#[trigger] words[i]),
    ensures
        without_junk(words) == words.take(n),
    decreases words.len(),
{
    lemma_release_tag(words.last());
    if n < words.len() {
        assert(release_tag(words[words.len() - 1]));
        let head = words.drop_last();
        assert forall|i: int| n <= i < head.len() implies release_tag(#[trigger] head[i]) by {
            assert(release_tag(words[i]));
        }
        lemma_without_junk(head, n);
        assert(head.take(n) =~= words.take(n));
    } else {
        assert(words.take(n) =~= words);
    }
}

/// A title is sorted without the article in front of it, in whatever case that
/// is written, and without leading punctuation.
pub proof fn articles_are_not_sorted_by(
    marks: Seq<char>,
    article: Seq<char>,
    rest: Seq<char>,
)
    requires
        forall|i: int| 0 <= i < marks.len() ==> !text::letter_or_digit(#[trigger] marks[i]),
        text::ascii_lower(article) == "the"@ || text::ascii_lower(article) == "a"@
            || text::ascii_lower(article) == "an"@,
    ensures
        sort_key(marks + article + " "@ + rest) == rest,
{
    reveal_strlit("the");
    reveal_strlit("a");
    reveal_strlit("an");
    reveal_strlit(" ");
    reveal_strlit("the ");
    reveal_strlit("a ");
    reveal_strlit("an ");
    let t = article + " "@ + rest;
    let whole = marks + article + " "@ + rest;
    assert(whole =~= marks + t);
    let low = text::ascii_lower(article);
    assert(low.len() == article.len());
    assert(low[0] == text::ascii_lower_char(article[0]));
    lemma_article_letter(article[0]);
    lemma_from_run(marks, t);
    let lt = text::ascii_lower(t);
    assert forall|i: int| 0 <= i < article.len() implies lt[i] == low[i] by {}
    assert(lt[article.len() as int] == ' ');
    let n = article.len() as int;
    assert(t.skip(n + 1) =~= rest);
    if low == "the"@ {
        assert(lt.subrange(0, 4) =~= "the "@);
    } else if low == "a"@ {
        assert(lt.subrange(0, 2) =~= "a "@);
        if text::begins(lt, "the "@) {
            assert(lt.subrange(0, 4)[0] == 't');
        }
    } else {
        assert(lt.subrange(0, 3) =~= "an "@);
        if text::begins(lt, "the "@) {
            assert(lt.subrange(0, 4)[0] == 't');
        }
        if text::begins(lt, "a "@) {
            assert(lt.subrange(0, 2)[1] == ' ');
        }
    }
}

proof fn lemma_article_letter(c: char)
    requires
        text::ascii_lower_char(c) == 't' || text::ascii_lower_char(c) == 'a',
    ensures
        text::letter_or_digit(c),
{
    assert(c == 't' || c == 'T' || c == 'a' || c == 'A');
}

proof fn lemma_from_run(marks: Seq<char>, t: Seq<char>)
    requires
        forall|i: int| 0 <= i < marks.len() ==> !text::letter_or_digit(#[trigger] marks[i]),
        t.len() > 0 && text::letter_or_digit(t[0]),
    ensures
        text::from_run(marks + t) == t,
    decreases marks.len(),
{
    if marks.len() > 0 {
        assert(!text::letter_or_digit(marks[0]));
        let rest = marks.drop_first();
        assert forall|i: int| 0 <= i < rest.len() implies !text::letter_or_digit(
            #[trigger] rest[i],
        ) by {
            assert(!text::letter_or_digit(marks[i + 1]));
        }
        lemma_from_run(rest, t);
        assert((marks + t).drop_first() =~= rest + t);
    } else {
        assert(marks + t =~= t);
    }
}

/// A title without an article is sorted by what follows its leading
/// punctuation, as it stands.
pub proof fn other_titles_are_sorted_as_they_stand(marks: Seq<char>, t: Seq<char>)
    requires
        forall|i: int| 0 <= i < marks.len() ==> !text::letter_or_digit(#[trigger] marks[i]),
        t.len() > 0 && text::letter_or_digit(t[0]),
        !text::begins(text::ascii_lower(t), "the "@),
        !text::begins(text::ascii_lower(t), "a "@),
        !text::begins(text::ascii_lower(t), "an "@),
    ensures
        sort_key(marks + t) == t,
{
    lemma_from_run(marks, t);
}

/// Of "Artist/Album/NN - Title" the folder right above the file is the album
/// and the one above that the artist; the number in front of the title is the
/// track's.
pub proof fn tracks_are_named_by_their_path(
    stem: Seq<char>,
    g: GroupsView,
    above: Seq<Seq<char>>,
    artist: Seq<char>,
    album: Seq<char>,
    number: Seq<char>,
    title: Seq<char>,
)
    requires
        g.groups.len() == 3,
        g.groups[1] == Some(number),
        g.groups[2] == Some(title),
    ensures
        ({
            let t = track_named(stem, Some(g), above.push(artist).push(album));
            &&& t.artist == Some(cleaned(artist))
            &&& t.album == Some(cleaned(album))
            &&& t.track_no == text::integer_i64(number)
            &&& t.title == cleaned(title)
        }),
        ({
            let t = track_named(stem, None, seq![album]);
            &&& t.artist is None
            &&& t.album == Some(cleaned(album))
            &&& t.track_no is None
            &&& t.title == cleaned(stem)
        }),
{
}

/// Cleaning a name keeps its words: with dots and underscores read as spaces,
/// only white space and what is stray at the ends is lost.
pub proof fn cleaning_keeps_the_words(words: Seq<Seq<char>>)
    requires
        words.len() > 0,
        forall|i: int|
            0 <= i < words.len() ==> (#[trigger] words[i]).len() > 0 && undotted(words[i]) && forall|
                k: int,
            |
                0 <= k < words[i].len() ==> !text::white(#[trigger] words[i][k]),
        words[0][0] != '-' && words[0][0] != '(' && words[0][0] != '[',
        words.last().last() != '-' && words.last().last() != '(' && words.last().last() != '[',
    ensures
        cleaned(text::joined(words, " "@)) == text::joined(words, " "@),
        cleaned(text::joined(words, "."@)) == text::joined(words, " "@),
        cleaned(text::joined(words, "_"@)) == text::joined(words, " "@),
{
    let j = text::joined(words, " "@);
    reveal_strlit(" ");
    reveal_strlit(".");
    reveal_strlit("_");
    assert forall|i: int| 0 <= i < words.len() implies is_word(#[trigger] words[i]) by {}
    lemma_joined_words(words);
    lemma_spaced_join(words, "."@);
    lemma_spaced_join(words, "_"@);
    lemma_spaced_join(words, " "@);
    lemma_rejoined(j);
    lemma_ends(words);
    assert(text::white(' '));
    assert(!stray(j[0]) && !stray(j.last()));
    assert(strip_front(j) == j);
    assert(strip_back(j) == j);
}

proof fn lemma_ends(words: Seq<Seq<char>>)
    requires
        words.len() > 0,
        forall|i: int| 0 <= i < words.len() ==> is_word(#[trigger] words[i]),
    ensures
        text::joined(words, " "@).len() > 0,
        text::joined(words, " "@)[0] == words[0][0],
        text::joined(words, " "@).last() == words.last().last(),
    decreases words.len(),
{
    assert(is_word(words[words.len() - 1]));
    if words.len() > 1 {
        let head = words.drop_last();
        assert forall|i: int| 0 <= i < head.len() implies is_word(#[trigger] head[i]) by {
            assert(is_word(words[i]));
        }
        lemma_ends(head);
    }
}

proof fn lemma_spaced_join(words: Seq<Seq<char>>, sep: Seq<char>)
    requires
        sep == " "@ || sep == "."@ || sep == "_"@,
        forall|i: int| 0 <= i < words.len() ==> undotted(#[trigger] words[i]),
    ensures
        spaced(text::joined(words, sep)) == text::joined(words, " "@),
    decreases words.len(),
{
    reveal_strlit(" ");
    reveal_strlit(".");
    reveal_strlit("_");
    if words.len() == 1 {
        assert(undotted(words[0]));
        assert(spaced(words[0]) =~= words[0]);
    } else if words.len() > 1 {
        let head = words.drop_last();
        assert forall|i: int| 0 <= i < head.len() implies undotted(#[trigger] head[i]) by {
            assert(undotted(words[i]));
        }
        lemma_spaced_join(head, sep);
        assert(undotted(words[words.len() - 1]));
        let h = text::joined(head, sep);
        assert(spaced(h + sep + words.last()) =~= spaced(h) + " "@ + words.last());
    } else {
        assert(spaced(text::joined(words, sep)) =~= text::joined(words, " "@));
    }
}

} // verus!
