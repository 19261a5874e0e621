//! Viewer profiles and what each has watched.
//!
//! A LAN media server for a household needs "who's watching?", not
//! accounts: a profile is a name, chosen from a tile page and remembered
//! in a cookie, with no password behind it. Against the profile the
//! player reports where a viewer left off and what they finished, so
//! the pages can show a "continue watching" list, a seen tick per
//! episode and the point to resume from.
//!
//! Watch rows key on the program, not the file — an episode by series,
//! season and number, a movie by title and year — so a remux or a
//! re-catalogue keeps a viewer's history.
use vstd::prelude::*;
use vstd::arithmetic::div_mod::{lemma_fundamental_div_mod, lemma_fundamental_div_mod_converse};
use crate::db::models::{BrowseItem, MediaKind};
use crate::db::queries::files::ItemDetail;
use crate::text;

verus! {

pub const SCHEMA: &'static str = r#"
CREATE TABLE IF NOT EXISTS profiles (
    id         INTEGER PRIMARY KEY,
    name       TEXT NOT NULL,
    created_at INTEGER NOT NULL
);
CREATE UNIQUE INDEX IF NOT EXISTS profiles_name ON profiles(name COLLATE NOCASE);
CREATE TABLE IF NOT EXISTS watch (
    profile_id  INTEGER NOT NULL REFERENCES profiles(id) ON DELETE CASCADE,
    key         TEXT NOT NULL,
    file_id     INTEGER NOT NULL,
    position_ms INTEGER NOT NULL DEFAULT 0,
    duration_ms INTEGER,
    watched     INTEGER NOT NULL DEFAULT 0,
    updated_at  INTEGER NOT NULL,
    dismissed   INTEGER NOT NULL DEFAULT 0,
    PRIMARY KEY (profile_id, key)
);
CREATE INDEX IF NOT EXISTS watch_recent ON watch(profile_id, updated_at DESC);
"#;

/// What gives the watch table of the first release its later column.
pub const UPGRADE: &'static str =
    "ALTER TABLE watch ADD COLUMN dismissed INTEGER NOT NULL DEFAULT 0";

/// The statement that brings a database created before it up to date: columns
/// added since the first release (CREATE IF NOT EXISTS leaves an existing
/// table alone).
pub fn upgrade(columns: &Vec<String>) -> (r: Option<&'static str>)
    ensures
        r is None <==> text::texts(columns@).contains("dismissed"@),
        r matches Some(sql) ==> sql@ == UPGRADE@,
{
    if text::among(columns, "dismissed") {
        None
    } else {
        Some(UPGRADE)
    }
}

/// Longest profile name accepted.
pub const MAX_NAME: usize = 40;

#[derive(Debug, Clone)]
pub struct Profile {
    pub id: i64,
    pub name: String,
}

/// One program's state for one profile.
#[derive(Debug)]
pub struct WatchRow {
    pub key: String,
    /// The file the state was last recorded against (for a play link).
    pub file_id: i64,
    pub position_ms: i64,
    pub duration_ms: Option<i64>,
    pub watched: bool,
    pub updated_at: i64,
    /// Taken off the continue-watching list by hand; any new report
    /// puts it back.
    pub dismissed: bool,
}

impl WatchRow {
    pub open spec fn underway(self) -> bool {
        self.position_ms > 0
    }

    /// Part-way through: something to pick up again. Finishing and the
    /// seen tick both zero the position, so a seen program with a
    /// position is one being watched again.
    pub fn in_progress(&self) -> (r: bool)
        ensures
            r == self.underway(),
    {
        self.position_ms > 0
    }
}

// --------------------------------------------------------------------- keys

pub open spec fn all_digits(s: Seq<char>) -> bool {
    s.len() > 0 && forall|i: int| 0 <= i < s.len() ==> text::is_digit(#[trigger] s[i])
}

/// A rating as a listing shows it: digits, a point, one digit.
pub open spec fn rating_like(s: Seq<char>) -> bool {
    let n = s.len() as int;
    n >= 3 && text::is_digit(s[n - 1]) && s[n - 2] == '.' && all_digits(s.take(n - 2))
}

/// A title without a year behind it.
pub open spec fn undated(title: Seq<char>, year: Option<i64>) -> Seq<char> {
    match year {
        Some(y) => {
            let tail = " ("@ + text::decimal(y as int) + ")"@;
            if text::ends(title, tail) {
                title.take(title.len() - tail.len())
            } else {
                title
            }
        },
        None => title,
    }
}

/// A title without a rating in front of it.
pub open spec fn unrated(title: Seq<char>) -> Seq<char> {
    match text::cut_once(title, " · "@) {
        Some((head, tail)) => if rating_like(head) {
            tail
        } else {
            title
        },
        None => title,
    }
}

/// The catalog title behind a movie's display title.
pub open spec fn undecorated(title: Seq<char>, year: Option<i64>) -> Seq<char> {
    unrated(undated(text::trimmed(title), year))
}

fn is_digit(c: char) -> (r: bool)
    ensures
        r == text::is_digit(c),
{
    let u = text::code(c);
    48 <= u && u <= 57
}

fn looks_like_rating(head: &str) -> (r: bool)
    ensures
        r == rating_like(head@),
{
    let v = text::chars_of(head);
    let n = v.len();
    if n < 3 || !is_digit(v[n - 1]) || v[n - 2] != '.' {
        return false;
    }
    let mut i: usize = 0;
    while i < n - 2
        invariant
            n == v.len(),
            n >= 3,
            i <= n - 2,
            v@ == head@,
            forall|k: int| 0 <= k < i ==> text::is_digit(#[trigger] v@[k]),
        decreases n - i,
    {
        if !is_digit(v[i]) {
            assert(head@.take(n - 2)[i as int] == v@[i as int]);
            return false;
        }
        i += 1;
    }
    assert forall|k: int| 0 <= k < head@.take(n - 2).len() implies text::is_digit(
        #[trigger] head@.take(n - 2)[k],
    ) by {
        assert(text::is_digit(v@[k]));
    }
    true
}

/// The catalog title behind a movie's display title. Browse listings
/// decorate movie titles for clients that show nothing but a name —
/// "The Game (1997)" in most views, "8.5 · The Game" under By Rating — and a
/// key must not depend on which view an item was seen in.
fn undecorated_movie_title(title: &str, year: Option<i64>) -> (r: String)
    ensures
        r@ == undecorated(title@, year),
{
    let mut t = text::trim(title);
    if let Some(y) = year {
        let mut tail = " (".to_owned();
        let y = text::dec(y);
        tail.push_str(y.as_str());
        tail.push_str(")");
        if let Some(base) = text::strip_suffix(t.as_str(), tail.as_str()) {
            t = base;
        }
    }
    if let Some((head, tail)) = text::split_once(t.as_str(), " · ") {
        if looks_like_rating(head.as_str()) {
            t = tail;
        }
    }
    t
}

/// A series name as keys have it.
pub open spec fn series_key(series: Seq<char>) -> Seq<char> {
    text::lowered(text::trimmed(series))
}

/// The identity of a program.
pub open spec fn program_key(
    kind: MediaKind,
    file_id: int,
    series: Option<Seq<char>>,
    season: Option<i64>,
    episode: Option<i64>,
    title: Seq<char>,
    year: Option<i64>,
) -> Option<Seq<char>> {
    match kind {
        MediaKind::Tv => match (series, season, episode) {
            (Some(s), Some(n), Some(e)) if e > 0 => Some(
                "tv|"@ + series_key(s) + "|"@ + text::decimal(n as int) + "|"@ + text::decimal(
                    e as int,
                ),
            ),
            // An unnumbered episode has only its file to go by.
            _ => Some("f|"@ + text::decimal(file_id)),
        },
        MediaKind::Movies => Some(
            "mv|"@ + text::lowered(text::trimmed(undecorated(title, year))) + "|"@ + (match year {
                Some(y) => text::decimal(y as int),
                None => seq![],
            }),
        ),
        MediaKind::Music => None,
    }
}

pub open spec fn opt_str(o: Option<&str>) -> Option<Seq<char>> {
    match o {
        Some(s) => Some(s@),
        None => None,
    }
}

/// The identity a watch row keys on. None for music, which isn't tracked.
pub fn key(
    kind: MediaKind,
    file_id: i64,
    series: Option<&str>,
    season: Option<i64>,
    episode: Option<i64>,
    title: &str,
    year: Option<i64>,
) -> (r: Option<String>)
    ensures
        text::opt_text(r) == program_key(
            kind,
            file_id as int,
            opt_str(series),
            season,
            episode,
            title@,
            year,
        ),
{
    match kind {
        MediaKind::Tv => {
            if let (Some(s), Some(n), Some(e)) = (series, season, episode) {
                if e > 0 {
                    let mut out = "tv|".to_owned();
                    let s = text::trim(s);
                    let s = text::to_lowercase(s.as_str());
                    out.push_str(s.as_str());
                    out.push_str("|");
                    let n = text::dec(n);
                    out.push_str(n.as_str());
                    out.push_str("|");
                    let e = text::dec(e);
                    out.push_str(e.as_str());
                    return Some(out);
                }
            }
            let mut out = "f|".to_owned();
            let id = text::dec(file_id);
            out.push_str(id.as_str());
            Some(out)
        },
        MediaKind::Movies => {
            let mut out = "mv|".to_owned();
            let t = undecorated_movie_title(title, year);
            let t = text::trim(t.as_str());
            let t = text::to_lowercase(t.as_str());
            out.push_str(t.as_str());
            out.push_str("|");
            let y = match year {
                Some(y) => text::dec(y),
                None => String::new(),
            };
            assert(year is None ==> y@ =~= seq![]);
            out.push_str(y.as_str());
            Some(out)
        },
        MediaKind::Music => None,
    }
}

pub open spec fn key_of_item(item: BrowseItem) -> Option<Seq<char>> {
    program_key(
        item.kind,
        item.file_id as int,
        text::opt_text(item.series),
        item.season,
        item.episode,
        item.title@,
        item.year,
    )
}

fn borrowed(o: &Option<String>) -> (r: Option<&str>)
    ensures
        opt_str(r) == text::opt_text(*o),
{
    match o {
        Some(s) => Some(s.as_str()),
        None => None,
    }
}

pub fn item_key(item: &BrowseItem) -> (r: Option<String>)
    ensures
        text::opt_text(r) == key_of_item(*item),
{
    key(
        item.kind,
        item.file_id,
        borrowed(&item.series),
        item.season,
        item.episode,
        item.title.as_str(),
        item.year,
    )
}

pub open spec fn key_of_detail(d: ItemDetail) -> Option<Seq<char>> {
    program_key(
        d.kind,
        d.file_id as int,
        text::opt_text(d.series),
        d.season,
        d.episode,
        d.title@,
        d.year,
    )
}

pub fn detail_key(d: &ItemDetail) -> (r: Option<String>)
    ensures
        text::opt_text(r) == key_of_detail(*d),
{
    key(
        d.kind,
        d.file_id,
        borrowed(&d.series),
        d.season,
        d.episode,
        d.title.as_str(),
        d.year,
    )
}

/// What the keys of a series' episodes start with.
pub open spec fn series_start(series: Seq<char>) -> Seq<char> {
    "tv|"@ + series_key(series) + "|"@
}

pub fn series_prefix(series: &str) -> (r: String)
    ensures
        r@ == series_start(series@),
{
    let mut out = "tv|".to_owned();
    let s = text::trim(series);
    let s = text::to_lowercase(s.as_str());
    out.push_str(s.as_str());
    out.push_str("|");
    out
}

// -------------------------------------------------------------------- names

pub open spec fn control(c: char) -> bool {
    c as int <= 0x1f || 0x7f <= c as int <= 0x9f
}

/// A name as it is kept: trimmed, without control characters.
pub open spec fn kept_name(name: Seq<char>) -> Seq<char> {
    text::trimmed(name).filter(|c: char| !control(c))
}

/// Why a name is not accepted.
#[derive(Debug, Clone, Copy, PartialEq, Eq, Structural)]
pub enum NameError {
    Empty,
    TooLong,
}

impl NameError {
    /// Fit to show the viewer.
    pub fn message(&self) -> (r: &'static str)
        ensures
            r@ == (match *self {
                NameError::Empty => "A profile needs a name."@,
                NameError::TooLong => "That name is too long (40 characters at most)."@,
            }),
    {
        match self {
            NameError::Empty => "A profile needs a name.",
            NameError::TooLong => "That name is too long (40 characters at most).",
        }
    }
}

/// What the viewer is told of a name that is in use.
pub fn taken_message(name: &str) -> (r: String)
    ensures
        r@ == "There is already a profile called "@ + name@ + "."@,
{
    let mut out = "There is already a profile called ".to_owned();
    out.push_str(name);
    out.push_str(".");
    out
}

fn without_controls(s: &str) -> (r: String)
    ensures
        r@ == s@.filter(|c: char| !control(c)),
{
    let ghost keep = |c: char| !control(c);
    let v = text::chars_of(s);
    let mut out = String::new();
    let mut i: usize = 0;
    assert(v@.take(0).filter(keep) =~= seq![]) by {
        reveal(Seq::filter);
    }
    assert(out@ =~= seq![]);
    while i < v.len()
        invariant
            i <= v.len(),
            keep == (|c: char| !control(c)),
            out@ == v@.take(i as int).filter(keep),
        decreases v.len() - i,
    {
        let c = v[i];
        proof {
            let next = v@.take(i + 1);
            assert(next.drop_last() =~= v@.take(i as int));
            assert(next.last() == c);
            reveal(Seq::filter);
            assert(next.filter(keep) == (if keep(c) {
                v@.take(i as int).filter(keep).push(c)
            } else {
                v@.take(i as int).filter(keep)
            }));
        }
        let u = text::code(c);
        if !(u <= 0x1f || (0x7f <= u && u <= 0x9f)) {
            out.push(c);
        }
        i += 1;
    }
    assert(v@.take(i as int) =~= s@);
    out
}

/// The name of a new profile. Names are trimmed, bounded, and unique
/// regardless of case, which is the store's to tell.
pub fn profile_name(name: &str) -> (r: Result<String, NameError>)
    ensures
        ({
            let kept = kept_name(name@);
            match r {
                Ok(n) => n@ == kept && 0 < kept.len() <= MAX_NAME,
                Err(NameError::Empty) => kept.len() == 0,
                Err(NameError::TooLong) => kept.len() > MAX_NAME,
            }
        }),
{
    let t = text::trim(name);
    let kept = without_controls(t.as_str());
    let v = text::chars_of(kept.as_str());
    if v.len() == 0 {
        return Err(NameError::Empty);
    }
    if v.len() > MAX_NAME {
        return Err(NameError::TooLong);
    }
    Ok(kept)
}

// ------------------------------------------------------------------- states

/// Past 95 % of the running time, leaving counts as finished: viewers rarely
/// sit through the credits.
pub open spec fn near_end(position_ms: int, duration_ms: Option<i64>) -> bool {
    duration_ms matches Some(d) && d > 0 && position_ms * 100 >= d * 95
}

fn is_near_end(position_ms: i64, duration_ms: Option<i64>) -> (r: bool)
    ensures
        r == near_end(position_ms as int, duration_ms),
{
    match duration_ms {
        Some(d) => d > 0 && position_ms as i128 * 100 >= d as i128 * 95,
        None => false,
    }
}

/// A later report's duration, else the one that was known.
pub open spec fn known_duration(old: Option<WatchRow>, duration_ms: Option<i64>) -> Option<i64> {
    match (duration_ms, old) {
        (Some(d), _) => Some(d),
        (None, Some(row)) => row.duration_ms,
        (None, None) => None,
    }
}

fn duration_known(old: &Option<WatchRow>, duration_ms: Option<i64>) -> (r: Option<i64>)
    ensures
        r == known_duration(*old, duration_ms),
{
    match (duration_ms, old) {
        (Some(d), _) => Some(d),
        (None, Some(row)) => row.duration_ms,
        (None, None) => None,
    }
}

pub open spec fn was_watched(old: Option<WatchRow>) -> bool {
    old matches Some(row) && row.watched
}

/// A program's row once it was left at a position.
pub open spec fn left_at(
    r: WatchRow,
    old: Option<WatchRow>,
    key: Seq<char>,
    file_id: i64,
    position_ms: i64,
    duration_ms: Option<i64>,
    now: i64,
) -> bool {
    &&& r.key@ == key
    &&& r.file_id == file_id
    &&& r.duration_ms == known_duration(old, duration_ms)
    &&& r.updated_at == now
    &&& !r.dismissed
    &&& r.watched == (near_end(position_ms as int, duration_ms) || was_watched(old))
    &&& r.position_ms == (if near_end(position_ms as int, duration_ms) || position_ms < 0 {
        0
    } else {
        position_ms
    })
}

/// A program's row once it ran to its end: seen, and nothing to resume.
pub open spec fn ran_to_end(
    r: WatchRow,
    old: Option<WatchRow>,
    key: Seq<char>,
    file_id: i64,
    duration_ms: Option<i64>,
    now: i64,
) -> bool {
    &&& r.key@ == key
    &&& r.file_id == file_id
    &&& r.position_ms == 0
    &&& r.duration_ms == known_duration(old, duration_ms)
    &&& r.watched
    &&& r.updated_at == now
    &&& !r.dismissed
}

/// The player reported a position (the viewer left, or moved on). Near the
/// end it counts as finished, like a natural end would; a program already
/// seen stays seen.
pub fn set_position(
    old_row: &Option<WatchRow>,
    key: &str,
    file_id: i64,
    position_ms: i64,
    duration_ms: Option<i64>,
    now: i64,
) -> (r: WatchRow)
    ensures
        left_at(r, *old_row, key@, file_id, position_ms, duration_ms, now),
{
    if is_near_end(position_ms, duration_ms) {
        return set_finished(old_row, key, file_id, duration_ms, now);
    }
    let watched = match old_row {
        Some(row) => row.watched,
        None => false,
    };
    WatchRow {
        key: key.to_owned(),
        file_id,
        position_ms: if position_ms < 0 {
            0
        } else {
            position_ms
        },
        duration_ms: duration_known(old_row, duration_ms),
        watched,
        updated_at: now,
        dismissed: false,
    }
}

/// The program ran to its end: seen, and nothing to resume.
pub fn set_finished(
    old_row: &Option<WatchRow>,
    key: &str,
    file_id: i64,
    duration_ms: Option<i64>,
    now: i64,
) -> (r: WatchRow)
    ensures
        ran_to_end(r, *old_row, key@, file_id, duration_ms, now),
{
    WatchRow {
        key: key.to_owned(),
        file_id,
        position_ms: 0,
        duration_ms: duration_known(old_row, duration_ms),
        watched: true,
        updated_at: now,
        dismissed: false,
    }
}

/// The seen tick, set by hand. Unticking also forgets the position, so
/// the program starts over next time.
pub fn set_seen(old_row: &Option<WatchRow>, key: &str, file_id: i64, seen: bool, now: i64) -> (r:
    WatchRow)
    ensures
        r.key@ == key@,
        r.file_id == file_id,
        r.position_ms == 0,
        r.duration_ms == known_duration(*old_row, None),
        r.watched == seen,
        r.updated_at == now,
        !r.dismissed,
{
    WatchRow {
        key: key.to_owned(),
        file_id,
        position_ms: 0,
        duration_ms: duration_known(old_row, None),
        watched: seen,
        updated_at: now,
        dismissed: false,
    }
}

/// Take a program off the continue-watching list. The position and the
/// seen tick stay: this hides, it does not forget.
pub fn dismiss(row: &mut WatchRow)
    ensures
        *final(row) == (WatchRow { dismissed: true, ..*old(row) }),
{
    row.dismissed = true;
}

/// The same for a whole series: every episode's row, so which of them counts
/// as latest no longer matters.
pub fn dismiss_series(rows: &mut Vec<WatchRow>, series: &str)
    ensures
        final(rows)@.len() == old(rows)@.len(),
        forall|i: int|
            0 <= i < old(rows)@.len() ==> #[trigger] final(rows)@[i] == (if text::begins(
                old(rows)@[i].key@,
                series_start(series@),
            ) {
                WatchRow { dismissed: true, ..old(rows)@[i] }
            } else {
                old(rows)@[i]
            }),
{
    let prefix = series_prefix(series);
    let ghost before = rows@;
    let mut i: usize = 0;
    while i < rows.len()
        invariant
            i <= rows@.len(),
            rows@.len() == before.len(),
            prefix@ == series_start(series@),
            forall|k: int|
                0 <= k < i ==> #[trigger] rows@[k] == (if text::begins(
                    before[k].key@,
                    series_start(series@),
                ) {
                    WatchRow { dismissed: true, ..before[k] }
                } else {
                    before[k]
                }),
            forall|k: int| i <= k < before.len() ==> #[trigger] rows@[k] == before[k],
        decreases before.len() - i,
    {
        if text::starts_with(rows[i].key.as_str(), prefix.as_str()) {
            dismiss(&mut rows[i]);
        }
        i += 1;
    }
}

/// What a report of the player makes of a program's row: "ended" at its end,
/// where it was left with any other. The length that the player gives goes
/// before the catalog's.
pub fn reported(
    event: &str,
    old_row: &Option<WatchRow>,
    key: &str,
    file_id: i64,
    position_ms: i64,
    played_ms: Option<i64>,
    catalog_ms: Option<i64>,
    now: i64,
) -> (r: WatchRow)
    ensures
        ({
            let duration_ms = if played_ms is Some {
                played_ms
            } else {
                catalog_ms
            };
            if event@ == "ended"@ {
                ran_to_end(r, *old_row, key@, file_id, duration_ms, now)
            } else {
                left_at(r, *old_row, key@, file_id, position_ms, duration_ms, now)
            }
        }),
{
    let duration_ms = if played_ms.is_some() {
        played_ms
    } else {
        catalog_ms
    };
    if text::same(event, "ended") {
        set_finished(old_row, key, file_id, duration_ms, now)
    } else {
        set_position(old_row, key, file_id, position_ms, duration_ms, now)
    }
}

// ------------------------------------------------------------------- cookie

pub const COOKIE: &'static str = "profile";

/// The profile that a pair of a cookie line names.
pub open spec fn pair_id(pair: Seq<char>) -> Option<int> {
    match text::cut_once(text::trimmed(pair), "="@) {
        Some((name, value)) => if name == COOKIE@ {
            text::integer_i64(text::trimmed(value))
        } else {
            None
        },
        None => None,
    }
}

/// The first profile that pairs name.
pub open spec fn first_id(pairs: Seq<Seq<char>>) -> Option<int>
    decreases pairs.len(),
{
    if pairs.len() == 0 {
        None
    } else {
        match first_id(pairs.drop_last()) {
            Some(n) => Some(n),
            None => pair_id(pairs.last()),
        }
    }
}

/// The first profile that cookie lines name.
pub open spec fn named_profile(lines: Seq<Seq<char>>) -> Option<int>
    decreases lines.len(),
{
    if lines.len() == 0 {
        None
    } else {
        match named_profile(lines.drop_last()) {
            Some(n) => Some(n),
            None => first_id(text::pieces(lines.last(), ';')),
        }
    }
}

fn pair_profile(pair: &str) -> (r: Option<i64>)
    ensures
        text::opt_int(r) == pair_id(pair@),
{
    let t = text::trim(pair);
    match text::split_once(t.as_str(), "=") {
        Some((name, value)) => if text::same(name.as_str(), COOKIE) {
            let v = text::trim(value.as_str());
            text::parse_i64(v.as_str())
        } else {
            None
        },
        None => None,
    }
}

proof fn lemma_first_id(pairs: Seq<Seq<char>>, n: int)
    requires
        0 <= n <= pairs.len(),
        first_id(pairs.take(n)) is Some,
    ensures
        first_id(pairs) == first_id(pairs.take(n)),
    decreases pairs.len() - n,
{
    if n < pairs.len() {
        assert(pairs.take(n + 1).drop_last() =~= pairs.take(n));
        lemma_first_id(pairs, n + 1);
    } else {
        assert(pairs.take(n) =~= pairs);
    }
}

fn line_profile(line: &str) -> (r: Option<i64>)
    ensures
        text::opt_int(r) == first_id(text::pieces(line@, ';')),
{
    let pairs = text::split(line, ';');
    let ghost ps = text::texts(pairs@);
    let mut i: usize = 0;
    assert(ps.take(0) =~= seq![]);
    while i < pairs.len()
        invariant
            i <= pairs.len(),
            ps == text::texts(pairs@),
            ps == text::pieces(line@, ';'),
            first_id(ps.take(i as int)) is None,
        decreases pairs.len() - i,
    {
        assert(ps.take(i + 1).drop_last() =~= ps.take(i as int));
        assert(ps.take(i + 1).last() == pairs@[i as int]@);
        let found = pair_profile(pairs[i].as_str());
        if found.is_some() {
            proof {
                lemma_first_id(ps, i + 1);
            }
            return found;
        }
        i += 1;
    }
    assert(ps.take(i as int) =~= ps);
    None
}

proof fn lemma_named_profile(lines: Seq<Seq<char>>, n: int)
    requires
        0 <= n <= lines.len(),
        named_profile(lines.take(n)) is Some,
    ensures
        named_profile(lines) == named_profile(lines.take(n)),
    decreases lines.len() - n,
{
    if n < lines.len() {
        assert(lines.take(n + 1).drop_last() =~= lines.take(n));
        lemma_named_profile(lines, n + 1);
    } else {
        assert(lines.take(n) =~= lines);
    }
}

/// The profile named by a request's cookie lines, if any.
pub fn cookie_profile_id(lines: &Vec<String>) -> (r: Option<i64>)
    ensures
        text::opt_int(r) == named_profile(text::texts(lines@)),
{
    let ghost ls = text::texts(lines@);
    let mut i: usize = 0;
    assert(ls.take(0) =~= seq![]);
    while i < lines.len()
        invariant
            i <= lines.len(),
            ls == text::texts(lines@),
            named_profile(ls.take(i as int)) is None,
        decreases lines.len() - i,
    {
        assert(ls.take(i + 1).drop_last() =~= ls.take(i as int));
        assert(ls.take(i + 1).last() == lines@[i as int]@);
        let found = line_profile(lines[i].as_str());
        if found.is_some() {
            proof {
                lemma_named_profile(ls, i + 1);
            }
            return found;
        }
        i += 1;
    }
    assert(ls.take(i as int) =~= ls);
    None
}

pub open spec fn cookie_of(id: Option<i64>) -> Seq<char> {
    match id {
        Some(id) => COOKIE@ + "="@ + text::decimal(id as int)
            + "; Path=/; Max-Age=31536000; SameSite=Lax; HttpOnly"@,
        None => COOKIE@ + "=; Path=/; Max-Age=0; SameSite=Lax; HttpOnly"@,
    }
}

/// A year-long cookie, plain HTTP and HTTPS alike (the pages are served
/// on both), never readable by script.
pub fn set_cookie(id: Option<i64>) -> (r: String)
    ensures
        r@ == cookie_of(id),
{
    let mut out = COOKIE.to_owned();
    match id {
        Some(id) => {
            out.push_str("=");
            let id = text::dec(id);
            out.push_str(id.as_str());
            out.push_str("; Path=/; Max-Age=31536000; SameSite=Lax; HttpOnly");
        },
        None => {
            out.push_str("=; Path=/; Max-Age=0; SameSite=Lax; HttpOnly");
        },
    }
    out
}

/// Where a browser goes on, and the cookie that it takes along.
#[derive(Debug)]
pub struct Landing {
    pub cookie: Option<String>,
    pub to: &'static str,
}

impl Landing {
    pub open spec fn is(&self, cookie: Option<Seq<char>>, to: Seq<char>) -> bool {
        &&& text::opt_text(self.cookie) == cookie
        &&& self.to@ == to
    }
}

/// A profile was chosen, or newly made: its browser goes home with it; one
/// that is gone leads back to the picker.
pub fn selected(profile: Option<i64>) -> (r: Landing)
    ensures
        r.is(
            match profile {
                Some(id) => Some(cookie_of(Some(id))),
                None => None,
            },
            if profile is Some {
                "/"@
            } else {
                "/profiles"@
            },
        ),
{
    match profile {
        Some(id) => Landing { cookie: Some(set_cookie(Some(id))), to: "/" },
        None => Landing { cookie: None, to: "/profiles" },
    }
}

/// A profile was removed: removing oneself signs out as well.
pub fn deleted(own: Option<i64>, id: i64) -> (r: Landing)
    ensures
        r.is(
            if own == Some(id) {
                Some(cookie_of(None))
            } else {
                None
            },
            "/profiles"@,
        ),
{
    let own_profile = match own {
        Some(o) => o == id,
        None => false,
    };
    Landing {
        cookie: if own_profile {
            Some(set_cookie(None))
        } else {
            None
        },
        to: "/profiles",
    }
}

/// The browser is to forget its profile.
pub fn left() -> (r: Landing)
    ensures
        r.is(Some(cookie_of(None)), "/profiles"@),
{
    Landing { cookie: Some(set_cookie(None)), to: "/profiles" }
}

// -------------------------------------------------------------------- dates

pub open spec fn leap(y: int) -> bool {
    y % 4 == 0 && (y % 100 != 0 || y % 400 == 0)
}

/// The leap years among those before `y`, counted from the year 1.
pub open spec fn leaps_before(y: int) -> int {
    (y - 1) / 4 - (y - 1) / 100 + (y - 1) / 400
}

/// The days of a year before a month.
pub open spec fn days_before_month(y: int, m: int) -> int {
    let shift: int = if leap(y) {
        1
    } else {
        0
    };
    if m == 1 {
        0
    } else if m == 2 {
        31
    } else if m == 3 {
        59 + shift
    } else if m == 4 {
        90 + shift
    } else if m == 5 {
        120 + shift
    } else if m == 6 {
        151 + shift
    } else if m == 7 {
        181 + shift
    } else if m == 8 {
        212 + shift
    } else if m == 9 {
        243 + shift
    } else if m == 10 {
        273 + shift
    } else if m == 11 {
        304 + shift
    } else {
        334 + shift
    }
}

pub open spec fn days_in_month(y: int, m: int) -> int {
    if m == 2 {
        if leap(y) {
            29
        } else {
            28
        }
    } else if m == 4 || m == 6 || m == 9 || m == 11 {
        30
    } else {
        31
    }
}

/// Whether there is such a day in the calendar.
pub open spec fn is_date(y: int, m: int, d: int) -> bool {
    1 <= m <= 12 && 1 <= d <= days_in_month(y, m)
}

/// The days from 1970-01-01 to a date.
pub open spec fn day_number(y: int, m: int, d: int) -> int {
    365 * (y - 1970) + leaps_before(y) - leaps_before(1970) + days_before_month(y, m) + d - 1
}

/// A month of a year that begins in March, by the days before it.
fn march_month(doy: i64) -> (r: (i64, i64))
    requires
        0 <= doy <= 365,
    ensures
        0 <= r.0 <= 11,
        r.1 <= doy,
        days_before_month(1, if r.0 < 10 {
            r.0 + 3
        } else {
            r.0 - 9
        }) == r.1 + (if r.0 < 10 {
            59int
        } else {
            59 - 365
        }),
        doy - r.1 < days_in_month(4, if r.0 < 10 {
            r.0 + 3
        } else {
            r.0 - 9
        }),
{
    if doy < 31 {
        (0, 0)
    } else if doy < 61 {
        (1, 31)
    } else if doy < 92 {
        (2, 61)
    } else if doy < 122 {
        (3, 92)
    } else if doy < 153 {
        (4, 122)
    } else if doy < 184 {
        (5, 153)
    } else if doy < 214 {
        (6, 184)
    } else if doy < 245 {
        (7, 214)
    } else if doy < 275 {
        (8, 245)
    } else if doy < 306 {
        (9, 275)
    } else if doy < 337 {
        (10, 306)
    } else {
        (11, 337)
    }
}

/// Years that begin in March, in cycles of 400 years, 100 years and 4 years:
/// the leap days before each are one in four, but for centuries.
proof fn lemma_march_year(era: int, c: int, q: int, k: int)
    requires
        0 <= c <= 3,
        0 <= q <= 24,
        0 <= k <= 3,
    ensures
        ({
            let y = 400 * era + 100 * c + 4 * q + k;
            &&& leaps_before(y + 1) == 97 * era + 24 * c + q
            &&& leaps_before(y + 1) == leaps_before(y) + (if leap(y) {
                1int
            } else {
                0
            })
            &&& leap(y + 1) <==> k == 3 && (q < 24 || c == 3)
        }),
{
    let y = 400 * era + 100 * c + 4 * q + k;
    lemma_fundamental_div_mod_converse(y, 4, 100 * era + 25 * c + q, k);
    lemma_fundamental_div_mod_converse(y, 100, 4 * era + c, 4 * q + k);
    lemma_fundamental_div_mod_converse(y, 400, era, 100 * c + 4 * q + k);
    lemma_quotient_step(y, 4);
    lemma_quotient_step(y, 100);
    lemma_quotient_step(y, 400);
    lemma_quotient_step(y + 1, 4);
    lemma_quotient_step(y + 1, 100);
    lemma_quotient_step(y + 1, 400);
    lemma_rare(y);
    lemma_rare(y + 1);
    if k == 3 {
        lemma_fundamental_div_mod_converse(y + 1, 4, 100 * era + 25 * c + q + 1, 0);
        if q == 24 {
            lemma_fundamental_div_mod_converse(y + 1, 100, 4 * era + c + 1, 0);
            if c == 3 {
                lemma_fundamental_div_mod_converse(y + 1, 400, era + 1, 0);
            } else {
                lemma_fundamental_div_mod_converse(y + 1, 400, era, 100 * (c + 1));
            }
        } else {
            lemma_fundamental_div_mod_converse(y + 1, 100, 4 * era + c, 4 * q + 4);
        }
    } else {
        lemma_fundamental_div_mod_converse(y + 1, 4, 100 * era + 25 * c + q, k + 1);
    }
}

/// A quotient grows by one where the divisor divides.
proof fn lemma_quotient_step(a: int, d: int)
    requires
        d > 1,
    ensures
        a / d == (a - 1) / d + (if a % d == 0 {
            1int
        } else {
            0
        }),
{
    lemma_fundamental_div_mod(a, d);
    let q = a / d;
    if a % d == 0 {
        assert((q - 1) * d == q * d - d) by (nonlinear_arith);
        assert(d * q == q * d) by (nonlinear_arith);
        lemma_fundamental_div_mod_converse(a - 1, d, q - 1, d - 1);
    } else {
        assert(d * q == q * d) by (nonlinear_arith);
        lemma_fundamental_div_mod_converse(a - 1, d, q, a % d - 1);
    }
}

/// What 400 divides, 100 divides, and what 100 divides, 4 divides.
proof fn lemma_rare(a: int)
    ensures
        a % 400 == 0 ==> a % 100 == 0,
        a % 100 == 0 ==> a % 4 == 0,
{
    lemma_fundamental_div_mod(a, 400);
    lemma_fundamental_div_mod(a, 100);
    if a % 400 == 0 {
        lemma_fundamental_div_mod_converse(a, 100, 4 * (a / 400), 0);
    }
    if a % 100 == 0 {
        lemma_fundamental_div_mod_converse(a, 4, 25 * (a / 100), 0);
    }
}

/// The civil date of a day.
pub fn civil(days: i64) -> (r: (i64, i64, i64))
    requires
        -0x0100_0000_0000_0000 < days < 0x0100_0000_0000_0000,
    ensures
        is_date(r.0 as int, r.1 as int, r.2 as int),
        day_number(r.0 as int, r.1 as int, r.2 as int) == days,
{
    let z: i64 = days + 719_468;
    let (era, doe): (i64, i64) = if z >= 0 {
        (z / 146_097, z % 146_097)
    } else {
        let m: i64 = -1 - z;
        (-1 - m / 146_097, 146_096 - m % 146_097)
    };
    assert(z == 146_097 * era + doe && 0 <= doe < 146_097);
    let c: i64 = if doe / 36_524 < 4 {
        doe / 36_524
    } else {
        3
    };
    let doc: i64 = doe - c * 36_524;
    let q: i64 = doc / 1461;
    let doq: i64 = doc - q * 1461;
    let k: i64 = if doq / 365 < 4 {
        doq / 365
    } else {
        3
    };
    let doy: i64 = doq - k * 365;
    assert(0 <= doy <= 365);
    proof {
        lemma_march_year(era as int, c as int, q as int, k as int);
    }
    let y: i64 = 400 * era + 100 * c + 4 * q + k;
    let (mp, before) = march_month(doy);
    let d: i64 = doy - before + 1;
    let (year, m): (i64, i64) = if mp < 10 {
        (y, mp + 3)
    } else {
        (y + 1, mp - 9)
    };
    assert(leaps_before(1970) == 477);
    assert(z == 365 * y + leaps_before(y + 1) + doy);
    assert(mp == 11 && d == 29 ==> leap(year as int)) by {
        if mp == 11 && d == 29 {
            assert(doy == 365);
            assert(k == 3 && doq == 1460);
        }
    }
    (year, m, d)
}

pub open spec fn shown_date(y: int, m: int, d: int) -> Seq<char> {
    text::padded(y, 4) + "-"@ + text::padded(m, 2) + "-"@ + text::padded(d, 2)
}

/// Whether a text is the date of a moment, in UTC.
pub open spec fn dates(s: Seq<char>, secs: int) -> bool {
    exists|y: int, m: int, d: int|
        is_date(y, m, d) && #[trigger] day_number(y, m, d) == secs / 86_400 && s == shown_date(
            y,
            m,
            d,
        )
}

/// Civil date of a unix timestamp (UTC — the day is what matters).
pub fn ymd(secs: i64) -> (r: String)
    ensures
        dates(r@, secs as int),
{
    let days: i64 = if secs >= 0 {
        secs / 86_400
    } else {
        -1 - (-1 - secs) / 86_400
    };
    assert(days == secs as int / 86_400);
    let (y, m, d) = civil(days);
    let mut out = text::dec_padded(y, 4);
    out.push_str("-");
    let m_text = text::dec_padded(m, 2);
    out.push_str(m_text.as_str());
    out.push_str("-");
    let d_text = text::dec_padded(d, 2);
    out.push_str(d_text.as_str());
    assert(day_number(y as int, m as int, d as int) == secs as int / 86_400);
    assert(out@ == shown_date(y as int, m as int, d as int));
    out
}

/// How long ago something was, in words.
pub open spec fn told_when(s: Seq<char>, now: int, updated_at: int) -> bool {
    let age = now - updated_at;
    if age < 90 {
        s == "just now"@
    } else if age < 3600 {
        s == text::decimal(age / 60) + " min ago"@
    } else if age < 86_400 {
        s == text::decimal(age / 3600) + " h ago"@
    } else if age < 2 * 86_400 {
        s == "yesterday"@
    } else if age < 30 * 86_400 {
        s == text::decimal(age / 86_400) + " days ago"@
    } else {
        dates(s, updated_at)
    }
}

/// "just now", "3 h ago", "yesterday", "12 days ago", "2026-06-01".
pub fn when(now: i64, updated_at: i64) -> (r: String)
    requires
        i64::MIN <= now - updated_at <= i64::MAX,
    ensures
        told_when(r@, now as int, updated_at as int),
{
    let age: i64 = now - updated_at;
    if age < 90 {
        "just now".to_owned()
    } else if age < 3600 {
        let mut out = text::dec(age / 60);
        out.push_str(" min ago");
        out
    } else if age < 86_400 {
        let mut out = text::dec(age / 3600);
        out.push_str(" h ago");
        out
    } else if age < 2 * 86_400 {
        "yesterday".to_owned()
    } else if age < 30 * 86_400 {
        let mut out = text::dec(age / 86_400);
        out.push_str(" days ago");
        out
    } else {
        ymd(updated_at)
    }
}

// -------------------------------------------------------------------- laws

proof fn lemma_year_grows(a: int, b: int)
    requires
        a < b,
    ensures
        365 * a + leaps_before(a) + 365 + (if leap(a) {
            1int
        } else {
            0
        }) <= 365 * b + leaps_before(b),
    decreases b - a,
{
    if a + 1 == b {
        lemma_quotient_step(a, 4);
        lemma_quotient_step(a, 100);
        lemma_quotient_step(a, 400);
        lemma_rare(a);
    } else {
        lemma_year_grows(a, b - 1);
        lemma_year_grows(b - 1, b);
    }
}

/// No two dates are of one day, so the date that a moment is shown as is the
/// only one it could be.
pub proof fn dates_are_distinct(y1: int, m1: int, d1: int, y2: int, m2: int, d2: int)
    requires
        is_date(y1, m1, d1),
        is_date(y2, m2, d2),
        day_number(y1, m1, d1) == day_number(y2, m2, d2),
    ensures
        y1 == y2 && m1 == m2 && d1 == d2,
{
    if y1 < y2 {
        lemma_year_grows(y1, y2);
    } else if y2 < y1 {
        lemma_year_grows(y2, y1);
    }
}

/// A key depends on the program, not on the file or on a listing's dressing of
/// its title: two files of one numbered episode share their history.
pub proof fn keys_name_programs(
    a: int,
    b: int,
    series: Seq<char>,
    season: i64,
    episode: i64,
    x: Seq<char>,
    y: Seq<char>,
    year: Option<i64>,
)
    requires
        episode > 0,
    ensures
        program_key(MediaKind::Tv, a, Some(series), Some(season), Some(episode), x, year)
            == program_key(MediaKind::Tv, b, Some(series), Some(season), Some(episode), y, year),
        program_key(MediaKind::Movies, a, None, None, None, x, year) == program_key(
            MediaKind::Movies,
            b,
            None,
            None,
            None,
            x,
            year,
        ),
{
}

/// What stands before and behind the last bar of a text.
proof fn lemma_last_bar(a: Seq<char>, x: Seq<char>, b: Seq<char>, y: Seq<char>)
    requires
        text::lacks(x, '|'),
        text::lacks(y, '|'),
        a + seq!['|'] + x == b + seq!['|'] + y,
    ensures
        a == b,
        x == y,
{
    let s = a + seq!['|'] + x;
    let t = b + seq!['|'] + y;
    assert(s.len() == a.len() + 1 + x.len());
    assert(t.len() == b.len() + 1 + y.len());
    assert(s[a.len() as int] == '|');
    assert(t[b.len() as int] == '|');
    if a.len() < b.len() {
        assert(s[b.len() as int] == x[b.len() - a.len() - 1]);
    } else if b.len() < a.len() {
        assert(t[a.len() as int] == y[a.len() - b.len() - 1]);
    }
    assert(a =~= s.take(a.len() as int));
    assert(b =~= t.take(b.len() as int));
    assert(x =~= s.skip(a.len() as int + 1));
    assert(y =~= t.skip(b.len() as int + 1));
}

/// No two numbered episodes share a key: the key tells the series, the season
/// and the episode.
pub proof fn episode_keys_are_distinct(
    files: (int, int),
    series: (Seq<char>, Seq<char>),
    seasons: (i64, i64),
    episodes: (i64, i64),
    titles: (Seq<char>, Seq<char>),
    years: (Option<i64>, Option<i64>),
)
    requires
        episodes.0 > 0,
        episodes.1 > 0,
        program_key(
            MediaKind::Tv,
            files.0,
            Some(series.0),
            Some(seasons.0),
            Some(episodes.0),
            titles.0,
            years.0,
        ) == program_key(
            MediaKind::Tv,
            files.1,
            Some(series.1),
            Some(seasons.1),
            Some(episodes.1),
            titles.1,
            years.1,
        ),
    ensures
        series_key(series.0) == series_key(series.1),
        seasons.0 == seasons.1,
        episodes.0 == episodes.1,
{
    reveal_strlit("|");
    assert("|"@ =~= seq!['|']);
    let (n0, n1) = (text::decimal(seasons.0 as int), text::decimal(seasons.1 as int));
    let (e0, e1) = (text::decimal(episodes.0 as int), text::decimal(episodes.1 as int));
    text::decimals_are_plain(seasons.0 as int, '|');
    text::decimals_are_plain(seasons.1 as int, '|');
    text::decimals_are_plain(episodes.0 as int, '|');
    text::decimals_are_plain(episodes.1 as int, '|');
    let a = "tv|"@ + series_key(series.0);
    let b = "tv|"@ + series_key(series.1);
    lemma_last_bar(a + seq!['|'] + n0, e0, b + seq!['|'] + n1, e1);
    lemma_last_bar(a, n0, b, n1);
    text::decimal_round_trip(seasons.0 as int);
    text::decimal_round_trip(seasons.1 as int);
    text::decimal_round_trip(episodes.0 as int);
    text::decimal_round_trip(episodes.1 as int);
    assert(series_key(series.0) =~= a.skip("tv|"@.len() as int));
    assert(series_key(series.1) =~= b.skip("tv|"@.len() as int));
}

/// The keys of a series' numbered episodes start alike, which is how a series
/// is found as a whole.
pub proof fn episodes_share_a_prefix(
    file_id: int,
    series: Seq<char>,
    season: i64,
    episode: i64,
    title: Seq<char>,
    year: Option<i64>,
)
    requires
        episode > 0,
    ensures
        program_key(
            MediaKind::Tv,
            file_id,
            Some(series),
            Some(season),
            Some(episode),
            title,
            year,
        ) matches Some(key) && text::begins(key, series_start(series)),
{
    let key = program_key(
        MediaKind::Tv,
        file_id,
        Some(series),
        Some(season),
        Some(episode),
        title,
        year,
    )->Some_0;
    let p = series_start(series);
    assert(key.subrange(0, p.len() as int) =~= p);
}

/// A program that is left is gone on with from where it was left, and stays
/// seen if it was; from 95 per cent of its length on it counts as seen, and
/// starts over. The length is what the report says, else what was known.
pub proof fn leaving_is_remembered(
    r: WatchRow,
    old_row: Option<WatchRow>,
    key: Seq<char>,
    file_id: i64,
    position_ms: i64,
    duration_ms: Option<i64>,
    now: i64,
)
    requires
        left_at(r, old_row, key, file_id, position_ms, duration_ms, now),
        position_ms >= 0,
    ensures
        r.key@ == key && r.file_id == file_id && r.updated_at == now && !r.dismissed,
        duration_ms is Some && duration_ms->Some_0 > 0 && 20 * position_ms >= 19
            * duration_ms->Some_0 ==> r.watched && r.position_ms == 0,
        duration_ms is None || duration_ms->Some_0 <= 0 || 20 * position_ms < 19
            * duration_ms->Some_0 ==> {
            &&& r.position_ms == position_ms
            &&& r.watched <==> old_row is Some && old_row->Some_0.watched
        },
        duration_ms is Some ==> r.duration_ms == duration_ms,
        duration_ms is None && old_row is Some ==> r.duration_ms == old_row->Some_0.duration_ms,
        duration_ms is None && old_row is None ==> r.duration_ms is None,
        r.underway() <==> r.position_ms > 0,
{
}

/// A program that ran to its end is seen, and starts over.
pub proof fn an_end_is_remembered(
    r: WatchRow,
    old_row: Option<WatchRow>,
    key: Seq<char>,
    file_id: i64,
    duration_ms: Option<i64>,
    now: i64,
)
    requires
        ran_to_end(r, old_row, key, file_id, duration_ms, now),
    ensures
        r.watched && r.position_ms == 0 && !r.underway() && !r.dismissed,
        r.key@ == key && r.file_id == file_id && r.updated_at == now,
        duration_ms is Some ==> r.duration_ms == duration_ms,
        duration_ms is None && old_row is Some ==> r.duration_ms == old_row->Some_0.duration_ms,
{
}

/// A name is as long as forty characters.
pub proof fn names_have_forty_characters()
    ensures
        MAX_NAME == 40,
{
}

/// The pair that a profile's cookie holds names the profile; a pair of
/// another name does not.
pub proof fn cookies_name_their_profile(id: i64, name: Seq<char>, value: Seq<char>)
    ensures
        pair_id("profile="@ + text::decimal(id as int)) == Some(id as int),
        !name.contains('=') && name.len() > 0 && !text::white(name[0]) && value.len() > 0
            && !text::white(value.last()) && name != "profile"@ ==> pair_id(name + "="@ + value)
            is None,
{
    reveal_strlit("profile=");
    reveal_strlit("profile");
    reveal_strlit("=");
    assert("="@ =~= seq!['=']);
    let d = text::decimal(id as int);
    let m = if id < 0 {
        -(id as int)
    } else {
        id as int
    };
    text::lemma_nat_digits(m);
    assert(d.len() > 0 && text::is_digit(d.last()));
    assert(!text::white(d[0]) && !text::white(d.last()));
    let s = "profile="@ + d;
    assert(s =~= "profile"@ + "="@ + d);
    assert(s[0] == 'p');
    text::lemma_trimmed_same(s);
    text::lemma_trimmed_same(d);
    lemma_cut_first("profile"@, d);
    text::decimal_round_trip(id as int);
    if !name.contains('=') && name.len() > 0 && !text::white(name[0]) && value.len() > 0
        && !text::white(value.last()) && name != "profile"@ {
        let t = name + "="@ + value;
        assert(t[0] == name[0] && t.last() == value.last());
        text::lemma_trimmed_same(t);
        lemma_cut_first(name, value);
    }
}

proof fn lemma_cut_first(a: Seq<char>, b: Seq<char>)
    requires
        !a.contains('='),
    ensures
        text::cut_once(a + "="@ + b, "="@) == Some((a, b)),
{
    reveal_strlit("=");
    assert("="@ =~= seq!['=']);
    let s = a + "="@ + b;
    let i = a.len() as int;
    assert(s.subrange(i, i + 1) =~= "="@);
    assert forall|k: int| 0 <= k < i implies !text::occurs_at(s, "="@, k) by {
        if text::occurs_at(s, "="@, k) {
            assert(s.subrange(k, k + 1)[0] == '=');
            assert(a[k] == '=');
        }
    }
    text::lemma_cut_once(s, "="@, i);
    assert(s.take(i) =~= a);
    assert(s.skip(i + 1) =~= b);
}

/// The first pair of a line that names a profile counts.
pub proof fn the_first_profile_counts(pairs: Seq<Seq<char>>, i: int)
    requires
        0 <= i < pairs.len(),
        pair_id(pairs[i]) is Some,
        forall|j: int| 0 <= j < i ==> pair_id(#[trigger] pairs[j]) is None,
    ensures
        first_id(pairs) == pair_id(pairs[i]),
    decreases pairs.len(),
{
    let head = pairs.drop_last();
    assert forall|j: int| 0 <= j < i implies pair_id(#[trigger] head[j]) is None by {
        assert(head[j] == pairs[j]);
    }
    if i < head.len() {
        assert(head[i] == pairs[i]);
        the_first_profile_counts(head, i);
    } else {
        lemma_no_profile(head);
    }
}

proof fn lemma_no_profile(pairs: Seq<Seq<char>>)
    requires
        forall|j: int| 0 <= j < pairs.len() ==> pair_id(#[trigger] pairs[j]) is None,
    ensures
        first_id(pairs) is None,
    decreases pairs.len(),
{
    if pairs.len() > 0 {
        let head = pairs.drop_last();
        assert(pairs[pairs.len() - 1] == pairs.last());
        assert forall|j: int| 0 <= j < head.len() implies pair_id(#[trigger] head[j]) is None by {
            assert(head[j] == pairs[j]);
        }
        lemma_no_profile(head);
    }
}

/// The first line with a profile counts.
pub proof fn the_first_line_counts(lines: Seq<Seq<char>>, line: Seq<char>)
    ensures
        named_profile(lines) is Some ==> named_profile(lines.push(line)) == named_profile(lines),
        named_profile(lines) is None ==> named_profile(lines.push(line)) == first_id(
            text::pieces(line, ';'),
        ),
{
    assert(lines.push(line).drop_last() =~= lines);
}

/// The key of a film does not depend on the view it was seen in: neither the
/// year behind its title nor the rating before it counts.
pub proof fn movie_keys_ignore_decoration(
    file_id: int,
    title: Seq<char>,
    year: i64,
    whole: Seq<char>,
    tenth: char,
)
    requires
        title.len() > 0,
        !text::white(title[0]),
        !text::white(title.last()),
        !text::holds(title, " · "@),
        !text::ends(title, " ("@ + text::decimal(year as int) + ")"@),
        all_digits(whole),
        text::is_digit(tenth),
    ensures
        program_key(
            MediaKind::Movies,
            file_id,
            None,
            None,
            None,
            title + (" ("@ + text::decimal(year as int) + ")"@),
            Some(year),
        ) == program_key(MediaKind::Movies, file_id, None, None, None, title, Some(year)),
        program_key(
            MediaKind::Movies,
            file_id,
            None,
            None,
            None,
            whole + seq!['.', tenth] + " · "@ + title,
            None,
        ) == program_key(MediaKind::Movies, file_id, None, None, None, title, None),
{
    reveal_strlit(" (");
    reveal_strlit(")");
    reveal_strlit(" · ");
    let tail = " ("@ + text::decimal(year as int) + ")"@;
    let dated = title + tail;
    assert(dated[0] == title[0] && dated.last() == ')');
    text::lemma_trimmed_same(dated);
    text::lemma_trimmed_same(title);
    assert(dated.subrange(dated.len() - tail.len(), dated.len() as int) =~= tail);
    assert(dated.take(dated.len() - tail.len()) =~= title);
    assert(undated(dated, Some(year)) == title);
    assert(undated(title, Some(year)) == title);
    assert(unrated(title) == title);
    let head = whole + seq!['.', tenth];
    let rated = head + " · "@ + title;
    let n = head.len() as int;
    assert(text::is_digit(rated[0])) by {
        assert(rated[0] == whole[0]);
    }
    assert(rated.last() == title.last());
    text::lemma_trimmed_same(rated);
    assert(head.take(n - 2) =~= whole);
    assert(rating_like(head));
    assert(rated.subrange(n, n + 3) =~= " · "@);
    assert forall|k: int| 0 <= k < n implies !text::occurs_at(rated, " · "@, k) by {
        if text::occurs_at(rated, " · "@, k) {
            assert(rated.subrange(k, k + 3)[0] == ' ');
            assert(rated[k] == ' ');
            if k < whole.len() {
                assert(text::is_digit(whole[k]));
            }
        }
    }
    text::lemma_cut_once(rated, " · "@, n);
    assert(rated.take(n) =~= head);
    assert(rated.skip(n + 3) =~= title);
}

/// The calendar goes on from each day to the next, from the first of January
/// 1970 on and before it: thirty days has September, April, June and
/// November, February has twenty-eight, and one more in a leap year.
pub proof fn days_follow_each_other(y: int, m: int, d: int)
    requires
        is_date(y, m, d),
    ensures
        day_number(1970, 1, 1) == 0,
        ({
            let last = if m == 4 || m == 6 || m == 9 || m == 11 {
                30int
            } else if m != 2 {
                31
            } else if y % 400 == 0 || (y % 4 == 0 && y % 100 != 0) {
                29
            } else {
                28
            };
            &&& d <= last
            &&& d < last ==> is_date(y, m, d + 1) && day_number(y, m, d + 1) == day_number(y, m, d) + 1
            &&& d == last && m < 12 ==> is_date(y, m + 1, 1) && day_number(y, m + 1, 1)
                == day_number(y, m, d) + 1
            &&& d == last && m == 12 ==> is_date(y + 1, 1, 1) && day_number(y + 1, 1, 1)
                == day_number(y, m, d) + 1
        }),
{
    lemma_rare(y);
    if m == 12 {
        lemma_quotient_step(y, 4);
        lemma_quotient_step(y, 100);
        lemma_quotient_step(y, 400);
    }
}

/// How long ago something was is told in the largest unit that fits.
pub proof fn ages_are_told_in_words(s: Seq<char>, now: int, then: int, n: int)
    requires
        told_when(s, now, then),
    ensures
        now - then < 90 ==> s == "just now"@,
        90 <= now - then < 3600 && 60 * n <= now - then < 60 * (n + 1) ==> s == text::decimal(n)
            + " min ago"@,
        3600 <= now - then < 86_400 && 3600 * n <= now - then < 3600 * (n + 1) ==> s
            == text::decimal(n) + " h ago"@,
        86_400 <= now - then < 172_800 ==> s == "yesterday"@,
        172_800 <= now - then < 2_592_000 && 86_400 * n <= now - then < 86_400 * (n + 1) ==> s
            == text::decimal(n) + " days ago"@,
        2_592_000 <= now - then ==> dates(s, then),
{
}

} // verus!
