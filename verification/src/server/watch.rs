//! The web side of viewer profiles: the "who's watching?" page, the seen tick
//! on listings, and the fragments the pages show — continue watching, up
//! next, resume points.
use vstd::prelude::*;
use vstd::string::*;
use crate::db::models::{BrowseItem, MediaKind};
use crate::db::queries::files::ItemDetail;
use crate::numbers;
use crate::server::assets::PROFILES_STYLE;
use crate::server::didl;
use crate::server::page;
use crate::server::page::PAGE_CLOSE;
use crate::server::profiles;
use crate::server::profiles::{Profile, WatchRow};
use crate::server::tree;
use crate::text;

verus! {

/// What a profile has watched, by program.
pub type States = Vec<(String, WatchRow)>;

/// The row of a program.
pub open spec fn row_of(states: Seq<(String, WatchRow)>, key: Seq<char>) -> Option<int>
    decreases states.len(),
{
    if states.len() == 0 {
        None
    } else if states.last().0@ == key {
        Some(states.len() - 1)
    } else {
        row_of(states.drop_last(), key)
    }
}

fn find_row(states: &States, key: &str) -> (r: Option<usize>)
    ensures
        match r {
            Some(i) => i < states@.len() && row_of(states@, key@) == Some(i as int),
            None => row_of(states@, key@) is None,
        },
{
    let mut i: usize = states.len();
    assert(states@.take(i as int) =~= states@);
    while i > 0
        invariant
            i <= states.len(),
            row_of(states@.take(i as int), key@) == row_of(states@, key@),
        decreases i,
    {
        assert(states@.take(i as int).last() == states@[i - 1]);
        assert(states@.take(i as int).drop_last() =~= states@.take(i - 1));
        if text::same(states[i - 1].0.as_str(), key) {
            return Some(i - 1);
        }
        i -= 1;
    }
    None
}

pub open spec fn chip(name: Option<Seq<char>>) -> Seq<char> {
    match name {
        Some(name) => "<p class=\"who\"><a href=\"/profiles\" title=\"Switch profile\">👤 "@
            + didl::escaped(name) + "</a></p>"@,
        None => "<p class=\"who\"><a href=\"/profiles\">👤 Who's watching?</a></p>"@,
    }
}

/// The corner chip on every page: who is watching, linking to the
/// picker to switch.
pub fn chip_html(profile: Option<&Profile>) -> (r: String)
    ensures
        r@ == chip(
            match profile {
                Some(p) => Some(p.name@),
                None => None,
            },
        ),
{
    match profile {
        Some(p) => {
            let mut out =
                "<p class=\"who\"><a href=\"/profiles\" title=\"Switch profile\">👤 ".to_owned();
            let name = didl::xml_escape(p.name.as_str());
            out.push_str(name.as_str());
            out.push_str("</a></p>");
            out
        },
        None => "<p class=\"who\"><a href=\"/profiles\">👤 Who's watching?</a></p>".to_owned(),
    }
}

/// "12:34" / "1:02:03".
pub open spec fn clock_of(ms: int) -> Seq<char> {
    let secs = numbers::quotient(ms, 1000);
    if secs >= 3600 {
        text::decimal(secs / 3600) + ":"@ + text::padded((secs % 3600) / 60, 2) + ":"@
            + text::padded(secs % 60, 2)
    } else {
        text::decimal(numbers::quotient(secs, 60)) + ":"@ + text::padded(
            numbers::remainder(secs, 60),
            2,
        )
    }
}

pub fn clock(ms: i64) -> (r: String)
    ensures
        r@ == clock_of(ms as int),
{
    let secs: i64 = numbers::quot(ms, 1000);
    if secs >= 3600 {
        let mut out = text::dec(secs / 3600);
        out.push_str(":");
        let m = text::dec_padded((secs % 3600) / 60, 2);
        out.push_str(m.as_str());
        out.push_str(":");
        let s = text::dec_padded(secs % 60, 2);
        out.push_str(s.as_str());
        out
    } else {
        let mut out = text::dec(numbers::quot(secs, 60));
        out.push_str(":");
        let s = text::dec_padded(numbers::rem(secs, 60), 2);
        out.push_str(s.as_str());
        out
    }
}

/// Whether the time since a row's last report can be told.
pub open spec fn datable(row: WatchRow, now: int) -> bool {
    i64::MIN <= now - row.updated_at <= i64::MAX
}

/// What is left of a program, or where it was left.
pub open spec fn left_of(row: WatchRow) -> Seq<char> {
    match row.duration_ms {
        Some(d) if d > row.position_ms => clock_of(d - row.position_ms) + " left"@,
        _ => "at "@ + clock_of(row.position_ms as int),
    }
}

/// What a row's state reads as beside a title.
pub open spec fn noted(s: Seq<char>, row: WatchRow, now: int) -> bool {
    if row.underway() {
        exists|w: Seq<char>|
            #[trigger] profiles::told_when(w, now, row.updated_at as int) && s == left_of(row)
                + " · "@ + w
    } else if row.watched {
        exists|w: Seq<char>|
            #[trigger] profiles::told_when(w, now, row.updated_at as int) && s == "watched "@ + w
    } else {
        s == Seq::<char>::empty()
    }
}

/// What a row's state reads as beside a title: "12:34 left · 2 h ago",
/// "watched yesterday", or nothing.
pub fn note(row: &WatchRow, now: i64) -> (r: String)
    requires
        datable(*row, now as int),
    ensures
        noted(r@, *row, now as int),
{
    if row.in_progress() {
        let mut out = match row.duration_ms {
            Some(d) => {
                if d > row.position_ms {
                    let mut left = clock(d - row.position_ms);
                    left.push_str(" left");
                    left
                } else {
                    let mut at = "at ".to_owned();
                    let c = clock(row.position_ms);
                    at.push_str(c.as_str());
                    at
                }
            },
            None => {
                let mut at = "at ".to_owned();
                let c = clock(row.position_ms);
                at.push_str(c.as_str());
                at
            },
        };
        out.push_str(" · ");
        let w = profiles::when(now, row.updated_at);
        out.push_str(w.as_str());
        assert(profiles::told_when(w@, now as int, row.updated_at as int));
        out
    } else if row.watched {
        let mut out = "watched ".to_owned();
        let w = profiles::when(now, row.updated_at);
        out.push_str(w.as_str());
        assert(profiles::told_when(w@, now as int, row.updated_at as int));
        out
    } else {
        let s = String::new();
        assert(s@ =~= seq![]);
        s
    }
}

/// Whether every row can be dated.
pub open spec fn all_datable(states: Seq<(String, WatchRow)>, now: int) -> bool {
    forall|i: int| 0 <= i < states.len() ==> datable((#[trigger] states[i]).1, now)
}

/// A tick that says whether a program was seen.
pub open spec fn seen_box_of(file_id: i64, extra: Seq<char>, checked: bool) -> Seq<char> {
    "<input type=\"checkbox\" data-seen=\""@ + text::decimal(file_id as int) + "\""@ + extra
        + (if checked { " checked"@ } else { ""@ }) + ">"@
}

/// A tick that says whether a program was seen.
fn seen_box(file_id: i64, extra: &str, checked: bool) -> (r: String)
    ensures
        r@ == seen_box_of(file_id, extra@, checked),
{
    let mut out = "<input type=\"checkbox\" data-seen=\"".to_owned();
    let part1 = text::dec(file_id);
    out.push_str(part1.as_str());
    out.push_str("\"");
    out.push_str(extra);
    let part2 = (if checked { " checked".to_owned() } else { "".to_owned() });
    out.push_str(part2.as_str());
    out.push_str(">");
    out
}

/// The note beside a title, in its markup.
pub open spec fn note_span(s: Seq<char>) -> Seq<char> {
    "<span class=\"wnote\">"@ + s + "</span>"@
}

fn span_note(s: &str) -> (r: String)
    ensures
        r@ == note_span(s@),
{
    let mut out = "<span class=\"wnote\">".to_owned();
    out.push_str(s);
    out.push_str("</span>");
    out
}

/// The note on a row, where there is one.
pub open spec fn note_on(s: Seq<char>, states: Seq<(String, WatchRow)>, at: Option<int>, now: int) -> bool {
    match at {
        Some(i) => noted(s, states[i].1, now),
        None => s == Seq::<char>::empty(),
    }
}

/// The seen tick and the note for one listing row. Empty without a
/// profile, and for music.
pub fn row_marks(item: &BrowseItem, states: Option<&States>, now: i64) -> (r: (String, String))
    requires
        states matches Some(s) ==> all_datable(s@, now as int),
    ensures
        match (states, profiles::key_of_item(*item)) {
            (Some(s), Some(key)) => {
                let at = row_of(s@, key);
                &&& r.0@ == seen_box_of(
                    item.file_id,
                    " title=\"Seen\" aria-label=\"Seen\""@,
                    at matches Some(i) && s@[i].1.watched,
                )
                &&& exists|n: Seq<char>| #[trigger] note_on(n, s@, at, now as int) && r.1@ == note_span(n)
            },
            _ => r.0@.len() == 0 && r.1@.len() == 0,
        },
{
    match (states, profiles::item_key(item)) {
        (Some(s), Some(key)) => {
            let at = find_row(s, key.as_str());
            let (checked, n) = match at {
                Some(i) => (s[i].1.watched, note(&s[i].1, now)),
                None => (false, empty()),
            };
            let ghost spec_at = row_of(s@, key@);
            assert(note_on(n@, s@, spec_at, now as int));
            let tick = seen_box(item.file_id, " title=\"Seen\" aria-label=\"Seen\"", checked);
            let span = span_note(n.as_str());
            (tick, span)
        },
        _ => (String::new(), String::new()),
    }
}

fn empty() -> (r: String)
    ensures
        r@ == Seq::<char>::empty(),
{
    let s = String::new();
    assert(s@ =~= seq![]);
    s
}

/// The seen line on a detail page.
pub fn detail_marks(detail: &ItemDetail, row: Option<&WatchRow>, now: i64) -> (r: String)
    requires
        row matches Some(w) ==> datable(*w, now as int),
    ensures
        if profiles::key_of_detail(*detail) is None {
            r@.len() == 0
        } else {
            exists|n: Seq<char>|
                (match row {
                    Some(w) => noted(n, *w, now as int),
                    None => n == Seq::<char>::empty(),
                }) && r@ == "<p class=\"controls\" data-watch><label>"@ + seen_box_of(
                    detail.file_id,
                    ""@,
                    row matches Some(w) && w.watched,
                ) + " Seen</label>"@ + #[trigger] note_span(n) + "</p>"@
        },
{
    if profiles::detail_key(detail).is_none() {
        return String::new();
    }
    let (checked, n) = match row {
        Some(w) => (w.watched, note(w, now)),
        None => (false, empty()),
    };
    let mut out = "<p class=\"controls\" data-watch><label>".to_owned();
    let tick = seen_box(detail.file_id, "", checked);
    out.push_str(tick.as_str());
    out.push_str(" Seen</label>");
    let span = span_note(n.as_str());
    out.push_str(span.as_str());
    out.push_str("</p>");
    out
}

/// Where the player should pick up, in whole seconds, when the profile
/// left this program part-way (the trivial first seconds don't count).
pub fn resume_secs(row: Option<&WatchRow>) -> (r: Option<i64>)
    ensures
        match (r, row) {
            (Some(n), Some(w)) => w.position_ms > 9000 && n == w.position_ms as int / 1000,
            (None, Some(w)) => w.position_ms <= 9000,
            (Some(_), None) => false,
            (None, None) => true,
        },
{
    match row {
        Some(w) => if w.position_ms > 9000 {
            Some(w.position_ms / 1000)
        } else {
            None
        },
        None => None,
    }
}

// ------------------------------------------------------------------ up next

/// The row of an episode.
pub open spec fn episode_row(e: BrowseItem, rows: Seq<(String, WatchRow)>) -> Option<int> {
    match profiles::key_of_item(e) {
        Some(key) => row_of(rows, key),
        None => None,
    }
}

fn row_for(e: &BrowseItem, rows: &States) -> (r: Option<usize>)
    ensures
        match r {
            Some(i) => i < rows@.len() && episode_row(*e, rows@) == Some(i as int),
            None => episode_row(*e, rows@) is None,
        },
{
    match profiles::item_key(e) {
        Some(key) => find_row(rows, key.as_str()),
        None => None,
    }
}

/// The episode with the latest activity, and its row; the later one of two
/// that are equally late.
pub open spec fn latest(eps: Seq<BrowseItem>, rows: Seq<(String, WatchRow)>) -> Option<(int, int)>
    decreases eps.len(),
{
    if eps.len() == 0 {
        None
    } else {
        let n = eps.len() - 1;
        let head = latest(eps.drop_last(), rows);
        match (head, episode_row(eps[n], rows)) {
            (Some((i, r)), Some(k)) => if rows[k].1.updated_at >= rows[r].1.updated_at {
                Some((n, k))
            } else {
                Some((i, r))
            },
            (None, Some(k)) => Some((n, k)),
            (_, None) => head,
        }
    }
}

pub open spec fn seen(e: BrowseItem, rows: Seq<(String, WatchRow)>) -> bool {
    episode_row(e, rows) matches Some(k) && rows[k].1.watched
}

/// The first episode from the `i`th on that was not seen.
pub open spec fn first_unseen(eps: Seq<BrowseItem>, rows: Seq<(String, WatchRow)>, i: int) -> Option<int>
    decreases eps.len() - i,
{
    if i < 0 || i >= eps.len() {
        None
    } else if !seen(eps[i], rows) {
        Some(i)
    } else {
        first_unseen(eps, rows, i + 1)
    }
}

/// The episode to go on with, and the row to resume it from.
pub open spec fn next_of(eps: Seq<BrowseItem>, rows: Seq<(String, WatchRow)>) -> Option<(int, Option<int>)> {
    match latest(eps, rows) {
        None => None,
        Some((i, r)) => if rows[r].1.underway() {
            Some((i, Some(r)))
        } else {
            match first_unseen(eps, rows, i + 1) {
                Some(k) => Some((k, None)),
                None => None,
            }
        },
    }
}

proof fn lemma_latest(eps: Seq<BrowseItem>, rows: Seq<(String, WatchRow)>)
    ensures
        latest(eps, rows) matches Some((i, r)) ==> 0 <= i < eps.len() && episode_row(eps[i], rows) == Some(r),
    decreases eps.len(),
{
    if eps.len() > 0 {
        lemma_latest(eps.drop_last(), rows);
    }
}

proof fn lemma_row_of(states: Seq<(String, WatchRow)>, key: Seq<char>)
    ensures
        row_of(states, key) matches Some(i) ==> 0 <= i < states.len(),
    decreases states.len(),
{
    if states.len() > 0 {
        lemma_row_of(states.drop_last(), key);
    }
}

/// Episodes in series order with the profile's rows: the one to pick up
/// (part-way through, with its row), else the first unseen after the last one
/// seen; by index.
pub fn up_next(episodes: &Vec<BrowseItem>, rows: &States) -> (r: Option<(usize, Option<usize>)>)
    ensures
        match r {
            Some((i, None)) => i < episodes@.len() && next_of(episodes@, rows@) == Some(
                (i as int, None::<int>),
            ),
            Some((i, Some(k))) => i < episodes@.len() && k < rows@.len() && next_of(
                episodes@,
                rows@,
            ) == Some((i as int, Some(k as int))),
            None => next_of(episodes@, rows@) is None,
        },
{
    let ghost eps = episodes@;
    let mut best: Option<(usize, usize)> = None;
    let mut i: usize = 0;
    assert(eps.take(0) =~= seq![]);
    while i < episodes.len()
        invariant
            i <= episodes.len(),
            eps == episodes@,
            best matches Some((a, b)) ==> a < i && b < rows@.len(),
            latest(eps.take(i as int), rows@) == (match best {
                Some((a, b)) => Some((a as int, b as int)),
                None => None,
            }),
        decreases episodes.len() - i,
    {
        assert(eps.take(i + 1).drop_last() =~= eps.take(i as int));
        assert(eps.take(i + 1)[i as int] == eps[i as int]);
        if let Some(k) = row_for(&episodes[i], rows) {
            match best {
                Some((_, r)) => {
                    if rows[k].1.updated_at >= rows[r].1.updated_at {
                        best = Some((i, k));
                    }
                },
                None => {
                    best = Some((i, k));
                },
            }
        }
        i += 1;
    }
    assert(eps.take(i as int) =~= eps);
    let (at, row) = match best {
        Some(b) => b,
        None => {
            return None;
        },
    };
    if rows[row].1.in_progress() {
        return Some((at, Some(row)));
    }
    let mut k: usize = at + 1;
    while k < episodes.len()
        invariant
            at < k <= episodes.len(),
            eps == episodes@,
            row < rows@.len(),
            latest(eps, rows@) == Some((at as int, row as int)),
            !rows@[row as int].1.underway(),
            first_unseen(eps, rows@, k as int) == first_unseen(eps, rows@, at + 1),
        decreases episodes.len() - k,
    {
        let done = match row_for(&episodes[k], rows) {
            Some(x) => rows[x].1.watched,
            None => false,
        };
        if !done {
            assert(first_unseen(eps, rows@, k as int) == Some(k as int));
            return Some((k, None));
        }
        k += 1;
    }
    None
}

/// A link that plays a file.
pub open spec fn link_to(file_id: i64, label: Seq<char>) -> Seq<char> {
    "<a href=\"/play/"@ + text::decimal(file_id as int) + "\">"@ + didl::escaped(label) + "</a>"@
}

/// A link that plays a file.
fn play_link(file_id: i64, label: &str) -> (r: String)
    ensures
        r@ == link_to(file_id, label@),
{
    let mut out = "<a href=\"/play/".to_owned();
    let part1 = text::dec(file_id);
    out.push_str(part1.as_str());
    out.push_str("\">");
    let part2 = didl::xml_escape(label);
    out.push_str(part2.as_str());
    out.push_str("</a>");
    out
}

pub open spec fn or_zero(n: Option<i64>) -> i64 {
    match n {
        Some(n) => n,
        None => 0,
    }
}

/// An episode as its series page names it.
pub open spec fn episode_label(e: BrowseItem) -> Seq<char> {
    "S"@ + text::padded(or_zero(e.season) as int, 2) + "E"@ + text::padded(
        or_zero(e.episode) as int,
        2,
    ) + " — "@ + e.title@
}

fn label_of(e: &BrowseItem) -> (r: String)
    ensures
        r@ == episode_label(*e),
{
    let mut out = "S".to_owned();
    let s = text::dec_padded(match e.season { Some(n) => n, None => 0 }, 2);
    out.push_str(s.as_str());
    out.push_str("E");
    let n = text::dec_padded(match e.episode { Some(n) => n, None => 0 }, 2);
    out.push_str(n.as_str());
    out.push_str(" — ");
    out.push_str(e.title.as_str());
    out
}

/// A series page's "continue" line.
pub open spec fn series_line(s: Seq<char>, eps: Seq<BrowseItem>, rows: Seq<(String, WatchRow)>, now: int) -> bool {
    if rows.len() == 0 {
        s.len() == 0
    } else {
        match next_of(eps, rows) {
            None => s == "<p class=\"wnote\" style=\"margin-left:0\">Every episode seen.</p>"@,
            Some((i, Some(r))) => exists|n: Seq<char>|
                noted(n, rows[r].1, now) && s == "<p>▶ Continue: "@ + link_to(
                    eps[i].file_id,
                    episode_label(eps[i]),
                ) + " "@ + #[trigger] note_span(n) + "</p>"@,
            Some((i, None)) => s == "<p>▶ Up next: "@ + link_to(
                eps[i].file_id,
                episode_label(eps[i]),
            ) + "</p>"@,
        }
    }
}

/// A series page's "continue" line.
pub fn series_next_html(episodes: &Vec<BrowseItem>, rows: &States, now: i64) -> (r: String)
    requires
        all_datable(rows@, now as int),
    ensures
        series_line(r@, episodes@, rows@, now as int),
{
    if rows.len() == 0 {
        return String::new();
    }
    match up_next(episodes, rows) {
        None => "<p class=\"wnote\" style=\"margin-left:0\">Every episode seen.</p>".to_owned(),
        Some((i, at)) => {
            let label = label_of(&episodes[i]);
            let link = play_link(episodes[i].file_id, label.as_str());
            match at {
                Some(k) => {
                    let n = note(&rows[k].1, now);
                    let span = span_note(n.as_str());
                    let mut out = "<p>▶ Continue: ".to_owned();
                    out.push_str(link.as_str());
                    out.push_str(" ");
                    out.push_str(span.as_str());
                    out.push_str("</p>");
                    out
                },
                None => {
                    let mut out = "<p>▶ Up next: ".to_owned();
                    out.push_str(link.as_str());
                    out.push_str("</p>");
                    out
                },
            }
        },
    }
}

// -------------------------------------------------------- continue watching

/// The most programs that the list shows.
pub const SHOW: usize = 12;

/// A program with recent activity: its row, the item of its file while there
/// is one, and for an episode what was watched of its series and the series'
/// episodes.
#[derive(Debug)]
pub struct Recent {
    pub row: WatchRow,
    pub item: Option<BrowseItem>,
    pub rows: States,
    pub episodes: Vec<BrowseItem>,
}

/// The series of an episode.
pub open spec fn series_of(item: BrowseItem) -> Option<Seq<char>> {
    if item.kind == MediaKind::Tv {
        text::opt_text(item.series)
    } else {
        None
    }
}

pub open spec fn line_of(link: Seq<char>, note_text: Seq<char>) -> Seq<char> {
    "<li>▶ "@ + link + " "@ + note_span(note_text) + "</li>"@
}

fn entry_line(link: &str, note_text: &str) -> (r: String)
    ensures
        r@ == line_of(link@, note_text@),
{
    let mut out = "<li>▶ ".to_owned();
    out.push_str(link);
    out.push_str(" ");
    let part1 = span_note(note_text);
    out.push_str(part1.as_str());
    out.push_str("</li>");
    out
}

pub open spec fn movie_label(item: BrowseItem) -> Seq<char> {
    match item.year {
        Some(y) => item.title@ + " ("@ + text::decimal(y as int) + ")"@,
        None => item.title@,
    }
}

fn labelled(item: &BrowseItem) -> (r: String)
    ensures
        r@ == movie_label(*item),
{
    match item.year {
        Some(y) => {
            let mut out = item.title.clone();
            out.push_str(" (");
            let y = text::dec(y);
            out.push_str(y.as_str());
            out.push_str(")");
            out
        },
        None => item.title.clone(),
    }
}

/// Whether a line is what a program contributes; none is the empty one.
pub open spec fn contributes(s: Seq<char>, r: Recent, now: int) -> bool {
    match r.item {
        None => s == Seq::<char>::empty(),
        Some(item) => if series_of(item) is Some {
            let (eps, rows) = (r.episodes@, r.rows@);
            match next_of(eps, rows) {
                None => s == Seq::<char>::empty(),
                Some((i, Some(k))) => exists|n: Seq<char>|
                    noted(n, rows[k].1, now) && s == #[trigger] line_of(
                        link_to(eps[i].file_id, tree::qualified_episode(eps[i])),
                        n,
                    ),
                Some((i, None)) => s == line_of(
                    link_to(eps[i].file_id, tree::qualified_episode(eps[i])),
                    "up next"@,
                ),
            }
        } else if r.row.underway() {
            exists|n: Seq<char>|
                noted(n, r.row, now) && s == #[trigger] line_of(
                    link_to(item.file_id, movie_label(item)),
                    n,
                )
        } else {
            s == Seq::<char>::empty()
        },
    }
}

fn contribution(r: &Recent, now: i64) -> (s: String)
    requires
        datable(r.row, now as int),
        all_datable(r.rows@, now as int),
    ensures
        contributes(s@, *r, now as int),
{
    match &r.item {
        None => empty(),
        Some(item) => {
            if item.kind == MediaKind::Tv && item.series.is_some() {
                match up_next(&r.episodes, &r.rows) {
                    None => empty(),
                    Some((i, at)) => {
                        let e = &r.episodes[i];
                        let label = tree::recent_tv_title(e);
                        let link = play_link(e.file_id, label.as_str());
                        match at {
                            Some(k) => {
                                let n = note(&r.rows[k].1, now);
                                entry_line(link.as_str(), n.as_str())
                            },
                            None => entry_line(link.as_str(), "up next"),
                        }
                    },
                }
            } else if r.row.in_progress() {
                let label = labelled(item);
                let link = play_link(item.file_id, label.as_str());
                let n = note(&r.row, now);
                entry_line(link.as_str(), n.as_str())
            } else {
                empty()
            }
        },
    }
}

/// The list so far: its lines, and the series that had their turn.
#[verifier::ext_equal]
pub struct Listed {
    pub lines: Seq<Seq<char>>,
    pub done: Seq<Seq<char>>,
}

/// The list after one more program: a series has one turn, however its name is
/// written, and nothing is added once the list is full.
pub open spec fn listed_next(a: Listed, b: Listed, r: Recent, now: int) -> bool {
    if a.lines.len() >= SHOW {
        b == a
    } else {
        match r.item {
            None => b == a,
            Some(item) => match series_of(item) {
                Some(series) => if a.done.contains(text::lowered(series)) {
                    b == a
                } else {
                    b.done == a.done.push(text::lowered(series)) && added(a.lines, b.lines, r, now)
                },
                None => b.done == a.done && added(a.lines, b.lines, r, now),
            },
        }
    }
}

pub open spec fn added(a: Seq<Seq<char>>, b: Seq<Seq<char>>, r: Recent, now: int) -> bool {
    exists|s: Seq<char>|
        #[trigger] contributes(s, r, now) && b == (if s.len() == 0 {
            a
        } else {
            a.push(s)
        })
}

/// Whether a list is what recent programs come to, latest activity first.
pub open spec fn lists(recent: Seq<Recent>, now: int, out: Listed) -> bool
    decreases recent.len(),
{
    if recent.len() == 0 {
        out == (Listed { lines: seq![], done: seq![] })
    } else {
        exists|before: Listed|
            lists(recent.drop_last(), now, before) && #[trigger] listed_next(
                before,
                out,
                recent.last(),
                now,
            )
    }
}

/// The markup of the list.
pub open spec fn continue_of(lines: Seq<Seq<char>>) -> Seq<char> {
    if lines.len() == 0 {
        seq![]
    } else {
        "<h2 style=\"font-size:1.1em;margin:1em 0 .2em\">Continue watching</h2><ul style=\"list-style:none;padding:0;line-height:1.7;margin-top:0\">"@
            + text::joined(lines, ""@) + "</ul>"@
    }
}

/// The home page's "continue watching": programs left part-way, and
/// the episode after each series' latest finished one, latest activity
/// first.
pub fn continue_html(recent: &Vec<Recent>, now: i64) -> (r: String)
    requires
        forall|i: int|
            0 <= i < recent@.len() ==> datable((#[trigger] recent@[i]).row, now as int)
                && all_datable(recent@[i].rows@, now as int),
    ensures
        exists|l: Listed| #[trigger] lists(recent@, now as int, l) && r@ == continue_of(l.lines),
{
    let mut lines: Vec<String> = Vec::new();
    let mut done: Vec<String> = Vec::new();
    let ghost mut state = Listed { lines: seq![], done: seq![] };
    let mut i: usize = 0;
    assert(recent@.take(0) =~= seq![]);
    assert(text::texts(lines@) =~= seq![]);
    assert(text::texts(done@) =~= seq![]);
    while i < recent.len()
        invariant
            i <= recent.len(),
            forall|k: int|
                0 <= k < recent@.len() ==> datable((#[trigger] recent@[k]).row, now as int)
                    && all_datable(recent@[k].rows@, now as int),
            state.lines == text::texts(lines@),
            state.done == text::texts(done@),
            lists(recent@.take(i as int), now as int, state),
        decreases recent.len() - i,
    {
        let ghost before = state;
        let ghost upto = recent@.take(i + 1);
        assert(upto.drop_last() =~= recent@.take(i as int));
        assert(upto.last() == recent@[i as int]);
        let r = &recent[i];
        if lines.len() < SHOW {
            if let Some(item) = &r.item {
                let mut again = false;
                if item.kind == MediaKind::Tv {
                    if let Some(series) = &item.series {
                        let folded = text::to_lowercase(series.as_str());
                        if text::among(&done, folded.as_str()) {
                            again = true;
                        } else {
                            text::push_text(&mut done, folded.as_str());
                        }
                    }
                }
                if !again {
                    let s = contribution(r, now);
                    assert(contributes(s@, *r, now as int));
                    if !s.as_str().is_empty() {
                        text::push_text(&mut lines, s.as_str());
                    }
                    proof {
                        state = Listed { lines: text::texts(lines@), done: text::texts(done@) };
                        assert(added(before.lines, state.lines, *r, now as int));
                    }
                }
            }
        }
        assert(state.lines == text::texts(lines@));
        assert(state.done == text::texts(done@));
        assert(lists(upto.drop_last(), now as int, before));
        assert(listed_next(before, state, upto.last(), now as int));
        assert(lists(upto, now as int, state));
        i += 1;
    }
    assert(recent@.take(i as int) =~= recent@);
    let out = if lines.len() == 0 {
        empty()
    } else {
        let mut out =
            "<h2 style=\"font-size:1.1em;margin:1em 0 .2em\">Continue watching</h2><ul style=\"list-style:none;padding:0;line-height:1.7;margin-top:0\">".to_owned();
        let inner = text::join(&lines, "");
        out.push_str(inner.as_str());
        out.push_str("</ul>");
        out
    };
    assert(out@ == continue_of(state.lines));
    out
}

// ------------------------------------------------------------------- picker

pub const PALETTE: [&'static str; 8] = [
    "#c0392b",
    "#2980b9",
    "#27ae60",
    "#8e44ad",
    "#d35400",
    "#16a085",
    "#7f8c8d",
    "#c2185b",
];

/// A number made of a name's bytes.
pub open spec fn tile_hash(b: Seq<u8>) -> int
    decreases b.len(),
{
    if b.len() == 0 {
        7
    } else {
        (tile_hash(b.drop_last()) * 31 + b.last()) % 0x1_0000_0000
    }
}

/// The colour of a profile's tile.
pub open spec fn colour_of(name: Seq<char>) -> Seq<char> {
    PALETTE@[tile_hash(vstd::utf8::encode_utf8(name)) % 8]@
}

pub fn tile_colour(name: &str) -> (r: &'static str)
    ensures
        r@ == colour_of(name@),
{
    let b = name.as_bytes_vec();
    let mut h: u64 = 7;
    let mut i: usize = 0;
    assert(b@.take(0) =~= seq![]);
    while i < b.len()
        invariant
            i <= b.len(),
            h == tile_hash(b@.take(i as int)),
            h < 0x1_0000_0000,
        decreases b.len() - i,
    {
        assert(b@.take(i + 1).drop_last() =~= b@.take(i as int));
        h = (h * 31 + b[i] as u64) % 0x1_0000_0000;
        i += 1;
    }
    assert(b@.take(i as int) =~= b@);
    PALETTE[(h % 8) as usize]
}

/// The initials of words, in capitals.
pub open spec fn initials_of(words: Seq<Seq<char>>) -> Seq<char>
    decreases words.len(),
{
    if words.len() == 0 {
        seq![]
    } else {
        initials_of(words.drop_last()) + (if words.last().len() > 0 {
            text::uppered(words.last().take(1))
        } else {
            seq![]
        })
    }
}

pub open spec fn first_two(words: Seq<Seq<char>>) -> Seq<Seq<char>> {
    if words.len() > 2 {
        words.take(2)
    } else {
        words
    }
}

/// The initials of the first two words of a name.
pub fn initials(name: &str) -> (r: String)
    ensures
        r@ == initials_of(first_two(text::words_of(name@))),
{
    let words = text::words(name);
    let ghost ws = text::texts(words@);
    let n: usize = if words.len() > 2 {
        2
    } else {
        words.len()
    };
    let mut out = String::new();
    assert(out@ =~= seq![]);
    let mut i: usize = 0;
    assert(ws.take(0) =~= seq![]);
    while i < n
        invariant
            i <= n <= words.len(),
            ws == text::texts(words@),
            out@ == initials_of(ws.take(i as int)),
        decreases n - i,
    {
        assert(ws.take(i + 1).drop_last() =~= ws.take(i as int));
        assert(ws.take(i + 1).last() == words@[i as int]@);
        let v = text::chars_of(words[i].as_str());
        let ghost before = out@;
        if v.len() > 0 {
            let first = text::string_of(&v, 0, 1);
            assert(first@ =~= words@[i as int]@.take(1));
            let up = text::to_uppercase(first.as_str());
            out.push_str(up.as_str());
        } else {
            assert(before + Seq::<char>::empty() =~= before);
        }
        i += 1;
    }
    assert(ws.take(n as int) =~= first_two(ws));
    out
}

pub open spec fn remove_of(name: Seq<char>) -> Seq<char> {
    "<button class=\"x\" formaction=\"/profiles/delete\">Remove "@ + didl::escaped(name) + "</button>"@
}

fn remove_button(name: &str) -> (r: String)
    ensures
        r@ == remove_of(name@),
{
    let mut out = "<button class=\"x\" formaction=\"/profiles/delete\">Remove ".to_owned();
    let part1 = didl::xml_escape(name);
    out.push_str(part1.as_str());
    out.push_str("</button>");
    out
}

/// A profile's tile: a click chooses it. With `manage` it carries a remove
/// button as well.
pub open spec fn tile(id: i64, name: Seq<char>, current: bool, manage: bool) -> Seq<char> {
    "<form method=\"post\" action=\"/profiles/select\"><input type=\"hidden\" name=\"id\" value=\""@
        + text::decimal(id as int) + "\"><button class=\""@ + (if current {
        "tile current"@
    } else {
        "tile"@
    }) + "\" style=\"background:"@ + colour_of(name) + "\" title=\"Watch as "@ + didl::escaped(name)
        + "\">"@ + didl::escaped(initials_of(first_two(text::words_of(name)))) + "</button><span>"@
        + didl::escaped(name) + "</span>"@ + (if manage {
        remove_of(name)
    } else {
        ""@
    }) + "</form>"@
}

fn tile_html(p: &Profile, current: bool, manage: bool) -> (r: String)
    ensures
        r@ == tile(p.id, p.name@, current, manage),
{
    let mut out =
        "<form method=\"post\" action=\"/profiles/select\"><input type=\"hidden\" name=\"id\" value=\"".to_owned();
    let id = text::dec(p.id);
    out.push_str(id.as_str());
    out.push_str("\"><button class=\"");
    out.push_str(if current { "tile current" } else { "tile" });
    out.push_str("\" style=\"background:");
    out.push_str(tile_colour(p.name.as_str()));
    out.push_str("\" title=\"Watch as ");
    let name = didl::xml_escape(p.name.as_str());
    out.push_str(name.as_str());
    out.push_str("\">");
    let ini = initials(p.name.as_str());
    let ini = didl::xml_escape(ini.as_str());
    out.push_str(ini.as_str());
    out.push_str("</button><span>");
    out.push_str(name.as_str());
    out.push_str("</span>");
    let remove = if manage {
        remove_button(p.name.as_str())
    } else {
        "".to_owned()
    };
    out.push_str(remove.as_str());
    out.push_str("</form>");
    out
}

pub open spec fn tiles(ps: Seq<Profile>, current: Option<i64>, manage: bool) -> Seq<char>
    decreases ps.len(),
{
    if ps.len() == 0 {
        "<div class=\"tiles\">"@
    } else {
        tiles(ps.drop_last(), current, manage) + tile(
            ps.last().id,
            ps.last().name@,
            current == Some(ps.last().id),
            manage,
        )
    }
}

pub const ADD_TILE: &'static str =
    "<form method=\"post\" action=\"/profiles/add\"><button class=\"tile add\" title=\"Add a profile\">+</button><input name=\"name\" maxlength=\"40\" placeholder=\"New name\" required aria-label=\"New profile name\"></form></div>";

pub open spec fn picker_of(ps: Seq<Profile>, current: Option<i64>, manage: bool) -> Seq<char> {
    tiles(ps, current, manage) + ADD_TILE@
}

/// The tiles: one per profile (a click chooses it), plus "add". With
/// `manage`, each tile carries a remove button as well.
pub fn picker_html(profiles: &Vec<Profile>, current: Option<i64>, manage: bool) -> (r: String)
    ensures
        r@ == picker_of(profiles@, current, manage),
{
    let mut out = "<div class=\"tiles\">".to_owned();
    let mut i: usize = 0;
    assert(profiles@.take(0) =~= seq![]);
    while i < profiles.len()
        invariant
            i <= profiles.len(),
            out@ == tiles(profiles@.take(i as int), current, manage),
        decreases profiles.len() - i,
    {
        assert(profiles@.take(i + 1).drop_last() =~= profiles@.take(i as int));
        let p = &profiles[i];
        let is_current = match current {
            Some(id) => id == p.id,
            None => false,
        };
        let t = tile_html(p, is_current, manage);
        out.push_str(t.as_str());
        i += 1;
    }
    assert(profiles@.take(i as int) =~= profiles@);
    out.push_str(ADD_TILE);
    out
}

/// The home page's picker, for a visitor without a profile.
pub fn home_picker_html(profiles: &Vec<Profile>) -> (r: String)
    ensures
        r@ == "<h2 style=\"font-size:1.1em;margin:1em 0 0\">Who's watching?</h2>"@ + picker_of(
            profiles@,
            None,
            false,
        ),
{
    let mut out = "<h2 style=\"font-size:1.1em;margin:1em 0 0\">Who's watching?</h2>".to_owned();
    let tiles = picker_html(profiles, None, false);
    out.push_str(tiles.as_str());
    out
}

pub open spec fn error_of(e: Seq<char>) -> Seq<char> {
    "<p class=\"err\">"@ + didl::escaped(e) + "</p>"@
}

fn error_line(e: &str) -> (r: String)
    ensures
        r@ == error_of(e@),
{
    let mut out = "<p class=\"err\">".to_owned();
    let part1 = didl::xml_escape(e);
    out.push_str(part1.as_str());
    out.push_str("</p>");
    out
}

pub open spec fn signed_in_of(name: Seq<char>) -> Seq<char> {
    "<form method=\"post\" action=\"/profiles/leave\" style=\"margin-top:1.5em;color:#666\">Watching as <strong>"@
        + didl::escaped(name) + "</strong>. <button>Forget on this browser</button></form>"@
}

fn signed_in_form(name: &str) -> (r: String)
    ensures
        r@ == signed_in_of(name@),
{
    let mut out = "<form method=\"post\" action=\"/profiles/leave\" style=\"margin-top:1.5em;color:#666\">Watching as <strong>".to_owned();
    let part1 = didl::xml_escape(name);
    out.push_str(part1.as_str());
    out.push_str("</strong>. <button>Forget on this browser</button></form>");
    out
}

pub open spec fn intro_of(none: bool) -> Seq<char> {
    if none {
        "<p>Add a name to keep track of what you've watched and where you left off. No password — this is a household server.</p>"@
    } else {
        "<p>Pick yourself to keep track of what you've watched and where you left off.</p>"@
    }
}

pub open spec fn manage_of(manage: bool, none: bool) -> Seq<char> {
    if manage {
        "<p><a href=\"/profiles\">Done removing</a></p>"@
    } else if none {
        ""@
    } else {
        "<p><a href=\"/profiles?manage=1\" style=\"color:#666\">Remove a profile…</a></p>"@
    }
}

/// The "who's watching?" page.
pub open spec fn picker_page_of(
    ps: Seq<Profile>,
    current: Option<(i64, Seq<char>)>,
    manage: bool,
    error: Option<Seq<char>>,
) -> Seq<char> {
    page::head("Who's watching?"@, PROFILES_STYLE@)
       
            + "<body><p><a href=\"/\" class=\"home\" title=\"Home\" aria-label=\"Home\">⌂</a></p><h1>Who's watching?</h1>"@
        + intro_of(ps.len() == 0) + (match error {
        Some(e) => error_of(e),
        None => ""@,
    }) + picker_of(
        ps,
        match current {
            Some((id, _)) => Some(id),
            None => None,
        },
        manage,
    ) + manage_of(manage, ps.len() == 0) + (match current {
        Some((_, name)) => signed_in_of(name),
        None => ""@,
    }) + PAGE_CLOSE@
}

pub fn picker_page(
    profiles: &Vec<Profile>,
    current: Option<&Profile>,
    manage: bool,
    error: Option<&str>,
) -> (r: String)
    ensures
        r@ == picker_page_of(
            profiles@,
            match current {
                Some(p) => Some((p.id, p.name@)),
                None => None,
            },
            manage,
            profiles::opt_str(error),
        ),
{
    let none = profiles.len() == 0;
    let mut out = page::page_head("Who's watching?", PROFILES_STYLE);
    out.push_str(
        "<body><p><a href=\"/\" class=\"home\" title=\"Home\" aria-label=\"Home\">⌂</a></p><h1>Who's watching?</h1>",
    );
    out.push_str(
        if none {
            "<p>Add a name to keep track of what you've watched and where you left off. No password — this is a household server.</p>"
        } else {
            "<p>Pick yourself to keep track of what you've watched and where you left off.</p>"
        },
    );
    let error_text = match error {
        Some(e) => error_line(e),
        None => "".to_owned(),
    };
    out.push_str(error_text.as_str());
    let id: Option<i64> = match current {
        Some(p) => Some(p.id),
        None => None,
    };
    let tiles_text = picker_html(profiles, id, manage);
    out.push_str(tiles_text.as_str());
    out.push_str(
        if manage {
            "<p><a href=\"/profiles\">Done removing</a></p>"
        } else if none {
            ""
        } else {
            "<p><a href=\"/profiles?manage=1\" style=\"color:#666\">Remove a profile…</a></p>"
        },
    );
    let signed = match current {
        Some(p) => signed_in_form(p.name.as_str()),
        None => "".to_owned(),
    };
    out.push_str(signed.as_str());
    out.push_str(PAGE_CLOSE);
    out
}

// -------------------------------------------------------------------- laws

/// A series has one line however often it turns up among recent programs, and
/// the list never grows past what is shown.
pub proof fn the_list_is_bounded(recent: Seq<Recent>, now: int, out: Listed)
    requires
        lists(recent, now, out),
    ensures
        out.lines.len() <= SHOW,
    decreases recent.len(),
{
    if recent.len() > 0 {
        let before = choose|before: Listed|
            lists(recent.drop_last(), now, before) && #[trigger] listed_next(
                before,
                out,
                recent.last(),
                now,
            );
        the_list_is_bounded(recent.drop_last(), now, before);
    }
}

/// What is offered next is never an episode that was seen, unless it is being
/// watched again.
pub proof fn seen_episodes_are_not_offered(eps: Seq<BrowseItem>, rows: Seq<(String, WatchRow)>)
    ensures
        next_of(eps, rows) matches Some((i, at)) ==> 0 <= i < eps.len() && (!seen(eps[i], rows) || (
        at matches Some(r) && rows[r].1.underway())),
{
    lemma_latest(eps, rows);
    if let Some((i, r)) = latest(eps, rows) {
        lemma_unseen(eps, rows, i + 1);
    }
}

proof fn lemma_unseen(eps: Seq<BrowseItem>, rows: Seq<(String, WatchRow)>, i: int)
    requires
        0 <= i,
    ensures
        first_unseen(eps, rows, i) matches Some(k) ==> i <= k < eps.len() && !seen(eps[k], rows),
    decreases eps.len() - i,
{
    if i < eps.len() && seen(eps[i], rows) {
        lemma_unseen(eps, rows, i + 1);
    }
}

/// Row `k` is the one of an episode.
pub open spec fn is_row_of(e: BrowseItem, rows: Seq<(String, WatchRow)>, k: int) -> bool {
    &&& 0 <= k < rows.len()
    &&& profiles::key_of_item(e) is Some
    &&& rows[k].0@ == profiles::key_of_item(e)->Some_0
}

/// Whether an episode was seen to its end.
pub open spec fn watched_to_the_end(e: BrowseItem, rows: Seq<(String, WatchRow)>) -> bool {
    exists|k: int| #[trigger] is_row_of(e, rows, k) && rows[k].1.watched
}

/// No program has two rows.
pub open spec fn one_row_each(rows: Seq<(String, WatchRow)>) -> bool {
    forall|i: int, j: int|
        0 <= i < j < rows.len() ==> (#[trigger] rows[i]).0@ != (#[trigger] rows[j]).0@
}

proof fn lemma_episode_row(e: BrowseItem, rows: Seq<(String, WatchRow)>)
    requires
        one_row_each(rows),
    ensures
        forall|k: int| #[trigger] is_row_of(e, rows, k) <==> episode_row(e, rows) == Some(k),
{
    if let Some(key) = profiles::key_of_item(e) {
        lemma_row_is(rows, key);
        assert forall|k: int| #[trigger] is_row_of(e, rows, k) implies episode_row(e, rows) == Some(
            k,
        ) by {
            let m = row_of(rows, key)->Some_0;
            if m < k {
                assert(rows[m].0@ != rows[k].0@);
            } else if k < m {
                assert(rows[k].0@ != rows[m].0@);
            }
        }
    }
}

proof fn lemma_row_is(rows: Seq<(String, WatchRow)>, key: Seq<char>)
    ensures
        match row_of(rows, key) {
            Some(k) => 0 <= k < rows.len() && rows[k].0@ == key,
            None => forall|k: int| 0 <= k < rows.len() ==> (#[trigger] rows[k]).0@ != key,
        },
    decreases rows.len(),
{
    if rows.len() > 0 && rows.last().0@ != key {
        let head = rows.drop_last();
        lemma_row_is(head, key);
        assert forall|k: int| 0 <= k < head.len() implies head[k] == rows[k] by {}
    }
}

proof fn lemma_latest_is(eps: Seq<BrowseItem>, rows: Seq<(String, WatchRow)>, i: int, r: int)
    requires
        one_row_each(rows),
        0 <= i < eps.len(),
        is_row_of(eps[i], rows, r),
        forall|j: int, k: int|
            0 <= j < eps.len() && j != i && #[trigger] is_row_of(eps[j], rows, k)
                ==> rows[k].1.updated_at < rows[r].1.updated_at || (j < i && rows[k].1.updated_at
                == rows[r].1.updated_at),
    ensures
        latest(eps, rows) == Some((i, r)),
    decreases eps.len(),
{
    let n = eps.len() - 1;
    let head = eps.drop_last();
    lemma_episode_row(eps[n], rows);
    lemma_episode_row(eps[i], rows);
    if i < n {
        assert forall|j: int, k: int|
            0 <= j < head.len() && j != i && #[trigger] is_row_of(head[j], rows, k) implies (
        rows[k].1.updated_at < rows[r].1.updated_at || (j < i && rows[k].1.updated_at
            == rows[r].1.updated_at)) by {
            assert(is_row_of(eps[j], rows, k));
        }
        lemma_latest_is(head, rows, i, r);
        if let Some(k) = episode_row(eps[n], rows) {
            assert(is_row_of(eps[n], rows, k));
        }
    } else {
        lemma_latest(head, rows);
        if let Some((a, b)) = latest(head, rows) {
            lemma_episode_row(head[a], rows);
            assert(is_row_of(eps[a], rows, b));
        }
    }
}

/// A viewer goes on from the episode with the latest activity; of several that
/// are equally late, from the last in series order. Where it was left part-way
/// it is resumed. Where it was not, the first episode behind it that was not
/// seen to its end comes next, and none where all were.
pub proof fn the_latest_activity_is_gone_on_from(
    eps: Seq<BrowseItem>,
    rows: Seq<(String, WatchRow)>,
    i: int,
    r: int,
    next: int,
)
    requires
        one_row_each(rows),
        0 <= i < eps.len(),
        is_row_of(eps[i], rows, r),
        forall|j: int, k: int|
            0 <= j < eps.len() && j != i && #[trigger] is_row_of(eps[j], rows, k)
                ==> rows[k].1.updated_at < rows[r].1.updated_at || (j < i && rows[k].1.updated_at
                == rows[r].1.updated_at),
        i < next <= eps.len(),
        forall|j: int| i < j < next ==> watched_to_the_end(#[trigger] eps[j], rows),
        next < eps.len() ==> !watched_to_the_end(eps[next], rows),
    ensures
        rows[r].1.position_ms > 0 ==> next_of(eps, rows) == Some((i, Some(r))),
        rows[r].1.position_ms <= 0 && next < eps.len() ==> next_of(eps, rows) == Some(
            (next, None::<int>),
        ),
        rows[r].1.position_ms <= 0 && next == eps.len() ==> next_of(eps, rows) is None,
{
    lemma_latest_is(eps, rows, i, r);
    lemma_first_unseen(eps, rows, i + 1, next);
}

proof fn lemma_first_unseen(
    eps: Seq<BrowseItem>,
    rows: Seq<(String, WatchRow)>,
    from: int,
    next: int,
)
    requires
        one_row_each(rows),
        0 <= from <= next <= eps.len(),
        forall|j: int| from <= j < next ==> watched_to_the_end(#[trigger] eps[j], rows),
        next < eps.len() ==> !watched_to_the_end(eps[next], rows),
    ensures
        first_unseen(eps, rows, from) == (if next < eps.len() {
            Some(next)
        } else {
            None
        }),
    decreases next - from,
{
    if from < eps.len() {
        lemma_episode_row(eps[from], rows);
        if from < next {
            assert(watched_to_the_end(eps[from], rows));
            lemma_first_unseen(eps, rows, from + 1, next);
        } else if let Some(k) = episode_row(eps[from], rows) {
            assert(is_row_of(eps[from], rows, k));
        }
    }
}

/// Of a series that the viewer has not begun, nothing comes next.
pub proof fn nothing_begun_has_no_next(eps: Seq<BrowseItem>, rows: Seq<(String, WatchRow)>)
    requires
        one_row_each(rows),
        forall|j: int, k: int| 0 <= j < eps.len() ==> !#[trigger] is_row_of(eps[j], rows, k),
    ensures
        next_of(eps, rows) is None,
{
    lemma_latest(eps, rows);
    if let Some((i, r)) = latest(eps, rows) {
        lemma_episode_row(eps[i], rows);
        assert(is_row_of(eps[i], rows, r));
    }
}

/// A clock shows whole seconds, minutes and hours; hours only where there is
/// one.
pub proof fn clocks_show_the_time(h: int, m: int, s: int, rest: int)
    requires
        0 <= h,
        0 <= m < 60,
        0 <= s < 60,
        0 <= rest < 1000,
    ensures
        clock_of(((h * 60 + m) * 60 + s) * 1000 + rest) == (if h > 0 {
            text::decimal(h) + ":"@ + text::padded(m, 2) + ":"@ + text::padded(s, 2)
        } else {
            text::decimal(m) + ":"@ + text::padded(s, 2)
        }),
{
    let secs = (h * 60 + m) * 60 + s;
    let ms = secs * 1000 + rest;
    assert(ms / 1000 == secs);
    if h > 0 {
        assert(secs / 3600 == h);
        assert((secs % 3600) / 60 == m);
        assert(secs % 60 == s);
    } else {
        assert(secs / 60 == m);
        assert(secs % 60 == s);
    }
}

/// A program left part-way is noted with the time that is left of it, or where
/// it was left where its length is not known to exceed that; one that is not
/// under way is noted as watched, or not at all.
pub proof fn notes_tell_how_far(s: Seq<char>, row: WatchRow, now: int)
    requires
        noted(s, row, now),
    ensures
        row.position_ms > 0 && row.duration_ms is Some && row.duration_ms->Some_0 > row.position_ms
            ==> text::begins(
            s,
            clock_of(row.duration_ms->Some_0 - row.position_ms) + " left · "@,
        ),
        row.position_ms > 0 && (row.duration_ms is None || row.duration_ms->Some_0
            <= row.position_ms) ==> text::begins(
            s,
            "at "@ + clock_of(row.position_ms as int) + " · "@,
        ),
        row.position_ms <= 0 && row.watched ==> text::begins(s, "watched "@),
        row.position_ms <= 0 && !row.watched ==> s.len() == 0,
{
    reveal_strlit(" left · ");
    reveal_strlit(" left");
    reveal_strlit(" · ");
    assert(" left · "@ =~= " left"@ + " · "@);
    if row.underway() {
        let w = choose|w: Seq<char>|
            #[trigger] profiles::told_when(w, now, row.updated_at as int) && s == left_of(row)
                + " · "@ + w;
        let p = left_of(row) + " · "@;
        assert(s.subrange(0, p.len() as int) =~= p);
        if row.duration_ms is Some && row.duration_ms->Some_0 > row.position_ms {
            let c = clock_of(row.duration_ms->Some_0 - row.position_ms);
            assert(p =~= c + " left · "@);
        }
    } else if row.watched {
        let w = choose|w: Seq<char>|
            #[trigger] profiles::told_when(w, now, row.updated_at as int) && s == "watched "@ + w;
        assert(s.subrange(0, "watched "@.len() as int) =~= "watched "@);
    }
}

/// A film that was left part-way is on the list, where it is among the latest
/// twelve programs.
pub proof fn films_underway_are_listed(recent: Seq<Recent>, now: int, out: Listed, i: int)
    requires
        lists(recent, now, out),
        0 <= i < recent.len(),
        i < 12,
        recent[i].item is Some,
        recent[i].item->Some_0.kind != MediaKind::Tv,
        recent[i].row.position_ms > 0,
    ensures
        exists|p: int|
            0 <= p < out.lines.len() && p <= i && text::begins(
                #[trigger] out.lines[p],
                "<li>▶ "@ + link_to(
                    recent[i].item->Some_0.file_id,
                    movie_label(recent[i].item->Some_0),
                ),
            ),
    decreases recent.len(),
{
    let before = choose|before: Listed|
        lists(recent.drop_last(), now, before) && #[trigger] listed_next(
            before,
            out,
            recent.last(),
            now,
        );
    let item = recent[i].item->Some_0;
    let front = "<li>▶ "@ + link_to(item.file_id, movie_label(item));
    if i < recent.len() - 1 {
        assert(recent.drop_last()[i] == recent[i]);
        films_underway_are_listed(recent.drop_last(), now, before, i);
        let p = choose|p: int|
            0 <= p < before.lines.len() && p <= i && text::begins(
                #[trigger] before.lines[p],
                front,
            );
        assert(out.lines[p] == before.lines[p]);
    } else {
        lemma_listed_len(recent.drop_last(), now, before);
        let s = choose|s: Seq<char>|
            #[trigger] contributes(s, recent[i], now) && out.lines == (if s.len() == 0 {
                before.lines
            } else {
                before.lines.push(s)
            });
        let n = choose|n: Seq<char>|
            noted(n, recent[i].row, now) && s == #[trigger] line_of(
                link_to(item.file_id, movie_label(item)),
                n,
            );
        reveal_strlit("<li>▶ ");
        assert(s.subrange(0, front.len() as int) =~= front);
        assert(out.lines[before.lines.len() as int] == s);
    }
}

proof fn lemma_listed_len(recent: Seq<Recent>, now: int, out: Listed)
    requires
        lists(recent, now, out),
    ensures
        out.lines.len() <= recent.len(),
    decreases recent.len(),
{
    if recent.len() > 0 {
        let before = choose|before: Listed|
            lists(recent.drop_last(), now, before) && #[trigger] listed_next(
                before,
                out,
                recent.last(),
                now,
            );
        lemma_listed_len(recent.drop_last(), now, before);
    }
}

} // verus!
