//! Skippable-segment discovery for video files: recognizably named
//! chapter markers, and Kodi-style .edl sidecars (comskip output).
use vstd::prelude::*;
use crate::db::models::{Segment, SegmentKind};
use crate::order;
use crate::text;

verus! {

/// A chapter marker from the container, times in ms. Title is empty when
/// the chapter is unnamed.
#[derive(Debug)]
pub struct Chapter {
    pub start_ms: i64,
    pub end_ms: i64,
    pub title: String,
}

/// What a chapter title marks, if anything. Recap is matched first
/// ("Previously on…"), then intro before credits so "Opening Credits"
/// lands as the intro it is.
pub open spec fn kind_marked(title: Seq<char>) -> Option<SegmentKind> {
    let t = text::lowered(text::trimmed(title));
    if text::holds(t, "recap"@) || text::holds(t, "previously"@) {
        Some(SegmentKind::Recap)
    } else if text::holds(t, "intro"@) || text::holds(t, "opening"@) || text::holds(
        t,
        "main title"@,
    ) || text::holds(t, "title sequence"@) || t == "op"@ {
        Some(SegmentKind::Intro)
    } else if text::holds(t, "credit"@) || text::holds(t, "ending"@) || text::holds(t, "outro"@)
        || t == "ed"@ {
        Some(SegmentKind::Credits)
    } else {
        None
    }
}

pub fn classify(title: &str) -> (r: Option<SegmentKind>)
    ensures
        r == kind_marked(title@),
{
    let t = text::trim(title);
    let t = text::to_lowercase(t.as_str());
    let t = t.as_str();
    if text::contains(t, "recap") || text::contains(t, "previously") {
        Some(SegmentKind::Recap)
    } else if text::contains(t, "intro") || text::contains(t, "opening") || text::contains(
        t,
        "main title",
    ) || text::contains(t, "title sequence") || text::same(t, "op") {
        Some(SegmentKind::Intro)
    } else if text::contains(t, "credit") || text::contains(t, "ending") || text::contains(
        t,
        "outro",
    ) || text::same(t, "ed") {
        Some(SegmentKind::Credits)
    } else {
        None
    }
}

/// Cap on what a chapter marker may claim as skippable: real files carry
/// garbage chapter tables (a recognizably named chapter spanning the
/// whole episode), and skipping such a "segment" jumps to the end. A
/// span longer than this, or than half the file, is not an intro or
/// credits — discard it, which also leaves the file open for the audio
/// detector to have a say.
pub const MAX_CHAPTER_SEGMENT_MS: i64 = 900_000;

/// The segment that a chapter marks, if it marks one.
pub open spec fn marked(c: Chapter, duration_ms: Option<i64>) -> Option<Segment> {
    let len = c.end_ms - c.start_ms;
    if c.start_ms >= 0 && 0 < len <= MAX_CHAPTER_SEGMENT_MS && !(duration_ms matches Some(d)
        && len * 2 > d) {
        match kind_marked(c.title@) {
            Some(kind) => Some(Segment { kind, start_ms: c.start_ms, end_ms: c.end_ms }),
            None => None,
        }
    } else {
        None
    }
}

/// The segments that chapters mark, in order.
pub open spec fn all_marked(chapters: Seq<Chapter>, duration_ms: Option<i64>) -> Seq<Segment>
    decreases chapters.len(),
{
    if chapters.len() == 0 {
        seq![]
    } else {
        let head = all_marked(chapters.drop_last(), duration_ms);
        match marked(chapters.last(), duration_ms) {
            Some(s) => head.push(s),
            None => head,
        }
    }
}

pub fn from_chapters(chapters: &Vec<Chapter>, duration_ms: Option<i64>) -> (r: Vec<Segment>)
    ensures
        r@ == all_marked(chapters@, duration_ms),
{
    let mut out: Vec<Segment> = Vec::new();
    let mut i: usize = 0;
    assert(chapters@.take(0) =~= seq![]);
    while i < chapters.len()
        invariant
            i <= chapters.len(),
            out@ == all_marked(chapters@.take(i as int), duration_ms),
        decreases chapters.len() - i,
    {
        assert(chapters@.take(i + 1).drop_last() =~= chapters@.take(i as int));
        let c = &chapters[i];
        if c.end_ms > c.start_ms && c.start_ms >= 0 {
            let len: i64 = c.end_ms - c.start_ms;
            let whole = match duration_ms {
                Some(d) => len <= MAX_CHAPTER_SEGMENT_MS && len * 2 > d,
                None => false,
            };
            if len <= MAX_CHAPTER_SEGMENT_MS && !whole {
                if let Some(kind) = classify(c.title.as_str()) {
                    out.push(Segment { kind, start_ms: c.start_ms, end_ms: c.end_ms });
                }
            }
        }
        i += 1;
    }
    assert(chapters@.take(i as int) =~= chapters@);
    out
}

// --------------------------------------------------------------------- edl

/// The fields of a line of an EDL: start, stop, and the action where one is
/// given.
#[derive(Debug)]
pub struct EdlLine {
    pub start: String,
    pub stop: String,
    pub action: Option<String>,
}

pub open spec fn line_fields(raw: Seq<char>) -> Option<(Seq<char>, Seq<char>, Option<Seq<char>>)> {
    let line = text::trimmed(raw);
    let words = text::words_of(line);
    if line.len() == 0 || text::begins(line, "#"@) || words.len() < 2 {
        None
    } else {
        Some(
            (
                words[0],
                words[1],
                if words.len() > 2 {
                    Some(words[2])
                } else {
                    None
                },
            ),
        )
    }
}

/// Kodi-style EDL: one "start stop action" line per segment, seconds
/// (fractional allowed), '#' comments.
pub fn edl_line(raw: &str) -> (r: Option<EdlLine>)
    ensures
        (match r {
            Some(l) => Some((l.start@, l.stop@, text::opt_text(l.action))),
            None => None,
        }) == line_fields(raw@),
{
    let line = text::trim(raw);
    if line.as_str().is_empty() || text::starts_with(line.as_str(), "#") {
        return None;
    }
    let words = text::words(line.as_str());
    let ghost ws = text::texts(words@);
    assert(ws.len() == words@.len());
    if words.len() < 2 {
        return None;
    }
    assert(ws[0] == words@[0]@ && ws[1] == words@[1]@);
    let action = if words.len() > 2 {
        assert(ws[2] == words@[2]@);
        Some(words[2].clone())
    } else {
        None
    };
    Some(EdlLine { start: words[0].clone(), stop: words[1].clone(), action })
}

/// A line of an EDL in numbers: milliseconds, and the action.
#[derive(Debug, Clone, Copy, PartialEq, Eq, Structural)]
pub struct EdlEntry {
    pub start_ms: i64,
    pub end_ms: i64,
    pub action: i64,
}

/// The segment that an entry stands for, if it stands for one. Cut (0) and
/// commercial-break (3) lines are skippable; mute (1) and scene markers (2)
/// are not. EDL carries no intro/credits notion, so the kind is inferred from
/// position: reaching the file's tail = credits, starting within the
/// first five minutes = intro, anything else a commercial break.
pub open spec fn entry_segment(e: EdlEntry, duration_ms: Option<i64>) -> Option<Segment> {
    if (e.action != 0 && e.action != 3) || e.start_ms < 0 || e.end_ms <= e.start_ms {
        None
    } else {
        Some(
            Segment {
                kind: if duration_ms matches Some(d) && e.end_ms >= d - 10_000 {
                    SegmentKind::Credits
                } else if e.start_ms <= 300_000 {
                    SegmentKind::Intro
                } else {
                    SegmentKind::Commercial
                },
                start_ms: e.start_ms,
                end_ms: e.end_ms,
            },
        )
    }
}

pub open spec fn entry_segments(entries: Seq<EdlEntry>, duration_ms: Option<i64>) -> Seq<Segment>
    decreases entries.len(),
{
    if entries.len() == 0 {
        seq![]
    } else {
        let head = entry_segments(entries.drop_last(), duration_ms);
        match entry_segment(entries.last(), duration_ms) {
            Some(s) => head.push(s),
            None => head,
        }
    }
}

pub open spec fn begin_times(s: Seq<Segment>) -> Seq<i64> {
    Seq::new(s.len(), |i: int| s[i].start_ms)
}

/// `r` holds the segments of `s` by their start; equal starts keep their
/// order.
pub open spec fn by_start(r: Seq<Segment>, s: Seq<Segment>) -> bool {
    exists|o: Seq<usize>|
        order::sorts_numbers(o, begin_times(s), s.len() as int) && r == #[trigger] in_order(s, o)
}

pub open spec fn in_order(s: Seq<Segment>, o: Seq<usize>) -> Seq<Segment> {
    Seq::new(o.len(), |i: int| s[o[i] as int])
}

/// The segments of an EDL, by their start.
pub fn edl_segments(entries: &Vec<EdlEntry>, duration_ms: Option<i64>) -> (r: Vec<Segment>)
    requires
        duration_ms matches Some(d) ==> d >= i64::MIN + 10_000,
    ensures
        by_start(r@, entry_segments(entries@, duration_ms)),
{
    let mut found: Vec<Segment> = Vec::new();
    let mut keys: Vec<i64> = Vec::new();
    let mut i: usize = 0;
    assert(entries@.take(0) =~= seq![]);
    while i < entries.len()
        invariant
            i <= entries.len(),
            duration_ms matches Some(d) ==> d >= i64::MIN + 10_000,
            found@ == entry_segments(entries@.take(i as int), duration_ms),
            keys@ == begin_times(found@),
        decreases entries.len() - i,
    {
        assert(entries@.take(i + 1).drop_last() =~= entries@.take(i as int));
        let e = entries[i];
        if (e.action == 0 || e.action == 3) && e.start_ms >= 0 && e.end_ms > e.start_ms {
            let tail = match duration_ms {
                Some(d) => e.end_ms >= d - 10_000,
                None => false,
            };
            let kind = if tail {
                SegmentKind::Credits
            } else if e.start_ms <= 300_000 {
                SegmentKind::Intro
            } else {
                SegmentKind::Commercial
            };
            found.push(Segment { kind, start_ms: e.start_ms, end_ms: e.end_ms });
            keys.push(e.start_ms);
            assert(keys@ =~= begin_times(found@));
        }
        i += 1;
    }
    assert(entries@.take(i as int) =~= entries@);
    let o = order::sorted_numbers(&keys);
    let mut out: Vec<Segment> = Vec::new();
    let mut k: usize = 0;
    while k < o.len()
        invariant
            k <= o.len(),
            keys@ == begin_times(found@),
            order::sorts_numbers(o@, keys@, keys@.len() as int),
            out@ == in_order(found@, o@).take(k as int),
        decreases o.len() - k,
    {
        assert(0 <= o@[k as int] < keys@.len());
        out.push(found[o[k]]);
        k += 1;
        assert(out@ =~= in_order(found@, o@).take(k as int));
    }
    assert(out@ =~= in_order(found@, o@));
    out
}

/// What discovery takes its segments from, best first: the .edl sidecar when
/// one exists (deliberate, usually tool- or hand-written — even an empty one
/// silences chapter guesses), else named chapter markers. Returns the
/// source tag stored beside the segments.
pub fn discover(edl: Option<&Vec<EdlEntry>>, duration_ms: Option<i64>, chapters: &Vec<Chapter>) -> (r:
    (&'static str, Vec<Segment>))
    requires
        duration_ms matches Some(d) ==> d >= i64::MIN + 10_000,
    ensures
        match edl {
            Some(entries) => r.0@ == "edl"@ && by_start(
                r.1@,
                entry_segments(entries@, duration_ms),
            ),
            None => r.0@ == "chapters"@ && r.1@ == all_marked(chapters@, duration_ms),
        },
{
    match edl {
        Some(entries) => ("edl", edl_segments(entries, duration_ms)),
        None => ("chapters", from_chapters(chapters, duration_ms)),
    }
}

// -------------------------------------------------------------------- laws

/// No chapter becomes a skip to the end: what a chapter marks is a stretch of
/// at most a quarter of an hour and at most half the file.
pub proof fn chapter_segments_are_short(chapters: Seq<Chapter>, duration_ms: Option<i64>)
    ensures
        forall|i: int|
            0 <= i < all_marked(chapters, duration_ms).len() ==> {
                let s = #[trigger] all_marked(chapters, duration_ms)[i];
                &&& 0 <= s.start_ms < s.end_ms
                &&& s.end_ms - s.start_ms <= MAX_CHAPTER_SEGMENT_MS
                &&& duration_ms matches Some(d) ==> (s.end_ms - s.start_ms) * 2 <= d
            },
    decreases chapters.len(),
{
    if chapters.len() > 0 {
        chapter_segments_are_short(chapters.drop_last(), duration_ms);
    }
}

/// Without a known duration an EDL never claims credits.
pub proof fn credits_need_a_duration(entries: Seq<EdlEntry>)
    ensures
        forall|i: int|
            0 <= i < entry_segments(entries, None).len() ==> (#[trigger] entry_segments(
                entries,
                None,
            )[i]).kind != SegmentKind::Credits,
    decreases entries.len(),
{
    if entries.len() > 0 {
        credits_need_a_duration(entries.drop_last());
    }
}

/// What a chapter's title marks: a recap where it speaks of one; else an intro
/// where it speaks of an opening or a title; else credits where it speaks of
/// credits or an ending; else nothing.
pub proof fn titles_mark_what_they_say(title: Seq<char>)
    ensures
        ({
            let t = text::lowered(text::trimmed(title));
            let recap = text::holds(t, "recap"@) || text::holds(t, "previously"@);
            let intro = text::holds(t, "intro"@) || text::holds(t, "opening"@) || text::holds(
                t,
                "main title"@,
            ) || text::holds(t, "title sequence"@) || t == "op"@;
            let credits = text::holds(t, "credit"@) || text::holds(t, "ending"@) || text::holds(
                t,
                "outro"@,
            ) || t == "ed"@;
            &&& recap <==> kind_marked(title) == Some(SegmentKind::Recap)
            &&& intro && !recap <==> kind_marked(title) == Some(SegmentKind::Intro)
            &&& credits && !intro && !recap <==> kind_marked(title) == Some(SegmentKind::Credits)
            &&& !credits && !intro && !recap <==> kind_marked(title) is None
        }),
{
}

/// A chapter that marks something and is of a length that can be skipped.
pub open spec fn skippable(c: Chapter, duration_ms: Option<i64>) -> bool {
    &&& kind_marked(c.title@) is Some
    &&& 0 <= c.start_ms < c.end_ms
    &&& c.end_ms - c.start_ms <= 15 * 60 * 1000
    &&& duration_ms is Some ==> 2 * (c.end_ms - c.start_ms) <= duration_ms->Some_0
}

/// The segments that chapters mark are those of the skippable ones, each where
/// its chapter is, in order.
pub proof fn skippable_chapters_are_segments(chapters: Seq<Chapter>, duration_ms: Option<i64>)
    ensures
        all_marked(chapters, duration_ms) == chapters.filter(
            |c: Chapter| skippable(c, duration_ms),
        ).map_values(
            |c: Chapter|
                Segment {
                    kind: kind_marked(c.title@)->Some_0,
                    start_ms: c.start_ms,
                    end_ms: c.end_ms,
                },
        ),
    decreases chapters.len(),
{
    reveal(Seq::filter);
    let f = |c: Chapter|
        Segment { kind: kind_marked(c.title@)->Some_0, start_ms: c.start_ms, end_ms: c.end_ms };
    let p = |c: Chapter| skippable(c, duration_ms);
    if chapters.len() > 0 {
        let head = chapters.drop_last();
        skippable_chapters_are_segments(head, duration_ms);
        if skippable(chapters.last(), duration_ms) {
            assert(chapters.filter(p).map_values(f) =~= head.filter(p).map_values(f).push(
                f(chapters.last()),
            ));
        } else {
            assert(chapters.filter(p) == head.filter(p));
        }
    } else {
        assert(all_marked(chapters, duration_ms) =~= chapters.filter(p).map_values(f));
    }
}

/// An entry of an EDL that cuts something out of the file.
pub open spec fn cuts(e: EdlEntry) -> bool {
    (e.action == 0 || e.action == 3) && 0 <= e.start_ms < e.end_ms
}

/// What a cut is: credits where it reaches the last ten seconds of the file,
/// else an intro where it begins in the first five minutes, else a break.
pub open spec fn cut_kind(e: EdlEntry, duration_ms: Option<i64>) -> SegmentKind {
    if duration_ms is Some && duration_ms->Some_0 - e.end_ms <= 10 * 1000 {
        SegmentKind::Credits
    } else if e.start_ms <= 5 * 60 * 1000 {
        SegmentKind::Intro
    } else {
        SegmentKind::Commercial
    }
}

/// The segments of an EDL are its cuts.
pub proof fn cuts_are_segments(entries: Seq<EdlEntry>, duration_ms: Option<i64>)
    ensures
        entry_segments(entries, duration_ms) == entries.filter(|e: EdlEntry| cuts(e)).map_values(
            |e: EdlEntry|
                Segment {
                    kind: cut_kind(e, duration_ms),
                    start_ms: e.start_ms,
                    end_ms: e.end_ms,
                },
        ),
    decreases entries.len(),
{
    reveal(Seq::filter);
    let f = |e: EdlEntry|
        Segment { kind: cut_kind(e, duration_ms), start_ms: e.start_ms, end_ms: e.end_ms };
    let p = |e: EdlEntry| cuts(e);
    if entries.len() > 0 {
        let head = entries.drop_last();
        cuts_are_segments(head, duration_ms);
        if cuts(entries.last()) {
            assert(entries.filter(p).map_values(f) =~= head.filter(p).map_values(f).push(
                f(entries.last()),
            ));
        } else {
            assert(entries.filter(p) == head.filter(p));
        }
    } else {
        assert(entry_segments(entries, duration_ms) =~= entries.filter(p).map_values(f));
    }
}

/// Segments that were put in order are the same ones, none before one that
/// starts earlier.
pub proof fn ordered_segments_start_in_turn(r: Seq<Segment>, s: Seq<Segment>)
    requires
        by_start(r, s),
    ensures
        r.len() == s.len(),
        forall|i: int, j: int|
            0 <= i < j < r.len() ==> (#[trigger] r[i]).start_ms <= (#[trigger] r[j]).start_ms,
        forall|i: int| 0 <= i < s.len() ==> r.contains(#[trigger] s[i]),
        forall|i: int| 0 <= i < r.len() ==> s.contains(#[trigger] r[i]),
{
    let o = choose|o: Seq<usize>|
        order::sorts_numbers(o, begin_times(s), s.len() as int) && r == #[trigger] in_order(s, o);
    let n = s.len() as int;
    assert forall|i: int, j: int| 0 <= i < j < r.len() implies (#[trigger] r[i]).start_ms <= (
    #[trigger] r[j]).start_ms by {
        assert(order::number_first(begin_times(s), o[i] as int, o[j] as int));
    }
    assert forall|i: int| 0 <= i < s.len() implies r.contains(#[trigger] s[i]) by {
        order::lemma_listed(o, begin_times(s), n, i);
        let k = choose|k: int| 0 <= k < n && o[k] == i;
        assert(r[k] == s[i]);
    }
    assert forall|i: int| 0 <= i < r.len() implies s.contains(#[trigger] r[i]) by {
        assert(r[i] == s[o[i] as int]);
    }
}

/// A line of an EDL gives its first two words as the times and the third as the
/// action; a comment and a line of fewer words give nothing.
pub proof fn edl_lines_are_words(raw: Seq<char>)
    ensures
        ({
            let line = text::trimmed(raw);
            let words = text::words_of(line);
            &&& line.len() > 0 && line[0] == '#' ==> line_fields(raw) is None
            &&& words.len() < 2 ==> line_fields(raw) is None
            &&& line.len() > 0 && line[0] != '#' && words.len() >= 2 ==> line_fields(raw) == Some(
                (
                    words[0],
                    words[1],
                    if words.len() == 2 {
                        None
                    } else {
                        Some(words[2])
                    },
                ),
            )
        }),
{
    reveal_strlit("#");
    let line = text::trimmed(raw);
    if line.len() > 0 {
        assert(line.subrange(0, 1)[0] == line[0]);
        if line[0] == '#' {
            assert(line.subrange(0, 1) =~= "#"@);
        }
    }
}

} // verus!
