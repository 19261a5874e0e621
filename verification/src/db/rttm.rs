//! Speaker diarization as an `.rttm` sidecar (NIST Rich Transcription
//! Time Marked), the format every diarizer writes: one `SPEAKER` line per
//! stretch of speech, whitespace separated —
//!
//! ```text
//! SPEAKER <file> <channel> <start s> <duration s> <NA> <NA> <label> <NA> <NA>
//! ```
//!
//! The server joins it with the captions at request time: each caption cue
//! takes the label whose speech overlaps it the most, written into the
//! WebVTT as a voice span (`<v Label>…</v>`), the one caption construct
//! browsers carry a speaker in. A cue whose lines each open with a dash — the
//! convention for two people in one cue — is split by line, each line placed
//! proportionally along the cue's time and labelled on its own.
//!
//! Here stand the text rules of both files; which label a stretch of time
//! gets is an argument.
use vstd::prelude::*;
use crate::text;

verus! {

/// What a `SPEAKER` line says: start and duration as written, and the label.
#[derive(Debug)]
pub struct SpeakerLine {
    pub start: String,
    pub duration: String,
    pub speaker: String,
}

/// The characters of a label that are kept.
pub open spec fn label_char(c: char) -> bool {
    c != '<' && c != '>' && c != '&'
}

/// A label safe inside a voice tag.
pub open spec fn label_of(raw: Seq<char>) -> Seq<char> {
    let kept = raw.filter(|c: char| label_char(c));
    if kept.len() <= 64 {
        kept
    } else {
        kept.take(64)
    }
}

/// A label safe inside a voice tag: the WebVTT tag delimiters and the
/// entity introducer go, and anything left is at most a modest length.
pub fn clean_label(raw: &str) -> (r: String)
    ensures
        r@ == label_of(raw@),
{
    let v = text::chars_of(raw);
    let mut kept: Vec<char> = Vec::new();
    let mut i: usize = 0;
    let ghost keep = |c: char| label_char(c);
    proof {
        reveal(Seq::filter);
        assert(v@.take(0) =~= seq![]);
    }
    while i < v.len()
        invariant
            i <= v.len(),
            keep == (|c: char| label_char(c)),
            kept@ == v@.take(i as int).filter(keep),
        decreases v.len() - i,
    {
        proof {
            reveal(Seq::filter);
            assert(v@.take(i + 1).drop_last() =~= v@.take(i as int));
        }
        let c = v[i];
        if c != '<' && c != '>' && c != '&' {
            kept.push(c);
        }
        i += 1;
    }
    assert(v@.take(i as int) =~= raw@);
    let n: usize = if kept.len() <= 64 {
        kept.len()
    } else {
        64
    };
    let r = text::string_of(&kept, 0, n);
    assert(r@ =~= label_of(raw@));
    r
}

/// The start, the duration and the label of a `SPEAKER` line.
pub open spec fn speaker_of(line: Seq<char>) -> Option<(Seq<char>, Seq<char>, Seq<char>)> {
    let f = text::words_of(line);
    if f.len() >= 8 && f[0] == "SPEAKER"@ {
        Some((f[3], f[4], label_of(f[7])))
    } else {
        None
    }
}

/// One line of an RTTM file. Other line types, comments and lines with
/// fields missing are nothing.
pub fn speaker_line(line: &str) -> (r: Option<SpeakerLine>)
    ensures
        (match r {
            Some(s) => Some((s.start@, s.duration@, s.speaker@)),
            None => None,
        }) == speaker_of(line@),
{
    let f = text::words(line);
    assert(text::texts(f@).len() == f@.len());
    if f.len() >= 8 && text::same(f[0].as_str(), "SPEAKER") {
        assert(text::texts(f@)[0] == f@[0]@);
        assert(text::texts(f@)[3] == f@[3]@);
        assert(text::texts(f@)[4] == f@[4]@);
        assert(text::texts(f@)[7] == f@[7]@);
        let speaker = clean_label(f[7].as_str());
        Some(SpeakerLine { start: f[3].clone(), duration: f[4].clone(), speaker })
    } else {
        proof {
            if f@.len() >= 8 {
                assert(text::texts(f@)[0] == f@[0]@);
            }
        }
        None
    }
}

/// A text without the tags and the white space in front of it.
pub open spec fn untagged(s: Seq<char>) -> Seq<char>
    decreases s.len(),
    via untagged_decreases
{
    if s.len() > 0 && s[0] == '<' {
        let rest = s.skip(1);
        let i = text::index_of(rest, '>');
        if i < rest.len() {
            untagged(text::trim_start_of(rest.skip(i + 1)))
        } else {
            s
        }
    } else {
        s
    }
}

#[via_fn]
proof fn untagged_decreases(s: Seq<char>) {
    if s.len() > 0 && s[0] == '<' {
        let rest = s.skip(1);
        text::lemma_index_of(rest, '>');
        let i = text::index_of(rest, '>');
        if i < rest.len() {
            text::lemma_trim_start(rest.skip(i + 1));
        }
    }
}

pub fn strip_tags_prefix(s: &str) -> (r: String)
    ensures
        r@ == untagged(s@),
{
    let mut t = s.to_owned();
    loop
        invariant
            untagged(t@) == untagged(s@),
        ensures
            t@ == untagged(s@),
        decreases t@.len(),
    {
        let v = text::chars_of(t.as_str());
        if v.len() == 0 || v[0] != '<' {
            break;
        }
        let ghost rest = t@.skip(1);
        let mut i: usize = 1;
        while i < v.len() && v[i] != '>'
            invariant
                1 <= i <= v.len(),
                v@ == t@,
                forall|k: int| 1 <= k < i ==> v@[k] != '>',
            decreases v.len() - i,
        {
            i += 1;
        }
        proof {
            assert forall|k: int| 0 <= k < i - 1 implies rest[k] != '>' by {
                assert(rest[k] == v@[k + 1]);
            }
            if i < v@.len() {
                assert(rest[i - 1] == v@[i as int]);
            }
            text::lemma_index_of_is(rest, '>', i - 1);
        }
        if i == v.len() {
            break;
        }
        let after = text::string_of(&v, i + 1, v.len());
        proof {
            assert(after@ =~= rest.skip(text::index_of(rest, '>') + 1));
            text::lemma_trim_start(after@);
        }
        t = text::trim_start(after.as_str());
    }
    t
}

/// Whether a line of a cue opens with a dash; white space and tags may
/// precede it.
pub open spec fn dash_line(line: Seq<char>) -> bool {
    let t = untagged(text::trim_start_of(line));
    t.len() > 0 && (t[0] == '-' || t[0] == '–' || t[0] == '—')
}

pub fn is_dash_line(line: &str) -> (r: bool)
    ensures
        r == dash_line(line@),
{
    let t = text::trim_start(line);
    // Any leading tag (<i>, <c.x>) may precede the dash.
    let t = strip_tags_prefix(t.as_str());
    let v = text::chars_of(t.as_str());
    v.len() > 0 && (v[0] == '-' || v[0] == '–' || v[0] == '—')
}

/// One line with its ending, in a voice where there is one.
pub open spec fn voiced(line: Seq<char>, end: Seq<char>, who: Option<Seq<char>>) -> Seq<char> {
    match who {
        Some(w) => "<v "@ + w + ">"@ + line + "</v>"@ + end,
        None => line + end,
    }
}

fn push_voiced(out: &mut String, line: &str, end: &str, who: &Option<String>)
    ensures
        final(out)@ == old(out)@ + voiced(line@, end@, text::opt_text(*who)),
{
    match who {
        Some(w) => {
            out.push_str("<v ");
            out.push_str(w.as_str());
            out.push_str(">");
            out.push_str(line);
            out.push_str("</v>");
        },
        None => {
            out.push_str(line);
        },
    }
    out.push_str(end);
    assert(out@ =~= old(out)@ + voiced(line@, end@, text::opt_text(*who)));
}

/// The index of the first blank line at or after `i`, or the number of
/// lines.
pub open spec fn blank_from(ls: Seq<Seq<char>>, i: int) -> int
    decreases ls.len() - i,
{
    if 0 <= i < ls.len() && text::trimmed(ls[i]).len() > 0 {
        blank_from(ls, i + 1)
    } else {
        i
    }
}

proof fn lemma_blank_from(ls: Seq<Seq<char>>, i: int)
    requires
        0 <= i <= ls.len(),
    ensures
        i <= blank_from(ls, i) <= ls.len(),
        forall|j: int| i <= j < blank_from(ls, i) ==> text::trimmed(#[trigger] ls[j]).len() > 0,
        blank_from(ls, i) < ls.len() ==> text::trimmed(ls[blank_from(ls, i)]).len() == 0,
    decreases ls.len() - i,
{
    if i < ls.len() && text::trimmed(ls[i]).len() > 0 {
        lemma_blank_from(ls, i + 1);
    }
}

/// Whether a cue's payload is shared: more than one line, each opening with
/// a dash.
pub open spec fn shared(payload: Seq<Seq<char>>) -> bool {
    payload.len() > 1 && forall|i: int| 0 <= i < payload.len() ==> dash_line(#[trigger] payload[i])
}

/// The cues from line `i` on: a timing line with the lines up to the next
/// blank one, where there are any.
pub open spec fn cues_from(ls: Seq<Seq<char>>, timed: Seq<bool>, i: int) -> Seq<(int, int)>
    decreases ls.len() - i,
    via cues_decreases
{
    if i < 0 || i >= ls.len() {
        seq![]
    } else {
        let end = blank_from(ls, i + 1);
        if timed[i] && end > i + 1 {
            seq![(i + 1, end)] + cues_from(ls, timed, end)
        } else {
            cues_from(ls, timed, i + 1)
        }
    }
}

#[via_fn]
proof fn cues_decreases(ls: Seq<Seq<char>>, timed: Seq<bool>, i: int) {
    if 0 <= i < ls.len() {
        lemma_blank_from(ls, i + 1);
    }
}

/// One cue of a WebVTT body.
#[derive(Debug)]
pub struct Cue {
    /// The index of its timing line.
    pub line: usize,
    /// Its payload: lines `[first, end)`.
    pub first: usize,
    pub end: usize,
    /// Whether each line of the payload has a voice of its own.
    pub shared: bool,
    /// The number of characters of each line of the payload, at least one:
    /// the lines of a shared cue take their part of its time by it.
    pub weights: Vec<usize>,
}

pub open spec fn weight(line: Seq<char>) -> int {
    if line.len() == 0 {
        1
    } else {
        line.len() as int
    }
}

pub open spec fn cue_is(c: Cue, span: (int, int), ls: Seq<Seq<char>>) -> bool {
    &&& c.line + 1 == span.0
    &&& c.first == span.0
    &&& c.end == span.1
    &&& c.shared == shared(ls.subrange(span.0, span.1))
    &&& c.weights@.len() == span.1 - span.0
    &&& forall|k: int|
        0 <= k < c.weights@.len() ==> (#[trigger] c.weights@[k]) == weight(ls[span.0 + k])
}

fn blank_line_from(lines: &Vec<String>, i: usize) -> (r: usize)
    requires
        i <= lines@.len(),
    ensures
        i <= r <= lines@.len(),
        r == blank_from(text::texts(lines@), i as int),
{
    let ghost ls = text::texts(lines@);
    let mut k: usize = i;
    while k < lines.len()
        invariant
            i <= k <= lines.len(),
            ls == text::texts(lines@),
            blank_from(ls, i as int) == blank_from(ls, k as int),
        decreases lines.len() - k,
    {
        let t = text::trim(lines[k].as_str());
        assert(ls[k as int] == lines@[k as int]@);
        if t.as_str().is_empty() {
            return k;
        }
        k += 1;
    }
    k
}

fn all_dashed(lines: &Vec<String>, first: usize, end: usize) -> (r: bool)
    requires
        first <= end <= lines@.len(),
    ensures
        r == shared(text::texts(lines@).subrange(first as int, end as int)),
{
    let ghost p = text::texts(lines@).subrange(first as int, end as int);
    if end - first <= 1 {
        return false;
    }
    let mut k: usize = first;
    while k < end
        invariant
            first <= k <= end <= lines.len(),
            p == text::texts(lines@).subrange(first as int, end as int),
            forall|j: int| 0 <= j < k - first ==> dash_line(#[trigger] p[j]),
        decreases end - k,
    {
        assert(p[k - first] == lines@[k as int]@);
        if !is_dash_line(lines[k].as_str()) {
            assert(!dash_line(p[k - first]));
            return false;
        }
        k += 1;
    }
    true
}

/// The cues of a WebVTT body, given which of its lines are timing lines.
pub fn cues(vtt: &str, timed: &Vec<bool>) -> (r: Vec<Cue>)
    requires
        timed@.len() == text::lines_of(vtt@).len(),
    ensures
        ({
            let ls = text::lines_of(vtt@);
            let spans = cues_from(ls, timed@, 0);
            &&& r@.len() == spans.len()
            &&& forall|k: int| 0 <= k < r@.len() ==> cue_is(#[trigger] r@[k], spans[k], ls)
        }),
{
    let lines = text::lines(vtt);
    let ghost ls = text::texts(lines@);
    assert(ls.len() == lines@.len());
    let ghost spans = cues_from(ls, timed@, 0);
    let mut out: Vec<Cue> = Vec::new();
    let mut i: usize = 0;
    assert(spans.skip(0) =~= spans);
    while i < lines.len()
        invariant
            i <= lines.len(),
            ls == text::texts(lines@),
            timed@.len() == lines@.len(),
            spans == cues_from(ls, timed@, 0),
            out@.len() <= spans.len(),
            spans.skip(out@.len() as int) == cues_from(ls, timed@, i as int),
            forall|k: int| 0 <= k < out@.len() ==> cue_is(#[trigger] out@[k], spans[k], ls),
        decreases lines.len() - i,
    {
        let end = blank_line_from(&lines, i + 1);
        if timed[i] && end > i + 1 {
            let shared = all_dashed(&lines, i + 1, end);
            let mut weights: Vec<usize> = Vec::new();
            let mut k: usize = i + 1;
            while k < end
                invariant
                    i + 1 <= k <= end <= lines.len(),
                    ls == text::texts(lines@),
                    weights@.len() == k - (i + 1),
                    forall|j: int|
                        0 <= j < weights@.len() ==> (#[trigger] weights@[j]) == weight(
                            ls[i + 1 + j],
                        ),
                decreases end - k,
            {
                let n = text::chars_of(lines[k].as_str()).len();
                assert(ls[k as int] == lines@[k as int]@);
                weights.push(if n == 0 {
                    1
                } else {
                    n
                });
                k += 1;
            }
            let ghost n = out@.len() as int;
            let ghost rest = cues_from(ls, timed@, end as int);
            let cue = Cue { line: i, first: i + 1, end, shared, weights };
            proof {
                let here = seq![(i + 1, end as int)] + rest;
                assert(spans.skip(n) == here);
                assert(spans[n] == spans.skip(n)[0]);
                assert(spans.skip(n + 1) =~= spans.skip(n).skip(1));
                assert(here.skip(1) =~= rest);
                assert(cue_is(cue, spans[n], ls));
            }
            out.push(cue);
            i = end;
        } else {
            i += 1;
        }
    }
    assert(cues_from(ls, timed@, i as int) =~= seq![]);
    out
}

/// Each line with its ending behind it.
pub open spec fn with_endings(ls: Seq<Seq<char>>, es: Seq<Seq<char>>) -> Seq<char>
    decreases ls.len(),
{
    if ls.len() == 0 {
        seq![]
    } else {
        ls[0] + es[0] + with_endings(ls.drop_first(), es.drop_first())
    }
}

proof fn lemma_endings_concat(
    a: Seq<Seq<char>>,
    ea: Seq<Seq<char>>,
    b: Seq<Seq<char>>,
    eb: Seq<Seq<char>>,
)
    requires
        a.len() == ea.len(),
    ensures
        with_endings(a + b, ea + eb) == with_endings(a, ea) + with_endings(b, eb),
    decreases a.len(),
{
    if a.len() == 0 {
        assert(a + b =~= b);
        assert(ea + eb =~= eb);
        assert(with_endings(a, ea) + with_endings(b, eb) =~= with_endings(b, eb));
    } else {
        lemma_endings_concat(a.drop_first(), ea.drop_first(), b, eb);
        assert((a + b).drop_first() =~= a.drop_first() + b);
        assert((ea + eb).drop_first() =~= ea.drop_first() + eb);
        assert(with_endings(a + b, ea + eb) =~= with_endings(a, ea) + with_endings(b, eb));
    }
}

proof fn lemma_endings_push(a: Seq<Seq<char>>, ea: Seq<Seq<char>>, l: Seq<char>, e: Seq<char>)
    requires
        a.len() == ea.len(),
    ensures
        with_endings(a.push(l), ea.push(e)) == with_endings(a, ea) + l + e,
{
    reveal_with_fuel(with_endings, 2);
    assert(a.push(l) =~= a + seq![l]);
    assert(ea.push(e) =~= ea + seq![e]);
    lemma_endings_concat(a, ea, seq![l], seq![e]);
    assert(seq![l].drop_first() =~= Seq::<Seq<char>>::empty());
    assert(with_endings(seq![l], seq![e]) =~= l + e);
    assert(with_endings(a, ea) + (l + e) =~= with_endings(a, ea) + l + e);
}

/// A cue's payload in its voices: one for each line of a shared cue, one for
/// the whole of any other.
pub open spec fn voiced_payload(
    payload: Seq<Seq<char>>,
    ends: Seq<Seq<char>>,
    who: Seq<Option<Seq<char>>>,
) -> Seq<char> {
    if shared(payload) {
        voiced_lines(payload, ends, who)
    } else {
        voiced(
            with_endings(payload.drop_last(), ends.drop_last()) + payload.last(),
            ends.last(),
            who[0],
        )
    }
}

pub open spec fn voiced_lines(
    payload: Seq<Seq<char>>,
    ends: Seq<Seq<char>>,
    who: Seq<Option<Seq<char>>>,
) -> Seq<char>
    decreases payload.len(),
{
    if payload.len() == 0 {
        seq![]
    } else {
        voiced_lines(payload.drop_last(), ends.drop_last(), who) + voiced(
            payload.last(),
            ends.last(),
            who[payload.len() - 1],
        )
    }
}

/// How many voices a cue takes.
pub open spec fn voices_taken(payload: Seq<Seq<char>>) -> int {
    if shared(payload) {
        payload.len() as int
    } else {
        1
    }
}

/// The lines from `i` on with their endings, the payloads of the cues from the
/// `k`-th on in their voices.
pub open spec fn tagged_from(
    ls: Seq<Seq<char>>,
    es: Seq<Seq<char>>,
    timed: Seq<bool>,
    voices: Seq<Seq<Option<Seq<char>>>>,
    i: int,
    k: int,
) -> Seq<char>
    decreases ls.len() - i,
    via tagged_decreases
{
    if i < 0 || i >= ls.len() {
        seq![]
    } else {
        let end = blank_from(ls, i + 1);
        if timed[i] && end > i + 1 {
            ls[i] + es[i] + voiced_payload(
                ls.subrange(i + 1, end),
                es.subrange(i + 1, end),
                voices[k],
            ) + tagged_from(ls, es, timed, voices, end, k + 1)
        } else {
            ls[i] + es[i] + tagged_from(ls, es, timed, voices, i + 1, k)
        }
    }
}

#[via_fn]
proof fn tagged_decreases(
    ls: Seq<Seq<char>>,
    es: Seq<Seq<char>>,
    timed: Seq<bool>,
    voices: Seq<Seq<Option<Seq<char>>>>,
    i: int,
    k: int,
) {
    if 0 <= i < ls.len() {
        lemma_blank_from(ls, i + 1);
    }
}

/// A WebVTT body with voice spans; each line keeps its own ending.
pub open spec fn tagged(
    vtt: Seq<char>,
    timed: Seq<bool>,
    voices: Seq<Seq<Option<Seq<char>>>>,
) -> Seq<char> {
    tagged_from(text::lines_of(vtt), text::endings_of(vtt), timed, voices, 0, 0)
}

pub open spec fn voice_views(v: Seq<Vec<Option<String>>>) -> Seq<Seq<Option<Seq<char>>>> {
    Seq::new(v.len(), |k: int| Seq::new(v[k]@.len(), |j: int| text::opt_text(v[k]@[j])))
}

/// The voices have the shape of the cues.
pub open spec fn voices_fit(
    ls: Seq<Seq<char>>,
    timed: Seq<bool>,
    voices: Seq<Seq<Option<Seq<char>>>>,
) -> bool {
    let spans = cues_from(ls, timed, 0);
    &&& voices.len() == spans.len()
    &&& forall|k: int|
        0 <= k < spans.len() ==> (#[trigger] voices[k]).len() == voices_taken(
            ls.subrange(spans[k].0, spans[k].1),
        )
}

/// There is an ending for each line.
proof fn lemma_as_many_endings(s: Seq<char>)
    ensures
        text::lines_of(s).len() == text::endings_of(s).len(),
    decreases s.len(),
{
    text::lemma_index_of(s, '\n');
    let i = text::index_of(s, '\n');
    if i < s.len() {
        lemma_as_many_endings(s.skip(i + 1));
    }
}

fn push_payload(
    out: &mut String,
    lines: &Vec<String>,
    ends: &Vec<&'static str>,
    first: usize,
    end: usize,
    who: &Vec<Option<String>>,
)
    requires
        first < end <= lines@.len(),
        ends@.len() == lines@.len(),
        who@.len() == voices_taken(text::texts(lines@).subrange(first as int, end as int)),
    ensures
        final(out)@ == old(out)@ + voiced_payload(
            text::texts(lines@).subrange(first as int, end as int),
            text::slices(ends@).subrange(first as int, end as int),
            Seq::new(who@.len(), |j: int| text::opt_text(who@[j])),
        ),
{
    let ghost p = text::texts(lines@).subrange(first as int, end as int);
    let ghost pe = text::slices(ends@).subrange(first as int, end as int);
    let ghost w = Seq::new(who@.len(), |j: int| text::opt_text(who@[j]));
    let ghost start = out@;
    let mut k: usize = first;
    assert(p.take(0) =~= seq![]);
    assert(pe.take(0) =~= seq![]);
    if all_dashed(lines, first, end) {
        assert(start + Seq::<char>::empty() =~= start);
        while k < end
            invariant
                first <= k <= end <= lines.len(),
                ends@.len() == lines@.len(),
                p == text::texts(lines@).subrange(first as int, end as int),
                pe == text::slices(ends@).subrange(first as int, end as int),
                who@.len() == end - first,
                w == Seq::new(who@.len(), |j: int| text::opt_text(who@[j])),
                out@ == start + voiced_lines(p.take(k - first), pe.take(k - first), w),
            decreases end - k,
        {
            proof {
                assert(p.take(k - first + 1).drop_last() =~= p.take(k - first));
                assert(p.take(k - first + 1).last() == lines@[k as int]@);
                assert(pe.take(k - first + 1).drop_last() =~= pe.take(k - first));
                assert(pe.take(k - first + 1).last() == ends@[k as int]@);
            }
            push_voiced(out, lines[k].as_str(), ends[k], &who[k - first]);
            k += 1;
            assert(out@ =~= start + voiced_lines(p.take(k - first), pe.take(k - first), w));
        }
        assert(p.take(k - first) =~= p);
        assert(pe.take(k - first) =~= pe);
    } else {
        let mut part = String::new();
        assert(part@ =~= with_endings(p.take(0), pe.take(0)));
        while k < end - 1
            invariant
                first <= k <= end - 1,
                end <= lines.len(),
                ends@.len() == lines@.len(),
                p == text::texts(lines@).subrange(first as int, end as int),
                pe == text::slices(ends@).subrange(first as int, end as int),
                part@ == with_endings(p.take(k - first), pe.take(k - first)),
            decreases end - k,
        {
            proof {
                let m = k - first;
                assert(p.take(m + 1) =~= p.take(m).push(lines@[k as int]@));
                assert(pe.take(m + 1) =~= pe.take(m).push(ends@[k as int]@));
                lemma_endings_push(p.take(m), pe.take(m), lines@[k as int]@, ends@[k as int]@);
            }
            part.push_str(lines[k].as_str());
            part.push_str(ends[k]);
            k += 1;
        }
        proof {
            assert(p.take(k - first) =~= p.drop_last());
            assert(pe.take(k - first) =~= pe.drop_last());
            assert(p.last() == lines@[k as int]@);
            assert(pe.last() == ends@[k as int]@);
        }
        part.push_str(lines[k].as_str());
        push_voiced(out, part.as_str(), ends[k], &who[0]);
    }
}

/// A WebVTT body with voice spans: each cue's payload is wrapped in
/// `<v Label>`, given which lines are timing lines and whose voices the cues
/// are in; the header, notes, cue identifiers and timing lines pass through
/// untouched, as does a cue nobody was found speaking in. Nothing else about
/// the text changes, so a body nobody speaks in comes back as it was.
pub fn tag_vtt(vtt: &str, timed: &Vec<bool>, voices: &Vec<Vec<Option<String>>>) -> (r: String)
    requires
        timed@.len() == text::lines_of(vtt@).len(),
        voices_fit(text::lines_of(vtt@), timed@, voice_views(voices@)),
    ensures
        r@ == tagged(vtt@, timed@, voice_views(voices@)),
{
    let lines = text::lines(vtt);
    let ends = text::endings(vtt);
    let ghost ls = text::texts(lines@);
    let ghost es = text::slices(ends@);
    let ghost vs = voice_views(voices@);
    let ghost spans = cues_from(ls, timed@, 0);
    let ghost goal = tagged_from(ls, es, timed@, vs, 0, 0);
    assert(ls.len() == lines@.len());
    assert(es.len() == ends@.len());
    let mut out = String::new();
    let mut i: usize = 0;
    let mut n: usize = 0;
    proof {
        lemma_as_many_endings(vtt@);
        assert(out@ + goal =~= goal);
        assert(spans.skip(0) =~= spans);
    }
    while i < lines.len()
        invariant
            i <= lines.len(),
            n <= voices.len(),
            ls == text::texts(lines@),
            es == text::slices(ends@),
            ends@.len() == lines@.len(),
            vs == voice_views(voices@),
            timed@.len() == lines@.len(),
            voices_fit(ls, timed@, vs),
            spans == cues_from(ls, timed@, 0),
            spans.skip(n as int) == cues_from(ls, timed@, i as int),
            goal == out@ + tagged_from(ls, es, timed@, vs, i as int, n as int),
        decreases lines.len() - i,
    {
        let ghost so_far = out@;
        let end = blank_line_from(&lines, i + 1);
        assert(ls[i as int] == lines@[i as int]@);
        assert(es[i as int] == ends@[i as int]@);
        out.push_str(lines[i].as_str());
        out.push_str(ends[i]);
        if timed[i] && end > i + 1 {
            proof {
                let rest = cues_from(ls, timed@, end as int);
                let here = seq![(i + 1, end as int)] + rest;
                assert(spans.skip(n as int) == here);
                assert(n < spans.len()) by {
                    if n >= spans.len() {
                        assert(spans.skip(n as int).len() == 0);
                    }
                }
                assert(spans[n as int] == spans.skip(n as int)[0]);
                assert(spans.skip(n + 1) =~= spans.skip(n as int).skip(1));
                assert(here.skip(1) =~= rest);
                assert(vs[n as int].len() == voices_taken(ls.subrange(i + 1, end as int)));
            }
            push_payload(&mut out, &lines, &ends, i + 1, end, &voices[n]);
            proof {
                let p = voiced_payload(
                    ls.subrange(i + 1, end as int),
                    es.subrange(i + 1, end as int),
                    vs[n as int],
                );
                let tail = tagged_from(ls, es, timed@, vs, end as int, n + 1);
                assert(so_far + (ls[i as int] + es[i as int] + p + tail) =~= out@ + tail);
            }
            n += 1;
            i = end;
        } else {
            proof {
                let tail = tagged_from(ls, es, timed@, vs, i + 1, n as int);
                assert(so_far + (ls[i as int] + es[i as int] + tail) =~= out@ + tail);
            }
            i += 1;
        }
    }
    assert(out@ + Seq::<char>::empty() =~= out@);
    out
}

// -------------------------------------------------------------------- laws

/// Voices that nobody was found for.
pub open spec fn unheard(voices: Seq<Seq<Option<Seq<char>>>>) -> bool {
    forall|k: int, j: int|
        0 <= k < voices.len() && 0 <= j < voices[k].len() ==> (#[trigger] voices[k][j]) is None
}

proof fn lemma_unvoiced_lines(
    p: Seq<Seq<char>>,
    pe: Seq<Seq<char>>,
    who: Seq<Option<Seq<char>>>,
)
    requires
        p.len() == pe.len(),
        p.len() <= who.len(),
        forall|j: int| 0 <= j < who.len() ==> (#[trigger] who[j]) is None,
    ensures
        voiced_lines(p, pe, who) == with_endings(p, pe),
    decreases p.len(),
{
    if p.len() > 0 {
        lemma_unvoiced_lines(p.drop_last(), pe.drop_last(), who);
        assert(p =~= p.drop_last().push(p.last()));
        assert(pe =~= pe.drop_last().push(pe.last()));
        lemma_endings_push(p.drop_last(), pe.drop_last(), p.last(), pe.last());
        assert(who[p.len() - 1] is None);
        assert(voiced_lines(p, pe, who) =~= with_endings(p, pe));
    }
}

proof fn lemma_unvoiced(
    ls: Seq<Seq<char>>,
    es: Seq<Seq<char>>,
    timed: Seq<bool>,
    voices: Seq<Seq<Option<Seq<char>>>>,
    i: int,
    k: int,
)
    requires
        ls.len() == es.len(),
        0 <= i <= ls.len(),
        0 <= k <= voices.len(),
        voices_fit(ls, timed, voices),
        cues_from(ls, timed, 0).skip(k) == cues_from(ls, timed, i),
        unheard(voices),
    ensures
        tagged_from(ls, es, timed, voices, i, k) == with_endings(ls.skip(i), es.skip(i)),
    decreases ls.len() - i,
{
    if i == ls.len() {
        assert(ls.skip(i) =~= seq![]);
    } else {
        let spans = cues_from(ls, timed, 0);
        let end = blank_from(ls, i + 1);
        lemma_blank_from(ls, i + 1);
        assert(ls.skip(i).drop_first() =~= ls.skip(i + 1));
        assert(es.skip(i).drop_first() =~= es.skip(i + 1));
        if timed[i] && end > i + 1 {
            let rest = cues_from(ls, timed, end);
            let here = seq![(i + 1, end)] + rest;
            assert(spans.skip(k) == here);
            assert(k < spans.len()) by {
                if k >= spans.len() {
                    assert(spans.skip(k).len() == 0);
                }
            }
            assert(spans[k] == spans.skip(k)[0]);
            assert(spans.skip(k + 1) =~= spans.skip(k).skip(1));
            assert(here.skip(1) =~= rest);
            let p = ls.subrange(i + 1, end);
            let pe = es.subrange(i + 1, end);
            assert(voices[k].len() == voices_taken(p));
            lemma_unvoiced(ls, es, timed, voices, end, k + 1);
            assert(ls.skip(i + 1) =~= p + ls.skip(end));
            assert(es.skip(i + 1) =~= pe + es.skip(end));
            lemma_endings_concat(p, pe, ls.skip(end), es.skip(end));
            if shared(p) {
                assert forall|j: int| 0 <= j < voices[k].len() implies (
                #[trigger] voices[k][j]) is None by {}
                lemma_unvoiced_lines(p, pe, voices[k]);
            } else {
                assert(voices[k][0] is None);
                assert(p =~= p.drop_last().push(p.last()));
                assert(pe =~= pe.drop_last().push(pe.last()));
                lemma_endings_push(p.drop_last(), pe.drop_last(), p.last(), pe.last());
            }
            assert(tagged_from(ls, es, timed, voices, i, k) =~= with_endings(
                ls.skip(i),
                es.skip(i),
            ));
        } else {
            lemma_unvoiced(ls, es, timed, voices, i + 1, k);
            assert(tagged_from(ls, es, timed, voices, i, k) =~= with_endings(
                ls.skip(i),
                es.skip(i),
            ));
        }
    }
}

proof fn lemma_lines_make_up_the_text(s: Seq<char>)
    ensures
        with_endings(text::lines_of(s), text::endings_of(s)) == s,
    decreases s.len(),
{
    text::lemma_index_of(s, '\n');
    let i = text::index_of(s, '\n');
    let ls = text::lines_of(s);
    let es = text::endings_of(s);
    if i < s.len() {
        let rest = s.skip(i + 1);
        lemma_lines_make_up_the_text(rest);
        let line = s.take(i);
        assert(ls.drop_first() =~= text::lines_of(rest));
        assert(es.drop_first() =~= text::endings_of(rest));
        assert(s[i] == '\n');
        assert(line + seq!['\n'] + rest =~= s);
        assert(text::without_return(line) + text::ending(line) =~= line + seq!['\n']);
        assert(with_endings(ls, es) =~= s);
    } else if s.len() > 0 {
        reveal_with_fuel(with_endings, 2);
        assert(ls.drop_first() =~= Seq::<Seq<char>>::empty());
        assert(with_endings(ls, es) =~= s);
    }
}

/// A body in which nobody was found speaking comes back as it was: nothing
/// about the text changes but the voice spans.
pub proof fn unheard_body_is_untouched(
    vtt: Seq<char>,
    timed: Seq<bool>,
    voices: Seq<Seq<Option<Seq<char>>>>,
)
    requires
        voices_fit(text::lines_of(vtt), timed, voices),
        unheard(voices),
    ensures
        tagged(vtt, timed, voices) == vtt,
{
    let ls = text::lines_of(vtt);
    let es = text::endings_of(vtt);
    let spans = cues_from(ls, timed, 0);
    lemma_as_many_endings(vtt);
    assert(spans.skip(0) =~= spans);
    lemma_unvoiced(ls, es, timed, voices, 0, 0);
    assert(ls.skip(0) =~= ls);
    assert(es.skip(0) =~= es);
    lemma_lines_make_up_the_text(vtt);
}

/// A line that begins with the word SPEAKER says when somebody speaks in its
/// fourth word, how long in its fifth, and who in its eighth; another line, or
/// a shorter one, says nothing.
pub proof fn speakers_stand_in_the_eighth_column(line: Seq<char>)
    ensures
        ({
            let w = text::words_of(line);
            &&& w.len() >= 8 && w[0] == "SPEAKER"@ ==> speaker_of(line) is Some
                && speaker_of(line)->Some_0.0 == w[3] && speaker_of(line)->Some_0.1 == w[4]
                && speaker_of(line)->Some_0.2 == label_of(w[7])
            &&& w.len() < 8 || w[0] != "SPEAKER"@ ==> speaker_of(line) is None
        }),
{
}

proof fn lemma_plain_filter(raw: Seq<char>)
    requires
        !raw.contains('<'),
        !raw.contains('>'),
        !raw.contains('&'),
    ensures
        raw.filter(|c: char| label_char(c)) == raw,
    decreases raw.len(),
{
    reveal(Seq::filter);
    if raw.len() > 0 {
        let head = raw.drop_last();
        assert(raw[raw.len() - 1] == raw.last());
        assert forall|c: char| head.contains(c) implies raw.contains(c) by {
            let k = choose|k: int| 0 <= k < head.len() && head[k] == c;
            assert(raw[k] == c);
        }
        lemma_plain_filter(head);
        assert(label_char(raw.last()));
        assert(head.push(raw.last()) =~= raw);
    }
}

proof fn lemma_filtered(raw: Seq<char>)
    ensures
        ({
            let kept = raw.filter(|c: char| label_char(c));
            forall|i: int| 0 <= i < kept.len() ==> label_char(#[trigger] kept[i])
        }),
    decreases raw.len(),
{
    reveal(Seq::filter);
    if raw.len() > 0 {
        lemma_filtered(raw.drop_last());
    }
}

/// A label has at most 64 characters and none that could end its tag; one that
/// is short and plain stays as it is, and of a longer plain one the beginning.
pub proof fn labels_are_safe_in_a_tag(raw: Seq<char>)
    ensures
        label_of(raw).len() <= 64,
        !label_of(raw).contains('<') && !label_of(raw).contains('>') && !label_of(raw).contains('&'),
        !raw.contains('<') && !raw.contains('>') && !raw.contains('&') ==> label_of(raw)
            == raw.take(if raw.len() <= 64 {
            raw.len() as int
        } else {
            64
        }),
{
    lemma_filtered(raw);
    let kept = raw.filter(|c: char| label_char(c));
    assert forall|i: int| 0 <= i < label_of(raw).len() implies label_char(
        #[trigger] label_of(raw)[i],
    ) by {
        assert(label_of(raw)[i] == kept[i]);
    }
    if !raw.contains('<') && !raw.contains('>') && !raw.contains('&') {
        lemma_plain_filter(raw);
        assert(raw.take(raw.len() as int) =~= raw);
    }
}

/// White space and tags before a line's first character do not count when it
/// is looked at for a dash.
pub proof fn tags_do_not_hide_a_dash(tag: Seq<char>, rest: Seq<char>, w: char)
    requires
        !tag.contains('>'),
        text::white(w),
    ensures
        dash_line(seq!['<'] + tag + seq!['>'] + rest) <==> dash_line(rest),
        dash_line(seq![w] + rest) <==> dash_line(rest),
        dash_line(seq!['-'] + rest),
        dash_line(seq!['–'] + rest),
        dash_line(seq!['—'] + rest),
        !dash_line(seq![]),
        !dash_line(seq!['a'] + rest),
{
    let s = seq!['<'] + tag + seq!['>'] + rest;
    let inner = s.skip(1);
    assert(inner =~= tag + seq!['>'] + rest);
    text::lemma_index_of_is(inner, '>', tag.len() as int);
    assert(inner.skip(tag.len() as int + 1) =~= rest);
    assert(text::trim_start_of(s) == s);
    assert((seq![w] + rest).drop_first() =~= rest);
}

/// Each line of a shared cue has the voice that was found for it; a cue that
/// is not shared has one voice, which is around the whole of it.
pub proof fn shared_cues_have_a_voice_a_line(
    a: Seq<char>,
    b: Seq<char>,
    ea: Seq<char>,
    eb: Seq<char>,
    x: Seq<char>,
    y: Seq<char>,
)
    ensures
        dash_line(a) && dash_line(b) ==> voiced_payload(
            seq![a, b],
            seq![ea, eb],
            seq![Some(x), Some(y)],
        ) == "<v "@ + x + ">"@ + a + "</v>"@ + ea + ("<v "@ + y + ">"@ + b + "</v>"@ + eb),
        !dash_line(a) || !dash_line(b) ==> voiced_payload(
            seq![a, b],
            seq![ea, eb],
            seq![Some(x), Some(y)],
        ) == "<v "@ + x + ">"@ + (a + ea + b) + "</v>"@ + eb,
        voiced_payload(seq![a], seq![ea], seq![Some(x)]) == "<v "@ + x + ">"@ + a + "</v>"@ + ea,
{
    let p = seq![a, b];
    let e = seq![ea, eb];
    let who = seq![Some(x), Some(y)];
    assert(p[0] == a && p[1] == b);
    assert(p.drop_last() =~= seq![a]);
    assert(e.drop_last() =~= seq![ea]);
    assert(seq![a].drop_last() =~= Seq::<Seq<char>>::empty());
    assert(seq![ea].drop_last() =~= Seq::<Seq<char>>::empty());
    assert(seq![a].drop_first() =~= Seq::<Seq<char>>::empty());
    assert(seq![ea].drop_first() =~= Seq::<Seq<char>>::empty());
    reveal_with_fuel(voiced_lines, 3);
    reveal_with_fuel(with_endings, 3);
    assert(with_endings(seq![a], seq![ea]) =~= a + ea);
    assert(with_endings(Seq::<Seq<char>>::empty(), Seq::<Seq<char>>::empty()) + a =~= a);
    if dash_line(a) && dash_line(b) {
        assert forall|i: int| 0 <= i < p.len() implies dash_line(#[trigger] p[i]) by {
            assert(i == 0 || i == 1);
        }
        assert(shared(p));
        assert(voiced_lines(seq![a], seq![ea], who) =~= voiced(a, ea, Some(x)));
    } else {
        assert(!shared(p));
    }
    assert(!shared(seq![a]));
}

/// A payload stands behind a timing line, holds no blank line, and ends before
/// one or at the end.
pub open spec fn stands_behind_timing(
    ls: Seq<Seq<char>>,
    timed: Seq<bool>,
    cue: (int, int),
) -> bool {
    &&& 0 < cue.0 < cue.1 <= ls.len()
    &&& timed[cue.0 - 1]
    &&& cue.1 < ls.len() ==> text::trimmed(ls[cue.1]).len() == 0
    &&& forall|j: int| cue.0 <= j < cue.1 ==> text::trimmed(#[trigger] ls[j]).len() > 0
}

/// A cue is what stands between a timing line and the next blank line; cues
/// follow each other and hold no blank line, and no timing line with a text
/// behind it is without one.
pub proof fn cues_stand_behind_their_timing(ls: Seq<Seq<char>>, timed: Seq<bool>, i: int)
    requires
        0 <= i <= ls.len(),
        timed.len() == ls.len(),
    ensures
        forall|k: int|
            0 <= k < cues_from(ls, timed, i).len() ==> stands_behind_timing(
                ls,
                timed,
                #[trigger] cues_from(ls, timed, i)[k],
            ) && cues_from(ls, timed, i)[k].0 > i,
        forall|j: int, k: int|
            0 <= j < k < cues_from(ls, timed, i).len() ==> (#[trigger] cues_from(ls, timed, i)[j]).1
                < (#[trigger] cues_from(ls, timed, i)[k]).0,
        i + 1 < ls.len() && timed[i] && text::trimmed(ls[i + 1]).len() > 0 ==> cues_from(
            ls,
            timed,
            i,
        ).len() > 0 && cues_from(ls, timed, i)[0].0 == i + 1,
        i < ls.len() && !timed[i] ==> cues_from(ls, timed, i) == cues_from(ls, timed, i + 1),
    decreases ls.len() - i,
{
    if i < ls.len() {
        lemma_blank_from(ls, i + 1);
        let end = blank_from(ls, i + 1);
        let cues = cues_from(ls, timed, i);
        if timed[i] && end > i + 1 {
            cues_stand_behind_their_timing(ls, timed, end);
            let rest = cues_from(ls, timed, end);
            assert(cues == seq![(i + 1, end)] + rest);
            assert(stands_behind_timing(ls, timed, (i + 1, end)));
            assert forall|k: int| 0 <= k < cues.len() implies stands_behind_timing(
                ls,
                timed,
                #[trigger] cues[k],
            ) && cues[k].0 > i by {
                if k > 0 {
                    assert(cues[k] == rest[k - 1]);
                }
            }
            assert forall|j: int, k: int| 0 <= j < k < cues.len() implies (#[trigger] cues[j]).1 < (
            #[trigger] cues[k]).0 by {
                assert(cues[k] == rest[k - 1]);
                if j > 0 {
                    assert(cues[j] == rest[j - 1]);
                }
            }
        } else {
            cues_stand_behind_their_timing(ls, timed, i + 1);
            assert(cues == cues_from(ls, timed, i + 1));
        }
    }
}

} // verus!
