//! Subtitles for browsers: WebVTT from a sidecar or an embedded track.
use vstd::prelude::*;
use crate::db::subtitles;
use crate::scanner::watch::{trim_ends, without_ends};
use crate::server::player::Subs;
use crate::db::textenc;
use crate::text;

verus! {

/// A line of a SubRip file in a WebVTT file: a timing line has points where it
/// had commas.
pub open spec fn vtt_line(line: Seq<char>) -> Seq<char> {
    let line = without_ends(line, "\r"@);
    if text::holds(line, "-->"@) {
        text::replaced(line, ',', "."@)
    } else {
        line
    }
}

pub open spec fn vtt_lines(lines: Seq<Seq<char>>) -> Seq<char>
    decreases lines.len(),
{
    if lines.len() == 0 {
        seq![]
    } else {
        vtt_lines(lines.drop_last()) + vtt_line(lines.last()) + seq!['\n']
    }
}

/// SubRip text as WebVTT.
pub fn srt_to_vtt(srt: &str) -> (r: String)
    ensures
        r@ == "WEBVTT\n\n"@ + vtt_lines(text::lines_of(srt@)),
{
    let lines = text::lines(srt);
    let ghost ls = text::lines_of(srt@);
    let mut out = "WEBVTT\n\n".to_owned();
    let ghost head = out@;
    let mut i: usize = 0;
    assert(ls.take(0) =~= seq![]);
    assert(out@ =~= head + vtt_lines(ls.take(0)));
    assert(text::texts(lines@).len() == lines@.len());
    while i < lines.len()
        invariant
            i <= lines.len(),
            text::texts(lines@) == ls,
            ls.len() == lines@.len(),
            out@ == head + vtt_lines(ls.take(i as int)),
        decreases lines.len() - i,
    {
        proof {
            assert(ls[i as int] == lines@[i as int]@);
            assert(ls.take(i + 1).drop_last() =~= ls.take(i as int));
            assert(ls.take(i + 1).last() == ls[i as int]);
            reveal_strlit("\r");
        }
        let line = trim_ends(lines[i].as_str(), "\r");
        if text::contains(line.as_str(), "-->") {
            let timed = text::replace_char(line.as_str(), ',', ".");
            out.push_str(timed.as_str());
        } else {
            out.push_str(line.as_str());
        }
        out.push('\n');
        i += 1;
        assert(out@ =~= head + vtt_lines(ls.take(i as int)));
    }
    assert(ls.take(i as int) =~= ls);
    out
}

/// The file that an address names, with or without the ending.
pub fn subs_id(name: &str) -> (r: Option<i64>)
    ensures
        text::opt_int(r) == text::integer_i64(without_ends(name@, ".vtt"@)),
{
    proof {
        reveal_strlit(".vtt");
    }
    let id = trim_ends(name, ".vtt");
    text::parse_i64(id.as_str())
}

/// When a file was changed: seconds, and the nanoseconds beyond them.
#[derive(Debug, Clone, Copy)]
pub struct Moment {
    pub secs: i64,
    pub nanos: u32,
}

/// Whether something made from a media file is still good: it was made no
/// earlier than the file was last changed.
pub open spec fn is_fresh(made: Option<Moment>, media: Option<Moment>) -> bool {
    match (made, media) {
        (Some(a), Some(b)) => a.secs > b.secs || (a.secs == b.secs && a.nanos >= b.nanos),
        _ => false,
    }
}

pub fn fresh(made: Option<Moment>, media: Option<Moment>) -> (r: bool)
    ensures
        r == is_fresh(made, media),
{
    match (made, media) {
        (Some(a), Some(b)) => a.secs > b.secs || (a.secs == b.secs && a.nanos >= b.nanos),
        _ => false,
    }
}

/// What reading subtitles from one of their places came to.
#[derive(Debug)]
pub enum Look {
    /// The bytes of the sidecar, where it could be read.
    Sidecar(Option<Vec<u8>>),
    /// An earlier extraction, where it could be read.
    Cache(Option<String>),
    /// What an extraction left, where there is anything.
    Extraction(Option<String>),
}

/// What a request for subtitles comes to next.
#[derive(Debug)]
pub enum Next {
    Serve(String),
    ReadCache,
    Extract,
    NotFound,
}

/// A sidecar that reads as text is served, as WebVTT. Else an earlier
/// extraction is, unless the media file changed since, or a new one.
pub open spec fn comes_to(n: Next, look: Look, cached: Option<Moment>, media: Option<Moment>) -> bool {
    match look {
        Look::Sidecar(bytes) => match bytes {
            Some(b) if textenc::subtitle_text(b@) is Some => n matches Next::Serve(t) && t@
                == "WEBVTT\n\n"@ + vtt_lines(text::lines_of(textenc::subtitle_text(b@)->Some_0)),
            _ => if is_fresh(cached, media) {
                n is ReadCache
            } else {
                n is Extract
            },
        },
        Look::Cache(body) => match body {
            Some(b) => n matches Next::Serve(t) && t@ == b@,
            None => n is Extract,
        },
        Look::Extraction(body) => match body {
            Some(b) => n matches Next::Serve(t) && t@ == b@,
            None => n is NotFound,
        },
    }
}

/// `cached` and `media` are when the earlier extraction and the media file
/// were last changed.
pub fn serve_subs(look: Look, cached: Option<Moment>, media: Option<Moment>) -> (r: Next)
    ensures
        comes_to(r, look, cached, media),
{
    match look {
        Look::Sidecar(bytes) => {
            if let Some(b) = &bytes {
                if let Some(t) = textenc::decode_subtitle_text(b) {
                    return Next::Serve(srt_to_vtt(t.as_str()));
                }
            }
            if fresh(cached, media) {
                Next::ReadCache
            } else {
                Next::Extract
            }
        },
        Look::Cache(body) => match body {
            Some(b) => Next::Serve(b),
            None => Next::Extract,
        },
        Look::Extraction(body) => match body {
            Some(b) => Next::Serve(b),
            None => Next::NotFound,
        },
    }
}

/// How many places are left to look at after one.
pub open spec fn places_left(look: Look) -> int {
    match look {
        Look::Sidecar(_) => 2,
        Look::Cache(_) => 1,
        Look::Extraction(_) => 0,
    }
}

/// A request for subtitles is answered: each place that it is sent to leaves
/// fewer behind it, and after an extraction there is none.
pub proof fn requests_are_answered(n: Next, look: Look, cached: Option<Moment>, media: Option<Moment>)
    requires
        comes_to(n, look, cached, media),
    ensures
        n is ReadCache ==> forall|body: Option<String>|
            #[trigger] places_left(Look::Cache(body)) < places_left(look),
        n is Extract ==> forall|body: Option<String>|
            #[trigger] places_left(Look::Extraction(body)) < places_left(look),
        places_left(look) == 0 ==> n is Serve || n is NotFound,
{
}

/// What a look at a file's subtitle tracks came to.
#[derive(Debug, Clone, Copy, PartialEq, Eq, Structural)]
pub enum Probed {
    /// The look itself failed: nothing is known.
    Failed,
    /// The ordinal (among subtitle streams) of the track worth showing.
    Track(usize),
    /// There is no text track (bitmap PGS/VobSub can't become WebVTT): worth
    /// remembering, so that a program without captions costs one probe rather
    /// than one per page view.
    Nothing,
}

/// The text subtitle track worth showing — full English captions, SDH
/// preferred, forced tracks last — as ffprobe listed the tracks.
pub fn text_sub_stream(success: bool, output: &Vec<u8>) -> (r: Probed)
    ensures
        !success ==> r == Probed::Failed,
        success ==> ({
            let tracks = subtitles::census(text::lines_of(text::lossy(output@))).tracks;
            match r {
                Probed::Failed => false,
                Probed::Track(n) => exists|i: int|
                    subtitles::is_best(tracks, i) && (#[trigger] tracks[i]).ordinal == n,
                Probed::Nothing => forall|i: int| 0 <= i < tracks.len() ==> !(#[trigger] tracks[i]).text(),
            }
        }),
{
    if !success {
        return Probed::Failed;
    }
    let listing = text::from_utf8_lossy(output);
    let tracks = subtitles::parse_ffprobe(listing.as_str());
    let ghost views = subtitles::track_views(tracks@);
    assert(views.len() == tracks@.len());
    match subtitles::best_text_track(&tracks) {
        Some(t) => {
            proof {
                let i = choose|i: int|
                    #![trigger tracks@[i]]
                    subtitles::is_best(views, i) && *t == tracks@[i];
                assert(views[i] == tracks@[i]@);
            }
            Probed::Track(t.ordinal)
        },
        None => {
            proof {
                assert forall|i: int| 0 <= i < views.len() implies !(#[trigger] views[i]).text() by {
                    assert(views[i] == tracks@[i]@);
                }
            }
            Probed::Nothing
        },
    }
}

/// The arguments that have ffmpeg write a subtitle track as WebVTT (demux only,
/// no decoding).
pub fn extract_args(media: &str, ordinal: usize) -> (r: Vec<String>)
    ensures
        text::texts(r@) == seq![
            "-v"@,
            "error"@,
            "-nostdin"@,
            "-i"@,
            media@,
            "-map"@,
            "0:s:"@ + text::decimal(ordinal as int),
            "-f"@,
            "webvtt"@,
            "-"@,
        ],
{
    let mut out: Vec<String> = Vec::new();
    text::push_text(&mut out, "-v");
    text::push_text(&mut out, "error");
    text::push_text(&mut out, "-nostdin");
    text::push_text(&mut out, "-i");
    text::push_text(&mut out, media);
    text::push_text(&mut out, "-map");
    let mut map = "0:s:".to_owned();
    let n = text::dec_usize(ordinal);
    map.push_str(n.as_str());
    text::push_text(&mut out, map.as_str());
    text::push_text(&mut out, "-f");
    text::push_text(&mut out, "webvtt");
    text::push_text(&mut out, "-");
    assert(text::texts(out@) =~= seq![
        "-v"@,
        "error"@,
        "-nostdin"@,
        "-i"@,
        media@,
        "-map"@,
        "0:s:"@ + text::decimal(ordinal as int),
        "-f"@,
        "webvtt"@,
        "-"@,
    ]);
    out
}

/// Whether an extraction left something to cache. Files with only bitmap tracks
/// have nothing extractable and leave no cache file.
pub fn extracted(success: bool, output: &Vec<u8>) -> (r: bool)
    ensures
        r == (success && output@.len() > 0),
{
    success && output.len() > 0
}

/// Where the captions of an item come from, as its player shows them.
pub fn subs_of(sidecar: bool, cached: bool, extracting: bool, has_track: bool) -> (r: Subs)
    ensures
        r == (if sidecar || cached {
            Subs::Instant
        } else if extracting || has_track {
            Subs::Extract
        } else {
            Subs::Missing
        }),
{
    if sidecar || cached {
        Subs::Instant
    } else if extracting || has_track {
        Subs::Extract
    } else {
        Subs::Missing
    }
}

proof fn lemma_points(s: Seq<char>)
    ensures
        text::replaced(s, ',', "."@).len() == s.len(),
        forall|i: int|
            0 <= i < s.len() ==> #[trigger] text::replaced(s, ',', "."@)[i] == (if s[i] == ',' {
                '.'
            } else {
                s[i]
            }),
    decreases s.len(),
{
    reveal_strlit(".");
    if s.len() > 0 {
        let head = s.drop_last();
        lemma_points(head);
        let r = text::replaced(s, ',', "."@);
        let h = text::replaced(head, ',', "."@);
        assert forall|i: int| 0 <= i < s.len() implies #[trigger] r[i] == (if s[i] == ',' {
            '.'
        } else {
            s[i]
        }) by {
            if i < head.len() {
                assert(head[i] == s[i]);
                assert(r[i] == h[i]);
            }
        }
    }
}

/// A timing line has points where it had commas, and is otherwise the same;
/// every other line stays as it is.
pub proof fn only_timing_lines_change(line: Seq<char>, i: int)
    requires
        without_ends(line, "\r"@) == line,
        0 <= i < line.len(),
    ensures
        text::holds(line, "-->"@) ==> vtt_line(line).len() == line.len() && vtt_line(line)[i] == (
        if line[i] == ',' {
            '.'
        } else {
            line[i]
        }),
        !text::holds(line, "-->"@) ==> vtt_line(line) == line,
{
    lemma_points(line);
}

/// Every line is kept, in its order, with a line feed behind it.
pub proof fn every_line_is_kept(lines: Seq<Seq<char>>, line: Seq<char>)
    ensures
        vtt_lines(seq![]).len() == 0,
        vtt_lines(lines.push(line)) == vtt_lines(lines) + vtt_line(line) + seq!['\n'],
{
    assert(lines.push(line).drop_last() =~= lines);
}

/// What was made no earlier than its file was changed is good; without both
/// moments nothing is.
pub proof fn what_is_older_than_its_file_is_stale(a: Moment, b: Moment)
    ensures
        a.secs > b.secs ==> is_fresh(Some(a), Some(b)) && !is_fresh(Some(b), Some(a)),
        a.secs == b.secs ==> (is_fresh(Some(a), Some(b)) <==> a.nanos >= b.nanos),
        is_fresh(Some(a), Some(a)),
        !is_fresh(None, Some(b)) && !is_fresh(Some(a), None) && !is_fresh(None, None),
{
}

} // verus!
