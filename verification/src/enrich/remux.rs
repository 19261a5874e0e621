//! Remux MKV files to MP4 without touching the video.
//!
//! Matroska trips up browsers (Firefox won't range-stream it, Safari won't
//! open it) while the streams inside are usually fine. Equivalent to
//!   ffmpeg -i in.mkv -map 0 -c copy -c:s mov_text -tag:v hvc1 -movflags +faststart out.mp4
//! with one addition: Dolby Digital (AC-3 / E-AC-3) audio, which Chrome and
//! Firefox cannot decode in any container, gets a stereo AAC twin inserted
//! *ahead* of it as the default track. The original track is kept for
//! players and receivers that prefer it. Nothing is ever re-encoded except
//! that added audio track.
//!
//! Like subtitle embedding this replaces a whole media file, so the same
//! discipline applies: strict preconditions (only codecs MP4 carries
//! natively, no Dolby Vision), mux into a temp file in the same directory,
//! ffprobe verification, then rename into place and remove the original.
//! Sidecars (.nfo, -poster.jpg, .srt) share the stem and remain valid.
//!
//! Bitmap subtitles (PGS/VobSub) cannot live in MP4 and normally
//! disqualify a file — unless a usable same-stem .srt sidecar exists, in
//! which case the bitmap tracks are dropped and the sidecar takes over.
//! Whenever no text subtitle track survives and a sidecar exists, the
//! remux embeds it as the mov_text track in the same pass (the separate
//! embed step would otherwise rewrite the new .mp4 a second time).
use vstd::prelude::*;
use crate::db::textenc;
use crate::paths;
use crate::text;

verus! {

#[derive(Debug, Clone, Copy, PartialEq, Eq, Structural)]
pub enum StreamKind {
    Video,
    Audio,
    Subtitle,
    /// Attachments (fonts, cover art) and data tracks: dropped, MP4 has no
    /// place for them.
    Other,
}

#[derive(Debug, Clone)]
pub struct Stream {
    /// Absolute stream index within the file (ffmpeg's 0:N).
    pub index: usize,
    pub kind: StreamKind,
    pub codec: String,
    pub language: Option<String>,
    /// Carries a Dolby Vision configuration record.
    pub dovi: bool,
}

#[verifier::ext_equal]
pub struct StreamView {
    pub index: usize,
    pub kind: StreamKind,
    pub codec: Seq<char>,
    pub language: Option<Seq<char>>,
    pub dovi: bool,
}

impl StreamView {
    pub open spec fn blank() -> StreamView {
        StreamView {
            index: 0,
            kind: StreamKind::Other,
            codec: seq![],
            language: None,
            dovi: false,
        }
    }
}

impl View for Stream {
    type V = StreamView;

    open spec fn view(&self) -> StreamView {
        StreamView {
            index: self.index,
            kind: self.kind,
            codec: self.codec@,
            language: text::opt_text(self.language),
            dovi: self.dovi,
        }
    }
}

pub open spec fn stream_views(v: Seq<Stream>) -> Seq<StreamView> {
    Seq::new(v.len(), |i: int| v[i]@)
}

/// Stream census plus duration (in seconds, as written), as ffprobe reports
/// them.
#[derive(Debug)]
pub struct Probe {
    pub streams: Vec<Stream>,
    pub duration: String,
}

#[verifier::ext_equal]
pub struct ProbeView {
    pub streams: Seq<StreamView>,
    pub duration: Seq<char>,
}

impl View for Probe {
    type V = ProbeView;

    open spec fn view(&self) -> ProbeView {
        ProbeView { streams: stream_views(self.streams@), duration: self.duration@ }
    }
}

/// The arguments that make ffprobe list what [`parse_probe`] reads. In the
/// wrapped form the [STREAM]/[SIDE_DATA] markers delimit streams.
pub const PROBE_ARGS: [&'static str; 6] = [
    "-v",
    "error",
    "-show_entries",
    "stream=index,codec_type,codec_name:stream_tags=language:stream_side_data=side_data_type:format=duration",
    "-of",
    "default",
];

/// A listing read so far: the streams, the one that is open, the duration.
#[verifier::ext_equal]
pub struct Listing {
    pub streams: Seq<StreamView>,
    pub open: Option<StreamView>,
    pub duration: Seq<char>,
}

pub open spec fn kind_named(word: Seq<char>) -> StreamKind {
    if word == "video"@ {
        StreamKind::Video
    } else if word == "audio"@ {
        StreamKind::Audio
    } else if word == "subtitle"@ {
        StreamKind::Subtitle
    } else {
        StreamKind::Other
    }
}

pub open spec fn index_or_zero(word: Seq<char>) -> usize {
    match text::integer_usize(word) {
        Some(n) => n as usize,
        None => 0,
    }
}

/// A stream with what one line says of it. An empty or undetermined language
/// is none.
pub open spec fn stream_line(s: StreamView, line: Seq<char>) -> StreamView {
    if text::begins(line, "index="@) {
        StreamView { index: index_or_zero(line.skip("index="@.len() as int)), ..s }
    } else if text::begins(line, "codec_type="@) {
        StreamView { kind: kind_named(line.skip("codec_type="@.len() as int)), ..s }
    } else if text::begins(line, "codec_name="@) {
        StreamView { codec: line.skip("codec_name="@.len() as int), ..s }
    } else if text::begins(line, "TAG:language="@) {
        let l = line.skip("TAG:language="@.len() as int);
        StreamView {
            language: if l.len() > 0 && l != "und"@ {
                Some(l)
            } else {
                None
            },
            ..s
        }
    } else if text::begins(line, "side_data_type="@) {
        let kind = text::ascii_lower(line.skip("side_data_type="@.len() as int));
        StreamView { dovi: s.dovi || text::holds(kind, "dovi"@), ..s }
    } else {
        s
    }
}

/// What one line adds to a listing.
pub open spec fn listing_line(l: Listing, line: Seq<char>) -> Listing {
    if line == "[STREAM]"@ {
        Listing { open: Some(StreamView::blank()), ..l }
    } else if line == "[/STREAM]"@ {
        match l.open {
            Some(s) => Listing { streams: l.streams.push(s), open: None, ..l },
            None => l,
        }
    } else if text::begins(line, "duration="@) {
        Listing { duration: line.skip("duration="@.len() as int), ..l }
    } else {
        match l.open {
            Some(s) => Listing { open: Some(stream_line(s, line)), ..l },
            None => l,
        }
    }
}

pub open spec fn listing(lines: Seq<Seq<char>>) -> Listing
    decreases lines.len(),
{
    if lines.len() == 0 {
        Listing { streams: seq![], open: None, duration: seq![] }
    } else {
        listing_line(listing(lines.drop_last()), lines.last())
    }
}

fn kind_of(word: &str) -> (r: StreamKind)
    ensures
        r == kind_named(word@),
{
    if text::same(word, "video") {
        StreamKind::Video
    } else if text::same(word, "audio") {
        StreamKind::Audio
    } else if text::same(word, "subtitle") {
        StreamKind::Subtitle
    } else {
        StreamKind::Other
    }
}

fn read_stream_line(s: Stream, line: &str) -> (r: Stream)
    ensures
        r@ == stream_line(s@, line@),
{
    let mut s = s;
    if let Some(v) = text::strip_prefix(line, "index=") {
        s.index = match text::parse_usize(v.as_str()) {
            Some(n) => n,
            None => 0,
        };
    } else if let Some(v) = text::strip_prefix(line, "codec_type=") {
        s.kind = kind_of(v.as_str());
    } else if let Some(v) = text::strip_prefix(line, "codec_name=") {
        s.codec = v;
    } else if let Some(v) = text::strip_prefix(line, "TAG:language=") {
        s.language = if !v.as_str().is_empty() && !text::same(v.as_str(), "und") {
            Some(v)
        } else {
            None
        };
    } else if let Some(v) = text::strip_prefix(line, "side_data_type=") {
        let kind = text::to_ascii_lowercase(v.as_str());
        if text::contains(kind.as_str(), "dovi") {
            s.dovi = true;
        }
    }
    s
}

/// ffprobe's default writer emits one [STREAM] block per stream with its
/// side-data blocks nested inside; the format block comes last.
pub fn parse_probe(text: &str) -> (r: Probe)
    ensures
        r@.streams == listing(text::lines_of(text@)).streams,
        r@.duration == listing(text::lines_of(text@)).duration,
{
    let lines = text::lines(text);
    let ghost ls = text::lines_of(text@);
    let mut streams: Vec<Stream> = Vec::new();
    let mut duration = String::new();
    let mut open: Option<Stream> = None;
    let mut i: usize = 0;
    assert(ls.take(0) =~= seq![]);
    assert(stream_views(streams@) =~= seq![]);
    assert(duration@ =~= seq![]);
    while i < lines.len()
        invariant
            i <= lines.len(),
            ls == text::texts(lines@),
            stream_views(streams@) == listing(ls.take(i as int)).streams,
            duration@ == listing(ls.take(i as int)).duration,
            (match open {
                Some(t) => Some(t@),
                None => None,
            }) == listing(ls.take(i as int)).open,
        decreases lines.len() - i,
    {
        proof {
            assert(ls.take(i + 1).drop_last() =~= ls.take(i as int));
            assert(ls.take(i + 1).last() == lines@[i as int]@);
        }
        let line = lines[i].as_str();
        if text::same(line, "[STREAM]") {
            let blank = Stream {
                index: 0,
                kind: StreamKind::Other,
                codec: String::new(),
                language: None,
                dovi: false,
            };
            assert(blank@ =~= StreamView::blank());
            open = Some(blank);
        } else if text::same(line, "[/STREAM]") {
            match open.take() {
                Some(s) => {
                    assert(stream_views(streams@.push(s)) =~= stream_views(streams@).push(s@));
                    streams.push(s);
                },
                None => {},
            }
        } else if let Some(d) = text::strip_prefix(line, "duration=") {
            duration = d;
        } else {
            match open.take() {
                Some(s) => {
                    open = Some(read_stream_line(s, line));
                },
                None => {},
            }
        }
        i += 1;
    }
    assert(ls.take(i as int) =~= ls);
    Probe { streams, duration }
}

/// Video codecs MP4 carries and browsers can (in some combination) play.
pub const VIDEO_OK: [&'static str; 3] = ["h264", "hevc", "av1"];

/// Audio codecs copied as-is. FLAC, Vorbis, DTS, TrueHD and PCM are either
/// experimental in MP4 or not carried at all — files with those are skipped.
pub const AUDIO_COPY: [&'static str; 6] = ["aac", "mp3", "opus", "alac", "ac3", "eac3"];

/// Audio codecs that also get a browser-playable AAC twin.
pub const AUDIO_TWIN: [&'static str; 2] = ["ac3", "eac3"];

pub const TEXT_SUBS: [&'static str; 8] = [
    "subrip",
    "srt",
    "ass",
    "ssa",
    "mov_text",
    "webvtt",
    "text",
    "subviewer",
];

pub const BITMAP_SUBS: [&'static str; 4] = [
    "hdmv_pgs_subtitle",
    "dvd_subtitle",
    "dvb_subtitle",
    "xsub",
];

/// What the remux will do, decided from the probe (and whether a usable
/// .srt sidecar sits beside the file).
#[derive(Debug)]
pub struct Plan {
    pub video: Vec<usize>,
    /// (input index, gets an AAC twin)
    pub audio: Vec<(usize, bool)>,
    pub subtitles: Vec<usize>,
    /// Mux the .srt sidecar in as the mov_text subtitle track.
    pub embed_srt: bool,
    pub hevc: bool,
    /// Human-readable caveats worth a line in the log (styling lost, ...).
    pub notes: Vec<String>,
}

#[verifier::ext_equal]
pub struct PlanView {
    pub video: Seq<usize>,
    pub audio: Seq<(usize, bool)>,
    pub subtitles: Seq<usize>,
    pub embed_srt: bool,
    pub hevc: bool,
    pub notes: Seq<Seq<char>>,
}

impl View for Plan {
    type V = PlanView;

    open spec fn view(&self) -> PlanView {
        PlanView {
            video: self.video@,
            audio: self.audio@,
            subtitles: self.subtitles@,
            embed_srt: self.embed_srt,
            hevc: self.hevc,
            notes: text::texts(self.notes@),
        }
    }
}

/// The number of tracks that get a twin.
pub open spec fn twin_count(audio: Seq<(usize, bool)>) -> nat
    decreases audio.len(),
{
    if audio.len() == 0 {
        0
    } else {
        twin_count(audio.drop_last()) + if audio.last().1 {
            1nat
        } else {
            0nat
        }
    }
}

proof fn lemma_twin_count(audio: Seq<(usize, bool)>)
    ensures
        twin_count(audio) <= audio.len(),
    decreases audio.len(),
{
    if audio.len() > 0 {
        lemma_twin_count(audio.drop_last());
    }
}

impl Plan {
    pub fn twins(&self) -> (r: usize)
        ensures
            r == twin_count(self.audio@),
    {
        let mut n: usize = 0;
        let mut i: usize = 0;
        assert(self.audio@.take(0) =~= seq![]);
        while i < self.audio.len()
            invariant
                i <= self.audio.len(),
                n == twin_count(self.audio@.take(i as int)),
                n <= i,
            decreases self.audio.len() - i,
        {
            assert(self.audio@.take(i + 1).drop_last() =~= self.audio@.take(i as int));
            if self.audio[i].1 {
                n += 1;
            }
            i += 1;
        }
        assert(self.audio@.take(i as int) =~= self.audio@);
        n
    }
}

/// The plan with one more stream of the file, or why the file is refused.
pub open spec fn admitted(p: PlanView, s: StreamView, srt: bool) -> Result<PlanView, Seq<char>> {
    match s.kind {
        StreamKind::Video => if s.dovi {
            Err("Dolby Vision (MP4 signalling is unreliable)"@)
        } else if !text::listed(s.codec, VIDEO_OK@) {
            Err("video codec "@ + s.codec + " is not MP4/browser material"@)
        } else {
            Ok(
                PlanView {
                    hevc: p.hevc || s.codec == "hevc"@,
                    video: p.video.push(s.index),
                    ..p
                },
            )
        },
        StreamKind::Audio => if !text::listed(s.codec, AUDIO_COPY@) {
            Err("audio codec "@ + s.codec + " is not MP4-safe"@)
        } else {
            Ok(PlanView { audio: p.audio.push((s.index, text::listed(s.codec, AUDIO_TWIN@))), ..p })
        },
        StreamKind::Subtitle => if text::listed(s.codec, BITMAP_SUBS@) {
            if !srt {
                Err("bitmap subtitles ("@ + s.codec + ") cannot live in MP4"@)
            } else {
                Ok(
                    PlanView {
                        notes: p.notes.push(
                            s.codec + " bitmap subtitles dropped, .srt sidecar covers them"@,
                        ),
                        ..p
                    },
                )
            }
        } else if !text::listed(s.codec, TEXT_SUBS@) {
            Err("subtitle codec "@ + s.codec + " unknown"@)
        } else {
            Ok(
                PlanView {
                    notes: if s.codec == "ass"@ || s.codec == "ssa"@ {
                        p.notes.push("ASS subtitle styling reduced to plain mov_text"@)
                    } else {
                        p.notes
                    },
                    subtitles: p.subtitles.push(s.index),
                    ..p
                },
            )
        },
        StreamKind::Other => Ok(p),
    }
}

/// The streams of a file gone through in order, up to the first that
/// refuses it.
pub open spec fn gone_through(streams: Seq<StreamView>, srt: bool) -> Result<PlanView, Seq<char>>
    decreases streams.len(),
{
    if streams.len() == 0 {
        Ok(
            PlanView {
                video: seq![],
                audio: seq![],
                subtitles: seq![],
                embed_srt: false,
                hevc: false,
                notes: seq![],
            },
        )
    } else {
        match gone_through(streams.drop_last(), srt) {
            Err(why) => Err(why),
            Ok(p) => admitted(p, streams.last(), srt),
        }
    }
}

/// A list without the items that repeat the one before them.
pub open spec fn deduped(s: Seq<Seq<char>>) -> Seq<Seq<char>>
    decreases s.len(),
{
    if s.len() <= 1 {
        s
    } else {
        let head = deduped(s.drop_last());
        if s[s.len() - 2] == s.last() {
            head
        } else {
            head.push(s.last())
        }
    }
}

/// The whole decision.
pub open spec fn planned(streams: Seq<StreamView>, srt: bool) -> Result<PlanView, Seq<char>> {
    match gone_through(streams, srt) {
        Err(why) => Err(why),
        Ok(p) => if p.video.len() == 0 {
            Err("no video stream"@)
        } else if p.audio.len() == 0 {
            Err("no audio stream"@)
        } else if srt && p.subtitles.len() == 0 {
            Ok(
                PlanView {
                    embed_srt: true,
                    notes: deduped(p.notes.push(".srt sidecar embedded as the subtitle track"@)),
                    ..p
                },
            )
        } else {
            Ok(PlanView { notes: deduped(p.notes), ..p })
        },
    }
}

fn reason(before: &str, codec: &str, after: &str) -> (r: String)
    ensures
        r@ == before@ + codec@ + after@,
{
    let mut out = before.to_owned();
    out.push_str(codec);
    out.push_str(after);
    out
}

fn take_stream(p: &mut Plan, s: &Stream, srt: bool) -> (r: Result<(), String>)
    ensures
        match r {
            Ok(_) => admitted(old(p)@, s@, srt) == Ok::<PlanView, Seq<char>>(final(p)@),
            Err(why) => admitted(old(p)@, s@, srt) == Err::<PlanView, Seq<char>>(why@),
        },
{
    let codec = s.codec.as_str();
    match s.kind {
        StreamKind::Video => {
            if s.dovi {
                return Err("Dolby Vision (MP4 signalling is unreliable)".to_owned());
            }
            if !text::is_one_of(codec, &VIDEO_OK) {
                return Err(reason("video codec ", codec, " is not MP4/browser material"));
            }
            if text::same(codec, "hevc") {
                p.hevc = true;
            }
            p.video.push(s.index);
        },
        StreamKind::Audio => {
            if !text::is_one_of(codec, &AUDIO_COPY) {
                return Err(reason("audio codec ", codec, " is not MP4-safe"));
            }
            p.audio.push((s.index, text::is_one_of(codec, &AUDIO_TWIN)));
        },
        StreamKind::Subtitle => {
            if text::is_one_of(codec, &BITMAP_SUBS) {
                if !srt {
                    return Err(reason("bitmap subtitles (", codec, ") cannot live in MP4"));
                }
                let mut note = s.codec.clone();
                note.push_str(" bitmap subtitles dropped, .srt sidecar covers them");
                text::push_text(&mut p.notes, note.as_str());
            } else {
                if !text::is_one_of(codec, &TEXT_SUBS) {
                    return Err(reason("subtitle codec ", codec, " unknown"));
                }
                if text::same(codec, "ass") || text::same(codec, "ssa") {
                    text::push_text(&mut p.notes, "ASS subtitle styling reduced to plain mov_text");
                }
                p.subtitles.push(s.index);
            }
        },
        StreamKind::Other => {},
    }
    Ok(())
}

fn dedup(notes: &Vec<String>) -> (r: Vec<String>)
    ensures
        text::texts(r@) == deduped(text::texts(notes@)),
{
    let ghost ns = text::texts(notes@);
    let mut out: Vec<String> = Vec::new();
    let mut i: usize = 0;
    assert(text::texts(out@) =~= deduped(ns.take(0)));
    while i < notes.len()
        invariant
            i <= notes.len(),
            ns == text::texts(notes@),
            text::texts(out@) == deduped(ns.take(i as int)),
        decreases notes.len() - i,
    {
        assert(ns.take(i + 1).drop_last() =~= ns.take(i as int));
        if i > 0 && text::same(notes[i - 1].as_str(), notes[i].as_str()) {
            assert(ns[i as int] == ns[i - 1]);
        } else {
            if i > 0 {
                assert(ns[i as int] != ns[i - 1]);
            }
            text::push_text(&mut out, notes[i].as_str());
            assert(text::texts(out@) =~= deduped(ns.take(i + 1)));
        }
        i += 1;
    }
    assert(ns.take(i as int) =~= ns);
    out
}

/// Decide whether the file is a clean remux candidate. Err carries the
/// reason it is not. `srt_sidecar` says a usable same-stem .srt exists:
/// with one, bitmap subtitle tracks are dropped instead of disqualifying
/// the file, and it is embedded whenever no text track would survive.
pub fn plan(probe: &Probe, srt_sidecar: bool) -> (r: Result<Plan, String>)
    ensures
        match r {
            Ok(p) => planned(probe@.streams, srt_sidecar) == Ok::<PlanView, Seq<char>>(p@),
            Err(why) => planned(probe@.streams, srt_sidecar) == Err::<PlanView, Seq<char>>(why@),
        },
{
    let ghost ss = probe@.streams;
    let mut p = Plan {
        video: Vec::new(),
        audio: Vec::new(),
        subtitles: Vec::new(),
        embed_srt: false,
        hevc: false,
        notes: Vec::new(),
    };
    let mut i: usize = 0;
    assert(ss.take(0) =~= seq![]);
    assert(gone_through(ss.take(0), srt_sidecar)->Ok_0 =~= p@);
    while i < probe.streams.len()
        invariant
            i <= probe.streams.len(),
            ss == stream_views(probe.streams@),
            gone_through(ss.take(i as int), srt_sidecar) == Ok::<PlanView, Seq<char>>(p@),
            ss == probe@.streams,
        decreases probe.streams.len() - i,
    {
        proof {
            assert(ss.take(i + 1).drop_last() =~= ss.take(i as int));
            assert(ss.take(i + 1).last() == probe.streams@[i as int]@);
        }
        if let Err(why) = take_stream(&mut p, &probe.streams[i], srt_sidecar) {
            proof {
                lemma_refused_early(ss, i + 1, srt_sidecar);
            }
            return Err(why);
        }
        i += 1;
    }
    assert(ss.take(i as int) =~= ss);
    if p.video.len() == 0 {
        return Err("no video stream".to_owned());
    }
    if p.audio.len() == 0 {
        return Err("no audio stream".to_owned());
    }
    if srt_sidecar && p.subtitles.len() == 0 {
        p.embed_srt = true;
        text::push_text(&mut p.notes, ".srt sidecar embedded as the subtitle track");
    }
    p.notes = dedup(&p.notes);
    Ok(p)
}

/// A refusal by an early stream stands whatever follows.
proof fn lemma_refused_early(streams: Seq<StreamView>, n: int, srt: bool)
    requires
        0 <= n <= streams.len(),
        gone_through(streams.take(n), srt) is Err,
    ensures
        gone_through(streams, srt) == gone_through(streams.take(n), srt),
    decreases streams.len(),
{
    if n < streams.len() {
        assert(streams.drop_last().take(n) =~= streams.take(n));
        lemma_refused_early(streams.drop_last(), n, srt);
    } else {
        assert(streams.take(n) =~= streams);
    }
}

// --------------------------------------------------------- the invocation

pub open spec fn input_stream(idx: usize) -> Seq<char> {
    "0:"@ + text::decimal(idx as int)
}

/// A `-map` for each of these input streams.
pub open spec fn maps(idxs: Seq<usize>) -> Seq<Seq<char>>
    decreases idxs.len(),
{
    if idxs.len() == 0 {
        seq![]
    } else {
        maps(idxs.drop_last()) + seq!["-map"@, input_stream(idxs.last())]
    }
}

/// The audio tracks mapped: each AAC twin immediately before its original.
pub open spec fn audio_maps(audio: Seq<(usize, bool)>) -> Seq<Seq<char>>
    decreases audio.len(),
{
    if audio.len() == 0 {
        seq![]
    } else {
        let (idx, twin) = audio.last();
        let once = seq!["-map"@, input_stream(idx)];
        audio_maps(audio.drop_last()) + if twin {
            once + once
        } else {
            once
        }
    }
}

/// The number of output tracks that these audio tracks become.
pub open spec fn outputs(audio: Seq<(usize, bool)>) -> nat {
    audio.len() + twin_count(audio)
}

pub open spec fn option(name: Seq<char>, ordinal: int) -> Seq<char> {
    name + text::decimal(ordinal)
}

/// How the twin at this ordinal is encoded. MP4 has no per-track title; the
/// handler name is what players list in their audio-track menu.
pub open spec fn twin_options(n: int) -> Seq<Seq<char>> {
    seq![
        option("-c:a:"@, n),
        "aac"@,
        option("-b:a:"@, n),
        "192k"@,
        option("-ac:a:"@, n),
        "2"@,
        option("-metadata:s:a:"@, n),
        "handler_name=Stereo (AAC)"@,
        option("-disposition:a:"@, n),
        "default"@,
    ]
}

/// Originals: default only when nothing precedes them.
pub open spec fn original_options(n: int) -> Seq<Seq<char>> {
    seq![
        option("-disposition:a:"@, n),
        if n == 0 {
            "default"@
        } else {
            "0"@
        },
    ]
}

/// Codec and disposition options, by output audio ordinal.
pub open spec fn audio_options(audio: Seq<(usize, bool)>) -> Seq<Seq<char>>
    decreases audio.len(),
{
    if audio.len() == 0 {
        seq![]
    } else {
        let n = outputs(audio.drop_last()) as int;
        audio_options(audio.drop_last()) + if audio.last().1 {
            twin_options(n) + original_options(n + 1)
        } else {
            original_options(n)
        }
    }
}

pub open spec fn when(yes: bool, words: Seq<Seq<char>>) -> Seq<Seq<char>> {
    if yes {
        words
    } else {
        seq![]
    }
}

/// The whole invocation.
pub open spec fn invocation(
    p: PlanView,
    input: Seq<char>,
    srt: Option<Seq<char>>,
    output: Seq<char>,
) -> Seq<Seq<char>> {
    seq!["-v"@, "error"@, "-nostdin"@, "-y"@, "-i"@, input] + (match srt {
        Some(s) => seq!["-i"@, s],
        None => seq![],
    }) + maps(p.video) + audio_maps(p.audio) + maps(p.subtitles) + when(
        srt is Some,
        seq!["-map"@, "1:0"@],
    ) + seq!["-c"@, "copy"@, "-c:s"@, "mov_text"@] + when(
        srt is Some,
        seq!["-metadata:s:s:0"@, "language=eng"@],
    ) + audio_options(p.audio) + when(p.hevc, seq!["-tag:v"@, "hvc1"@]) + seq![
        "-movflags"@,
        "+faststart"@,
        output,
    ]
}

fn push_map(args: &mut Vec<String>, idx: usize)
    ensures
        text::texts(final(args)@) == text::texts(old(args)@) + seq!["-map"@, input_stream(idx)],
{
    text::push_text(args, "-map");
    let mut s = "0:".to_owned();
    s.push_str(text::dec_usize(idx).as_str());
    text::push_text(args, s.as_str());
    assert(text::texts(args@) =~= text::texts(old(args)@) + seq!["-map"@, input_stream(idx)]);
}

fn push_maps(args: &mut Vec<String>, idxs: &Vec<usize>)
    ensures
        text::texts(final(args)@) == text::texts(old(args)@) + maps(idxs@),
{
    let mut i: usize = 0;
    assert(idxs@.take(0) =~= seq![]);
    assert(text::texts(args@) =~= text::texts(old(args)@) + maps(idxs@.take(0)));
    while i < idxs.len()
        invariant
            i <= idxs.len(),
            text::texts(args@) == text::texts(old(args)@) + maps(idxs@.take(i as int)),
        decreases idxs.len() - i,
    {
        assert(idxs@.take(i + 1).drop_last() =~= idxs@.take(i as int));
        push_map(args, idxs[i]);
        i += 1;
        assert(text::texts(args@) =~= text::texts(old(args)@) + maps(idxs@.take(i as int)));
    }
    assert(idxs@.take(i as int) =~= idxs@);
}

fn push_audio_maps(args: &mut Vec<String>, audio: &Vec<(usize, bool)>)
    ensures
        text::texts(final(args)@) == text::texts(old(args)@) + audio_maps(audio@),
{
    let mut i: usize = 0;
    assert(audio@.take(0) =~= seq![]);
    assert(text::texts(args@) =~= text::texts(old(args)@) + audio_maps(audio@.take(0)));
    while i < audio.len()
        invariant
            i <= audio.len(),
            text::texts(args@) == text::texts(old(args)@) + audio_maps(audio@.take(i as int)),
        decreases audio.len() - i,
    {
        assert(audio@.take(i + 1).drop_last() =~= audio@.take(i as int));
        if audio[i].1 {
            push_map(args, audio[i].0);
        }
        push_map(args, audio[i].0);
        i += 1;
        assert(text::texts(args@) =~= text::texts(old(args)@) + audio_maps(audio@.take(i as int)));
    }
    assert(audio@.take(i as int) =~= audio@);
}

fn push_option(args: &mut Vec<String>, name: &str, ordinal: usize, value: &str)
    ensures
        text::texts(final(args)@) == text::texts(old(args)@).push(
            option(name@, ordinal as int),
        ).push(value@),
{
    let mut s = name.to_owned();
    s.push_str(text::dec_usize(ordinal).as_str());
    text::push_text(args, s.as_str());
    text::push_text(args, value);
}

fn push_audio_options(args: &mut Vec<String>, audio: &Vec<(usize, bool)>)
    requires
        2 * audio@.len() <= usize::MAX,
    ensures
        text::texts(final(args)@) == text::texts(old(args)@) + audio_options(audio@),
{
    let mut i: usize = 0;
    let mut n: usize = 0;
    assert(audio@.take(0) =~= seq![]);
    assert(text::texts(args@) =~= text::texts(old(args)@) + audio_options(audio@.take(0)));
    while i < audio.len()
        invariant
            i <= audio.len(),
            2 * audio@.len() <= usize::MAX,
            n == outputs(audio@.take(i as int)),
            text::texts(args@) == text::texts(old(args)@) + audio_options(audio@.take(i as int)),
        decreases audio.len() - i,
    {
        proof {
            assert(audio@.take(i + 1).drop_last() =~= audio@.take(i as int));
            lemma_twin_count(audio@.take(i as int));
        }
        if audio[i].1 {
            push_option(args, "-c:a:", n, "aac");
            push_option(args, "-b:a:", n, "192k");
            push_option(args, "-ac:a:", n, "2");
            push_option(args, "-metadata:s:a:", n, "handler_name=Stereo (AAC)");
            push_option(args, "-disposition:a:", n, "default");
            n += 1;
        }
        push_option(
            args,
            "-disposition:a:",
            n,
            if n == 0 {
                "default"
            } else {
                "0"
            },
        );
        n += 1;
        i += 1;
        assert(text::texts(args@) =~= text::texts(old(args)@) + audio_options(
            audio@.take(i as int),
        ));
    }
    assert(audio@.take(i as int) =~= audio@);
}

/// The ffmpeg invocation for a plan. Output streams are ordered video,
/// audio (each AAC twin immediately before its original), subtitles.
/// `srt` is the sidecar to mux in when the plan says embed_srt — a second
/// input, mapped as the only subtitle track.
pub fn ffmpeg_args(plan: &Plan, input: &str, srt: Option<String>, output: &str) -> (r: Vec<String>)
    requires
        2 * plan.audio@.len() <= usize::MAX,
    ensures
        text::texts(r@) == invocation(plan@, input@, text::opt_text(srt), output@),
{
    let ghost view = text::opt_text(srt);
    let mut args: Vec<String> = Vec::new();
    text::push_words(&mut args, &["-v", "error", "-nostdin", "-y", "-i"]);
    text::push_text(&mut args, input);
    assert(text::texts(args@) =~= seq!["-v"@, "error"@, "-nostdin"@, "-y"@, "-i"@, input@]);
    let with_srt = srt.is_some();
    if let Some(s) = srt {
        text::push_text(&mut args, "-i");
        text::push_text(&mut args, s.as_str());
    }
    push_maps(&mut args, &plan.video);
    push_audio_maps(&mut args, &plan.audio);
    push_maps(&mut args, &plan.subtitles);
    if with_srt {
        text::push_words(&mut args, &["-map", "1:0"]);
    }
    text::push_words(&mut args, &["-c", "copy", "-c:s", "mov_text"]);
    if with_srt {
        // Same convention as the embed step: the sidecar collection is
        // English, and an untagged track shows as "Unknown" in menus.
        text::push_words(&mut args, &["-metadata:s:s:0", "language=eng"]);
    }
    push_audio_options(&mut args, &plan.audio);
    if plan.hevc {
        // ffmpeg's default hev1 tag is unplayable in QuickTime/Safari.
        text::push_words(&mut args, &["-tag:v", "hvc1"]);
    }
    // faststart moves the index to the front so browsers can begin playing
    // after one request; the second pass it costs is fine for a one-off.
    text::push_words(&mut args, &["-movflags", "+faststart"]);
    text::push_text(&mut args, output);
    assert(text::texts(args@) =~= invocation(plan@, input@, view, output@));
    args
}

// ------------------------------------------------------------ the decision

#[derive(Debug)]
pub enum Outcome {
    Skipped(String),
    /// Dry run: what a real run would do.
    WouldRemux(Plan),
    Remuxed(Plan),
}

/// Why a file is not looked at further, going by its name and by whether an
/// .mp4 of the same name stands beside it.
pub open spec fn passed_over(name: Seq<char>, target_exists: bool) -> Option<Seq<char>> {
    if !paths::has_extension(name, ["mkv"]@) {
        Some("not mkv"@)
    } else if target_exists {
        Some("an .mp4 with this name already exists"@)
    } else {
        None
    }
}

pub fn is_mkv(name: &str) -> (r: bool)
    ensures
        r == paths::has_extension(name@, ["mkv"]@),
{
    paths::extension_is(name, &["mkv"])
}

pub fn pass_over(name: &str, target_exists: bool) -> (r: Option<String>)
    ensures
        text::opt_text(r) == passed_over(name@, target_exists),
{
    if !is_mkv(name) {
        return Some("not mkv".to_owned());
    }
    if target_exists {
        return Some("an .mp4 with this name already exists".to_owned());
    }
    None
}

/// The text of a usable sidecar: not empty, and in a recognizable encoding
/// (mov_text needs clean UTF-8).
pub open spec fn usable_text(bytes: Seq<u8>) -> Option<Seq<char>> {
    if bytes.len() == 0 {
        None
    } else {
        textenc::subtitle_text(bytes)
    }
}

/// A usable .srt sidecar lets bitmap subtitles be dropped rather than
/// disqualify the file, and is embedded when no text track survives. No
/// bytes stand for no sidecar.
pub fn usable_sidecar(bytes: &Vec<u8>) -> (r: Option<String>)
    ensures
        text::opt_text(r) == usable_text(bytes@),
{
    if bytes.len() == 0 {
        None
    } else {
        textenc::decode_subtitle_text(bytes)
    }
}

/// What to do with a file once it has been probed.
#[derive(Debug)]
pub enum Step {
    /// Nothing more: this is the outcome.
    Done(Outcome),
    /// Mux by this plan, then verify.
    Mux(Plan),
}

/// From a probe to the next step. With `dry_run`, plan only.
pub fn decide(before: &Probe, srt_sidecar: bool, dry_run: bool) -> (r: Step)
    ensures
        match planned(before@.streams, srt_sidecar) {
            Err(why) => r matches Step::Done(Outcome::Skipped(s)) && s@ == why,
            Ok(p) => if dry_run {
                r matches Step::Done(Outcome::WouldRemux(plan)) && plan@ == p
            } else {
                r matches Step::Mux(plan) && plan@ == p
            },
        },
{
    match plan(before, srt_sidecar) {
        Err(why) => Step::Done(Outcome::Skipped(why)),
        Ok(plan) => if dry_run {
            Step::Done(Outcome::WouldRemux(plan))
        } else {
            Step::Mux(plan)
        },
    }
}

/// Where the subtitle track of a mux comes from.
#[derive(Debug)]
pub enum SrtInput {
    /// No sidecar goes in.
    Nothing,
    /// The sidecar as it stands.
    AsIs,
    /// A UTF-8 copy of it, written for the mux; the sidecar is never
    /// modified.
    Converted(String),
}

/// Whether bytes are the UTF-8 form of a text.
pub fn same_bytes(text: &str, bytes: &Vec<u8>) -> (r: bool)
    ensures
        r == (vstd::utf8::encode_utf8(text@) == bytes@),
{
    proof {
        vstd::utf8::encode_utf8_decode_utf8(text@);
        vstd::utf8::encode_utf8_valid_utf8(text@);
    }
    match text::from_utf8(bytes) {
        Some(s) => {
            proof {
                vstd::utf8::decode_utf8_encode_utf8(bytes@);
            }
            text::same(s.as_str(), text)
        },
        None => false,
    }
}

/// Mux from a UTF-8 copy when the sidecar needed decoding.
pub fn srt_input(embed_srt: bool, srt_text: Option<String>, srt_bytes: &Vec<u8>) -> (r: SrtInput)
    ensures
        !embed_srt ==> r == SrtInput::Nothing,
        embed_srt ==> (match srt_text {
            Some(t) if vstd::utf8::encode_utf8(t@) != srt_bytes@ => r == SrtInput::Converted(t),
            _ => r == SrtInput::AsIs,
        }),
{
    if !embed_srt {
        return SrtInput::Nothing;
    }
    match srt_text {
        Some(t) => if same_bytes(t.as_str(), srt_bytes) {
            SrtInput::AsIs
        } else {
            SrtInput::Converted(t)
        },
        None => SrtInput::AsIs,
    }
}

/// The number of streams of a kind.
pub open spec fn count_of(streams: Seq<StreamView>, kind: StreamKind) -> nat
    decreases streams.len(),
{
    if streams.len() == 0 {
        0
    } else {
        count_of(streams.drop_last(), kind) + if streams.last().kind == kind {
            1nat
        } else {
            0nat
        }
    }
}

pub fn count(streams: &Vec<Stream>, kind: StreamKind) -> (r: usize)
    ensures
        r == count_of(stream_views(streams@), kind),
{
    let ghost ss = stream_views(streams@);
    let mut n: usize = 0;
    let mut i: usize = 0;
    assert(ss.take(0) =~= seq![]);
    while i < streams.len()
        invariant
            i <= streams.len(),
            n <= i,
            ss == stream_views(streams@),
            n == count_of(ss.take(i as int), kind),
        decreases streams.len() - i,
    {
        assert(ss.take(i + 1).drop_last() =~= ss.take(i as int));
        assert(ss.take(i + 1).last() == streams@[i as int]@);
        if streams[i].kind == kind {
            n += 1;
        }
        i += 1;
    }
    assert(ss.take(i as int) =~= ss);
    n
}

/// What the muxed file must hold: every video stream, every audio stream
/// plus its twins, every text subtitle and the sidecar.
pub open spec fn faithful(p: PlanView, after: Seq<StreamView>) -> bool {
    &&& count_of(after, StreamKind::Video) == p.video.len()
    &&& count_of(after, StreamKind::Audio) == p.audio.len() + twin_count(p.audio)
    &&& count_of(after, StreamKind::Subtitle) == p.subtitles.len() + if p.embed_srt {
        1nat
    } else {
        0nat
    }
}

/// Whether the muxed file may take the original's place, given whether its
/// duration is unchanged.
pub fn verified(plan: &Plan, after: &Probe, duration_kept: bool) -> (r: bool)
    requires
        2 * plan.audio@.len() <= usize::MAX,
        plan.subtitles@.len() < usize::MAX,
    ensures
        r == (faithful(plan@, after@.streams) && duration_kept),
{
    proof {
        lemma_twin_count(plan.audio@);
    }
    let want_audio: usize = plan.audio.len() + plan.twins();
    let want_subs: usize = plan.subtitles.len() + if plan.embed_srt {
        1
    } else {
        0
    };
    count(&after.streams, StreamKind::Video) == plan.video.len() && count(
        &after.streams,
        StreamKind::Audio,
    ) == want_audio && count(&after.streams, StreamKind::Subtitle) == want_subs && duration_kept
}

/// How the temp files of a step that are beside this file begin; leftovers
/// of earlier runs do too.
pub open spec fn stale_prefix(stem: Seq<char>, tag: Seq<char>) -> Seq<char> {
    "."@ + stem + "."@ + tag
}

/// Whether a name beside the media file is a leftover of an earlier run
/// (e.g. after a crash).
pub fn is_stale_temp(name: &str, stem: &str, tag: &str) -> (r: bool)
    ensures
        r == text::begins(name@, stale_prefix(stem@, tag@)),
{
    let mut prefix = ".".to_owned();
    prefix.push_str(stem);
    prefix.push_str(".");
    prefix.push_str(tag);
    text::starts_with(name, prefix.as_str())
}

/// A fresh temp name beside the media file: `.{stem}.{tag}-{pid}.{ext}`,
/// dot-prefixed so the scanner ignores it and pid-suffixed so no other
/// process can ever write to the same name.
pub fn temp_name(stem: &str, tag: &str, process: u32, ext: &str) -> (r: String)
    ensures
        r@ == stale_prefix(stem@, tag@) + "-"@ + text::decimal(process as int) + "."@ + ext@,
{
    let mut name = ".".to_owned();
    name.push_str(stem);
    name.push_str(".");
    name.push_str(tag);
    name.push_str("-");
    name.push_str(text::dec(process as i64).as_str());
    name.push_str(".");
    name.push_str(ext);
    name
}

// -------------------------------------------------------------------- laws

/// The indexes of the streams of a kind, in order.
pub open spec fn indexes(streams: Seq<StreamView>, kind: StreamKind) -> Seq<usize>
    decreases streams.len(),
{
    if streams.len() == 0 {
        seq![]
    } else if streams.last().kind == kind {
        indexes(streams.drop_last(), kind).push(streams.last().index)
    } else {
        indexes(streams.drop_last(), kind)
    }
}

/// The indexes of the subtitle streams that are not bitmaps, in order.
pub open spec fn text_indexes(streams: Seq<StreamView>) -> Seq<usize>
    decreases streams.len(),
{
    if streams.len() == 0 {
        seq![]
    } else if streams.last().kind == StreamKind::Subtitle && !text::listed(
        streams.last().codec,
        BITMAP_SUBS@,
    ) {
        text_indexes(streams.drop_last()).push(streams.last().index)
    } else {
        text_indexes(streams.drop_last())
    }
}

pub open spec fn sources(audio: Seq<(usize, bool)>) -> Seq<usize> {
    Seq::new(audio.len(), |i: int| audio[i].0)
}

/// Whether every stream is one that MP4 can take as it is.
pub open spec fn carried(streams: Seq<StreamView>) -> bool {
    forall|i: int|
        0 <= i < streams.len() ==> match (#[trigger] streams[i]).kind {
            StreamKind::Video => !streams[i].dovi && text::listed(streams[i].codec, VIDEO_OK@),
            StreamKind::Audio => text::listed(streams[i].codec, AUDIO_COPY@),
            StreamKind::Subtitle => text::listed(streams[i].codec, BITMAP_SUBS@) || text::listed(
                streams[i].codec,
                TEXT_SUBS@,
            ),
            StreamKind::Other => true,
        }
}

proof fn lemma_gone_through(streams: Seq<StreamView>, srt: bool)
    requires
        gone_through(streams, srt) is Ok,
    ensures
        ({
            let p = gone_through(streams, srt)->Ok_0;
            &&& p.video == indexes(streams, StreamKind::Video)
            &&& sources(p.audio) == indexes(streams, StreamKind::Audio)
            &&& p.subtitles == text_indexes(streams)
            &&& carried(streams)
        }),
    decreases streams.len(),
{
    let p = gone_through(streams, srt)->Ok_0;
    if streams.len() == 0 {
        assert(sources(p.audio) =~= seq![]);
    } else {
        lemma_gone_through(streams.drop_last(), srt);
        let before = gone_through(streams.drop_last(), srt)->Ok_0;
        let last = streams.last();
        if last.kind == StreamKind::Audio {
            assert(sources(p.audio) =~= sources(before.audio).push(last.index));
        }
        assert forall|i: int| 0 <= i < streams.len() implies match (
        #[trigger] streams[i]).kind {
            StreamKind::Video => !streams[i].dovi && text::listed(streams[i].codec, VIDEO_OK@),
            StreamKind::Audio => text::listed(streams[i].codec, AUDIO_COPY@),
            StreamKind::Subtitle => text::listed(streams[i].codec, BITMAP_SUBS@) || text::listed(
                streams[i].codec,
                TEXT_SUBS@,
            ),
            StreamKind::Other => true,
        } by {
            if i < streams.len() - 1 {
                assert(streams.drop_last()[i] == streams[i]);
            }
        }
    }
}

/// A remux loses nothing but bitmap subtitles and what MP4 has no place for:
/// the plan takes every video, audio and text subtitle stream, in order, and
/// only of files in which MP4 carries them all.
pub proof fn remux_keeps_every_track(streams: Seq<StreamView>, srt: bool)
    requires
        planned(streams, srt) is Ok,
    ensures
        ({
            let p = planned(streams, srt)->Ok_0;
            &&& p.video == indexes(streams, StreamKind::Video)
            &&& sources(p.audio) == indexes(streams, StreamKind::Audio)
            &&& p.subtitles == text_indexes(streams)
            &&& carried(streams)
        }),
{
    lemma_gone_through(streams, srt);
}

proof fn lemma_bitmaps_need_srt(streams: Seq<StreamView>, i: int)
    requires
        0 <= i < streams.len(),
        gone_through(streams, false) is Ok,
    ensures
        !(streams[i].kind == StreamKind::Subtitle && text::listed(streams[i].codec, BITMAP_SUBS@)),
    decreases streams.len(),
{
    if i < streams.len() - 1 {
        lemma_bitmaps_need_srt(streams.drop_last(), i);
    }
}

/// Captions are never lost for good: without a sidecar to stand in, a file
/// with bitmap subtitles is refused; with one, the sidecar goes in exactly
/// when no text track does.
pub proof fn remux_keeps_captions(streams: Seq<StreamView>, srt: bool)
    requires
        planned(streams, srt) is Ok,
    ensures
        ({
            let p = planned(streams, srt)->Ok_0;
            &&& !srt ==> forall|i: int|
                0 <= i < streams.len() ==> !((#[trigger] streams[i]).kind == StreamKind::Subtitle
                    && text::listed(streams[i].codec, BITMAP_SUBS@))
            &&& p.embed_srt == (srt && p.subtitles.len() == 0)
        }),
{
    if !srt {
        assert forall|i: int| 0 <= i < streams.len() implies !((
        #[trigger] streams[i]).kind == StreamKind::Subtitle && text::listed(
            streams[i].codec,
            BITMAP_SUBS@,
        )) by {
            lemma_bitmaps_need_srt(streams, i);
        }
    }
    lemma_embed_late(streams, srt);
}

proof fn lemma_embed_late(streams: Seq<StreamView>, srt: bool)
    ensures
        gone_through(streams, srt) matches Ok(p) ==> !p.embed_srt,
    decreases streams.len(),
{
    if streams.len() > 0 {
        lemma_embed_late(streams.drop_last(), srt);
    }
}

/// A temp file is one that a later run recognizes as a leftover.
pub proof fn temps_are_recognized(stem: Seq<char>, tag: Seq<char>, process: int, ext: Seq<char>)
    ensures
        text::begins(
            stale_prefix(stem, tag) + "-"@ + text::decimal(process) + "."@ + ext,
            stale_prefix(stem, tag),
        ),
{
    let p = stale_prefix(stem, tag);
    let name = p + "-"@ + text::decimal(process) + "."@ + ext;
    assert(name.subrange(0, p.len() as int) =~= p);
}

/// A codec that MP4 carries and browsers play.
pub open spec fn browser_video(codec: Seq<char>) -> bool {
    codec == "h264"@ || codec == "hevc"@ || codec == "av1"@
}

/// Dolby Digital, in which browsers play nothing.
pub open spec fn dolby_digital(codec: Seq<char>) -> bool {
    codec == "ac3"@ || codec == "eac3"@
}

pub open spec fn mp4_audio(codec: Seq<char>) -> bool {
    codec == "aac"@ || codec == "mp3"@ || codec == "opus"@ || codec == "alac"@ || dolby_digital(
        codec,
    )
}

pub open spec fn written_subtitles(codec: Seq<char>) -> bool {
    codec == "subrip"@ || codec == "srt"@ || codec == "ass"@ || codec == "ssa"@ || codec
        == "mov_text"@ || codec == "webvtt"@ || codec == "text"@ || codec == "subviewer"@
}

pub open spec fn drawn_subtitles(codec: Seq<char>) -> bool {
    codec == "hdmv_pgs_subtitle"@ || codec == "dvd_subtitle"@ || codec == "dvb_subtitle"@ || codec
        == "xsub"@
}

/// A stream that does not stand in the way of a remux.
pub open spec fn remuxable(s: StreamView, srt: bool) -> bool {
    match s.kind {
        StreamKind::Video => !s.dovi && browser_video(s.codec),
        StreamKind::Audio => mp4_audio(s.codec),
        StreamKind::Subtitle => written_subtitles(s.codec) || (srt && drawn_subtitles(s.codec)),
        StreamKind::Other => true,
    }
}

/// The codec lists name what they are to name.
proof fn lemma_codecs(codec: Seq<char>)
    ensures
        text::listed(codec, VIDEO_OK@) == browser_video(codec),
        text::listed(codec, AUDIO_COPY@) == mp4_audio(codec),
        text::listed(codec, AUDIO_TWIN@) == dolby_digital(codec),
        text::listed(codec, TEXT_SUBS@) == written_subtitles(codec),
        text::listed(codec, BITMAP_SUBS@) == drawn_subtitles(codec),
        written_subtitles(codec) ==> !drawn_subtitles(codec),
{
    assert(VIDEO_OK@[0]@ == "h264"@ && VIDEO_OK@[1]@ == "hevc"@ && VIDEO_OK@[2]@ == "av1"@);
    assert(AUDIO_COPY@[0]@ == "aac"@ && AUDIO_COPY@[1]@ == "mp3"@ && AUDIO_COPY@[2]@ == "opus"@
        && AUDIO_COPY@[3]@ == "alac"@ && AUDIO_COPY@[4]@ == "ac3"@ && AUDIO_COPY@[5]@ == "eac3"@);
    assert(AUDIO_TWIN@[0]@ == "ac3"@ && AUDIO_TWIN@[1]@ == "eac3"@);
    assert(TEXT_SUBS@[0]@ == "subrip"@ && TEXT_SUBS@[1]@ == "srt"@ && TEXT_SUBS@[2]@ == "ass"@
        && TEXT_SUBS@[3]@ == "ssa"@ && TEXT_SUBS@[4]@ == "mov_text"@ && TEXT_SUBS@[5]@ == "webvtt"@
        && TEXT_SUBS@[6]@ == "text"@ && TEXT_SUBS@[7]@ == "subviewer"@);
    assert(BITMAP_SUBS@[0]@ == "hdmv_pgs_subtitle"@ && BITMAP_SUBS@[1]@ == "dvd_subtitle"@
        && BITMAP_SUBS@[2]@ == "dvb_subtitle"@ && BITMAP_SUBS@[3]@ == "xsub"@);
    reveal_strlit("subrip");
    reveal_strlit("srt");
    reveal_strlit("ass");
    reveal_strlit("ssa");
    reveal_strlit("mov_text");
    reveal_strlit("webvtt");
    reveal_strlit("text");
    reveal_strlit("subviewer");
    reveal_strlit("hdmv_pgs_subtitle");
    reveal_strlit("dvd_subtitle");
    reveal_strlit("dvb_subtitle");
    reveal_strlit("xsub");
    assert("subrip"@.len() == 6 && "srt"@.len() == 3 && "ass"@.len() == 3 && "ssa"@.len() == 3
        && "mov_text"@.len() == 8 && "webvtt"@.len() == 6 && "text"@.len() == 4
        && "subviewer"@.len() == 9);
    assert("hdmv_pgs_subtitle"@.len() == 17 && "dvd_subtitle"@.len() == 12 && "dvb_subtitle"@.len()
        == 12 && "xsub"@.len() == 4);
    assert("text"@[0] == 't' && "xsub"@[0] == 'x');
}

/// The streams of a kind, in order.
pub open spec fn of_kind(streams: Seq<StreamView>, kind: StreamKind) -> Seq<StreamView> {
    streams.filter(|s: StreamView| s.kind == kind)
}

/// The subtitle streams that are texts, in order.
pub open spec fn written(streams: Seq<StreamView>) -> Seq<StreamView> {
    streams.filter(|s: StreamView| s.kind == StreamKind::Subtitle && written_subtitles(s.codec))
}

proof fn lemma_plan_so_far(streams: Seq<StreamView>, srt: bool)
    ensures
        gone_through(streams, srt) is Ok <==> forall|i: int|
            0 <= i < streams.len() ==> remuxable(#[trigger] streams[i], srt),
        gone_through(streams, srt) matches Ok(p) ==> {
            let audio = of_kind(streams, StreamKind::Audio);
            &&& p.video == of_kind(streams, StreamKind::Video).map_values(|s: StreamView| s.index)
            &&& p.audio == audio.map_values(
                |s: StreamView| (s.index, s.codec == "ac3"@ || s.codec == "eac3"@),
            )
            &&& p.subtitles == written(streams).map_values(|s: StreamView| s.index)
            &&& p.hevc == exists|i: int|
                0 <= i < streams.len() && (#[trigger] streams[i]).kind == StreamKind::Video
                    && streams[i].codec == "hevc"@
        },
    decreases streams.len(),
{
    reveal(Seq::filter);
    if streams.len() == 0 {
        let p = gone_through(streams, srt)->Ok_0;
        assert(p.video =~= of_kind(streams, StreamKind::Video).map_values(
            |s: StreamView| s.index,
        ));
        assert(p.audio =~= of_kind(streams, StreamKind::Audio).map_values(
            |s: StreamView| (s.index, s.codec == "ac3"@ || s.codec == "eac3"@),
        ));
        assert(p.subtitles =~= written(streams).map_values(|s: StreamView| s.index));
    } else {
        let head = streams.drop_last();
        let last = streams.last();
        lemma_plan_so_far(head, srt);
        lemma_codecs(last.codec);
        assert forall|i: int| 0 <= i < head.len() implies head[i] == streams[i] by {}
        assert(streams[streams.len() - 1] == last);
        if gone_through(head, srt) is Ok {
            assert forall|i: int| 0 <= i < head.len() implies remuxable(
                #[trigger] streams[i],
                srt,
            ) by {
                assert(remuxable(head[i], srt));
            }
        } else {
            let i = choose|i: int| 0 <= i < head.len() && !remuxable(#[trigger] head[i], srt);
            assert(!remuxable(streams[i], srt));
        }
        if gone_through(streams, srt) is Ok {
            let before = gone_through(head, srt)->Ok_0;
            let p = gone_through(streams, srt)->Ok_0;
            assert(p.video =~= of_kind(streams, StreamKind::Video).map_values(
                |s: StreamView| s.index,
            ));
            assert(p.audio =~= of_kind(streams, StreamKind::Audio).map_values(
                |s: StreamView| (s.index, s.codec == "ac3"@ || s.codec == "eac3"@),
            ));
            assert(p.subtitles =~= written(streams).map_values(|s: StreamView| s.index));
            if before.hevc {
                let i = choose|i: int|
                    0 <= i < head.len() && (#[trigger] head[i]).kind == StreamKind::Video
                        && head[i].codec == "hevc"@;
                assert(streams[i].codec == "hevc"@);
            }
            if exists|i: int|
                0 <= i < streams.len() && (#[trigger] streams[i]).kind == StreamKind::Video
                    && streams[i].codec == "hevc"@ {
                let i = choose|i: int|
                    0 <= i < streams.len() && (#[trigger] streams[i]).kind == StreamKind::Video
                        && streams[i].codec == "hevc"@;
                if i < head.len() {
                    assert(head[i].codec == "hevc"@);
                }
            }
        }
    }
}

/// A file is remuxed exactly when every stream may stay or be spared and there
/// is something to see and to hear. Then its Dolby Digital tracks, and no
/// others, get an AAC twin; every text track is taken; the sidecar goes in
/// where there is no text track; and HEVC is tagged where there is any.
pub proof fn plans_follow_the_streams(streams: Seq<StreamView>, srt: bool)
    ensures
        planned(streams, srt) is Ok <==> {
            &&& forall|i: int| 0 <= i < streams.len() ==> remuxable(#[trigger] streams[i], srt)
            &&& of_kind(streams, StreamKind::Video).len() > 0
            &&& of_kind(streams, StreamKind::Audio).len() > 0
        },
        planned(streams, srt) matches Ok(p) ==> {
            let audio = of_kind(streams, StreamKind::Audio);
            &&& p.video == of_kind(streams, StreamKind::Video).map_values(|s: StreamView| s.index)
            &&& p.audio.len() == audio.len()
            &&& forall|i: int|
                0 <= i < audio.len() ==> (#[trigger] p.audio[i]).0 == audio[i].index && p.audio[i].1
                    == (audio[i].codec == "ac3"@ || audio[i].codec == "eac3"@)
            &&& p.subtitles == written(streams).map_values(|s: StreamView| s.index)
            &&& p.embed_srt == (srt && written(streams).len() == 0)
            &&& p.hevc == exists|i: int|
                0 <= i < streams.len() && (#[trigger] streams[i]).kind == StreamKind::Video
                    && streams[i].codec == "hevc"@
        },
{
    lemma_plan_so_far(streams, srt);
    lemma_embed_late(streams, srt);
}

proof fn lemma_count_of(streams: Seq<StreamView>, kind: StreamKind)
    ensures
        count_of(streams, kind) == of_kind(streams, kind).len(),
    decreases streams.len(),
{
    reveal(Seq::filter);
    if streams.len() > 0 {
        lemma_count_of(streams.drop_last(), kind);
    }
}

proof fn lemma_twins(streams: Seq<StreamView>)
    ensures
        twin_count(
            of_kind(streams, StreamKind::Audio).map_values(
                |s: StreamView| (s.index, s.codec == "ac3"@ || s.codec == "eac3"@),
            ),
        ) == streams.filter(
            |s: StreamView| s.kind == StreamKind::Audio && dolby_digital(s.codec),
        ).len(),
    decreases streams.len(),
{
    reveal(Seq::filter);
    let f = |s: StreamView| (s.index, s.codec == "ac3"@ || s.codec == "eac3"@);
    let audio = of_kind(streams, StreamKind::Audio);
    if streams.len() > 0 {
        lemma_twins(streams.drop_last());
        if streams.last().kind == StreamKind::Audio {
            assert(audio.map_values(f).drop_last() =~= of_kind(
                streams.drop_last(),
                StreamKind::Audio,
            ).map_values(f));
        }
    }
}

/// A muxed file takes a file's place only where it has every video stream and
/// every audio stream of it, one audio stream more for each in Dolby Digital,
/// and the text subtitles, or the sidecar where there are none.
pub proof fn nothing_is_lost_in_a_remux(
    before: Seq<StreamView>,
    srt: bool,
    after: Seq<StreamView>,
)
    requires
        planned(before, srt) is Ok,
        faithful(planned(before, srt)->Ok_0, after),
    ensures
        of_kind(after, StreamKind::Video).len() == of_kind(before, StreamKind::Video).len(),
        of_kind(after, StreamKind::Audio).len() == of_kind(before, StreamKind::Audio).len()
            + before.filter(
            |s: StreamView| s.kind == StreamKind::Audio && dolby_digital(s.codec),
        ).len(),
        of_kind(after, StreamKind::Subtitle).len() == (if srt && written(before).len() == 0 {
            1
        } else {
            written(before).len()
        }),
{
    lemma_plan_so_far(before, srt);
    lemma_embed_late(before, srt);
    lemma_twins(before);
    lemma_count_of(after, StreamKind::Video);
    lemma_count_of(after, StreamKind::Audio);
    lemma_count_of(after, StreamKind::Subtitle);
}

/// Each audio track is mapped where its output stands, its twin right in front
/// of it, and only twins are encoded anew.
pub proof fn twins_come_first(audio: Seq<(usize, bool)>, i: int)
    requires
        0 <= i < audio.len(),
    ensures
        ({
            let n = 2 * (i + twin_count(audio.take(i)));
            let m = audio_maps(audio);
            &&& m.len() == 2 * (audio.len() + twin_count(audio))
            &&& n + 1 < m.len()
            &&& m[n] == "-map"@ && m[n + 1] == "0:"@ + text::decimal(audio[i].0 as int)
            &&& audio[i].1 ==> n + 3 < m.len() && m[n + 2] == "-map"@ && m[n + 3] == m[n + 1]
        }),
    decreases audio.len(),
{
    let head = audio.drop_last();
    let m = audio_maps(audio);
    let h = audio_maps(head);
    lemma_maps_len(head);
    lemma_maps_len(audio);
    if i < audio.len() - 1 {
        twins_come_first(head, i);
        assert(head.take(i) =~= audio.take(i));
        let n = 2 * (i + twin_count(audio.take(i)));
        assert(m[n] == h[n] && m[n + 1] == h[n + 1]);
        if audio[i].1 {
            assert(m[n + 2] == h[n + 2] && m[n + 3] == h[n + 3]);
        }
    } else {
        assert(audio.take(i) =~= head);
        let n = h.len() as int;
        assert(n == 2 * (i + twin_count(head)));
    }
}

proof fn lemma_maps_len(audio: Seq<(usize, bool)>)
    ensures
        audio_maps(audio).len() == 2 * (audio.len() + twin_count(audio)),
    decreases audio.len(),
{
    if audio.len() > 0 {
        lemma_maps_len(audio.drop_last());
    }
}

/// What one stream's block of a listing says is the next stream.
pub proof fn a_block_is_a_stream(
    before: Seq<Seq<char>>,
    index: Seq<char>,
    codec: Seq<char>,
    kind: Seq<char>,
    language: Seq<char>,
)
    ensures
        ({
            let lines = before + seq![
                "[STREAM]"@,
                "index="@ + index,
                "codec_name="@ + codec,
                "codec_type="@ + kind,
                "TAG:language="@ + language,
                "[/STREAM]"@,
            ];
            listing(lines).streams == listing(before).streams.push(
                StreamView {
                    index: match text::integer_usize(index) {
                        Some(n) => n as usize,
                        None => 0,
                    },
                    kind: if kind == "video"@ {
                        StreamKind::Video
                    } else if kind == "audio"@ {
                        StreamKind::Audio
                    } else if kind == "subtitle"@ {
                        StreamKind::Subtitle
                    } else {
                        StreamKind::Other
                    },
                    codec,
                    language: if language == ""@ || language == "und"@ {
                        None
                    } else {
                        Some(language)
                    },
                    dovi: false,
                },
            )
        }),
{
    reveal_strlit("[STREAM]");
    reveal_strlit("[/STREAM]");
    reveal_strlit("duration=");
    reveal_strlit("index=");
    reveal_strlit("codec_type=");
    reveal_strlit("codec_name=");
    reveal_strlit("TAG:language=");
    reveal_strlit("side_data_type=");
    reveal_strlit("");
    let l1 = before.push("[STREAM]"@);
    let l2 = l1.push("index="@ + index);
    let l3 = l2.push("codec_name="@ + codec);
    let l4 = l3.push("codec_type="@ + kind);
    let l5 = l4.push("TAG:language="@ + language);
    let l6 = l5.push("[/STREAM]"@);
    assert(l6 =~= before + seq![
        "[STREAM]"@,
        "index="@ + index,
        "codec_name="@ + codec,
        "codec_type="@ + kind,
        "TAG:language="@ + language,
        "[/STREAM]"@,
    ]);
    assert(l1.drop_last() =~= before);
    assert(l2.drop_last() =~= l1);
    assert(l3.drop_last() =~= l2);
    assert(l4.drop_last() =~= l3);
    assert(l5.drop_last() =~= l4);
    assert(l6.drop_last() =~= l5);
    lemma_field("index="@, index);
    lemma_field("codec_name="@, codec);
    lemma_field("codec_type="@, kind);
    lemma_field("TAG:language="@, language);
    let (a, b, c, d) = (
        "index="@ + index,
        "codec_name="@ + codec,
        "codec_type="@ + kind,
        "TAG:language="@ + language,
    );
    assert("[/STREAM]"@[1] != "[STREAM]"@[1]);
    assert(a[0] == 'i' && b[0] == 'c' && c[0] == 'c' && d[0] == 'T');
    assert(b[6] == 'n' && c[6] == 't');
    assert(listing(l1).open == Some(StreamView::blank()));
    lemma_other_field(a, "duration="@, 0);
    lemma_other_field(b, "duration="@, 0);
    lemma_other_field(c, "duration="@, 0);
    lemma_other_field(d, "duration="@, 0);
    lemma_other_field(b, "index="@, 0);
    lemma_other_field(c, "index="@, 0);
    lemma_other_field(d, "index="@, 0);
    lemma_other_field(b, "codec_type="@, 6);
    lemma_other_field(d, "codec_type="@, 0);
    lemma_other_field(d, "codec_name="@, 0);
    lemma_other_field(d, "side_data_type="@, 0);
    assert(language.len() == 0 ==> language =~= ""@);
    let (s1, s2) = (StreamView::blank(), stream_line(StreamView::blank(), a));
    let s3 = stream_line(s2, b);
    let s4 = stream_line(s3, c);
    let s5 = stream_line(s4, d);
    assert(listing(l2).open == Some(s2));
    assert(listing(l3).open == Some(s3));
    assert(listing(l4).open == Some(s4));
    assert(listing(l5).open == Some(s5));
    assert(listing(l5).streams == listing(before).streams);
    assert(s2.index == index_or_zero(index));
    assert(s3 == (StreamView { codec, ..s2 }));
    assert(s4 == (StreamView { kind: kind_named(kind), ..s3 }));
    assert(s5.dovi == false && s5.codec == codec);
}

proof fn lemma_field(name: Seq<char>, value: Seq<char>)
    ensures
        text::begins(name + value, name),
        (name + value).skip(name.len() as int) == value,
{
    assert((name + value).subrange(0, name.len() as int) =~= name);
    assert((name + value).skip(name.len() as int) =~= value);
}

/// A text that differs from a name in a character does not begin with it.
proof fn lemma_other_field(line: Seq<char>, name: Seq<char>, at: int)
    requires
        0 <= at < name.len(),
        at < line.len(),
        line[at] != name[at],
    ensures
        !text::begins(line, name),
{
    if text::begins(line, name) {
        assert(line.subrange(0, name.len() as int)[at] == name[at]);
    }
}

} // verus!
