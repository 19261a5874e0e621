//! Loudness: films mastered far below everything else in the library.
//!
//! A theatrical mix can sit 15 dB under a TV episode (Halloween (1978)
//! measures −38 LUFS against the usual −24), which on a TV or a soundbar
//! means riding the volume between programs. No player honours a gain
//! tag on a video file, so the only fix that reaches every client — VLC,
//! a TV's own app, the web player — is a track in the file.
//!
//! What this step does, and only to files that need it: measure the
//! default audio track (EBU R 128 integrated loudness and true peak, one
//! audio-only decode), and when it is well under the target *and* its
//! peaks leave room, add a copy of that track raised by a plain linear
//! gain as the new default track, the original right behind it. Nothing
//! is ever compressed or limited: the gain is capped by the track's own
//! headroom, so the mix is untouched and cannot clip. A quiet file whose
//! peaks are already near full scale is left alone — raising it would
//! take dynamic-range compression, which is a change to the mix and not
//! this tool's to make.
//!
//! Like the other steps that replace a media file: the mux goes to a
//! temp file beside the original, is verified (stream census, duration,
//! the caption record, and a measurement of the new track), and only
//! then renamed over it.
//!
//! Gains here are in tenths of a decibel: what the label says is what the
//! filter was given. The levels themselves are measured and weighed by the
//! caller.
use vstd::prelude::*;
use crate::db::captions;
use crate::paths;
use crate::text;

verus! {

/// The handler name remux gives a stereo AAC twin.
pub const TWIN_LABEL: &'static str = "Stereo (AAC)";

/// A gain in decibels with one decimal; `plus` gives the sign of a raise.
pub open spec fn decibels(tenths: int, plus: bool) -> Seq<char> {
    let m = if tenths < 0 {
        -tenths
    } else {
        tenths
    };
    (if tenths < 0 {
        "-"@
    } else if plus {
        "+"@
    } else {
        ""@
    }) + text::decimal(m / 10) + "."@ + text::decimal(m % 10)
}

fn write_decibels(tenths: i64, plus: bool) -> (r: String)
    requires
        tenths > i64::MIN,
    ensures
        r@ == decibels(tenths as int, plus),
{
    let mut out = (if tenths < 0 {
        "-"
    } else if plus {
        "+"
    } else {
        ""
    }).to_owned();
    let m: i64 = if tenths < 0 {
        -tenths
    } else {
        tenths
    };
    out.push_str(text::dec(m / 10).as_str());
    out.push_str(".");
    out.push_str(text::dec(m % 10).as_str());
    out
}

pub open spec fn label_of(gain: int, twin: bool) -> Seq<char> {
    if twin {
        TWIN_LABEL@ + ", normalized "@ + decibels(gain, true) + " dB (media-enrich)"@
    } else {
        "Normalized "@ + decibels(gain, true) + " dB (media-enrich)"@
    }
}

/// The label a raised track carries — MP4 shows it as the handler name,
/// Matroska as the track title; players list it in their audio menu, and
/// it is how a later run knows the file has been done.
pub fn label(gain: i64, twin: bool) -> (r: String)
    requires
        gain > i64::MIN,
    ensures
        r@ == label_of(gain as int, twin),
{
    let mut out = if twin {
        let mut t = TWIN_LABEL.to_owned();
        t.push_str(", normalized ");
        t
    } else {
        "Normalized ".to_owned()
    };
    out.push_str(write_decibels(gain, true).as_str());
    out.push_str(" dB (media-enrich)");
    out
}

/// Whether a label says that its track is a raised one.
pub open spec fn marked(label: Seq<char>) -> bool {
    let l = text::lowered(label);
    text::holds(l, "normalized"@) && text::holds(l, "(media-enrich)"@)
}

pub fn is_marked(label: &str) -> (r: bool)
    ensures
        r == marked(label@),
{
    let l = text::to_lowercase(label);
    text::contains(l.as_str(), "normalized") && text::contains(l.as_str(), "(media-enrich)")
}

// ------------------------------------------------------------ the meter

/// The numbers out of the ebur128 filter's closing summary, as written.
#[derive(Debug)]
pub struct Summary {
    /// Integrated loudness, LUFS.
    pub integrated: Option<String>,
    /// Loudness range, LU.
    pub range: Option<String>,
    /// True peak, dBTP.
    pub true_peak: Option<String>,
}

/// The index of the first line that begins with a key, white space aside.
pub open spec fn line_keyed(lines: Seq<Seq<char>>, key: Seq<char>) -> int
    decreases lines.len(),
{
    if lines.len() == 0 || text::begins(text::trimmed(lines[0]), key) {
        0
    } else {
        1 + line_keyed(lines.drop_first(), key)
    }
}

/// The first word after a key, on the first line that begins with it.
pub open spec fn summary_value(lines: Seq<Seq<char>>, key: Seq<char>) -> Option<Seq<char>> {
    let i = line_keyed(lines, key);
    if i < lines.len() {
        let words = text::words_of(text::trimmed(lines[i]).skip(key.len() as int));
        if words.len() > 0 {
            Some(words[0])
        } else {
            None
        }
    } else {
        None
    }
}

/// The lines of the closing summary: from the last `Summary:` on.
pub open spec fn summary_lines(stderr: Seq<char>) -> Option<Seq<Seq<char>>> {
    match text::rcut_once(stderr, "Summary:"@) {
        Some((_, rest)) => Some(text::lines_of("Summary:"@ + rest)),
        None => None,
    }
}

proof fn lemma_line_keyed(lines: Seq<Seq<char>>, key: Seq<char>, i: int)
    requires
        0 <= i <= lines.len(),
        forall|k: int| 0 <= k < i ==> !text::begins(text::trimmed(#[trigger] lines[k]), key),
        i < lines.len() ==> text::begins(text::trimmed(lines[i]), key),
    ensures
        line_keyed(lines, key) == i,
    decreases lines.len(),
{
    if i > 0 {
        assert(!text::begins(text::trimmed(lines[0]), key));
        assert forall|k: int| 0 <= k < i - 1 implies !text::begins(
            text::trimmed(#[trigger] lines.drop_first()[k]),
            key,
        ) by {
            assert(lines.drop_first()[k] == lines[k + 1]);
        }
        lemma_line_keyed(lines.drop_first(), key, i - 1);
    }
}

fn value_of(lines: &Vec<String>, key: &str) -> (r: Option<String>)
    ensures
        text::opt_text(r) == summary_value(text::texts(lines@), key@),
{
    let ghost ls = text::texts(lines@);
    let mut i: usize = 0;
    while i < lines.len()
        invariant
            i <= lines.len(),
            ls == text::texts(lines@),
            forall|k: int| 0 <= k < i ==> !text::begins(text::trimmed(#[trigger] ls[k]), key@),
        decreases lines.len() - i,
    {
        let line = text::trim(lines[i].as_str());
        assert(ls[i as int] == lines@[i as int]@);
        if let Some(rest) = text::strip_prefix(line.as_str(), key) {
            proof {
                lemma_line_keyed(ls, key@, i as int);
            }
            let words = text::words(rest.as_str());
            if words.len() > 0 {
                assert(text::texts(words@)[0] == words@[0]@);
                return Some(words[0].clone());
            }
            return None;
        }
        i += 1;
    }
    proof {
        lemma_line_keyed(ls, key@, i as int);
    }
    None
}

pub fn parse_summary(stderr: &str) -> (r: Option<Summary>)
    ensures
        match summary_lines(stderr@) {
            Some(ls) => r matches Some(s) && text::opt_text(s.integrated) == summary_value(
                ls,
                "I:"@,
            ) && text::opt_text(s.range) == summary_value(ls, "LRA:"@) && text::opt_text(
                s.true_peak,
            ) == summary_value(ls, "Peak:"@),
            None => r is None,
        },
{
    match text::rsplit_once(stderr, "Summary:") {
        None => None,
        Some((_, rest)) => {
            let mut tail = "Summary:".to_owned();
            tail.push_str(rest.as_str());
            let lines = text::lines(tail.as_str());
            Some(
                Summary {
                    integrated: value_of(&lines, "I:"),
                    range: value_of(&lines, "LRA:"),
                    true_peak: value_of(&lines, "Peak:"),
                },
            )
        },
    }
}

/// The filter that measures a track: the per-frame log goes to the verbose
/// level and so stays unprinted; the summary arrives at the default level.
pub const METER: &'static str = "ebur128=peak=true:framelog=verbose";

/// The filter for a track that is to be encoded in a layout of its own (a
/// stereo twin's downmix has its own level and peaks).
pub open spec fn filter_of(layout: Option<Seq<char>>, last: Seq<char>) -> Seq<char> {
    match layout {
        Some(l) => "aformat=channel_layouts="@ + l + ","@ + last,
        None => last,
    }
}

fn write_filter(layout: Option<&'static str>, last: &str) -> (r: String)
    ensures
        r@ == filter_of(layout_view(layout), last@),
{
    match layout {
        Some(l) => {
            let mut out = "aformat=channel_layouts=".to_owned();
            out.push_str(l);
            out.push_str(",");
            out.push_str(last);
            out
        },
        None => last.to_owned(),
    }
}

/// The ffmpeg invocation that measures one audio stream (`stream` as ffmpeg
/// names it: "0:1", "0:a:0"). Audio only: video is never decoded.
pub fn meter_args(input: &str, stream: &str, layout: Option<&'static str>) -> (r: Vec<String>)
    ensures
        text::texts(r@) == seq![
            "-hide_banner"@,
            "-nostdin"@,
            "-nostats"@,
            "-vn"@,
            "-sn"@,
            "-dn"@,
            "-i"@,
            input@,
            "-map"@,
            stream@,
            "-af"@,
            filter_of(layout_view(layout), METER@),
            "-f"@,
            "null"@,
            "-"@,
        ],
{
    let mut args: Vec<String> = Vec::new();
    text::push_words(
        &mut args,
        &["-hide_banner", "-nostdin", "-nostats", "-vn", "-sn", "-dn", "-i"],
    );
    text::push_text(&mut args, input);
    text::push_text(&mut args, "-map");
    text::push_text(&mut args, stream);
    text::push_text(&mut args, "-af");
    let filter = write_filter(layout, METER);
    text::push_text(&mut args, filter.as_str());
    text::push_words(&mut args, &["-f", "null", "-"]);
    args
}

// ------------------------------------------------------------- the census

#[derive(Debug, Clone, Copy, PartialEq, Eq, Structural)]
pub enum Kind {
    Video,
    Audio,
    Subtitle,
    Other,
}

#[derive(Debug, Clone)]
pub struct Stream {
    pub index: usize,
    pub kind: Kind,
    pub codec: String,
    pub channels: usize,
    pub default: bool,
    /// Title and handler name together: whichever the container keeps.
    pub label: String,
}

#[verifier::ext_equal]
pub struct StreamView {
    pub index: usize,
    pub kind: Kind,
    pub codec: Seq<char>,
    pub channels: usize,
    pub default: bool,
    pub label: Seq<char>,
}

impl StreamView {
    pub open spec fn blank() -> StreamView {
        StreamView {
            index: 0,
            kind: Kind::Other,
            codec: seq![],
            channels: 0,
            default: false,
            label: seq![],
        }
    }
}

impl View for Stream {
    type V = StreamView;

    open spec fn view(&self) -> StreamView {
        StreamView {
            index: self.index,
            kind: self.kind,
            codec: self.codec@,
            channels: self.channels,
            default: self.default,
            label: self.label@,
        }
    }
}

pub open spec fn stream_views(v: Seq<Stream>) -> Seq<StreamView> {
    Seq::new(v.len(), |i: int| v[i]@)
}

#[derive(Debug)]
pub struct Probe {
    pub streams: Vec<Stream>,
    /// In seconds, as written.
    pub duration: String,
    /// ©too — where the caption record is kept, which a remux through ffmpeg
    /// would otherwise overwrite with its own name.
    pub encoder: String,
}

#[verifier::ext_equal]
pub struct ProbeView {
    pub streams: Seq<StreamView>,
    pub duration: Seq<char>,
    pub encoder: Seq<char>,
}

impl View for Probe {
    type V = ProbeView;

    open spec fn view(&self) -> ProbeView {
        ProbeView {
            streams: stream_views(self.streams@),
            duration: self.duration@,
            encoder: self.encoder@,
        }
    }
}

/// The arguments that make ffprobe list what [`parse_probe`] reads.
pub const PROBE_ARGS: [&'static str; 4] = [
    "-v",
    "error",
    "-show_entries",
    "stream=index,codec_type,codec_name,channels:stream_tags=title,handler_name:stream_disposition=default:format=duration:format_tags=encoder",
];

#[verifier::ext_equal]
pub struct Listing {
    pub streams: Seq<StreamView>,
    pub open: Option<StreamView>,
    pub in_format: bool,
    pub duration: Seq<char>,
    pub encoder: Seq<char>,
}

pub open spec fn kind_named(word: Seq<char>) -> Kind {
    if word == "video"@ {
        Kind::Video
    } else if word == "audio"@ {
        Kind::Audio
    } else if word == "subtitle"@ {
        Kind::Subtitle
    } else {
        Kind::Other
    }
}

pub open spec fn number_or_zero(word: Seq<char>) -> usize {
    match text::integer_usize(word) {
        Some(n) => n as usize,
        None => 0,
    }
}

/// A stream with what one entry says of it; the key is in lower case, as
/// Matroska reports its tag names in capitals.
pub open spec fn stream_entry(s: StreamView, key: Seq<char>, value: Seq<char>) -> StreamView {
    if key == "index"@ {
        StreamView { index: number_or_zero(value), ..s }
    } else if key == "codec_name"@ {
        StreamView { codec: value, ..s }
    } else if key == "codec_type"@ {
        StreamView { kind: kind_named(value), ..s }
    } else if key == "channels"@ {
        StreamView { channels: number_or_zero(value), ..s }
    } else if key == "disposition:default"@ {
        StreamView { default: value == "1"@, ..s }
    } else if key == "tag:title"@ || key == "tag:handler_name"@ {
        StreamView { label: s.label + value + " "@, ..s }
    } else {
        s
    }
}

pub open spec fn listing_line(l: Listing, raw: Seq<char>) -> Listing {
    let line = text::trimmed(raw);
    if line == "[STREAM]"@ {
        Listing { open: Some(StreamView::blank()), ..l }
    } else if line == "[/STREAM]"@ {
        match l.open {
            Some(s) => Listing { streams: l.streams.push(s), open: None, ..l },
            None => l,
        }
    } else if line == "[FORMAT]"@ {
        Listing { in_format: true, ..l }
    } else if line == "[/FORMAT]"@ {
        Listing { in_format: false, ..l }
    } else {
        match text::cut_once(line, "="@) {
            None => l,
            Some((key, value)) => {
                let key = text::lowered(key);
                match l.open {
                    Some(s) => Listing { open: Some(stream_entry(s, key, value)), ..l },
                    None => if !l.in_format {
                        l
                    } else if key == "duration"@ {
                        Listing { duration: value, ..l }
                    } else if key == "tag:encoder"@ {
                        Listing { encoder: value, ..l }
                    } else {
                        l
                    },
                }
            },
        }
    }
}

pub open spec fn listing(lines: Seq<Seq<char>>) -> Listing
    decreases lines.len(),
{
    if lines.len() == 0 {
        Listing {
            streams: seq![],
            open: None,
            in_format: false,
            duration: seq![],
            encoder: seq![],
        }
    } else {
        listing_line(listing(lines.drop_last()), lines.last())
    }
}

fn number(word: &str) -> (r: usize)
    ensures
        r == number_or_zero(word@),
{
    match text::parse_usize(word) {
        Some(n) => n,
        None => 0,
    }
}

fn read_entry(s: Stream, key: &str, value: String) -> (r: Stream)
    ensures
        r@ == stream_entry(s@, key@, value@),
{
    let mut s = s;
    if text::same(key, "index") {
        s.index = number(value.as_str());
    } else if text::same(key, "codec_name") {
        s.codec = value;
    } else if text::same(key, "codec_type") {
        s.kind = if text::same(value.as_str(), "video") {
            Kind::Video
        } else if text::same(value.as_str(), "audio") {
            Kind::Audio
        } else if text::same(value.as_str(), "subtitle") {
            Kind::Subtitle
        } else {
            Kind::Other
        };
    } else if text::same(key, "channels") {
        s.channels = number(value.as_str());
    } else if text::same(key, "disposition:default") {
        s.default = text::same(value.as_str(), "1");
    } else if text::same(key, "tag:title") || text::same(key, "tag:handler_name") {
        s.label.push_str(value.as_str());
        s.label.push_str(" ");
    }
    s
}

pub fn parse_probe(text: &str) -> (r: Probe)
    ensures
        r@.streams == listing(text::lines_of(text@)).streams,
        r@.duration == listing(text::lines_of(text@)).duration,
        r@.encoder == listing(text::lines_of(text@)).encoder,
{
    let lines = text::lines(text);
    let ghost ls = text::lines_of(text@);
    let mut streams: Vec<Stream> = Vec::new();
    let mut duration = String::new();
    let mut encoder = String::new();
    let mut in_format = false;
    let mut open: Option<Stream> = None;
    let mut i: usize = 0;
    assert(ls.take(0) =~= seq![]);
    assert(stream_views(streams@) =~= seq![]);
    assert(duration@ =~= seq![]);
    while i < lines.len()
        invariant
            i <= lines.len(),
            ls == text::texts(lines@),
            stream_views(streams@) == listing(ls.take(i as int)).streams,
            duration@ == listing(ls.take(i as int)).duration,
            encoder@ == listing(ls.take(i as int)).encoder,
            in_format == listing(ls.take(i as int)).in_format,
            (match open {
                Some(t) => Some(t@),
                None => None,
            }) == listing(ls.take(i as int)).open,
        decreases lines.len() - i,
    {
        proof {
            assert(ls.take(i + 1).drop_last() =~= ls.take(i as int));
            assert(ls.take(i + 1).last() == lines@[i as int]@);
        }
        let line = text::trim(lines[i].as_str());
        let line = line.as_str();
        if text::same(line, "[STREAM]") {
            let blank = Stream {
                index: 0,
                kind: Kind::Other,
                codec: String::new(),
                channels: 0,
                default: false,
                label: String::new(),
            };
            assert(blank@ =~= StreamView::blank());
            open = Some(blank);
        } else if text::same(line, "[/STREAM]") {
            match open.take() {
                Some(s) => {
                    assert(stream_views(streams@.push(s)) =~= stream_views(streams@).push(s@));
                    streams.push(s);
                },
                None => {},
            }
        } else if text::same(line, "[FORMAT]") {
            in_format = true;
        } else if text::same(line, "[/FORMAT]") {
            in_format = false;
        } else {
            match text::split_once(line, "=") {
                None => {},
                Some((key, value)) => {
                    let key = text::to_lowercase(key.as_str());
                    match open.take() {
                        Some(s) => {
                            open = Some(read_entry(s, key.as_str(), value));
                        },
                        None => {
                            if in_format {
                                if text::same(key.as_str(), "duration") {
                                    duration = value;
                                } else if text::same(key.as_str(), "tag:encoder") {
                                    encoder = value;
                                }
                            }
                        },
                    }
                },
            }
        }
        i += 1;
    }
    assert(ls.take(i as int) =~= ls);
    Probe { streams, duration, encoder }
}

// ---------------------------------------------------------------- the plan

/// What the rewrite will do, decided from the probe.
#[derive(Debug)]
pub struct Plan {
    /// Input stream the raised track is encoded from.
    pub source: usize,
    /// Layout the raised track is converted to first (a stereo twin's
    /// downmix; 5.1 for wider sources, the widest AAC is sure to take).
    pub layout: Option<&'static str>,
    pub channels_out: usize,
    /// An un-normalized stereo twin the raised one replaces.
    pub drop: Option<usize>,
    /// Audio streams kept behind the new track, in order.
    pub keep: Vec<usize>,
    pub hevc_mp4: bool,
    pub matroska: bool,
}

#[verifier::ext_equal]
pub struct PlanView {
    pub source: usize,
    pub layout: Option<Seq<char>>,
    pub channels_out: usize,
    pub drop: Option<usize>,
    pub keep: Seq<usize>,
    pub hevc_mp4: bool,
    pub matroska: bool,
}

pub open spec fn layout_view(l: Option<&'static str>) -> Option<Seq<char>> {
    match l {
        Some(s) => Some(s@),
        None => None,
    }
}

impl View for Plan {
    type V = PlanView;

    open spec fn view(&self) -> PlanView {
        PlanView {
            source: self.source,
            layout: layout_view(self.layout),
            channels_out: self.channels_out,
            drop: self.drop,
            keep: self.keep@,
            hevc_mp4: self.hevc_mp4,
            matroska: self.matroska,
        }
    }
}

pub const DONE: &'static str = "already carries a normalized track";

/// The streams of a kind, in order.
pub open spec fn of_kind(streams: Seq<StreamView>, kind: Kind) -> Seq<StreamView>
    decreases streams.len(),
{
    if streams.len() == 0 {
        seq![]
    } else if streams.last().kind == kind {
        of_kind(streams.drop_last(), kind).push(streams.last())
    } else {
        of_kind(streams.drop_last(), kind)
    }
}

/// The index of the first default-flagged track.
pub open spec fn first_default(audio: Seq<StreamView>) -> int
    decreases audio.len(),
{
    if audio.len() == 0 || audio[0].default {
        0
    } else {
        1 + first_default(audio.drop_first())
    }
}

/// The place of the first track with this stream index.
pub open spec fn place_of(audio: Seq<StreamView>, index: usize) -> int
    decreases audio.len(),
{
    if audio.len() == 0 || audio[0].index == index {
        0
    } else {
        1 + place_of(audio.drop_first(), index)
    }
}

/// What plays when nobody chooses: the default-flagged track, else the first.
pub open spec fn playing(audio: Seq<StreamView>) -> StreamView {
    let d = first_default(audio);
    if d < audio.len() {
        audio[d]
    } else {
        audio[0]
    }
}

/// The track behind another one.
pub open spec fn behind(audio: Seq<StreamView>, index: usize) -> Option<StreamView> {
    let n = place_of(audio, index) + 1;
    if n < audio.len() {
        Some(audio[n])
    } else {
        None
    }
}

/// Whether the track behind a playing twin is the Dolby track that it was
/// made of.
pub open spec fn bare_twin(p: StreamView, original: Option<StreamView>) -> bool {
    match original {
        Some(o) => text::holds(p.label, TWIN_LABEL@) && (o.codec == "ac3"@ || o.codec == "eac3"@),
        None => false,
    }
}

/// The stream indexes of these tracks but one.
pub open spec fn indexes_but(audio: Seq<StreamView>, drop: Option<usize>) -> Seq<usize>
    decreases audio.len(),
{
    if audio.len() == 0 {
        seq![]
    } else if Some(audio.last().index) == drop {
        indexes_but(audio.drop_last(), drop)
    } else {
        indexes_but(audio.drop_last(), drop).push(audio.last().index)
    }
}

pub open spec fn any_marked(audio: Seq<StreamView>) -> bool {
    exists|i: int| 0 <= i < audio.len() && marked((#[trigger] audio[i]).label)
}

pub open spec fn any_hevc(streams: Seq<StreamView>) -> bool {
    exists|i: int|
        0 <= i < streams.len() && (#[trigger] streams[i]).kind == Kind::Video && streams[i].codec
            == "hevc"@
}

pub open spec fn mp4(name: Seq<char>) -> bool {
    paths::has_extension(name, ["mp4", "m4v", "mov"]@)
}

pub open spec fn matroska(name: Seq<char>) -> bool {
    paths::has_extension(name, ["mkv"]@)
}

pub fn is_mp4(name: &str) -> (r: bool)
    ensures
        r == mp4(name@),
{
    paths::extension_is(name, &["mp4", "m4v", "mov"])
}

pub fn is_matroska(name: &str) -> (r: bool)
    ensures
        r == matroska(name@),
{
    paths::extension_is(name, &["mkv"])
}

/// What to do with a file of these streams and this name, or why nothing.
pub open spec fn planned(streams: Seq<StreamView>, name: Seq<char>) -> Result<PlanView, Seq<char>> {
    let audio = of_kind(streams, Kind::Audio);
    if of_kind(streams, Kind::Video).len() == 0 {
        Err("no video stream"@)
    } else if any_marked(audio) {
        Err(DONE@)
    } else if audio.len() == 0 {
        Err("no audio stream"@)
    } else {
        let p = playing(audio);
        let original = behind(audio, p.index);
        let twin = bare_twin(p, original);
        let drop = if twin {
            Some(p.index)
        } else {
            None
        };
        Ok(
            PlanView {
                source: if twin {
                    original->Some_0.index
                } else {
                    p.index
                },
                layout: if twin {
                    Some("stereo"@)
                } else if p.channels > 6 {
                    Some("5.1"@)
                } else {
                    None
                },
                channels_out: if twin {
                    2
                } else if p.channels > 6 {
                    6
                } else if p.channels == 0 {
                    1
                } else {
                    p.channels
                },
                drop,
                keep: indexes_but(audio, drop),
                hevc_mp4: any_hevc(streams) && mp4(name),
                matroska: matroska(name),
            },
        )
    }
}

/// The places of the streams of a kind.
fn places(streams: &Vec<Stream>, kind: Kind) -> (r: Vec<usize>)
    ensures
        forall|i: int| 0 <= i < r@.len() ==> (#[trigger] r@[i]) < streams@.len(),
        at_places(stream_views(streams@), r@) == of_kind(stream_views(streams@), kind),
        r@.len() == of_kind(stream_views(streams@), kind).len(),
{
    let ghost ss = stream_views(streams@);
    let mut out: Vec<usize> = Vec::new();
    let mut i: usize = 0;
    assert(at_places(ss, out@) =~= of_kind(ss.take(0), kind));
    while i < streams.len()
        invariant
            i <= streams.len(),
            ss == stream_views(streams@),
            forall|k: int| 0 <= k < out@.len() ==> (#[trigger] out@[k]) < streams@.len(),
            at_places(ss, out@) == of_kind(ss.take(i as int), kind),
        decreases streams.len() - i,
    {
        assert(ss.take(i + 1).drop_last() =~= ss.take(i as int));
        assert(ss.take(i + 1).last() == streams@[i as int]@);
        if streams[i].kind == kind {
            assert(at_places(ss, out@.push(i)) =~= at_places(ss, out@).push(ss[i as int]));
            out.push(i);
        }
        i += 1;
    }
    assert(ss.take(i as int) =~= ss);
    assert(at_places(ss, out@).len() == out@.len());
    out
}

pub open spec fn at_places(streams: Seq<StreamView>, places: Seq<usize>) -> Seq<StreamView> {
    Seq::new(places.len(), |i: int| streams[places[i] as int])
}

proof fn lemma_first_default(audio: Seq<StreamView>, i: int)
    requires
        0 <= i <= audio.len(),
        forall|k: int| 0 <= k < i ==> !(#[trigger] audio[k]).default,
        i < audio.len() ==> audio[i].default,
    ensures
        first_default(audio) == i,
    decreases audio.len(),
{
    if i > 0 {
        assert(!audio[0].default);
        assert forall|k: int| 0 <= k < i - 1 implies !(#[trigger] audio.drop_first()[k]).default by {
            assert(audio.drop_first()[k] == audio[k + 1]);
        }
        lemma_first_default(audio.drop_first(), i - 1);
    }
}

proof fn lemma_place_of(audio: Seq<StreamView>, index: usize, i: int)
    requires
        0 <= i <= audio.len(),
        forall|k: int| 0 <= k < i ==> (#[trigger] audio[k]).index != index,
        i < audio.len() ==> audio[i].index == index,
    ensures
        place_of(audio, index) == i,
    decreases audio.len(),
{
    if i > 0 {
        assert(audio[0].index != index);
        assert forall|k: int| 0 <= k < i - 1 implies (#[trigger] audio.drop_first()[k]).index
            != index by {
            assert(audio.drop_first()[k] == audio[k + 1]);
        }
        lemma_place_of(audio.drop_first(), index, i - 1);
    }
}

fn playing_place(streams: &Vec<Stream>, audio: &Vec<usize>) -> (r: usize)
    requires
        audio@.len() > 0,
        forall|i: int| 0 <= i < audio@.len() ==> (#[trigger] audio@[i]) < streams@.len(),
    ensures
        r < streams@.len(),
        streams@[r as int]@ == playing(at_places(stream_views(streams@), audio@)),
{
    let ghost av = at_places(stream_views(streams@), audio@);
    let mut i: usize = 0;
    while i < audio.len()
        invariant
            i <= audio.len(),
            av == at_places(stream_views(streams@), audio@),
            forall|k: int| 0 <= k < audio@.len() ==> (#[trigger] audio@[k]) < streams@.len(),
            forall|k: int| 0 <= k < i ==> !(#[trigger] av[k]).default,
        decreases audio.len() - i,
    {
        assert(av[i as int] == streams@[audio@[i as int] as int]@);
        if streams[audio[i]].default {
            proof {
                lemma_first_default(av, i as int);
            }
            return audio[i];
        }
        i += 1;
    }
    proof {
        lemma_first_default(av, i as int);
        assert(av[0] == streams@[audio@[0] as int]@);
    }
    audio[0]
}

fn behind_place(streams: &Vec<Stream>, audio: &Vec<usize>, index: usize) -> (r: Option<usize>)
    requires
        forall|i: int| 0 <= i < audio@.len() ==> (#[trigger] audio@[i]) < streams@.len(),
    ensures
        match r {
            Some(p) => p < streams@.len() && behind(
                at_places(stream_views(streams@), audio@),
                index,
            ) == Some(streams@[p as int]@),
            None => behind(at_places(stream_views(streams@), audio@), index) is None,
        },
{
    let ghost av = at_places(stream_views(streams@), audio@);
    let mut i: usize = 0;
    while i < audio.len()
        invariant
            i <= audio.len(),
            av == at_places(stream_views(streams@), audio@),
            forall|k: int| 0 <= k < audio@.len() ==> (#[trigger] audio@[k]) < streams@.len(),
            forall|k: int| 0 <= k < i ==> (#[trigger] av[k]).index != index,
        decreases audio.len() - i,
    {
        assert(av[i as int] == streams@[audio@[i as int] as int]@);
        if streams[audio[i]].index == index {
            proof {
                lemma_place_of(av, index, i as int);
            }
            if i + 1 < audio.len() {
                assert(av[i + 1] == streams@[audio@[i + 1] as int]@);
                return Some(audio[i + 1]);
            }
            return None;
        }
        i += 1;
    }
    proof {
        lemma_place_of(av, index, i as int);
    }
    None
}

fn has_marked(streams: &Vec<Stream>, audio: &Vec<usize>) -> (r: bool)
    requires
        forall|i: int| 0 <= i < audio@.len() ==> (#[trigger] audio@[i]) < streams@.len(),
    ensures
        r == any_marked(at_places(stream_views(streams@), audio@)),
{
    let ghost av = at_places(stream_views(streams@), audio@);
    let mut i: usize = 0;
    while i < audio.len()
        invariant
            i <= audio.len(),
            av == at_places(stream_views(streams@), audio@),
            forall|k: int| 0 <= k < audio@.len() ==> (#[trigger] audio@[k]) < streams@.len(),
            forall|k: int| 0 <= k < i ==> !marked((#[trigger] av[k]).label),
        decreases audio.len() - i,
    {
        assert(av[i as int] == streams@[audio@[i as int] as int]@);
        if is_marked(streams[audio[i]].label.as_str()) {
            return true;
        }
        i += 1;
    }
    false
}

fn has_hevc(streams: &Vec<Stream>) -> (r: bool)
    ensures
        r == any_hevc(stream_views(streams@)),
{
    let ghost ss = stream_views(streams@);
    let mut i: usize = 0;
    while i < streams.len()
        invariant
            i <= streams.len(),
            ss == stream_views(streams@),
            forall|k: int|
                0 <= k < i ==> !((#[trigger] ss[k]).kind == Kind::Video && ss[k].codec == "hevc"@),
        decreases streams.len() - i,
    {
        assert(ss[i as int] == streams@[i as int]@);
        if streams[i].kind == Kind::Video && text::same(streams[i].codec.as_str(), "hevc") {
            return true;
        }
        i += 1;
    }
    false
}

fn kept(streams: &Vec<Stream>, audio: &Vec<usize>, drop: Option<usize>) -> (r: Vec<usize>)
    requires
        forall|i: int| 0 <= i < audio@.len() ==> (#[trigger] audio@[i]) < streams@.len(),
    ensures
        r@ == indexes_but(at_places(stream_views(streams@), audio@), drop),
        r@.len() <= audio@.len(),
{
    let ghost av = at_places(stream_views(streams@), audio@);
    let mut out: Vec<usize> = Vec::new();
    let mut i: usize = 0;
    assert(av.take(0) =~= seq![]);
    while i < audio.len()
        invariant
            i <= audio.len(),
            av == at_places(stream_views(streams@), audio@),
            forall|k: int| 0 <= k < audio@.len() ==> (#[trigger] audio@[k]) < streams@.len(),
            out@ == indexes_but(av.take(i as int), drop),
            out@.len() <= i,
        decreases audio.len() - i,
    {
        assert(av.take(i + 1).drop_last() =~= av.take(i as int));
        assert(av.take(i + 1).last() == streams@[audio@[i as int] as int]@);
        let index = streams[audio[i]].index;
        let dropped = match drop {
            Some(d) => d == index,
            None => false,
        };
        if !dropped {
            out.push(index);
        }
        i += 1;
    }
    assert(av.take(i as int) =~= av);
    out
}

pub fn plan(probe: &Probe, name: &str) -> (r: Result<Plan, String>)
    ensures
        match r {
            Ok(p) => planned(probe@.streams, name@) == Ok::<PlanView, Seq<char>>(p@),
            Err(why) => planned(probe@.streams, name@) == Err::<PlanView, Seq<char>>(why@),
        },
{
    let ghost ss = stream_views(probe.streams@);
    let video = places(&probe.streams, Kind::Video);
    if video.len() == 0 {
        return Err("no video stream".to_owned());
    }
    let audio = places(&probe.streams, Kind::Audio);
    if has_marked(&probe.streams, &audio) {
        return Err(DONE.to_owned());
    }
    if audio.len() == 0 {
        return Err("no audio stream".to_owned());
    }
    let at = playing_place(&probe.streams, &audio);
    let p = &probe.streams[at];
    // A stereo twin remux made without this step: raise a fresh twin
    // from the Dolby track behind it rather than re-encode an encode.
    let original = behind_place(&probe.streams, &audio, p.index);
    let twin = match original {
        Some(o) => text::contains(p.label.as_str(), TWIN_LABEL) && (text::same(
            probe.streams[o].codec.as_str(),
            "ac3",
        ) || text::same(probe.streams[o].codec.as_str(), "eac3")),
        None => false,
    };
    let mut source: usize = p.index;
    let mut layout: Option<&'static str> = None;
    let mut channels_out: usize = if p.channels == 0 {
        1
    } else {
        p.channels
    };
    let mut drop: Option<usize> = None;
    if twin {
        if let Some(o) = original {
            source = probe.streams[o].index;
        }
        layout = Some("stereo");
        channels_out = 2;
        drop = Some(p.index);
    } else if p.channels > 6 {
        layout = Some("5.1");
        channels_out = 6;
    }
    let keep = kept(&probe.streams, &audio, drop);
    let hevc = has_hevc(&probe.streams);
    let out = Plan {
        source,
        layout,
        channels_out,
        drop,
        keep,
        hevc_mp4: hevc && is_mp4(name),
        matroska: is_matroska(name),
    };
    assert(planned(ss, name@)->Ok_0 =~= out@);
    Ok(out)
}

// --------------------------------------------------------- the invocation

pub open spec fn bitrate_of(channels: usize) -> Seq<char> {
    if channels <= 1 {
        "96k"@
    } else if channels == 2 {
        "192k"@
    } else if channels <= 6 {
        "384k"@
    } else {
        "512k"@
    }
}

pub fn bitrate(channels: usize) -> (r: &'static str)
    ensures
        r@ == bitrate_of(channels),
{
    if channels <= 1 {
        "96k"
    } else if channels == 2 {
        "192k"
    } else if channels <= 6 {
        "384k"
    } else {
        "512k"
    }
}

pub open spec fn maps(idxs: Seq<usize>) -> Seq<Seq<char>>
    decreases idxs.len(),
{
    if idxs.len() == 0 {
        seq![]
    } else {
        maps(idxs.drop_last()) + seq!["-map"@, "0:"@ + text::decimal(idxs.last() as int)]
    }
}

/// No default flag on the first `n` tracks behind the new one.
pub open spec fn not_default(n: nat) -> Seq<Seq<char>>
    decreases n,
{
    if n == 0 {
        seq![]
    } else {
        not_default((n - 1) as nat) + seq!["-disposition:a:"@ + text::decimal(n as int), "0"@]
    }
}

pub open spec fn when(yes: bool, words: Seq<Seq<char>>) -> Seq<Seq<char>> {
    if yes {
        words
    } else {
        seq![]
    }
}

/// How the raised track is encoded, labelled and made the default.
pub open spec fn raised_track(p: PlanView, gain: int) -> Seq<Seq<char>> {
    let name = label_of(gain, p.drop is Some);
    seq![
        "-c"@,
        "copy"@,
        "-c:a:0"@,
        "aac"@,
        "-b:a:0"@,
        bitrate_of(p.channels_out),
        "-filter:a:0"@,
        filter_of(p.layout, "volume="@ + decibels(gain, false) + "dB"@),
        "-metadata:s:a:0"@,
        "title="@ + name,
        "-metadata:s:a:0"@,
        "handler_name="@ + name,
        "-disposition:a:0"@,
        "default"@,
    ]
}

/// The whole invocation: video (cover art included), the raised track, the
/// audio kept behind it, subtitles; Matroska attachments (fonts) come along.
pub open spec fn invocation(
    p: PlanView,
    gain: int,
    input: Seq<char>,
    keep_encoder: Option<Seq<char>>,
    output: Seq<char>,
) -> Seq<Seq<char>> {
    seq![
        "-v"@,
        "error"@,
        "-nostdin"@,
        "-y"@,
        "-i"@,
        input,
        "-map"@,
        "0:v?"@,
        "-map"@,
        "0:"@ + text::decimal(p.source as int),
    ] + maps(p.keep) + seq!["-map"@, "0:s?"@] + when(p.matroska, seq!["-map"@, "0:t?"@])
        + raised_track(p, gain) + not_default(p.keep.len()) + when(
        p.hevc_mp4,
        seq!["-tag:v"@, "hvc1"@],
    ) + (match keep_encoder {
        Some(e) => seq!["-metadata"@, "encoding_tool="@ + e],
        None => seq![],
    }) + seq![output]
}

fn prefixed(prefix: &str, s: &str) -> (r: String)
    ensures
        r@ == prefix@ + s@,
{
    let mut out = prefix.to_owned();
    out.push_str(s);
    out
}

fn push_maps(args: &mut Vec<String>, idxs: &Vec<usize>)
    ensures
        text::texts(final(args)@) == text::texts(old(args)@) + maps(idxs@),
{
    let mut i: usize = 0;
    assert(idxs@.take(0) =~= seq![]);
    assert(text::texts(args@) =~= text::texts(old(args)@) + maps(idxs@.take(0)));
    while i < idxs.len()
        invariant
            i <= idxs.len(),
            text::texts(args@) == text::texts(old(args)@) + maps(idxs@.take(i as int)),
        decreases idxs.len() - i,
    {
        assert(idxs@.take(i + 1).drop_last() =~= idxs@.take(i as int));
        text::push_text(args, "-map");
        let stream = prefixed("0:", text::dec_usize(idxs[i]).as_str());
        text::push_text(args, stream.as_str());
        i += 1;
        assert(text::texts(args@) =~= text::texts(old(args)@) + maps(idxs@.take(i as int)));
    }
    assert(idxs@.take(i as int) =~= idxs@);
}

fn push_not_default(args: &mut Vec<String>, count: usize)
    ensures
        text::texts(final(args)@) == text::texts(old(args)@) + not_default(count as nat),
{
    let mut n: usize = 0;
    assert(text::texts(args@) =~= text::texts(old(args)@) + not_default(0));
    while n < count
        invariant
            n <= count,
            text::texts(args@) == text::texts(old(args)@) + not_default(n as nat),
        decreases count - n,
    {
        n += 1;
        let option = prefixed("-disposition:a:", text::dec_usize(n).as_str());
        text::push_text(args, option.as_str());
        text::push_text(args, "0");
        assert(text::texts(args@) =~= text::texts(old(args)@) + not_default(n as nat));
    }
}

fn push_raised_track(args: &mut Vec<String>, plan: &Plan, gain: i64)
    requires
        gain > i64::MIN,
    ensures
        text::texts(final(args)@) == text::texts(old(args)@) + raised_track(plan@, gain as int),
{
    text::push_words(args, &["-c", "copy", "-c:a:0", "aac", "-b:a:0"]);
    text::push_text(args, bitrate(plan.channels_out));
    text::push_text(args, "-filter:a:0");
    let mut volume = prefixed("volume=", write_decibels(gain, false).as_str());
    volume.push_str("dB");
    let filter = write_filter(plan.layout, volume.as_str());
    text::push_text(args, filter.as_str());
    let name = label(gain, plan.drop.is_some());
    text::push_text(args, "-metadata:s:a:0");
    let title = prefixed("title=", name.as_str());
    text::push_text(args, title.as_str());
    text::push_text(args, "-metadata:s:a:0");
    let handler = prefixed("handler_name=", name.as_str());
    text::push_text(args, handler.as_str());
    text::push_words(args, &["-disposition:a:0", "default"]);
    assert(text::texts(args@) =~= text::texts(old(args)@) + raised_track(plan@, gain as int));
}

pub fn ffmpeg_args(
    plan: &Plan,
    gain: i64,
    input: &str,
    keep_encoder: Option<String>,
    output: &str,
) -> (r: Vec<String>)
    requires
        gain > i64::MIN,
    ensures
        text::texts(r@) == invocation(
            plan@,
            gain as int,
            input@,
            text::opt_text(keep_encoder),
            output@,
        ),
{
    let ghost record = text::opt_text(keep_encoder);
    let mut args: Vec<String> = Vec::new();
    text::push_words(&mut args, &["-v", "error", "-nostdin", "-y", "-i"]);
    text::push_text(&mut args, input);
    text::push_words(&mut args, &["-map", "0:v?", "-map"]);
    let source = prefixed("0:", text::dec_usize(plan.source).as_str());
    text::push_text(&mut args, source.as_str());
    assert(text::texts(args@) =~= seq![
        "-v"@,
        "error"@,
        "-nostdin"@,
        "-y"@,
        "-i"@,
        input@,
        "-map"@,
        "0:v?"@,
        "-map"@,
        "0:"@ + text::decimal(plan.source as int),
    ]);
    push_maps(&mut args, &plan.keep);
    text::push_words(&mut args, &["-map", "0:s?"]);
    if plan.matroska {
        text::push_words(&mut args, &["-map", "0:t?"]);
    }
    push_raised_track(&mut args, plan, gain);
    push_not_default(&mut args, plan.keep.len());
    if plan.hevc_mp4 {
        // ffmpeg's default hev1 tag is refused by Apple's players.
        text::push_words(&mut args, &["-tag:v", "hvc1"]);
    }
    if let Some(encoder) = keep_encoder {
        text::push_text(&mut args, "-metadata");
        let tool = prefixed("encoding_tool=", encoder.as_str());
        text::push_text(&mut args, tool.as_str());
    }
    text::push_text(&mut args, output);
    assert(text::texts(args@) =~= invocation(plan@, gain as int, input@, record, output@));
    args
}

// ------------------------------------------------------------ the decision

/// What a measurement calls for.
#[derive(Debug, Clone, Copy, PartialEq, Eq, Structural)]
pub enum Verdict {
    /// The meter saw silence.
    Silent,
    /// Within reach of the target already.
    Normal,
    /// Quiet, but the peaks leave too little room for a linear raise.
    NoHeadroom,
    /// Raise by this many tenths of a decibel.
    Gain(i64),
}

#[derive(Debug)]
pub enum Outcome {
    /// Not a candidate; the reason.
    Skipped(String),
    /// A raised track is already in the file.
    AlreadyNormalized,
    Normal,
    NoHeadroom,
    /// Dry run: what a real run would do.
    WouldNormalize(i64),
    Normalized(i64),
}

/// What to do with a file once it has been probed.
#[derive(Debug)]
pub enum Look {
    Done(Outcome),
    /// Measure the plan's source, as ffmpeg names it.
    Measure(Plan, String),
}

/// Why a file is not looked at, going by its name.
pub fn pass_over(name: &str) -> (r: Option<String>)
    ensures
        text::opt_text(r) == (if mp4(name@) || matroska(name@) {
            None
        } else {
            Some("not an MP4 or Matroska file"@)
        }),
{
    if !is_mp4(name) && !is_matroska(name) {
        return Some("not an MP4 or Matroska file".to_owned());
    }
    None
}

/// From a probe to what comes next.
pub fn look(before: &Probe, name: &str) -> (r: Look)
    ensures
        match planned(before@.streams, name@) {
            Ok(p) => r matches Look::Measure(plan, stream) && plan@ == p && stream@ == "0:"@
                + text::decimal(p.source as int),
            Err(why) => if why == DONE@ {
                r == Look::Done(Outcome::AlreadyNormalized)
            } else {
                r matches Look::Done(Outcome::Skipped(s)) && s@ == why
            },
        },
{
    match plan(before, name) {
        Ok(p) => {
            let stream = prefixed("0:", text::dec_usize(p.source).as_str());
            Look::Measure(p, stream)
        },
        Err(why) => if text::same(why.as_str(), DONE) {
            Look::Done(Outcome::AlreadyNormalized)
        } else {
            Look::Done(Outcome::Skipped(why))
        },
    }
}

/// What to do once the source has been measured.
#[derive(Debug)]
pub enum Step {
    Done(Outcome),
    /// Mux with this gain, then verify.
    Mux(i64),
}

/// From a verdict to the next step. With `dry_run`, decide only.
pub fn decide(verdict: Verdict, dry_run: bool) -> (r: Step)
    ensures
        match verdict {
            Verdict::Silent => r matches Step::Done(Outcome::Skipped(s)) && s@
                == "the audio is silent"@,
            Verdict::Normal => r == Step::Done(Outcome::Normal),
            Verdict::NoHeadroom => r == Step::Done(Outcome::NoHeadroom),
            Verdict::Gain(g) => if dry_run {
                r == Step::Done(Outcome::WouldNormalize(g))
            } else {
                r == Step::Mux(g)
            },
        },
{
    match verdict {
        Verdict::Silent => Step::Done(Outcome::Skipped("the audio is silent".to_owned())),
        Verdict::Normal => Step::Done(Outcome::Normal),
        Verdict::NoHeadroom => Step::Done(Outcome::NoHeadroom),
        Verdict::Gain(g) => if dry_run {
            Step::Done(Outcome::WouldNormalize(g))
        } else {
            Step::Mux(g)
        },
    }
}

/// The caption record that the mux must carry over, if the file has one.
pub open spec fn record_of(encoder: Seq<char>) -> Option<Seq<char>> {
    if captions::recorded(encoder) is Some {
        Some(encoder)
    } else {
        None
    }
}

pub fn record_to_keep(before: &Probe) -> (r: Option<String>)
    ensures
        text::opt_text(r) == record_of(before@.encoder),
{
    match captions::recorded_hash(before.encoder.as_str()) {
        Some(_) => Some(before.encoder.clone()),
        None => None,
    }
}

/// The number of audio tracks that the result must have.
pub open spec fn wanted_audio(before: Seq<StreamView>, drop: Option<usize>) -> int {
    of_kind(before, Kind::Audio).len() + 1 - if drop is Some {
        1int
    } else {
        0int
    }
}

/// What the muxed file must hold: the same streams plus one (less a replaced
/// twin), the raised track first and labelled, the caption record intact.
pub open spec fn faithful(before: ProbeView, after: ProbeView, drop: Option<usize>) -> bool {
    let audio = of_kind(after.streams, Kind::Audio);
    &&& of_kind(after.streams, Kind::Video).len() == of_kind(before.streams, Kind::Video).len()
    &&& audio.len() == wanted_audio(before.streams, drop)
    &&& of_kind(after.streams, Kind::Subtitle).len() == of_kind(
        before.streams,
        Kind::Subtitle,
    ).len()
    &&& audio.len() > 0 && audio[0].codec == "aac"@ && audio[0].default && marked(audio[0].label)
    &&& record_of(before.encoder) is Some ==> after.encoder == before.encoder
}

/// Whether the muxed file may go on to be measured, given whether its
/// duration is unchanged.
pub fn verified(before: &Probe, after: &Probe, drop: Option<usize>, duration_kept: bool) -> (r:
    bool)
    requires
        before.streams@.len() < usize::MAX,
    ensures
        r == (faithful(before@, after@, drop) && duration_kept),
{
    let audio_before = places(&before.streams, Kind::Audio);
    let audio = places(&after.streams, Kind::Audio);
    proof {
        lemma_of_kind_len(before@.streams, Kind::Audio);
    }
    let want_audio: usize = if drop.is_some() {
        audio_before.len()
    } else {
        audio_before.len() + 1
    };
    let same_video = places(&after.streams, Kind::Video).len() == places(
        &before.streams,
        Kind::Video,
    ).len();
    let same_subtitles = places(&after.streams, Kind::Subtitle).len() == places(
        &before.streams,
        Kind::Subtitle,
    ).len();
    let record = match captions::recorded_hash(before.encoder.as_str()) {
        Some(_) => text::same(after.encoder.as_str(), before.encoder.as_str()),
        None => true,
    };
    if audio.len() == 0 {
        return false;
    }
    assert(of_kind(after@.streams, Kind::Audio)[0] == after.streams@[audio@[0] as int]@);
    let first = &after.streams[audio[0]];
    same_video && audio.len() == want_audio && same_subtitles && duration_kept && text::same(
        first.codec.as_str(),
        "aac",
    ) && first.default && is_marked(first.label.as_str()) && record
}

proof fn lemma_of_kind_len(streams: Seq<StreamView>, kind: Kind)
    ensures
        of_kind(streams, kind).len() <= streams.len(),
    decreases streams.len(),
{
    if streams.len() > 0 {
        lemma_of_kind_len(streams.drop_last(), kind);
    }
}

// -------------------------------------------------------------------- laws

proof fn lemma_lower_concat(a: Seq<char>, b: Seq<char>)
    ensures
        text::ascii_lower(a + b) == text::ascii_lower(a) + text::ascii_lower(b),
{
    assert(text::ascii_lower(a + b) =~= text::ascii_lower(a) + text::ascii_lower(b));
}

proof fn lemma_holds_middle(a: Seq<char>, p: Seq<char>, b: Seq<char>)
    ensures
        text::holds(a + p + b, p),
{
    let s = a + p + b;
    assert(s.subrange(a.len() as int, (a.len() + p.len()) as int) =~= p);
    assert(text::occurs_at(s, p, a.len() as int));
}

proof fn lemma_ascii_number(n: int)
    requires
        n >= 0,
    ensures
        text::ascii(text::decimal(n)),
{
    text::lemma_nat_digits(n);
    let d = text::decimal(n);
    assert forall|i: int| 0 <= i < d.len() implies (#[trigger] d[i]) as int <= 127 by {
        assert(text::is_digit(d[i]));
    }
}

proof fn lemma_ascii_concat(a: Seq<char>, b: Seq<char>)
    requires
        text::ascii(a),
        text::ascii(b),
    ensures
        text::ascii(a + b),
{
    let s = a + b;
    assert forall|i: int| 0 <= i < s.len() implies (#[trigger] s[i]) as int <= 127 by {
        if i < a.len() {
            assert(s[i] == a[i]);
        } else {
            assert(s[i] == b[i - a.len()]);
        }
    }
}

proof fn lemma_ascii_decibels(tenths: int)
    ensures
        text::ascii(decibels(tenths, true)),
{
    reveal_strlit("-");
    reveal_strlit("+");
    reveal_strlit("");
    reveal_strlit(".");
    let m = if tenths < 0 {
        -tenths
    } else {
        tenths
    };
    let sign = if tenths < 0 {
        "-"@
    } else {
        "+"@
    };
    lemma_ascii_number(m / 10);
    lemma_ascii_number(m % 10);
    lemma_ascii_concat(sign, text::decimal(m / 10));
    lemma_ascii_concat(sign + text::decimal(m / 10), "."@);
    lemma_ascii_concat(sign + text::decimal(m / 10) + "."@, text::decimal(m % 10));
}

/// A text made of a head that says "normalized" and the tool's name at its
/// end is marked.
proof fn lemma_marked(head: Seq<char>, front: Seq<char>, back: Seq<char>, middle: Seq<char>)
    requires
        text::ascii(head),
        text::ascii(middle),
        text::ascii_lower(head) == front + "normalized"@ + back,
    ensures
        marked(head + middle + " dB (media-enrich)"@),
{
    reveal_strlit(" dB (media-enrich)");
    reveal_strlit(" db ");
    reveal_strlit("(media-enrich)");
    let tail = " dB (media-enrich)"@;
    let label = head + middle + tail;
    lemma_ascii_concat(head, middle);
    lemma_ascii_concat(head + middle, tail);
    lemma_lower_concat(head, middle);
    lemma_lower_concat(head + middle, tail);
    let lower = text::ascii_lower(label);
    let mid = text::ascii_lower(middle);
    assert(text::ascii_lower(tail) =~= " db "@ + "(media-enrich)"@);
    lemma_holds_middle(front, "normalized"@, back + mid + " db "@ + "(media-enrich)"@);
    assert(lower =~= front + "normalized"@ + (back + mid + " db "@ + "(media-enrich)"@));
    lemma_holds_middle(text::ascii_lower(head) + mid + " db "@, "(media-enrich)"@, seq![]);
    assert(lower =~= text::ascii_lower(head) + mid + " db "@ + "(media-enrich)"@ + seq![]);
}

/// A raised track is recognized by its label, whatever the gain.
pub proof fn labels_are_marked(gain: int, twin: bool)
    ensures
        marked(label_of(gain, twin)),
{
    lemma_ascii_decibels(gain);
    reveal_strlit("normalized");
    if twin {
        reveal_strlit("Stereo (AAC)");
        reveal_strlit(", normalized ");
        reveal_strlit("stereo (aac), ");
        reveal_strlit(" ");
        let head = TWIN_LABEL@ + ", normalized "@;
        lemma_ascii_concat(TWIN_LABEL@, ", normalized "@);
        assert(text::ascii_lower(head) =~= "stereo (aac), "@ + "normalized"@ + " "@);
        lemma_marked(head, "stereo (aac), "@, " "@, decibels(gain, true));
    } else {
        reveal_strlit("Normalized ");
        reveal_strlit(" ");
        let head = "Normalized "@;
        assert(text::ascii_lower(head) =~= Seq::<char>::empty() + "normalized"@ + " "@);
        lemma_marked(head, seq![], " "@, decibels(gain, true));
    }
}

/// Done once is done: a file that was verified after the step is one that
/// the step passes over from then on, under whatever name.
pub proof fn normalizing_once_is_enough(
    before: ProbeView,
    after: ProbeView,
    drop: Option<usize>,
    name: Seq<char>,
)
    requires
        planned(before.streams, name) is Ok,
        faithful(before, after, drop),
    ensures
        forall|later: Seq<char>| #[trigger]
            planned(after.streams, later) == Err::<PlanView, Seq<char>>(DONE@),
{
    let audio = of_kind(after.streams, Kind::Audio);
    assert(marked(audio[0].label));
    assert(any_marked(audio));
}

/// The raise never loses a track: everything but a replaced twin is kept
/// behind the new one, in order.
pub proof fn raising_keeps_every_track(streams: Seq<StreamView>, name: Seq<char>)
    requires
        planned(streams, name) is Ok,
    ensures
        ({
            let p = planned(streams, name)->Ok_0;
            let audio = of_kind(streams, Kind::Audio);
            &&& p.keep == indexes_but(audio, p.drop)
            &&& p.drop is None ==> p.keep == Seq::new(audio.len(), |i: int| audio[i].index)
        }),
{
    let p = planned(streams, name)->Ok_0;
    let audio = of_kind(streams, Kind::Audio);
    if p.drop is None {
        lemma_indexes_all(audio);
    }
}

proof fn lemma_indexes_all(audio: Seq<StreamView>)
    ensures
        indexes_but(audio, None) == Seq::new(audio.len(), |i: int| audio[i].index),
    decreases audio.len(),
{
    if audio.len() > 0 {
        lemma_indexes_all(audio.drop_last());
    }
    assert(indexes_but(audio, None) =~= Seq::new(audio.len(), |i: int| audio[i].index));
}

/// A label that a raised track was given.
pub open spec fn says_normalized(label: Seq<char>) -> bool {
    text::holds(text::lowered(label), "normalized"@) && text::holds(
        text::lowered(label),
        "(media-enrich)"@,
    )
}

pub open spec fn audio_of(streams: Seq<StreamView>) -> Seq<StreamView> {
    streams.filter(|s: StreamView| s.kind == Kind::Audio)
}

proof fn lemma_of_kind(streams: Seq<StreamView>, kind: Kind)
    ensures
        of_kind(streams, kind) == streams.filter(|s: StreamView| s.kind == kind),
    decreases streams.len(),
{
    reveal(Seq::filter);
    if streams.len() > 0 {
        lemma_of_kind(streams.drop_last(), kind);
    }
}

/// Track `i` is the one that plays when nobody chooses: the first that is
/// flagged as the default, or the first where none is.
pub open spec fn plays(audio: Seq<StreamView>, i: int) -> bool {
    &&& 0 <= i < audio.len()
    &&& audio[i].default ==> forall|j: int| 0 <= j < i ==> !(#[trigger] audio[j]).default
    &&& !audio[i].default ==> i == 0 && forall|j: int|
        0 <= j < audio.len() ==> !(#[trigger] audio[j]).default
}

/// Track `i` is a stereo twin that stands in front of the Dolby Digital track it
/// was made of.
pub open spec fn twin_at(audio: Seq<StreamView>, i: int) -> bool {
    &&& text::holds(audio[i].label, "Stereo (AAC)"@)
    &&& i + 1 < audio.len()
    &&& audio[i + 1].codec == "ac3"@ || audio[i + 1].codec == "eac3"@
}

proof fn lemma_plays(audio: Seq<StreamView>, i: int)
    requires
        plays(audio, i),
    ensures
        playing(audio) == audio[i],
{
    if audio[i].default {
        lemma_default_at(audio, i);
    } else {
        lemma_no_default(audio);
    }
}

proof fn lemma_default_at(audio: Seq<StreamView>, i: int)
    requires
        0 <= i < audio.len(),
        audio[i].default,
        forall|j: int| 0 <= j < i ==> !(#[trigger] audio[j]).default,
    ensures
        first_default(audio) == i,
    decreases audio.len(),
{
    if i > 0 {
        let rest = audio.drop_first();
        assert(!audio[0].default);
        assert forall|j: int| 0 <= j < i - 1 implies !(#[trigger] rest[j]).default by {
            assert(!audio[j + 1].default);
        }
        assert(rest[i - 1] == audio[i]);
        lemma_default_at(rest, i - 1);
    }
}

proof fn lemma_no_default(audio: Seq<StreamView>)
    requires
        forall|j: int| 0 <= j < audio.len() ==> !(#[trigger] audio[j]).default,
    ensures
        first_default(audio) == audio.len(),
    decreases audio.len(),
{
    if audio.len() > 0 {
        let rest = audio.drop_first();
        assert(!audio[0].default);
        assert forall|j: int| 0 <= j < rest.len() implies !(#[trigger] rest[j]).default by {
            assert(!audio[j + 1].default);
        }
        lemma_no_default(rest);
    }
}

proof fn lemma_place_at(audio: Seq<StreamView>, i: int)
    requires
        0 <= i < audio.len(),
        forall|j: int| 0 <= j < i ==> (#[trigger] audio[j]).index != audio[i].index,
    ensures
        place_of(audio, audio[i].index) == i,
    decreases audio.len(),
{
    if i > 0 {
        let rest = audio.drop_first();
        assert(audio[0].index != audio[i].index);
        assert(rest[i - 1] == audio[i]);
        assert forall|j: int| 0 <= j < i - 1 implies (#[trigger] rest[j]).index
            != rest[i - 1].index by {
            assert(audio[j + 1].index != audio[i].index);
        }
        lemma_place_at(rest, i - 1);
    }
}

/// The track that is raised is the one that plays when nobody chooses; where
/// that is a twin in front of its Dolby Digital track, the raised one is made
/// of the Dolby Digital track, in stereo, and takes the twin's place. Every
/// other track is kept behind it. A file that has a raised track is done, and
/// one without pictures or sound is passed over.
pub proof fn the_playing_track_is_raised(streams: Seq<StreamView>, name: Seq<char>, i: int)
    requires
        plays(audio_of(streams), i),
        forall|j: int, k: int|
            0 <= j < k < audio_of(streams).len() ==> (#[trigger] audio_of(streams)[j]).index != (
            #[trigger] audio_of(streams)[k]).index,
        streams.filter(|s: StreamView| s.kind == Kind::Video).len() > 0,
    ensures
        ({
            let audio = audio_of(streams);
            let done = exists|j: int|
                0 <= j < audio.len() && says_normalized((#[trigger] audio[j]).label);
            &&& done ==> planned(streams, name) == Err::<PlanView, Seq<char>>(
                "already carries a normalized track"@,
            )
            &&& !done ==> planned(streams, name) is Ok
            &&& !done && twin_at(audio, i) ==> {
                let p = planned(streams, name)->Ok_0;
                &&& p.source == audio[i + 1].index
                &&& p.layout == Some("stereo"@)
                &&& p.channels_out == 2
                &&& p.drop == Some(audio[i].index)
                &&& p.keep == audio.remove(i).map_values(|s: StreamView| s.index)
            }
            &&& !done && !twin_at(audio, i) ==> {
                let p = planned(streams, name)->Ok_0;
                &&& p.source == audio[i].index
                &&& p.layout == (if audio[i].channels > 6 {
                    Some("5.1"@)
                } else {
                    None
                })
                &&& audio[i].channels > 6 ==> p.channels_out == 6
                &&& 0 < audio[i].channels <= 6 ==> p.channels_out == audio[i].channels
                &&& p.drop is None
                &&& p.keep == audio.map_values(|s: StreamView| s.index)
            }
            &&& planned(streams, name) matches Ok(p) ==> {
                &&& p.matroska == paths::has_extension(name, ["mkv"]@)
                &&& p.hevc_mp4 == (paths::has_extension(name, ["mp4", "m4v", "mov"]@) && exists|
                    j: int,
                |
                    0 <= j < streams.len() && (#[trigger] streams[j]).kind == Kind::Video
                        && streams[j].codec == "hevc"@)
            }
        }),
{
    let audio = audio_of(streams);
    lemma_of_kind(streams, Kind::Audio);
    lemma_of_kind(streams, Kind::Video);
    lemma_plays(audio, i);
    assert forall|j: int| 0 <= j < i implies (#[trigger] audio[j]).index != audio[i].index by {
        assert(audio_of(streams)[j].index != audio_of(streams)[i].index);
    }
    lemma_place_at(audio, i);
    assert forall|j: int, k: int| 0 <= j < k < audio.len() implies (#[trigger] audio[j]).index != (
    #[trigger] audio[k]).index by {
        assert(audio_of(streams)[j].index != audio_of(streams)[k].index);
    }
    lemma_all_but(audio, i);
    lemma_all(audio);
    assert(any_marked(audio) == exists|j: int|
        0 <= j < audio.len() && says_normalized((#[trigger] audio[j]).label)) by {
        if any_marked(audio) {
            let j = choose|j: int| 0 <= j < audio.len() && marked((#[trigger] audio[j]).label);
            assert(says_normalized(audio[j].label));
        }
    }
}

proof fn lemma_all(audio: Seq<StreamView>)
    ensures
        indexes_but(audio, None) == audio.map_values(|s: StreamView| s.index),
    decreases audio.len(),
{
    let f = |s: StreamView| s.index;
    if audio.len() > 0 {
        lemma_all(audio.drop_last());
        assert(audio.map_values(f) =~= audio.drop_last().map_values(f).push(audio.last().index));
    } else {
        assert(audio.map_values(f) =~= seq![]);
    }
}

proof fn lemma_all_but(audio: Seq<StreamView>, i: int)
    requires
        0 <= i < audio.len(),
        forall|j: int, k: int|
            0 <= j < k < audio.len() ==> (#[trigger] audio[j]).index != (#[trigger] audio[k]).index,
    ensures
        indexes_but(audio, Some(audio[i].index)) == audio.remove(i).map_values(
            |s: StreamView| s.index,
        ),
    decreases audio.len(),
{
    let f = |s: StreamView| s.index;
    let head = audio.drop_last();
    let n = audio.len() - 1;
    if i < n {
        assert(audio[i].index != audio[n].index);
        assert(head[i] == audio[i]);
        lemma_all_but(head, i);
        assert(audio.remove(i).map_values(f) =~= head.remove(i).map_values(f).push(
            audio.last().index,
        ));
    } else {
        lemma_none_of(head, audio[i].index);
        assert(audio.remove(i) =~= head);
    }
}

proof fn lemma_none_of(audio: Seq<StreamView>, index: usize)
    requires
        forall|j: int| 0 <= j < audio.len() ==> (#[trigger] audio[j]).index != index,
    ensures
        indexes_but(audio, Some(index)) == audio.map_values(|s: StreamView| s.index),
    decreases audio.len(),
{
    let f = |s: StreamView| s.index;
    if audio.len() > 0 {
        let head = audio.drop_last();
        assert(audio[audio.len() - 1].index != index);
        assert forall|j: int| 0 <= j < head.len() implies (#[trigger] head[j]).index != index by {
            assert(audio[j].index != index);
        }
        lemma_none_of(head, index);
        assert(audio.map_values(f) =~= head.map_values(f).push(audio.last().index));
    } else {
        assert(audio.map_values(f) =~= seq![]);
    }
}

/// Without pictures or without sound there is nothing to raise.
pub proof fn silent_films_are_passed_over(streams: Seq<StreamView>, name: Seq<char>)
    ensures
        streams.filter(|s: StreamView| s.kind == Kind::Video).len() == 0 ==> planned(streams, name)
            == Err::<PlanView, Seq<char>>("no video stream"@),
        audio_of(streams).len() == 0 ==> planned(streams, name) is Err,
{
    lemma_of_kind(streams, Kind::Audio);
    lemma_of_kind(streams, Kind::Video);
}

/// What a raise is held to: the file has as many pictures and subtitles as it
/// had, one audio track more, or as many where a twin is replaced; the first
/// is the raised one, in AAC, labelled and the default; and the record of its
/// captions is as it was.
pub proof fn a_raise_is_held_to_account(
    before: ProbeView,
    after: ProbeView,
    drop: Option<usize>,
)
    requires
        faithful(before, after, drop),
    ensures
        after.streams.filter(|s: StreamView| s.kind == Kind::Video).len() == before.streams.filter(
            |s: StreamView| s.kind == Kind::Video,
        ).len(),
        after.streams.filter(|s: StreamView| s.kind == Kind::Subtitle).len()
            == before.streams.filter(|s: StreamView| s.kind == Kind::Subtitle).len(),
        drop is None ==> audio_of(after.streams).len() == audio_of(before.streams).len() + 1,
        drop is Some ==> audio_of(after.streams).len() == audio_of(before.streams).len(),
        audio_of(after.streams).len() > 0,
        audio_of(after.streams)[0].codec == "aac"@,
        audio_of(after.streams)[0].default,
        says_normalized(audio_of(after.streams)[0].label),
        captions::recorded(before.encoder) is Some ==> after.encoder == before.encoder,
{
    lemma_of_kind(before.streams, Kind::Audio);
    lemma_of_kind(before.streams, Kind::Video);
    lemma_of_kind(before.streams, Kind::Subtitle);
    lemma_of_kind(after.streams, Kind::Audio);
    lemma_of_kind(after.streams, Kind::Video);
    lemma_of_kind(after.streams, Kind::Subtitle);
}

/// And a file of which all that holds, and whose raised track is there, passes.
pub proof fn an_accountable_raise_passes(
    before: ProbeView,
    after: ProbeView,
    drop: Option<usize>,
)
    requires
        after.streams.filter(|s: StreamView| s.kind == Kind::Video).len() == before.streams.filter(
            |s: StreamView| s.kind == Kind::Video,
        ).len(),
        after.streams.filter(|s: StreamView| s.kind == Kind::Subtitle).len()
            == before.streams.filter(|s: StreamView| s.kind == Kind::Subtitle).len(),
        audio_of(after.streams).len() == audio_of(before.streams).len() + (if drop is None {
            1int
        } else {
            0
        }),
        audio_of(after.streams).len() > 0,
        audio_of(after.streams)[0].codec == "aac"@,
        audio_of(after.streams)[0].default,
        says_normalized(audio_of(after.streams)[0].label),
        captions::recorded(before.encoder) is Some ==> after.encoder == before.encoder,
    ensures
        faithful(before, after, drop),
{
    lemma_of_kind(before.streams, Kind::Audio);
    lemma_of_kind(before.streams, Kind::Video);
    lemma_of_kind(before.streams, Kind::Subtitle);
    lemma_of_kind(after.streams, Kind::Audio);
    lemma_of_kind(after.streams, Kind::Video);
    lemma_of_kind(after.streams, Kind::Subtitle);
}

/// A gain is written in decibels with one decimal, and the filter and the label
/// are given the same one.
pub proof fn gains_are_written_in_decibels(whole: int, tenth: int)
    requires
        0 <= whole,
        0 <= tenth < 10,
    ensures
        decibels(10 * whole + tenth, true) == "+"@ + text::decimal(whole) + "."@ + text::decimal(
            tenth,
        ),
        decibels(10 * whole + tenth, false) == text::decimal(whole) + "."@ + text::decimal(tenth),
        10 * whole + tenth > 0 ==> decibels(-(10 * whole + tenth), true) == "-"@ + text::decimal(
            whole,
        ) + "."@ + text::decimal(tenth) && decibels(-(10 * whole + tenth), false) == "-"@
            + text::decimal(whole) + "."@ + text::decimal(tenth),
{
    let t = 10 * whole + tenth;
    assert(t / 10 == whole && t % 10 == tenth);
    reveal_strlit("");
    assert(""@ + text::decimal(whole) =~= text::decimal(whole));
}

/// More channels get no lower a bitrate; stereo gets 192k, and 5.1 gets 384k.
pub proof fn bitrates_follow_the_channels(channels: usize)
    ensures
        channels == 1 ==> bitrate_of(channels) == "96k"@,
        channels == 2 ==> bitrate_of(channels) == "192k"@,
        3 <= channels <= 6 ==> bitrate_of(channels) == "384k"@,
        channels > 6 ==> bitrate_of(channels) == "512k"@,
{
}

/// A number of the summary is the first word behind its key, on the first line
/// that begins with the key.
pub proof fn summaries_are_read_by_key(
    lines: Seq<Seq<char>>,
    key: Seq<char>,
    i: int,
    rest: Seq<char>,
)
    requires
        0 <= i < lines.len(),
        text::trimmed(lines[i]) == key + rest,
        forall|j: int| 0 <= j < i ==> !text::begins(text::trimmed(#[trigger] lines[j]), key),
        text::words_of(rest).len() > 0,
    ensures
        summary_value(lines, key) == Some(text::words_of(rest)[0]),
{
    let l = key + rest;
    assert(l.subrange(0, key.len() as int) =~= key);
    assert(l.skip(key.len() as int) =~= rest);
    lemma_keyed_at(lines, key, i);
}

proof fn lemma_keyed_at(lines: Seq<Seq<char>>, key: Seq<char>, i: int)
    requires
        0 <= i < lines.len(),
        text::begins(text::trimmed(lines[i]), key),
        forall|j: int| 0 <= j < i ==> !text::begins(text::trimmed(#[trigger] lines[j]), key),
    ensures
        line_keyed(lines, key) == i,
    decreases lines.len(),
{
    if i > 0 {
        let rest = lines.drop_first();
        assert(!text::begins(text::trimmed(lines[0]), key));
        assert(rest[i - 1] == lines[i]);
        assert forall|j: int| 0 <= j < i - 1 implies !text::begins(
            text::trimmed(#[trigger] rest[j]),
            key,
        ) by {
            assert(!text::begins(text::trimmed(lines[j + 1]), key));
        }
        lemma_keyed_at(rest, key, i - 1);
    }
}

} // verus!
