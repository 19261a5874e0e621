//! Subtitle track census and selection, shared by the server's on-demand
//! extraction and the enrichment's sidecar extraction so both pick the same
//! track: full English captions (SDH preferred) over a "forced" track that
//! only covers foreign-language passages.
//!
//! Run ffprobe with [`ffprobe_args`] and feed its stdout to
//! [`parse_ffprobe`]; [`best_text_track`] picks the track to extract.
use vstd::prelude::*;
use crate::text;

verus! {

/// Codecs ffmpeg can turn into SubRip/WebVTT text. Bitmap formats (PGS,
/// VobSub) are not extractable as text.
pub const TEXT_CODECS: [&'static str; 8] = [
    "subrip",
    "srt",
    "ass",
    "ssa",
    "mov_text",
    "webvtt",
    "text",
    "subviewer",
];

/// MP4 stores a track title as the handler name; this is ffmpeg's own
/// placeholder there, not a title.
pub const FFMPEG_DEFAULT_HANDLER: &'static str = "SubtitleHandler";

/// ffprobe arguments listing every subtitle stream, in stream order, in
/// the wrapped `default` writer form that [`parse_ffprobe`] reads.
pub fn ffprobe_args() -> (r: [&'static str; 8])
    ensures
        r@[0]@ == "-v"@,
        r@[1]@ == "error"@,
        r@[2]@ == "-select_streams"@,
        r@[3]@ == "s"@,
        r@[4]@ == "-show_entries"@,
        r@[5]@
            == "stream=codec_name:stream_tags=language,title,handler_name:stream_disposition=default,forced,hearing_impaired"@,
        r@[6]@ == "-of"@,
        r@[7]@ == "default"@,
{
    [
        "-v",
        "error",
        "-select_streams",
        "s",
        "-show_entries",
        "stream=codec_name:stream_tags=language,title,handler_name:stream_disposition=default,forced,hearing_impaired",
        "-of",
        "default",
    ]
}

#[derive(Debug)]
pub struct Track {
    /// Position among the file's subtitle streams: ffmpeg's `0:s:N`.
    pub ordinal: usize,
    pub codec: String,
    pub language: Option<String>,
    pub title: Option<String>,
    pub default: bool,
    pub forced: bool,
    pub hearing_impaired: bool,
}

/// A track's texts and flags.
#[verifier::ext_equal]
pub struct TrackView {
    pub ordinal: int,
    pub codec: Seq<char>,
    pub language: Option<Seq<char>>,
    pub title: Option<Seq<char>>,
    pub default: bool,
    pub forced: bool,
    pub hearing_impaired: bool,
}

impl View for Track {
    type V = TrackView;

    open spec fn view(&self) -> TrackView {
        TrackView {
            ordinal: self.ordinal as int,
            codec: self.codec@,
            language: text::opt_text(self.language),
            title: text::opt_text(self.title),
            default: self.default,
            forced: self.forced,
            hearing_impaired: self.hearing_impaired,
        }
    }
}

impl TrackView {
    /// A track of which only the position is known.
    pub open spec fn blank(ordinal: int) -> TrackView {
        TrackView {
            ordinal,
            codec: seq![],
            language: None,
            title: None,
            default: false,
            forced: false,
            hearing_impaired: false,
        }
    }

    pub open spec fn text(self) -> bool {
        text::listed(self.codec, TEXT_CODECS@)
    }

    /// Whether the title has the word, whatever its case.
    pub open spec fn titled(self, word: Seq<char>) -> bool {
        match self.title {
            Some(t) => exists|i: int|
                0 <= i < text::runs_of(t).len() && text::ascii_lower(
                    #[trigger] text::runs_of(t)[i],
                ) == word,
            None => false,
        }
    }

    /// The language says English, or says nothing and the title does.
    pub open spec fn english(self) -> bool {
        match self.language {
            Some(l) => {
                let l = text::ascii_lower(l);
                l == "eng"@ || l == "en"@ || (l == "und"@ && self.titled("english"@))
            },
            None => self.titled("english"@),
        }
    }

    /// Flagged in the container, or named in the title.
    pub open spec fn sdh(self) -> bool {
        self.hearing_impaired || self.titled("sdh"@) || self.titled("cc"@) || self.titled("hoh"@)
            || self.titled("hearing"@)
    }

    /// Short human description: "eng, SDH", "fra, forced", "eng".
    pub open spec fn description(self) -> Seq<char> {
        (match self.language {
            Some(l) => l,
            None => "und"@,
        }) + (if self.sdh() {
            ", SDH"@
        } else {
            seq![]
        }) + (if self.forced {
            ", forced"@
        } else {
            seq![]
        })
    }

    /// Whether `self` is to be preferred to `other`: one that is not forced,
    /// then English, then SDH, then the container's default, then the
    /// earlier.
    pub open spec fn outranks(self, other: TrackView) -> bool {
        if self.forced != other.forced {
            !self.forced
        } else if self.english() != other.english() {
            self.english()
        } else if self.sdh() != other.sdh() {
            self.sdh()
        } else if self.default != other.default {
            self.default
        } else {
            self.ordinal < other.ordinal
        }
    }
}

impl Track {
    pub fn is_text(&self) -> (r: bool)
        ensures
            r == self@.text(),
    {
        text::is_one_of(self.codec.as_str(), &TEXT_CODECS)
    }

    fn title_words(&self) -> (r: Vec<String>)
        ensures
            match self@.title {
                Some(t) => {
                    &&& r@.len() == text::runs_of(t).len()
                    &&& forall|i: int|
                        0 <= i < r@.len() ==> (#[trigger] r@[i])@ == text::ascii_lower(
                            text::runs_of(t)[i],
                        )
                },
                None => r@.len() == 0,
            },
    {
        let mut out: Vec<String> = Vec::new();
        match &self.title {
            None => {},
            Some(t) => {
                let runs = text::runs(t.as_str());
                assert(text::texts(runs@).len() == runs@.len());
                let mut i: usize = 0;
                while i < runs.len()
                    invariant
                        i <= runs.len(),
                        out@.len() == i,
                        text::texts(runs@) == text::runs_of(t@),
                        forall|k: int|
                            0 <= k < i ==> (#[trigger] out@[k])@ == text::ascii_lower(
                                text::runs_of(t@)[k],
                            ),
                    decreases runs.len() - i,
                {
                    assert(text::texts(runs@)[i as int] == runs@[i as int]@);
                    out.push(text::to_ascii_lowercase(runs[i].as_str()));
                    i += 1;
                }
            },
        }
        out
    }

    fn has_title_word(&self, word: &str) -> (r: bool)
        ensures
            r == self@.titled(word@),
    {
        let words = self.title_words();
        let mut i: usize = 0;
        while i < words.len()
            invariant
                i <= words.len(),
                forall|k: int| 0 <= k < i ==> (#[trigger] words@[k])@ != word@,
                match self@.title {
                    Some(t) => {
                        &&& words@.len() == text::runs_of(t).len()
                        &&& forall|i: int|
                            0 <= i < words@.len() ==> (#[trigger] words@[i])@ == text::ascii_lower(
                                text::runs_of(t)[i],
                            )
                    },
                    None => words@.len() == 0,
                },
            decreases words.len() - i,
        {
            if text::same(words[i].as_str(), word) {
                assert(words@[i as int]@ == word@);
                return true;
            }
            i += 1;
        }
        proof {
            match self@.title {
                Some(t) => {
                    assert forall|k: int| 0 <= k < text::runs_of(t).len() implies text::ascii_lower(
                        #[trigger] text::runs_of(t)[k],
                    ) != word@ by {
                        assert(words@[k]@ != word@);
                    }
                },
                None => {},
            }
        }
        false
    }

    pub fn is_english(&self) -> (r: bool)
        ensures
            r == self@.english(),
    {
        match &self.language {
            Some(l) => {
                let l = text::to_ascii_lowercase(l.as_str());
                if text::same(l.as_str(), "eng") || text::same(l.as_str(), "en") {
                    true
                } else if text::same(l.as_str(), "und") {
                    // "und": fall back to the title ("English", "English (SDH)").
                    self.has_title_word("english")
                } else {
                    false
                }
            },
            None => self.has_title_word("english"),
        }
    }

    /// Subtitles for the deaf and hard of hearing: the full dialogue plus
    /// sound cues. Flagged in the container, or named in the title
    /// ("English (SDH)", "English [CC]", "HoH").
    pub fn is_sdh(&self) -> (r: bool)
        ensures
            r == self@.sdh(),
    {
        self.hearing_impaired || self.has_title_word("sdh") || self.has_title_word("cc")
            || self.has_title_word("hoh") || self.has_title_word("hearing")
    }

    /// Short human description: "eng, SDH", "fra, forced", "eng".
    pub fn describe(&self) -> (r: String)
        ensures
            r@ == self@.description(),
    {
        let mut out = match &self.language {
            Some(l) => l.clone(),
            None => "und".to_owned(),
        };
        if self.is_sdh() {
            out.push_str(", SDH");
        }
        if self.forced {
            out.push_str(", forced");
        }
        assert(out@ =~= self@.description());
        out
    }
}

/// The census after some lines: the tracks, and the one that is open.
pub struct Census {
    pub tracks: Seq<TrackView>,
    pub open: Option<TrackView>,
}

/// A track with what one `key=value` line says of it. The handler name
/// stands in for a title that has not been given.
pub open spec fn described(t: TrackView, key: Seq<char>, value: Seq<char>) -> TrackView {
    if key == "codec_name"@ {
        TrackView { codec: value, ..t }
    } else if key == "TAG:language"@ {
        TrackView { language: Some(value), ..t }
    } else if key == "TAG:title"@ {
        TrackView { title: Some(value), ..t }
    } else if key == "TAG:handler_name"@ {
        if t.title is None && value != FFMPEG_DEFAULT_HANDLER@ {
            TrackView { title: Some(value), ..t }
        } else {
            t
        }
    } else if key == "DISPOSITION:default"@ {
        TrackView { default: value == "1"@, ..t }
    } else if key == "DISPOSITION:forced"@ {
        TrackView { forced: value == "1"@, ..t }
    } else if key == "DISPOSITION:hearing_impaired"@ {
        TrackView { hearing_impaired: value == "1"@, ..t }
    } else {
        t
    }
}

/// What one line adds to the census.
pub open spec fn census_line(c: Census, raw: Seq<char>) -> Census {
    let line = text::trimmed(raw);
    if line == "[STREAM]"@ {
        Census { tracks: c.tracks, open: Some(TrackView::blank(c.tracks.len() as int)) }
    } else if line == "[/STREAM]"@ {
        match c.open {
            Some(t) => Census { tracks: c.tracks.push(t), open: None },
            None => c,
        }
    } else {
        match (c.open, text::cut_once(line, "="@)) {
            (Some(t), Some((key, value))) => Census {
                tracks: c.tracks,
                open: Some(described(t, key, value)),
            },
            _ => c,
        }
    }
}

/// The census of a listing's lines.
pub open spec fn census(lines: Seq<Seq<char>>) -> Census
    decreases lines.len(),
{
    if lines.len() == 0 {
        Census { tracks: seq![], open: None }
    } else {
        census_line(census(lines.drop_last()), lines.last())
    }
}

pub open spec fn track_views(v: Seq<Track>) -> Seq<TrackView> {
    Seq::new(v.len(), |i: int| v[i]@)
}

fn blank_track(ordinal: usize) -> (r: Track)
    ensures
        r@ == TrackView::blank(ordinal as int),
{
    Track {
        ordinal,
        codec: String::new(),
        language: None,
        title: None,
        default: false,
        forced: false,
        hearing_impaired: false,
    }
}

fn describe_track(t: Track, key: &str, value: String) -> (r: Track)
    ensures
        r@ == described(t@, key@, value@),
{
    let mut t = t;
    if text::same(key, "codec_name") {
        t.codec = value;
    } else if text::same(key, "TAG:language") {
        t.language = Some(value);
    } else if text::same(key, "TAG:title") {
        t.title = Some(value);
    } else if text::same(key, "TAG:handler_name") {
        if t.title.is_none() && !text::same(value.as_str(), FFMPEG_DEFAULT_HANDLER) {
            t.title = Some(value);
        }
    } else if text::same(key, "DISPOSITION:default") {
        t.default = text::same(value.as_str(), "1");
    } else if text::same(key, "DISPOSITION:forced") {
        t.forced = text::same(value.as_str(), "1");
    } else if text::same(key, "DISPOSITION:hearing_impaired") {
        t.hearing_impaired = text::same(value.as_str(), "1");
    }
    t
}

/// Parse the `-of default` stream listing produced with [`ffprobe_args`].
pub fn parse_ffprobe(text: &str) -> (r: Vec<Track>)
    ensures
        track_views(r@) == census(text::lines_of(text@)).tracks,
{
    let lines = text::lines(text);
    let ghost ls = text::lines_of(text@);
    assert(text::texts(lines@).len() == lines@.len());
    let mut tracks: Vec<Track> = Vec::new();
    let mut open: Option<Track> = None;
    let mut i: usize = 0;
    assert(track_views(tracks@) =~= seq![]);
    while i < lines.len()
        invariant
            i <= lines.len(),
            ls == text::texts(lines@),
            track_views(tracks@) == census(ls.take(i as int)).tracks,
            (match open {
                Some(t) => Some(t@),
                None => None,
            }) == census(ls.take(i as int)).open,
        decreases lines.len() - i,
    {
        proof {
            assert(ls.take(i + 1).drop_last() =~= ls.take(i as int));
            assert(ls.take(i + 1).last() == lines@[i as int]@);
            assert(track_views(tracks@).len() == tracks@.len());
        }
        let line = text::trim(lines[i].as_str());
        if text::same(line.as_str(), "[STREAM]") {
            open = Some(blank_track(tracks.len()));
        } else if text::same(line.as_str(), "[/STREAM]") {
            match open.take() {
                Some(t) => {
                    assert(track_views(tracks@.push(t)) =~= track_views(tracks@).push(t@));
                    tracks.push(t);
                },
                None => {},
            }
        } else {
            match text::split_once(line.as_str(), "=") {
                None => {},
                Some((key, value)) => {
                    match open.take() {
                        Some(t) => {
                            open = Some(describe_track(t, key.as_str(), value));
                        },
                        None => {},
                    }
                },
            }
        }
        i += 1;
    }
    assert(ls.take(i as int) =~= ls);
    tracks
}

/// Whether track `i` is the one to extract: a text track that no text track
/// outranks; among equals the last.
pub open spec fn is_best(tracks: Seq<TrackView>, i: int) -> bool {
    &&& 0 <= i < tracks.len()
    &&& tracks[i].text()
    &&& forall|j: int| 0 <= j < tracks.len() && tracks[j].text() ==> !(#[trigger] tracks[j]).outranks(tracks[i])
    &&& forall|j: int|
        i < j < tracks.len() && tracks[j].text() ==> tracks[i].outranks(#[trigger] tracks[j])
}

fn preferred(a: &Track, b: &Track) -> (r: bool)
    ensures
        r == a@.outranks(b@),
{
    if a.forced != b.forced {
        return !a.forced;
    }
    let (ea, eb) = (a.is_english(), b.is_english());
    if ea != eb {
        return ea;
    }
    let (sa, sb) = (a.is_sdh(), b.is_sdh());
    if sa != sb {
        return sa;
    }
    if a.default != b.default {
        return a.default;
    }
    a.ordinal < b.ordinal
}

/// The text track worth extracting, if any. Forced tracks (foreign-language
/// passages only) rank below everything else; among the rest, English
/// beats other languages and SDH beats plain captions; ties go to the
/// container's default flag, then to the earlier track.
pub fn best_text_track(tracks: &Vec<Track>) -> (r: Option<&Track>)
    ensures
        match r {
            Some(t) => exists|i: int|
                #![trigger tracks@[i]]
                is_best(track_views(tracks@), i) && *t == tracks@[i],
            None => forall|i: int| 0 <= i < tracks@.len() ==> !(#[trigger] tracks@[i])@.text(),
        },
{
    let ghost all = track_views(tracks@);
    let mut best: Option<usize> = None;
    let mut i: usize = 0;
    while i < tracks.len()
        invariant
            i <= tracks.len(),
            all == track_views(tracks@),
            match best {
                Some(b) => b < i && is_best(all.take(i as int), b as int),
                None => forall|k: int| 0 <= k < i ==> !(#[trigger] tracks@[k])@.text(),
            },
        decreases tracks.len() - i,
    {
        let ghost now = all.take(i + 1);
        let ghost then = all.take(i as int);
        assert(forall|k: int| 0 <= k < i ==> now[k] == #[trigger] then[k]);
        assert(now[i as int] == tracks@[i as int]@);
        if tracks[i].is_text() {
            match best {
                None => {
                    proof {
                        assert forall|j: int| 0 <= j < now.len() && now[j].text() implies !(
                        #[trigger] now[j]).outranks(now[i as int]) by {
                            if j < i {
                                assert(!tracks@[j]@.text());
                            }
                        }
                    }
                    best = Some(i);
                },
                Some(b) => {
                    assert(then[b as int] == tracks@[b as int]@);
                    // The later of two equals wins.
                    if !preferred(&tracks[b], &tracks[i]) {
                        proof {
                            assert forall|j: int| 0 <= j < now.len() && now[j].text() implies !(
                            #[trigger] now[j]).outranks(now[i as int]) by {
                                if j < i {
                                    assert(!then[j].outranks(then[b as int]));
                                    lemma_rank_order(now[j], now[b as int], now[i as int]);
                                }
                            }
                        }
                        best = Some(i);
                    } else {
                        proof {
                            assert forall|j: int| 0 <= j < now.len() && now[j].text() implies !(
                            #[trigger] now[j]).outranks(now[b as int]) by {
                                if j < i {
                                    assert(!then[j].outranks(then[b as int]));
                                }
                            }
                            assert forall|j: int|
                                b < j < now.len() && now[j].text() implies now[b as int].outranks(
                                #[trigger] now[j],
                            ) by {
                                if j < i {
                                    assert(then[b as int].outranks(then[j]));
                                }
                            }
                        }
                    }
                },
            }
        } else {
            proof {
                match best {
                    Some(b) => {
                        assert forall|j: int| 0 <= j < now.len() && now[j].text() implies !(
                        #[trigger] now[j]).outranks(now[b as int]) by {
                            assert(then[j] == now[j]);
                        }
                        assert forall|j: int|
                            b < j < now.len() && now[j].text() implies now[b as int].outranks(
                            #[trigger] now[j],
                        ) by {
                            assert(then[j] == now[j]);
                        }
                    },
                    None => {},
                }
            }
        }
        i += 1;
    }
    assert(all.take(i as int) =~= all);
    match best {
        Some(b) => {
            assert(is_best(all, b as int) && tracks@[b as int] == tracks@[b as int]);
            Some(&tracks[b])
        },
        None => None,
    }
}

/// What does not outrank a track does not outrank one that the track does
/// not outrank.
proof fn lemma_rank_order(a: TrackView, b: TrackView, c: TrackView)
    requires
        !a.outranks(b),
        !b.outranks(c),
    ensures
        !a.outranks(c),
{
}

/// A forced track is chosen only where every text track is forced.
pub proof fn forced_is_last_resort(tracks: Seq<TrackView>, i: int)
    requires
        is_best(tracks, i),
        tracks[i].forced,
    ensures
        forall|j: int| 0 <= j < tracks.len() && (#[trigger] tracks[j]).text() ==> tracks[j].forced,
{
    assert forall|j: int| 0 <= j < tracks.len() && (#[trigger] tracks[j]).text() implies tracks[j].forced by {
        assert(!tracks[j].outranks(tracks[i]));
    }
}

/// A track that a listing was read as stands at its own position.
pub proof fn ordinals_count_up(lines: Seq<Seq<char>>)
    ensures
        forall|i: int|
            0 <= i < census(lines).tracks.len() ==> (#[trigger] census(lines).tracks[i]).ordinal
                == i,
        census(lines).open matches Some(t) ==> t.ordinal == census(lines).tracks.len(),
    decreases lines.len(),
{
    if lines.len() > 0 {
        ordinals_count_up(lines.drop_last());
    }
}

/// Subtitles that are texts, by their codec.
pub open spec fn text_codec(codec: Seq<char>) -> bool {
    codec == "subrip"@ || codec == "srt"@ || codec == "ass"@ || codec == "ssa"@ || codec
        == "mov_text"@ || codec == "webvtt"@ || codec == "text"@ || codec == "subviewer"@
}

proof fn lemma_text_codec(codec: Seq<char>)
    ensures
        text::listed(codec, TEXT_CODECS@) == text_codec(codec),
{
    let t = TEXT_CODECS@;
    assert(t[0]@ == "subrip"@ && t[1]@ == "srt"@ && t[2]@ == "ass"@ && t[3]@ == "ssa"@ && t[4]@
        == "mov_text"@ && t[5]@ == "webvtt"@ && t[6]@ == "text"@ && t[7]@ == "subviewer"@);
}

/// Of the text tracks the chosen one is full captions where any is; among its
/// like English where any is; among those for the hard of hearing where any
/// is; among those the container's default where there is one; and among those
/// the first. A track that is no text is never chosen.
pub proof fn the_best_captions_are_chosen(tracks: Seq<TrackView>, i: int, j: int)
    requires
        is_best(tracks, i),
        0 <= j < tracks.len(),
        text_codec(tracks[j].codec),
    ensures
        ({
            let (a, b) = (tracks[i], tracks[j]);
            &&& text_codec(a.codec)
            &&& a.forced ==> b.forced
            &&& a.forced == b.forced && b.english() ==> a.english()
            &&& a.forced == b.forced && a.english() == b.english() && b.sdh() ==> a.sdh()
            &&& a.forced == b.forced && a.english() == b.english() && a.sdh() == b.sdh()
                && b.default ==> a.default
            &&& a.forced == b.forced && a.english() == b.english() && a.sdh() == b.sdh()
                && a.default == b.default ==> a.ordinal <= b.ordinal
        }),
{
    lemma_text_codec(tracks[i].codec);
    lemma_text_codec(tracks[j].codec);
    assert(!tracks[j].outranks(tracks[i]));
}

/// A track is English where its language says so, in two letters or three and
/// in whatever case; where the language says nothing, where its title does.
pub proof fn english_is_told_by_language_then_title(t: TrackView)
    ensures
        match t.language {
            Some(l) => {
                let l = text::ascii_lower(l);
                &&& l == "eng"@ || l == "en"@ ==> t.english()
                &&& l == "und"@ ==> t.english() == t.titled("english"@)
                &&& l != "eng"@ && l != "en"@ && l != "und"@ ==> !t.english()
            },
            None => t.english() == t.titled("english"@),
        },
{
    reveal_strlit("eng");
    reveal_strlit("en");
    reveal_strlit("und");
    assert("und"@[0] == 'u' && "eng"@[0] == 'e' && "en"@[0] == 'e');
}

/// A track is for the hard of hearing where it is flagged so, or where its title
/// has a word for it.
pub proof fn sdh_is_told_by_flag_or_title(t: TrackView)
    ensures
        t.hearing_impaired ==> t.sdh(),
        t.titled("sdh"@) ==> t.sdh(),
        t.titled("cc"@) ==> t.sdh(),
        t.titled("hoh"@) ==> t.sdh(),
        t.titled("hearing"@) ==> t.sdh(),
        !t.hearing_impaired && t.title is None ==> !t.sdh(),
        t.description() == (if t.language is Some {
            t.language->Some_0
        } else {
            "und"@
        }) + (if t.sdh() && t.forced {
            ", SDH, forced"@
        } else if t.sdh() {
            ", SDH"@
        } else if t.forced {
            ", forced"@
        } else {
            ""@
        }),
{
    reveal_strlit(", SDH, forced");
    reveal_strlit(", SDH");
    reveal_strlit(", forced");
    reveal_strlit("");
    let l = if t.language is Some {
        t.language->Some_0
    } else {
        "und"@
    };
    if t.sdh() && t.forced {
        assert(l + ", SDH"@ + ", forced"@ =~= l + ", SDH, forced"@);
    } else {
        assert(t.description() =~= l + (if t.sdh() {
            ", SDH"@
        } else if t.forced {
            ", forced"@
        } else {
            ""@
        }));
    }
}

/// What a listing says of a track is taken over; the handler name stands in for
/// a title only where there is none, and ffmpeg's own is none.
pub proof fn tracks_are_what_the_listing_says(t: TrackView, value: Seq<char>)
    ensures
        described(t, "codec_name"@, value) == (TrackView { codec: value, ..t }),
        described(t, "TAG:language"@, value) == (TrackView { language: Some(value), ..t }),
        described(t, "TAG:title"@, value) == (TrackView { title: Some(value), ..t }),
        described(t, "DISPOSITION:default"@, value) == (TrackView { default: value == "1"@, ..t }),
        described(t, "DISPOSITION:forced"@, value) == (TrackView { forced: value == "1"@, ..t }),
        described(t, "DISPOSITION:hearing_impaired"@, value) == (TrackView {
            hearing_impaired: value == "1"@,
            ..t
        }),
        t.title is None && value != "SubtitleHandler"@ ==> described(t, "TAG:handler_name"@, value)
            == (TrackView { title: Some(value), ..t }),
        t.title is Some || value == "SubtitleHandler"@ ==> described(t, "TAG:handler_name"@, value)
            == t,
{
    reveal_strlit("codec_name");
    reveal_strlit("TAG:language");
    reveal_strlit("TAG:title");
    reveal_strlit("TAG:handler_name");
    reveal_strlit("DISPOSITION:default");
    reveal_strlit("DISPOSITION:forced");
    reveal_strlit("DISPOSITION:hearing_impaired");
    assert("codec_name"@.len() == 10 && "TAG:language"@.len() == 12 && "TAG:title"@.len() == 9
        && "TAG:handler_name"@.len() == 16 && "DISPOSITION:default"@.len() == 19
        && "DISPOSITION:forced"@.len() == 18 && "DISPOSITION:hearing_impaired"@.len() == 28);
}

} // verus!
