//! What ffprobe says of a video file.
use vstd::prelude::*;
use crate::json;
use crate::json::{Json, JsonView};
use crate::scanner::extract::audio;
use crate::text;

verus! {

/// The arguments that make ffprobe write the document that [`probe`] reads.
pub const PROBE_ARGS: [&'static str; 7] = [
    "-v",
    "error",
    "-print_format",
    "json",
    "-show_format",
    "-show_streams",
    "-show_chapters",
];

/// A chapter as the document has it, times in seconds as written.
#[derive(Debug)]
pub struct WrittenChapter {
    pub start: String,
    pub end: String,
    pub title: String,
}

/// The technical attributes, with any genre embedded in the container tags
/// and the chapter markers. Durations and frame rates are as written.
#[derive(Debug)]
pub struct VideoProbe {
    pub duration: Option<String>,
    pub container: Option<String>,
    pub genre: Option<String>,
    pub streams: StreamInfo,
    pub chapters: Vec<WrittenChapter>,
}

/// What the first video and the first audio stream say.
#[derive(Debug)]
pub struct StreamInfo {
    pub video_codec: Option<String>,
    pub width: Option<i64>,
    pub height: Option<i64>,
    /// avg_frame_rate is the honest figure for VFR files; r_frame_rate (the
    /// base rate) fills in when the average is unknown ("0/0" on some
    /// streams).
    pub avg_frame_rate: Option<String>,
    pub r_frame_rate: Option<String>,
    pub audio_codec: Option<String>,
    pub audio_profile: Option<String>,
    /// kbps
    pub audio_bitrate: Option<i64>,
    pub audio_sample_rate: Option<i64>,
    pub audio_bit_depth: Option<i64>,
    pub audio_channels: Option<i64>,
}

#[verifier::ext_equal]
pub struct StreamsView {
    pub video_codec: Option<Seq<char>>,
    pub width: Option<i64>,
    pub height: Option<i64>,
    pub avg_frame_rate: Option<Seq<char>>,
    pub r_frame_rate: Option<Seq<char>>,
    pub audio_codec: Option<Seq<char>>,
    pub audio_profile: Option<Seq<char>>,
    pub audio_bitrate: Option<int>,
    pub audio_sample_rate: Option<int>,
    pub audio_bit_depth: Option<int>,
    pub audio_channels: Option<int>,
}

impl View for StreamInfo {
    type V = StreamsView;

    open spec fn view(&self) -> StreamsView {
        StreamsView {
            video_codec: text::opt_text(self.video_codec),
            width: self.width,
            height: self.height,
            avg_frame_rate: text::opt_text(self.avg_frame_rate),
            r_frame_rate: text::opt_text(self.r_frame_rate),
            audio_codec: text::opt_text(self.audio_codec),
            audio_profile: text::opt_text(self.audio_profile),
            audio_bitrate: text::opt_int(self.audio_bitrate),
            audio_sample_rate: text::opt_int(self.audio_sample_rate),
            audio_bit_depth: text::opt_int(self.audio_bit_depth),
            audio_channels: text::opt_int(self.audio_channels),
        }
    }
}

pub open spec fn no_streams() -> StreamsView {
    StreamsView {
        video_codec: None,
        width: None,
        height: None,
        avg_frame_rate: None,
        r_frame_rate: None,
        audio_codec: None,
        audio_profile: None,
        audio_bitrate: None,
        audio_sample_rate: None,
        audio_bit_depth: None,
        audio_channels: None,
    }
}

/// A number, written as one or as a text.
pub open spec fn number_under(j: JsonView, key: Seq<char>) -> Option<int> {
    match json::field(j, key) {
        Some(JsonView::Int(n)) => Some(n as int),
        Some(JsonView::Text(s)) => text::integer_i64(s),
        _ => None,
    }
}

pub open spec fn positive(n: Option<int>) -> Option<int> {
    match n {
        Some(k) if k > 0 => Some(k),
        _ => None,
    }
}

/// Thousands, where there is at least one.
pub open spec fn thousands(n: Option<int>) -> Option<int> {
    match n {
        Some(k) if k >= 1000 => Some(k / 1000),
        _ => None,
    }
}

/// One more stream: a video stream counts until a video codec is known, an
/// audio stream until an audio codec is.
pub open spec fn with_stream(s: StreamsView, j: JsonView) -> StreamsView {
    let kind = json::as_text(json::field(j, "codec_type"@));
    let codec = json::as_text(json::field(j, "codec_name"@));
    if kind == Some("video"@) && s.video_codec is None {
        StreamsView {
            video_codec: codec,
            width: json::as_int(json::field(j, "width"@)),
            height: json::as_int(json::field(j, "height"@)),
            avg_frame_rate: json::as_text(json::field(j, "avg_frame_rate"@)),
            r_frame_rate: json::as_text(json::field(j, "r_frame_rate"@)),
            ..s
        }
    } else if kind == Some("audio"@) && s.audio_codec is None {
        StreamsView {
            audio_codec: codec,
            audio_profile: match codec {
                Some(c) => Some(audio::label_of(c, json::as_text(json::field(j, "profile"@)))),
                None => None,
            },
            audio_bitrate: thousands(number_under(j, "bit_rate"@)),
            audio_sample_rate: number_under(j, "sample_rate"@),
            audio_channels: number_under(j, "channels"@),
            audio_bit_depth: positive(
                match number_under(j, "bits_per_raw_sample"@) {
                    Some(n) => Some(n),
                    None => number_under(j, "bits_per_sample"@),
                },
            ),
            ..s
        }
    } else {
        s
    }
}

pub open spec fn with_streams(list: Seq<JsonView>) -> StreamsView
    decreases list.len(),
{
    if list.len() == 0 {
        no_streams()
    } else {
        with_stream(with_streams(list.drop_last()), list.last())
    }
}

fn number(j: &Json, key: &str) -> (r: Option<i64>)
    ensures
        text::opt_int(r) == number_under(j@, key@),
{
    match j.get(key) {
        Some(Json::Int(n)) => Some(*n),
        Some(Json::Text(s)) => text::parse_i64(s.as_str()),
        _ => None,
    }
}

fn is_text(t: &Option<String>, word: &str) -> (r: bool)
    ensures
        r == (text::opt_text(*t) == Some(word@)),
{
    match t {
        Some(s) => text::same(s.as_str(), word),
        None => false,
    }
}

fn read_stream(s: StreamInfo, j: &Json) -> (r: StreamInfo)
    ensures
        r@ == with_stream(s@, j@),
{
    let mut s = s;
    let kind = json::text_of(j.get("codec_type"));
    let codec = json::text_of(j.get("codec_name"));
    if is_text(&kind, "video") && s.video_codec.is_none() {
        s.video_codec = codec;
        s.width = json::int_of(j.get("width"));
        s.height = json::int_of(j.get("height"));
        s.avg_frame_rate = json::text_of(j.get("avg_frame_rate"));
        s.r_frame_rate = json::text_of(j.get("r_frame_rate"));
    } else if is_text(&kind, "audio") && s.audio_codec.is_none() {
        let profile = json::text_of(j.get("profile"));
        s.audio_profile = match &codec {
            Some(c) => Some(
                match &profile {
                    Some(p) => audio::ffprobe_label(c.as_str(), Some(p.as_str())),
                    None => audio::ffprobe_label(c.as_str(), None),
                },
            ),
            None => None,
        };
        s.audio_codec = codec;
        s.audio_bitrate = match number(j, "bit_rate") {
            Some(bps) => if bps >= 1000 {
                Some(bps / 1000)
            } else {
                None
            },
            None => None,
        };
        s.audio_sample_rate = number(j, "sample_rate");
        s.audio_channels = number(j, "channels");
        let depth = match number(j, "bits_per_raw_sample") {
            Some(n) => Some(n),
            None => number(j, "bits_per_sample"),
        };
        s.audio_bit_depth = match depth {
            Some(b) => if b > 0 {
                Some(b)
            } else {
                None
            },
            None => None,
        };
    }
    s
}

/// The chapters that have both their times and the titles they go by.
pub open spec fn written_chapters(list: Seq<JsonView>) -> Seq<(Seq<char>, Seq<char>, Seq<char>)>
    decreases list.len(),
{
    if list.len() == 0 {
        seq![]
    } else {
        let head = written_chapters(list.drop_last());
        let c = list.last();
        match (
            json::as_text(json::field(c, "start_time"@)),
            json::as_text(json::field(c, "end_time"@)),
        ) {
            (Some(s), Some(e)) => head.push(
                (
                    s,
                    e,
                    match json::as_text(json::inner(c, "tags"@, "title"@)) {
                        Some(t) => t,
                        None => ""@,
                    },
                ),
            ),
            _ => head,
        }
    }
}

pub open spec fn chapter_views(v: Seq<WrittenChapter>) -> Seq<(Seq<char>, Seq<char>, Seq<char>)> {
    Seq::new(v.len(), |i: int| (v[i].start@, v[i].end@, v[i].title@))
}

pub fn parse_chapters(document: &Json) -> (r: Vec<WrittenChapter>)
    ensures
        chapter_views(r@) == written_chapters(json::items(json::field(document@, "chapters"@))),
{
    let mut out: Vec<WrittenChapter> = Vec::new();
    assert(chapter_views(out@) =~= seq![]);
    if let Some(Json::Array(v)) = document.get("chapters") {
        let ghost l = json::list_of(v@);
        proof {
            json::lemma_list(v@);
        }
        let mut i: usize = 0;
        assert(l.take(0) =~= seq![]);
        while i < v.len()
            invariant
                i <= v.len(),
                l.len() == v@.len(),
                forall|k: int| 0 <= k < l.len() ==> (#[trigger] l[k]) == v@[k]@,
                chapter_views(out@) == written_chapters(l.take(i as int)),
            decreases v.len() - i,
        {
            assert(l.take(i + 1).drop_last() =~= l.take(i as int));
            assert(l[i as int] == v@[i as int]@);
            let start = json::text_of(v[i].get("start_time"));
            let end = json::text_of(v[i].get("end_time"));
            if let (Some(start), Some(end)) = (start, end) {
                let title = match json::text_of(v[i].get_inner("tags", "title")) {
                    Some(t) => t,
                    None => "".to_owned(),
                };
                let c = WrittenChapter { start, end, title };
                assert(chapter_views(out@.push(c)) =~= chapter_views(out@).push(
                    (c.start@, c.end@, c.title@),
                ));
                out.push(c);
            }
            i += 1;
        }
        assert(l.take(i as int) =~= l);
    }
    out
}

/// The genre in the container's tags, under whichever spelling comes first.
pub open spec fn genre_of(document: JsonView) -> Option<Seq<char>> {
    match json::inner(document, "format"@, "tags"@) {
        None => None,
        Some(tags) => {
            let a = json::as_text(json::field(tags, "genre"@));
            let b = json::as_text(json::field(tags, "GENRE"@));
            let c = json::as_text(json::field(tags, "Genre"@));
            if a is Some {
                a
            } else if b is Some {
                b
            } else {
                c
            }
        },
    }
}

/// The first of the names a container goes by.
pub open spec fn container_of(document: JsonView) -> Option<Seq<char>> {
    match json::as_text(json::inner(document, "format"@, "format_name"@)) {
        Some(f) => Some(text::pieces(f, ',')[0]),
        None => None,
    }
}

/// What ffprobe's document says.
pub open spec fn says(r: VideoProbe, document: JsonView) -> bool {
    &&& text::opt_text(r.duration) == json::as_text(json::inner(document, "format"@, "duration"@))
    &&& text::opt_text(r.container) == container_of(document)
    &&& text::opt_text(r.genre) == genre_of(document)
    &&& r.streams@ == with_streams(json::items(json::field(document, "streams"@)))
    &&& chapter_views(r.chapters@) == written_chapters(
        json::items(json::field(document, "chapters"@)),
    )
}

/// What ffprobe's output says, none where it is no JSON document.
pub fn probe_output(printed: &Vec<u8>) -> (r: Option<VideoProbe>)
    ensures
        match json::json_document(printed@) {
            Some(document) => r matches Some(p) && says(p, document),
            None => r is None,
        },
{
    match json::document(printed) {
        Some(document) => Some(probe(&document)),
        None => None,
    }
}

/// What ffprobe's document says.
pub fn probe(document: &Json) -> (r: VideoProbe)
    ensures
        says(r, document@),
{
    let duration = json::text_of(document.get_inner("format", "duration"));
    let container = match json::text_of(document.get_inner("format", "format_name")) {
        Some(f) => {
            let names = text::split(f.as_str(), ',');
            proof {
                assert(text::pieces(f@, ',').len() > 0);
                assert(text::texts(names@)[0] == names@[0]@);
            }
            Some(names[0].clone())
        },
        None => None,
    };
    let genre = match document.get_inner("format", "tags") {
        None => None,
        Some(tags) => match json::text_of(tags.get("genre")) {
            Some(g) => Some(g),
            None => match json::text_of(tags.get("GENRE")) {
                Some(g) => Some(g),
                None => json::text_of(tags.get("Genre")),
            },
        },
    };
    let mut streams = StreamInfo {
        video_codec: None,
        width: None,
        height: None,
        avg_frame_rate: None,
        r_frame_rate: None,
        audio_codec: None,
        audio_profile: None,
        audio_bitrate: None,
        audio_sample_rate: None,
        audio_bit_depth: None,
        audio_channels: None,
    };
    assert(streams@ =~= no_streams());
    if let Some(Json::Array(v)) = document.get("streams") {
        let ghost l = json::list_of(v@);
        proof {
            json::lemma_list(v@);
        }
        let mut i: usize = 0;
        assert(l.take(0) =~= seq![]);
        while i < v.len()
            invariant
                i <= v.len(),
                l.len() == v@.len(),
                forall|k: int| 0 <= k < l.len() ==> (#[trigger] l[k]) == v@[k]@,
                streams@ == with_streams(l.take(i as int)),
            decreases v.len() - i,
        {
            assert(l.take(i + 1).drop_last() =~= l.take(i as int));
            assert(l[i as int] == v@[i as int]@);
            streams = read_stream(streams, &v[i]);
            i += 1;
        }
        assert(l.take(i as int) =~= l);
    }
    let chapters = parse_chapters(document);
    VideoProbe { duration, container, genre, streams, chapters }
}

// -------------------------------------------------------------------- laws

/// The first stream of a kind, whose codec is known.
pub open spec fn first_of_kind(list: Seq<JsonView>, kind: Seq<char>, i: int) -> bool {
    &&& 0 <= i < list.len()
    &&& json::as_text(json::field(list[i], "codec_type"@)) == Some(kind)
    &&& json::as_text(json::field(list[i], "codec_name"@)) is Some
    &&& forall|j: int|
        0 <= j < i ==> json::as_text(json::field(#[trigger] list[j], "codec_type"@)) != Some(kind)
}

proof fn lemma_kinds()
    ensures
        "video"@ != "audio"@,
{
    reveal_strlit("video");
    reveal_strlit("audio");
    assert("video"@[0] == 'v' && "audio"@[0] == 'a');
}

proof fn lemma_video_kept(list: Seq<JsonView>, i: int)
    requires
        first_of_kind(list, "video"@, i),
    ensures
        ({
            let s = with_streams(list);
            let j = list[i];
            &&& s.video_codec == json::as_text(json::field(j, "codec_name"@))
            &&& s.width == json::as_int(json::field(j, "width"@))
            &&& s.height == json::as_int(json::field(j, "height"@))
            &&& s.avg_frame_rate == json::as_text(json::field(j, "avg_frame_rate"@))
            &&& s.r_frame_rate == json::as_text(json::field(j, "r_frame_rate"@))
        }),
    decreases list.len(),
{
    lemma_kinds();
    let head = list.drop_last();
    assert(forall|j: int| 0 <= j < head.len() ==> #[trigger] head[j] == list[j]);
    if i < list.len() - 1 {
        assert forall|j: int| 0 <= j < i implies json::as_text(
            json::field(#[trigger] head[j], "codec_type"@),
        ) != Some("video"@) by {
            assert(list[j] == head[j]);
        }
        lemma_video_kept(head, i);
    } else {
        assert forall|j: int| 0 <= j < head.len() implies json::as_text(
            json::field(#[trigger] head[j], "codec_type"@),
        ) != Some("video"@) by {
            assert(list[j] == head[j]);
        }
        lemma_no_video(head);
    }
}

proof fn lemma_no_video(list: Seq<JsonView>)
    requires
        forall|j: int|
            0 <= j < list.len() ==> json::as_text(json::field(#[trigger] list[j], "codec_type"@))
                != Some("video"@),
    ensures
        with_streams(list).video_codec is None,
    decreases list.len(),
{
    lemma_kinds();
    if list.len() > 0 {
        let head = list.drop_last();
        assert(forall|j: int| 0 <= j < head.len() ==> #[trigger] head[j] == list[j]);
        assert(list[list.len() - 1] == list.last());
        lemma_no_video(head);
    }
}

proof fn lemma_audio_kept(list: Seq<JsonView>, i: int)
    requires
        first_of_kind(list, "audio"@, i),
    ensures
        ({
            let s = with_streams(list);
            let j = list[i];
            &&& s.audio_codec == json::as_text(json::field(j, "codec_name"@))
            &&& s.audio_profile == Some(
                audio::label_of(
                    json::as_text(json::field(j, "codec_name"@))->Some_0,
                    json::as_text(json::field(j, "profile"@)),
                ),
            )
            &&& s.audio_bitrate == thousands(number_under(j, "bit_rate"@))
            &&& s.audio_sample_rate == number_under(j, "sample_rate"@)
            &&& s.audio_channels == number_under(j, "channels"@)
        }),
    decreases list.len(),
{
    lemma_kinds();
    let head = list.drop_last();
    assert(forall|j: int| 0 <= j < head.len() ==> #[trigger] head[j] == list[j]);
    if i < list.len() - 1 {
        assert forall|j: int| 0 <= j < i implies json::as_text(
            json::field(#[trigger] head[j], "codec_type"@),
        ) != Some("audio"@) by {
            assert(list[j] == head[j]);
        }
        lemma_audio_kept(head, i);
    } else {
        assert forall|j: int| 0 <= j < head.len() implies json::as_text(
            json::field(#[trigger] head[j], "codec_type"@),
        ) != Some("audio"@) by {
            assert(list[j] == head[j]);
        }
        lemma_no_audio(head);
    }
}

proof fn lemma_no_audio(list: Seq<JsonView>)
    requires
        forall|j: int|
            0 <= j < list.len() ==> json::as_text(json::field(#[trigger] list[j], "codec_type"@))
                != Some("audio"@),
    ensures
        with_streams(list).audio_codec is None,
    decreases list.len(),
{
    lemma_kinds();
    if list.len() > 0 {
        let head = list.drop_last();
        assert(forall|j: int| 0 <= j < head.len() ==> #[trigger] head[j] == list[j]);
        assert(list[list.len() - 1] == list.last());
        lemma_no_audio(head);
    }
}

/// A file is described by its first video stream and its first audio stream,
/// whatever streams follow and in whatever order the two stand.
pub proof fn the_first_streams_describe_a_file(list: Seq<JsonView>, v: int, a: int)
    requires
        first_of_kind(list, "video"@, v),
        first_of_kind(list, "audio"@, a),
    ensures
        ({
            let s = with_streams(list);
            &&& s.video_codec == json::as_text(json::field(list[v], "codec_name"@))
            &&& s.width == json::as_int(json::field(list[v], "width"@))
            &&& s.height == json::as_int(json::field(list[v], "height"@))
            &&& s.avg_frame_rate == json::as_text(json::field(list[v], "avg_frame_rate"@))
            &&& s.r_frame_rate == json::as_text(json::field(list[v], "r_frame_rate"@))
            &&& s.audio_codec == json::as_text(json::field(list[a], "codec_name"@))
            &&& s.audio_profile == Some(
                audio::label_of(
                    json::as_text(json::field(list[a], "codec_name"@))->Some_0,
                    json::as_text(json::field(list[a], "profile"@)),
                ),
            )
            &&& s.audio_channels == number_under(list[a], "channels"@)
            &&& s.audio_sample_rate == number_under(list[a], "sample_rate"@)
            &&& number_under(list[a], "bit_rate"@) is Some && number_under(
                list[a],
                "bit_rate"@,
            )->Some_0 >= 1000 ==> s.audio_bitrate == Some(
                number_under(list[a], "bit_rate"@)->Some_0 / 1000,
            )
            &&& number_under(list[a], "bit_rate"@) is None ==> s.audio_bitrate is None
        }),
{
    lemma_video_kept(list, v);
    lemma_audio_kept(list, a);
}

/// A file without a stream of a kind has no codec of it.
pub proof fn missing_streams_are_not_made_up(list: Seq<JsonView>)
    ensures
        (forall|j: int|
            0 <= j < list.len() ==> json::as_text(json::field(#[trigger] list[j], "codec_type"@))
                != Some("video"@)) ==> with_streams(list).video_codec is None,
        (forall|j: int|
            0 <= j < list.len() ==> json::as_text(json::field(#[trigger] list[j], "codec_type"@))
                != Some("audio"@)) ==> with_streams(list).audio_codec is None,
{
    if forall|j: int|
        0 <= j < list.len() ==> json::as_text(json::field(#[trigger] list[j], "codec_type"@))
            != Some("video"@) {
        lemma_no_video(list);
    }
    if forall|j: int|
        0 <= j < list.len() ==> json::as_text(json::field(#[trigger] list[j], "codec_type"@))
            != Some("audio"@) {
        lemma_no_audio(list);
    }
}

/// A chapter with both its times is kept, with its title where it has one; one
/// without is left out.
pub proof fn timed_chapters_are_kept(list: Seq<JsonView>, c: JsonView)
    ensures
        ({
            let start = json::as_text(json::field(c, "start_time"@));
            let end = json::as_text(json::field(c, "end_time"@));
            let title = json::as_text(json::inner(c, "tags"@, "title"@));
            &&& start is Some && end is Some ==> written_chapters(list.push(c))
                == written_chapters(list).push(
                (
                    start->Some_0,
                    end->Some_0,
                    if title is Some {
                        title->Some_0
                    } else {
                        ""@
                    },
                ),
            )
            &&& start is None || end is None ==> written_chapters(list.push(c))
                == written_chapters(list)
        }),
{
    assert(list.push(c).drop_last() =~= list);
}

} // verus!
