//! The catalog's types.
use vstd::prelude::*;
use crate::text;

verus! {

#[derive(Debug, Clone, Copy, PartialEq, Eq, Structural)]
pub enum MediaKind {
    Movies,
    Music,
    Tv,
}

impl MediaKind {
    pub open spec fn name(self) -> Seq<char> {
        match self {
            MediaKind::Movies => "movies"@,
            MediaKind::Music => "music"@,
            MediaKind::Tv => "tv"@,
        }
    }

    pub fn as_str(self) -> (r: &'static str)
        ensures
            r@ == self.name(),
    {
        match self {
            MediaKind::Movies => "movies",
            MediaKind::Music => "music",
            MediaKind::Tv => "tv",
        }
    }

    /// The kind of that name, if there is one.
    pub fn parse(s: &str) -> (r: Option<Self>)
        ensures
            match r {
                Some(k) => s@ == k.name(),
                None => forall|k: MediaKind| s@ != k.name(),
            },
    {
        if text::same(s, "movies") {
            Some(MediaKind::Movies)
        } else if text::same(s, "music") {
            Some(MediaKind::Music)
        } else if text::same(s, "tv") {
            Some(MediaKind::Tv)
        } else {
            None
        }
    }

    /// True when files under this root are video.
    pub fn is_video(self) -> (r: bool)
        ensures
            r == (self != MediaKind::Music),
    {
        match self {
            MediaKind::Music => false,
            _ => true,
        }
    }
}

/// Each kind has a name of its own, so a name read back is the kind it came
/// from.
pub proof fn media_kind_round_trip(a: MediaKind, b: MediaKind)
    ensures
        a.name() == b.name() ==> a == b,
{
    reveal_strlit("movies");
    reveal_strlit("music");
    reveal_strlit("tv");
    assert("movies"@.len() == 6);
    assert("music"@.len() == 5);
    assert("tv"@.len() == 2);
}

/// What a skippable segment is, which decides the label on the player's
/// skip button. Stored as text in the segments table.
#[derive(Debug, Clone, Copy, PartialEq, Eq, Structural)]
pub enum SegmentKind {
    Intro,
    Credits,
    Recap,
    Commercial,
}

impl SegmentKind {
    pub open spec fn name(self) -> Seq<char> {
        match self {
            SegmentKind::Intro => "intro"@,
            SegmentKind::Credits => "credits"@,
            SegmentKind::Recap => "recap"@,
            SegmentKind::Commercial => "commercial"@,
        }
    }

    pub fn as_str(self) -> (r: &'static str)
        ensures
            r@ == self.name(),
    {
        match self {
            SegmentKind::Intro => "intro",
            SegmentKind::Credits => "credits",
            SegmentKind::Recap => "recap",
            SegmentKind::Commercial => "commercial",
        }
    }

    /// The kind of that name, if there is one.
    pub fn parse(s: &str) -> (r: Option<Self>)
        ensures
            match r {
                Some(k) => s@ == k.name(),
                None => forall|k: SegmentKind| s@ != k.name(),
            },
    {
        if text::same(s, "intro") {
            Some(SegmentKind::Intro)
        } else if text::same(s, "credits") {
            Some(SegmentKind::Credits)
        } else if text::same(s, "recap") {
            Some(SegmentKind::Recap)
        } else if text::same(s, "commercial") {
            Some(SegmentKind::Commercial)
        } else {
            None
        }
    }
}

/// Each kind of segment has a name of its own, so a name read back is the
/// kind it came from.
pub proof fn segment_kind_round_trip(a: SegmentKind, b: SegmentKind)
    ensures
        a.name() == b.name() ==> a == b,
{
    reveal_strlit("intro");
    reveal_strlit("credits");
    reveal_strlit("recap");
    reveal_strlit("commercial");
    assert("intro"@.len() == 5);
    assert("credits"@.len() == 7);
    assert("commercial"@.len() == 10);
    assert("recap"@.len() == 5);
    assert("intro"@[0] == 'i');
    assert("recap"@[0] == 'r');
}

/// A skippable stretch of one video file's timeline, ingested from named
/// chapter markers or a .edl sidecar.
#[derive(Debug, Clone, Copy, PartialEq, Eq, Structural)]
pub struct Segment {
    pub kind: SegmentKind,
    pub start_ms: i64,
    pub end_ms: i64,
}

#[derive(Debug, Clone)]
pub struct Root {
    pub id: i64,
    pub path: String,
    pub kind: MediaKind,
}

/// A row in `files`, as stored.
#[derive(Debug, Clone)]
pub struct FileRow {
    pub id: i64,
    pub root_id: i64,
    pub rel_path: String,
    pub size: i64,
    pub mtime: i64,
    pub kind: MediaKind,
    pub mime: String,
    pub status: String,
}

/// A rating of at most ten: in millionths, and as it is shown, to one
/// decimal.
#[derive(Debug, Clone)]
pub struct Score {
    pub micros: i64,
    pub label: String,
}

/// Technical attributes extracted from the media itself.
#[derive(Debug, Clone)]
pub struct TechInfo {
    pub container: Option<String>,
    pub duration_ms: Option<i64>,
    pub width: Option<i64>,
    pub height: Option<i64>,
    /// Average frames per second of the video stream, in thousandths.
    pub frame_rate_millis: Option<i64>,
    pub video_codec: Option<String>,
    pub audio_codec: Option<String>,
    /// Human codec label for the (first) audio stream: "AAC LC", "FLAC".
    pub audio_profile: Option<String>,
    /// kbps
    pub audio_bitrate: Option<i64>,
    /// Hz
    pub audio_sample_rate: Option<i64>,
    /// Bits per sample; lossless/PCM formats only.
    pub audio_bit_depth: Option<i64>,
    pub audio_channels: Option<i64>,
}

/// One playable file of an item. An item usually has exactly one; a movie
/// present in several qualities carries the extras here, best-first.
#[derive(Debug)]
pub struct Rendition {
    pub file_id: i64,
    pub mime: String,
    pub size: i64,
    pub duration_ms: Option<i64>,
    pub width: Option<i64>,
    pub height: Option<i64>,
}

pub open spec fn or_zero(o: Option<i64>) -> int {
    match o {
        Some(n) => n as int,
        None => 0,
    }
}

impl Rendition {
    pub open spec fn pixels(self) -> int {
        or_zero(self.width) * or_zero(self.height)
    }

    /// Its pixel count is a number that fits.
    pub open spec fn measurable(self) -> bool {
        i64::MIN <= self.pixels() <= i64::MAX
    }

    /// Ordering key: pixel count, then file size.
    pub fn quality(&self) -> (r: (i64, i64))
        requires
            self.measurable(),
        ensures
            r.0 == self.pixels(),
            r.1 == self.size,
    {
        let w: i64 = match self.width {
            Some(w) => w,
            None => 0,
        };
        let h: i64 = match self.height {
            Some(h) => h,
            None => 0,
        };
        (w * h, self.size)
    }

    /// Whether this one ranks above the other.
    pub open spec fn beats(self, other: Rendition) -> bool {
        self.pixels() > other.pixels() || (self.pixels() == other.pixels() && self.size
            > other.size)
    }

    pub fn better_than(&self, other: &Rendition) -> (r: bool)
        requires
            self.measurable(),
            other.measurable(),
        ensures
            r == self.beats(*other),
    {
        let a = self.quality();
        let b = other.quality();
        a.0 > b.0 || (a.0 == b.0 && a.1 > b.1)
    }
}

/// Everything the server needs to render one playable item in DIDL-Lite.
/// Populated by kind-specific joins; unrelated fields stay None.
#[derive(Debug)]
pub struct BrowseItem {
    pub file_id: i64,
    pub kind: MediaKind,
    pub title: String,
    pub mime: String,
    pub size: i64,
    pub duration_ms: Option<i64>,
    pub width: Option<i64>,
    pub height: Option<i64>,
    /// Additional lower-quality copies of the same item, best-first.
    pub renditions: Vec<Rendition>,
    /// The item has artwork servable at /art/{art_file_id or file_id}.
    pub has_art: bool,
    /// When the file was last extracted (files.updated_at) — artwork
    /// changes re-extract, so this versions the art URL for long caching.
    pub art_version: Option<i64>,
    /// Set when the artwork lives on a merged rendition, not the primary.
    pub art_file_id: Option<i64>,
    pub year: Option<i64>,
    pub genre: Option<String>,
    pub director: Option<String>,
    pub rating: Option<Score>,
    pub artist: Option<String>,
    pub album: Option<String>,
    pub track_no: Option<i64>,
    pub series: Option<String>,
    pub season: Option<i64>,
    pub episode: Option<i64>,
}

impl BrowseItem {
    pub fn new(file_id: i64, kind: MediaKind, title: String, mime: String, size: i64) -> (r: Self)
        ensures
            r.file_id == file_id,
            r.kind == kind,
            r.title == title,
            r.mime == mime,
            r.size == size,
            r.duration_ms is None,
            r.width is None,
            r.height is None,
            r.renditions@.len() == 0,
            !r.has_art,
            r.art_version is None,
            r.art_file_id is None,
            r.year is None,
            r.genre is None,
            r.director is None,
            r.rating is None,
            r.artist is None,
            r.album is None,
            r.track_no is None,
            r.series is None,
            r.season is None,
            r.episode is None,
    {
        BrowseItem {
            file_id,
            kind,
            title,
            mime,
            size,
            duration_ms: None,
            width: None,
            height: None,
            renditions: Vec::new(),
            has_art: false,
            art_version: None,
            art_file_id: None,
            year: None,
            genre: None,
            director: None,
            rating: None,
            artist: None,
            album: None,
            track_no: None,
            series: None,
            season: None,
            episode: None,
        }
    }

    /// The item's own file as a rendition.
    pub open spec fn primary(self) -> Rendition {
        Rendition {
            file_id: self.file_id,
            mime: self.mime,
            size: self.size,
            duration_ms: self.duration_ms,
            width: self.width,
            height: self.height,
        }
    }

    pub fn primary_rendition(&self) -> (r: Rendition)
        ensures
            r == self.primary(),
    {
        Rendition {
            file_id: self.file_id,
            mime: self.mime.clone(),
            size: self.size,
            duration_ms: self.duration_ms,
            width: self.width,
            height: self.height,
        }
    }

    /// What `self` and `other` share when only their files may differ: the
    /// item's description.
    pub open spec fn described_as(self, other: BrowseItem) -> bool {
        &&& self.kind == other.kind
        &&& self.title == other.title
        &&& self.art_version == other.art_version
        &&& self.year == other.year
        &&& self.genre == other.genre
        &&& self.director == other.director
        &&& self.rating == other.rating
        &&& self.artist == other.artist
        &&& self.album == other.album
        &&& self.track_no == other.track_no
        &&& self.series == other.series
        &&& self.season == other.season
        &&& self.episode == other.episode
    }

    pub fn set_primary(&mut self, r: Rendition)
        ensures
            final(self).primary() == r,
            final(self).described_as(*old(self)),
            final(self).renditions == old(self).renditions,
            final(self).has_art == old(self).has_art,
            final(self).art_file_id == old(self).art_file_id,
    {
        self.file_id = r.file_id;
        self.mime = r.mime;
        self.size = r.size;
        self.duration_ms = r.duration_ms;
        self.width = r.width;
        self.height = r.height;
    }
}

/// What the streaming endpoint needs to serve a file.
#[derive(Debug, Clone)]
pub struct ServableFile {
    pub abs_path: String,
    pub mime: String,
}

/// The better of two files is the one with more pixels, and of two with as
/// many the larger; one whose size in pixels is not known has none.
pub proof fn more_pixels_are_better(a: Rendition, b: Rendition)
    ensures
        a.width is Some && a.height is Some && b.width is Some && b.height is Some ==> {
            let x = a.width->Some_0 * a.height->Some_0;
            let y = b.width->Some_0 * b.height->Some_0;
            &&& x > y ==> a.beats(b) && !b.beats(a)
            &&& x == y ==> (a.beats(b) <==> a.size > b.size)
        },
        (a.width is None || a.height is None) && (b.width is None || b.height is None) ==> (a.beats(
            b,
        ) <==> a.size > b.size),
        (a.width is None || a.height is None) && b.width is Some && b.height is Some
            && b.width->Some_0 > 0 && b.height->Some_0 > 0 ==> b.beats(a) && !a.beats(b),
{
    assert(forall|n: int| #[trigger] (0 * n) == 0) by (nonlinear_arith);
    assert(forall|n: int| #[trigger] (n * 0) == 0) by (nonlinear_arith);
    if b.width is Some && b.height is Some && b.width->Some_0 > 0 && b.height->Some_0 > 0 {
        let w = b.width->Some_0 as int;
        let h = b.height->Some_0 as int;
        assert(w * h > 0) by (nonlinear_arith)
            requires
                w > 0,
                h > 0,
        ;
    }
}

} // verus!
