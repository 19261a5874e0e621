//! Tags and audio properties of music files, and the labels of codecs.
use vstd::prelude::*;
use crate::db::nameparse;
use crate::db::queries::music::{TrackMeta, TrackView};
use crate::text;

verus! {

// ------------------------------------------------------------------ genres

pub open spec fn genre_mark(c: char) -> bool {
    c == ';' || c == '/' || c == ','
}

/// The parts of a text between the genre marks.
pub open spec fn genre_parts(s: Seq<char>) -> Seq<Seq<char>>
    decreases s.len(),
    via genre_parts_decreases
{
    let n = part_len(s);
    if n < s.len() {
        seq![s.take(n)] + genre_parts(s.skip(n + 1))
    } else {
        seq![s]
    }
}

#[via_fn]
proof fn genre_parts_decreases(s: Seq<char>) {
    lemma_part_len_bounds(s);
}

proof fn lemma_part_len_bounds(s: Seq<char>)
    ensures
        0 <= part_len(s) <= s.len(),
    decreases s.len(),
{
    if s.len() > 0 {
        lemma_part_len_bounds(s.drop_first());
    }
}

/// The length of the text before the first genre mark.
pub open spec fn part_len(s: Seq<char>) -> int
    decreases s.len(),
{
    if s.len() == 0 || genre_mark(s[0]) {
        0
    } else {
        1 + part_len(s.drop_first())
    }
}

/// The parts that say something, white space aside.
pub open spec fn named_parts(parts: Seq<Seq<char>>) -> Seq<Seq<char>>
    decreases parts.len(),
{
    if parts.len() == 0 {
        seq![]
    } else {
        let head = named_parts(parts.drop_last());
        let t = text::trimmed(parts.last());
        if t.len() > 0 {
            head.push(t)
        } else {
            head
        }
    }
}

pub open spec fn genres_in(raw: Seq<char>) -> Seq<Seq<char>> {
    named_parts(genre_parts(raw))
}

proof fn lemma_part_len(s: Seq<char>, n: int)
    requires
        0 <= n <= s.len(),
        forall|k: int| 0 <= k < n ==> !genre_mark(#[trigger] s[k]),
        n < s.len() ==> genre_mark(s[n]),
    ensures
        part_len(s) == n,
    decreases s.len(),
{
    if n > 0 {
        assert(!genre_mark(s[0]));
        assert forall|k: int| 0 <= k < n - 1 implies !genre_mark(#[trigger] s.drop_first()[k]) by {
            assert(s.drop_first()[k] == s[k + 1]);
        }
        lemma_part_len(s.drop_first(), n - 1);
    }
}

proof fn lemma_named_concat(a: Seq<Seq<char>>, b: Seq<Seq<char>>)
    ensures
        named_parts(a + b) == named_parts(a) + named_parts(b),
    decreases b.len(),
{
    if b.len() == 0 {
        assert(a + b =~= a);
        assert(named_parts(a) + named_parts(b) =~= named_parts(a));
    } else {
        assert((a + b).drop_last() =~= a + b.drop_last());
        lemma_named_concat(a, b.drop_last());
        assert(named_parts(a + b) =~= named_parts(a) + named_parts(b));
    }
}

/// Tags often pack several genres into one string.
pub fn split_genres(raw: &str) -> (r: Vec<String>)
    ensures
        text::texts(r@) == genres_in(raw@),
{
    let v = text::chars_of(raw);
    let mut out: Vec<String> = Vec::new();
    let mut lo: usize = 0;
    assert(raw@.skip(0) =~= raw@);
    assert(text::texts(out@) + genres_in(raw@) =~= genres_in(raw@));
    loop
        invariant_except_break
            text::texts(out@) + genres_in(raw@.skip(lo as int)) == genres_in(raw@),
        invariant
            lo <= v.len(),
            v@ == raw@,
        ensures
            text::texts(out@) == genres_in(raw@),
        decreases v.len() - lo,
    {
        let mut hi: usize = lo;
        while hi < v.len() && !(v[hi] == ';' || v[hi] == '/' || v[hi] == ',')
            invariant
                lo <= hi <= v.len(),
                forall|k: int| lo <= k < hi ==> !genre_mark(#[trigger] v@[k]),
            decreases v.len() - hi,
        {
            hi += 1;
        }
        let ghost rest = raw@.skip(lo as int);
        let ghost n: int = hi - lo;
        let ghost before = text::texts(out@);
        proof {
            assert forall|k: int| 0 <= k < n implies !genre_mark(#[trigger] rest[k]) by {
                assert(rest[k] == v@[lo + k]);
            }
            if hi < v@.len() {
                assert(rest[n] == v@[hi as int]);
            }
            lemma_part_len(rest, n);
        }
        let part = text::string_of(&v, lo, hi);
        assert(part@ =~= rest.take(n));
        let t = text::trim(part.as_str());
        if !t.as_str().is_empty() {
            text::push_text(&mut out, t.as_str());
        }
        proof {
            let one = seq![part@];
            assert(one.drop_last() =~= Seq::<Seq<char>>::empty());
            reveal_with_fuel(named_parts, 2);
            assert(text::texts(out@) =~= before + named_parts(one));
            if hi < v@.len() {
                assert(rest.skip(n + 1) =~= raw@.skip(hi + 1));
                lemma_named_concat(one, genre_parts(rest.skip(n + 1)));
                assert(before + genres_in(rest) =~= text::texts(out@) + genres_in(
                    raw@.skip(hi + 1),
                ));
            } else {
                assert(rest.take(n) =~= rest);
            }
        }
        if hi == v.len() {
            break;
        }
        lo = hi + 1;
    }
    out
}

// ------------------------------------------------------------------ labels

/// Human label for an ffprobe audio codec name plus profile.
pub open spec fn label_of(codec: Seq<char>, profile: Option<Seq<char>>) -> Seq<char> {
    if codec == "aac"@ {
        match profile {
            None => "AAC LC"@,
            Some(p) => if p == "LC"@ {
                "AAC LC"@
            } else if p == "HE-AAC"@ {
                "HE-AAC"@
            } else if p == "HE-AACv2"@ {
                "HE-AAC v2"@
            } else {
                "AAC "@ + p
            },
        }
    } else if codec == "ac3"@ {
        "AC-3 (Dolby Digital)"@
    } else if codec == "eac3"@ {
        "E-AC-3"@
    } else if codec == "truehd"@ {
        "Dolby TrueHD"@
    } else if codec == "dts"@ {
        match profile {
            Some(p) => undoubled("DTS "@ + p),
            None => "DTS"@,
        }
    } else if codec == "mp3"@ {
        "MP3"@
    } else if codec == "mp2"@ {
        "MP2"@
    } else if codec == "flac"@ {
        "FLAC"@
    } else if codec == "alac"@ {
        "ALAC (Apple Lossless)"@
    } else if codec == "opus"@ {
        "Opus"@
    } else if codec == "vorbis"@ {
        "Vorbis"@
    } else if text::begins(codec, "pcm_"@) {
        "PCM"@
    } else {
        text::uppered(codec)
    }
}

/// A text with "DTS" in place of each "DTS DTS", from the left.
pub open spec fn undoubled(s: Seq<char>) -> Seq<char>
    decreases s.len(),
{
    if s.len() == 0 {
        seq![]
    } else if text::begins(s, "DTS DTS"@) && s.len() >= 7 {
        "DTS"@ + undoubled(s.skip(7))
    } else {
        seq![s[0]] + undoubled(s.drop_first())
    }
}

fn undouble(s: &str) -> (r: String)
    ensures
        r@ == undoubled(s@),
{
    proof {
        reveal_strlit("DTS DTS");
        assert("DTS DTS"@.len() == 7);
    }
    let v = text::chars_of(s);
    let mut out = String::new();
    let mut i: usize = 0;
    assert(s@.skip(0) =~= s@);
    assert(out@ + undoubled(s@) =~= undoubled(s@));
    while i < v.len()
        invariant
            i <= v.len(),
            v@ == s@,
            "DTS DTS"@.len() == 7,
            out@ + undoubled(s@.skip(i as int)) == undoubled(s@),
        decreases v.len() - i,
    {
        let ghost rest = s@.skip(i as int);
        let ghost before = out@;
        let tail = text::string_of(&v, i, v.len());
        assert(tail@ =~= rest);
        assert(rest.drop_first() =~= s@.skip(i + 1));
        if v.len() - i >= 7 && text::starts_with(tail.as_str(), "DTS DTS") {
            assert(rest.skip(7) =~= s@.skip(i + 7));
            out.push_str("DTS");
            assert(before + undoubled(rest) =~= out@ + undoubled(s@.skip(i + 7)));
            i += 7;
        } else {
            out.push(v[i]);
            assert(before + undoubled(rest) =~= out@ + undoubled(s@.skip(i + 1)));
            i += 1;
        }
    }
    assert(s@.skip(i as int) =~= seq![]);
    assert(out@ + undoubled(s@.skip(i as int)) =~= out@);
    out
}

/// Human label for an ffprobe audio codec name plus profile, used for the
/// audio track of video files: "AAC LC", "E-AC-3", "DTS-HD MA".
pub fn ffprobe_label(codec: &str, profile: Option<&str>) -> (r: String)
    ensures
        r@ == label_of(
            codec@,
            match profile {
                Some(p) => Some(p@),
                None => None,
            },
        ),
{
    if text::same(codec, "aac") {
        match profile {
            None => "AAC LC".to_owned(),
            Some(p) => if text::same(p, "LC") {
                "AAC LC".to_owned()
            } else if text::same(p, "HE-AAC") {
                "HE-AAC".to_owned()
            } else if text::same(p, "HE-AACv2") {
                "HE-AAC v2".to_owned()
            } else {
                let mut out = "AAC ".to_owned();
                out.push_str(p);
                out
            },
        }
    } else if text::same(codec, "ac3") {
        "AC-3 (Dolby Digital)".to_owned()
    } else if text::same(codec, "eac3") {
        "E-AC-3".to_owned()
    } else if text::same(codec, "truehd") {
        "Dolby TrueHD".to_owned()
    } else if text::same(codec, "dts") {
        match profile {
            Some(p) => {
                let mut out = "DTS ".to_owned();
                out.push_str(p);
                undouble(out.as_str())
            },
            None => "DTS".to_owned(),
        }
    } else if text::same(codec, "mp3") {
        "MP3".to_owned()
    } else if text::same(codec, "mp2") {
        "MP2".to_owned()
    } else if text::same(codec, "flac") {
        "FLAC".to_owned()
    } else if text::same(codec, "alac") {
        "ALAC (Apple Lossless)".to_owned()
    } else if text::same(codec, "opus") {
        "Opus".to_owned()
    } else if text::same(codec, "vorbis") {
        "Vorbis".to_owned()
    } else if text::starts_with(codec, "pcm_") {
        "PCM".to_owned()
    } else {
        text::to_uppercase(codec)
    }
}

/// What the MP4 parser says of a file's audio.
#[derive(Debug, Clone, Copy, PartialEq, Eq, Structural)]
pub enum Mp4Audio {
    AacMain,
    AacSbr,
    AacPs,
    AacLtp,
    AacLd,
    AacSsr,
    /// Any other AAC.
    Aac,
    Alac,
    Mp3,
    Flac,
    /// Any other codec, or an unreadable file.
    Unknown,
}

/// What a music file is, by its format.
#[derive(Debug)]
pub enum AudioSort {
    Mp4(Mp4Audio),
    /// By its layer; none for an unreadable file.
    Mpeg(Option<u8>),
    Aac,
    Flac,
    Opus,
    Vorbis,
    Speex,
    Wav,
    Aiff,
    Ape,
    WavPack,
    Mpc,
    /// Any other format, by its name.
    Other(String),
}

/// The short codec name and the human label of a sort.
pub open spec fn codec_names(sort: AudioSort) -> (Seq<char>, Seq<char>) {
    match sort {
        AudioSort::Mp4(m) => match m {
            Mp4Audio::AacMain => ("aac"@, "AAC Main"@),
            Mp4Audio::AacSbr => ("aac"@, "HE-AAC"@),
            Mp4Audio::AacPs => ("aac"@, "HE-AAC v2"@),
            Mp4Audio::AacLtp => ("aac"@, "AAC LTP"@),
            Mp4Audio::AacLd => ("aac"@, "AAC LD"@),
            Mp4Audio::AacSsr => ("aac"@, "AAC SSR"@),
            Mp4Audio::Aac => ("aac"@, "AAC LC"@),
            Mp4Audio::Alac => ("alac"@, "ALAC (Apple Lossless)"@),
            Mp4Audio::Mp3 => ("mp3"@, "MP3"@),
            Mp4Audio::Flac => ("flac"@, "FLAC"@),
            Mp4Audio::Unknown => ("mp4"@, "MP4 audio"@),
        },
        AudioSort::Mpeg(layer) => if layer == Some(1u8) {
            ("mp1"@, "MPEG Layer I"@)
        } else if layer == Some(2u8) {
            ("mp2"@, "MP2 (MPEG Layer II)"@)
        } else {
            ("mp3"@, "MP3"@)
        },
        AudioSort::Aac => ("aac"@, "AAC (ADTS)"@),
        AudioSort::Flac => ("flac"@, "FLAC"@),
        AudioSort::Opus => ("opus"@, "Opus"@),
        AudioSort::Vorbis => ("vorbis"@, "Vorbis"@),
        AudioSort::Speex => ("speex"@, "Speex"@),
        AudioSort::Wav => ("pcm"@, "WAV (PCM)"@),
        AudioSort::Aiff => ("pcm"@, "AIFF (PCM)"@),
        AudioSort::Ape => ("ape"@, "Monkey's Audio"@),
        AudioSort::WavPack => ("wavpack"@, "WavPack"@),
        AudioSort::Mpc => ("mpc"@, "Musepack"@),
        AudioSort::Other(name) => (text::lowered(name@), text::lowered(name@)),
    }
}

fn both(codec: &str, label: &str) -> (r: (String, String))
    ensures
        r.0@ == codec@,
        r.1@ == label@,
{
    (codec.to_owned(), label.to_owned())
}

/// (short codec name, human label) for a file.
pub fn codec_of(sort: &AudioSort) -> (r: (String, String))
    ensures
        (r.0@, r.1@) == codec_names(*sort),
{
    match sort {
        AudioSort::Mp4(m) => match m {
            Mp4Audio::AacMain => both("aac", "AAC Main"),
            Mp4Audio::AacSbr => both("aac", "HE-AAC"),
            Mp4Audio::AacPs => both("aac", "HE-AAC v2"),
            Mp4Audio::AacLtp => both("aac", "AAC LTP"),
            Mp4Audio::AacLd => both("aac", "AAC LD"),
            Mp4Audio::AacSsr => both("aac", "AAC SSR"),
            Mp4Audio::Aac => both("aac", "AAC LC"),
            Mp4Audio::Alac => both("alac", "ALAC (Apple Lossless)"),
            Mp4Audio::Mp3 => both("mp3", "MP3"),
            Mp4Audio::Flac => both("flac", "FLAC"),
            Mp4Audio::Unknown => both("mp4", "MP4 audio"),
        },
        AudioSort::Mpeg(layer) => match layer {
            Some(1) => both("mp1", "MPEG Layer I"),
            Some(2) => both("mp2", "MP2 (MPEG Layer II)"),
            _ => both("mp3", "MP3"),
        },
        AudioSort::Aac => both("aac", "AAC (ADTS)"),
        AudioSort::Flac => both("flac", "FLAC"),
        AudioSort::Opus => both("opus", "Opus"),
        AudioSort::Vorbis => both("vorbis", "Vorbis"),
        AudioSort::Speex => both("speex", "Speex"),
        AudioSort::Wav => both("pcm", "WAV (PCM)"),
        AudioSort::Aiff => both("pcm", "AIFF (PCM)"),
        AudioSort::Ape => both("ape", "Monkey's Audio"),
        AudioSort::WavPack => both("wavpack", "WavPack"),
        AudioSort::Mpc => both("mpc", "Musepack"),
        AudioSort::Other(name) => {
            let name = text::to_lowercase(name.as_str());
            (name.clone(), name)
        },
    }
}

// -------------------------------------------------------------------- tags

/// What a file's tag says.
#[derive(Debug)]
pub struct Tags {
    pub title: Option<String>,
    pub artist: Option<String>,
    pub album: Option<String>,
    pub album_artist: Option<String>,
    pub track: Option<u32>,
    pub disc: Option<u32>,
    pub year: Option<u32>,
    pub genre: Option<String>,
}

/// A tag's text where it says something, white space aside; else what the
/// path says.
pub open spec fn told(tag: Option<Seq<char>>, path: Option<Seq<char>>) -> Option<Seq<char>> {
    match tag {
        Some(t) => if text::trimmed(t).len() > 0 {
            Some(text::trimmed(t))
        } else {
            path
        },
        None => path,
    }
}

fn tell(tag: Option<String>, path: Option<String>) -> (r: Option<String>)
    ensures
        text::opt_text(r) == told(text::opt_text(tag), text::opt_text(path)),
{
    match tag {
        Some(t) => {
            let t = text::trim(t.as_str());
            if t.as_str().is_empty() {
                path
            } else {
                Some(t)
            }
        },
        None => path,
    }
}

pub open spec fn number_told(tag: Option<u32>, path: Option<i64>) -> Option<i64> {
    match tag {
        Some(n) => Some(n as i64),
        None => path,
    }
}

fn tell_number(tag: Option<u32>, path: Option<i64>) -> (r: Option<i64>)
    ensures
        r == number_told(tag, path),
{
    match tag {
        Some(n) => Some(n as i64),
        None => path,
    }
}

/// A track from what its path says: artist, album, track number and title.
pub open spec fn from_path(path: nameparse::TrackName) -> TrackView {
    TrackView {
        title: path.title,
        artist: path.artist,
        album_artist: None,
        album: path.album,
        track_no: match path.track_no {
            Some(n) => Some(n as i64),
            None => None,
        },
        disc_no: None,
        year: None,
        genres: seq![],
    }
}

/// A track with what its tag says on top of what its path says.
pub open spec fn tagged(t: TrackView, tags: Option<Tags>) -> TrackView {
    match tags {
        None => t,
        Some(tags) => TrackView {
            title: told(text::opt_text(tags.title), Some(t.title))->Some_0,
            artist: told(text::opt_text(tags.artist), t.artist),
            album_artist: told(text::opt_text(tags.album_artist), t.album_artist),
            album: told(text::opt_text(tags.album), t.album),
            track_no: number_told(tags.track, t.track_no),
            disc_no: number_told(tags.disc, t.disc_no),
            year: number_told(tags.year, t.year),
            genres: match tags.genre {
                Some(g) => genres_in(g@),
                None => t.genres,
            },
        },
    }
}

/// The tags' say on a track; anything missing stays as the path conventions
/// have it.
pub fn with_tags(track: TrackMeta, tags: Option<Tags>) -> (r: TrackMeta)
    ensures
        r@ == tagged(track@, tags),
{
    match tags {
        None => track,
        Some(tags) => {
            let title = match tell(tags.title, Some(track.title)) {
                Some(t) => t,
                None => String::new(),
            };
            let genres = match tags.genre {
                Some(g) => split_genres(g.as_str()),
                None => track.genres,
            };
            TrackMeta {
                title,
                artist: tell(tags.artist, track.artist),
                album_artist: tell(tags.album_artist, track.album_artist),
                album: tell(tags.album, track.album),
                track_no: tell_number(tags.track, track.track_no),
                disc_no: tell_number(tags.disc, track.disc_no),
                year: tell_number(tags.year, track.year),
                genres,
            }
        },
    }
}

/// A track from what its path says.
pub fn track_from_path(path: (Option<String>, Option<String>, Option<i64>, String)) -> (r:
    TrackMeta)
    ensures
        r@ == from_path(nameparse::track_view(path)),
{
    let (artist, album, track_no, title) = path;
    let r = TrackMeta {
        title,
        artist,
        album_artist: None,
        album,
        track_no,
        disc_no: None,
        year: None,
        genres: Vec::new(),
    };
    assert(r@ =~= from_path(nameparse::track_view(path)));
    r
}

/// Genres that are packed into one text are set apart by semicolons, slashes
/// and commas; white space around them and empty ones do not count.
pub proof fn genres_are_set_apart(first: Seq<char>, mark: char, rest: Seq<char>)
    requires
        mark == ';' || mark == '/' || mark == ',',
        forall|i: int|
            0 <= i < first.len() ==> (#[trigger] first[i]) != ';' && first[i] != '/' && first[i]
                != ',',
    ensures
        text::trimmed(first).len() > 0 ==> genres_in(first + seq![mark] + rest) == seq![
            text::trimmed(first),
        ] + genres_in(rest),
        text::trimmed(first).len() == 0 ==> genres_in(first + seq![mark] + rest) == genres_in(rest),
        text::trimmed(first).len() > 0 ==> genres_in(first) == seq![text::trimmed(first)],
        text::trimmed(first).len() == 0 ==> genres_in(first).len() == 0,
{
    let s = first + seq![mark] + rest;
    lemma_part_len_of(first, seq![mark] + rest);
    assert(s =~= first + (seq![mark] + rest));
    assert(s.take(first.len() as int) =~= first);
    assert(s.skip(first.len() as int + 1) =~= rest);
    let parts = genre_parts(rest);
    lemma_named_front(first, parts);
    lemma_part_len_of(first, seq![]);
    assert(first + Seq::<char>::empty() =~= first);
    assert(genre_parts(first) == seq![first]);
    lemma_named_one(first);
}

proof fn lemma_named_one(first: Seq<char>)
    ensures
        named_parts(seq![first]) == (if text::trimmed(first).len() > 0 {
            seq![text::trimmed(first)]
        } else {
            seq![]
        }),
{
    let one = seq![first];
    assert(one.last() == first);
    assert(one.drop_last() =~= Seq::<Seq<char>>::empty());
    assert(named_parts(one.drop_last()) =~= Seq::<Seq<char>>::empty());
    if text::trimmed(first).len() > 0 {
        assert(named_parts(one) =~= seq![text::trimmed(first)]);
    }
}

proof fn lemma_part_len_of(first: Seq<char>, rest: Seq<char>)
    requires
        forall|i: int| 0 <= i < first.len() ==> !genre_mark(#[trigger] first[i]),
        rest.len() > 0 ==> genre_mark(rest[0]),
    ensures
        part_len(first + rest) == first.len(),
    decreases first.len(),
{
    if first.len() > 0 {
        assert(!genre_mark(first[0]));
        let f = first.drop_first();
        assert forall|i: int| 0 <= i < f.len() implies !genre_mark(#[trigger] f[i]) by {
            assert(!genre_mark(first[i + 1]));
        }
        lemma_part_len_of(f, rest);
        assert((first + rest).drop_first() =~= f + rest);
    } else {
        assert(first + rest =~= rest);
    }
}

proof fn lemma_named_front(first: Seq<char>, parts: Seq<Seq<char>>)
    ensures
        named_parts(seq![first] + parts) == (if text::trimmed(first).len() > 0 {
            seq![text::trimmed(first)]
        } else {
            seq![]
        }) + named_parts(parts),
    decreases parts.len(),
{
    let all = seq![first] + parts;
    let front = if text::trimmed(first).len() > 0 {
        seq![text::trimmed(first)]
    } else {
        Seq::<Seq<char>>::empty()
    };
    if parts.len() > 0 {
        lemma_named_front(first, parts.drop_last());
        assert(all.drop_last() =~= seq![first] + parts.drop_last());
        assert(all.last() == parts.last());
        assert(named_parts(all) =~= front + named_parts(parts));
    } else {
        lemma_named_one(first);
        assert(all =~= seq![first]);
        assert(named_parts(parts) =~= seq![]);
        assert(front + named_parts(parts) =~= front);
    }
}

/// What a codec of a video's sound track is called, whatever its profile; of
/// AAC and DTS the profile is part of the name.
pub proof fn codecs_go_by_their_names(profile: Option<Seq<char>>, p: Seq<char>)
    ensures
        label_of("aac"@, None) == "AAC LC"@,
        label_of("aac"@, Some("LC"@)) == "AAC LC"@,
        label_of("aac"@, Some("HE-AAC"@)) == "HE-AAC"@,
        label_of("aac"@, Some("HE-AACv2"@)) == "HE-AAC v2"@,
        p != "LC"@ && p != "HE-AAC"@ && p != "HE-AACv2"@ ==> label_of("aac"@, Some(p)) == "AAC "@
            + p,
        label_of("ac3"@, profile) == "AC-3 (Dolby Digital)"@,
        label_of("eac3"@, profile) == "E-AC-3"@,
        label_of("truehd"@, profile) == "Dolby TrueHD"@,
        label_of("dts"@, None) == "DTS"@,
        label_of("mp3"@, profile) == "MP3"@,
        label_of("mp2"@, profile) == "MP2"@,
        label_of("flac"@, profile) == "FLAC"@,
        label_of("alac"@, profile) == "ALAC (Apple Lossless)"@,
        label_of("opus"@, profile) == "Opus"@,
        label_of("vorbis"@, profile) == "Vorbis"@,
{
    reveal_strlit("aac");
    reveal_strlit("ac3");
    reveal_strlit("eac3");
    reveal_strlit("truehd");
    reveal_strlit("dts");
    reveal_strlit("mp3");
    reveal_strlit("mp2");
    reveal_strlit("flac");
    reveal_strlit("alac");
    reveal_strlit("opus");
    reveal_strlit("vorbis");
    reveal_strlit("LC");
    reveal_strlit("HE-AAC");
    reveal_strlit("HE-AACv2");
    assert("LC"@.len() == 2 && "HE-AAC"@.len() == 6 && "HE-AACv2"@.len() == 8);
    assert("aac"@.len() == 3 && "ac3"@.len() == 3 && "dts"@.len() == 3 && "mp3"@.len() == 3
        && "mp2"@.len() == 3 && "eac3"@.len() == 4 && "flac"@.len() == 4 && "alac"@.len() == 4
        && "opus"@.len() == 4 && "truehd"@.len() == 6 && "vorbis"@.len() == 6);
    assert("aac"@[1] == 'a' && "ac3"@[1] == 'c' && "dts"@[1] == 't' && "mp3"@[1] == 'p' && "mp2"@[1]
        == 'p' && "mp3"@[2] == '3' && "mp2"@[2] == '2');
    assert("eac3"@[0] == 'e' && "flac"@[0] == 'f' && "alac"@[0] == 'a' && "opus"@[0] == 'o');
    assert("truehd"@[0] == 't' && "vorbis"@[0] == 'v');
}

} // verus!
