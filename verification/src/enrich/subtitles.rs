//! Sidecar subtitles in both directions: embed a sidecar .srt into MP4
//! files that have none, and extract an embedded text track to a sidecar
//! .srt so every player (and the web player, without on-demand work) can
//! use it.
//!
//! Embedding: equivalent to the manual recipe
//!   ffmpeg -i in.mp4 -i in.srt -c copy -c:s mov_text out.mp4
//! — existing streams are copied untouched; only a subtitle track is
//! added. Unlike every other enrichment step this replaces a whole media
//! file, so it is deliberately conservative: strict preconditions, a mux
//! into a temp file in the same directory, ffprobe verification of the
//! result, then a single atomic rename over the original.
use vstd::prelude::*;
use crate::db::captions;
use crate::db::subtitles;
use crate::db::subtitles::Track;
use crate::db::textenc;
use crate::digest;
use crate::enrich::remux;
use crate::paths;
use crate::text;

verus! {

#[derive(Debug, Clone, Copy, PartialEq, Eq, Structural)]
pub enum Skip {
    NotMp4,
    NoSidecar,
    Empty,
    Unrecognized,
    NoVideo,
    HasSubtitles,
    UpToDate,
    LayoutChanged,
}

impl Skip {
    pub open spec fn told(&self) -> Seq<char> {
        match *self {
            Skip::NotMp4 => "not mp4"@,
            Skip::NoSidecar => "no .srt sidecar"@,
            Skip::Empty => "srt is empty"@,
            Skip::Unrecognized => "srt encoding unrecognized"@,
            Skip::NoVideo => "no video stream"@,
            Skip::HasSubtitles => "already has text subtitles"@,
            Skip::UpToDate => "captions up to date"@,
            Skip::LayoutChanged => "subtitle layout changed since embedding; not replacing"@,
        }
    }

    /// The reason, as the log puts it.
    pub fn reason(&self) -> (r: &'static str)
        ensures
            r@ == self.told(),
    {
        match *self {
            Skip::NotMp4 => "not mp4",
            Skip::NoSidecar => "no .srt sidecar",
            Skip::Empty => "srt is empty",
            Skip::Unrecognized => "srt encoding unrecognized",
            Skip::NoVideo => "no video stream",
            Skip::HasSubtitles => "already has text subtitles",
            Skip::UpToDate => "captions up to date",
            Skip::LayoutChanged => "subtitle layout changed since embedding; not replacing",
        }
    }
}

#[derive(Debug, Clone, Copy, PartialEq, Eq, Structural)]
pub enum Outcome {
    /// Not a candidate (wrong format, no .srt, already subtitled, ...).
    Skipped(Skip),
    Embedded,
    /// The sidecar changed since it was embedded: the track was replaced.
    Replaced,
    /// Dry run: what a real run would do.
    WouldEmbed,
    WouldReplace,
}

pub open spec fn mp4(name: Seq<char>) -> bool {
    match paths::extension_of(name) {
        Some(e) => text::lowered(e) == "mp4"@ || text::lowered(e) == "m4v"@,
        None => false,
    }
}

pub fn is_mp4(name: &str) -> (r: bool)
    ensures
        r == mp4(name@),
{
    match paths::extension(name) {
        Some(e) => {
            let e = text::to_lowercase(e.as_str());
            text::same(e.as_str(), "mp4") || text::same(e.as_str(), "m4v")
        },
        None => false,
    }
}

/// Stream census of a file, plus its ©too "encoding tool" text — where the
/// caption record says which sidecar an embedded track came from.
#[derive(Debug)]
pub struct Probe {
    pub video: usize,
    pub audio: usize,
    pub subtitle: usize,
    /// In seconds, as written.
    pub duration: String,
    pub encoder: String,
}

#[verifier::ext_equal]
pub struct ProbeView {
    pub video: int,
    pub audio: int,
    pub subtitle: int,
    pub duration: Seq<char>,
    pub encoder: Seq<char>,
}

impl View for Probe {
    type V = ProbeView;

    open spec fn view(&self) -> ProbeView {
        ProbeView {
            video: self.video as int,
            audio: self.audio as int,
            subtitle: self.subtitle as int,
            duration: self.duration@,
            encoder: self.encoder@,
        }
    }
}

pub const TEXT_SUB_CODECS: [&'static str; 8] = [
    "subrip",
    "srt",
    "ass",
    "ssa",
    "mov_text",
    "webvtt",
    "text",
    "subviewer",
];

/// The arguments that make ffprobe list what [`parse_probe`] reads.
pub const PROBE_ARGS: [&'static str; 6] = [
    "-v",
    "error",
    "-show_entries",
    "stream=codec_name,codec_type:format=duration:format_tags=encoder",
    "-of",
    "default=nw=1",
];

/// A listing read so far. Per stream, the codec's name precedes its type.
#[verifier::ext_equal]
pub struct Listing {
    pub probe: ProbeView,
    pub codec: Seq<char>,
}

pub open spec fn listing_line(l: Listing, line: Seq<char>) -> Listing {
    if text::begins(line, "codec_name="@) {
        Listing { codec: line.skip("codec_name="@.len() as int), ..l }
    } else if text::begins(line, "codec_type="@) {
        let kind = line.skip("codec_type="@.len() as int);
        if kind == "video"@ {
            Listing { probe: ProbeView { video: l.probe.video + 1, ..l.probe }, ..l }
        } else if kind == "audio"@ {
            Listing { probe: ProbeView { audio: l.probe.audio + 1, ..l.probe }, ..l }
        } else if kind == "subtitle"@ && text::listed(l.codec, TEXT_SUB_CODECS@) {
            // Only text subtitles count: a bitmap-only (PGS/VobSub) file
            // still deserves the .srt embedded.
            Listing { probe: ProbeView { subtitle: l.probe.subtitle + 1, ..l.probe }, ..l }
        } else {
            l
        }
    } else if text::begins(line, "duration="@) {
        Listing {
            probe: ProbeView { duration: line.skip("duration="@.len() as int), ..l.probe },
            ..l
        }
    } else if text::begins(line, "TAG:encoder="@) {
        Listing {
            probe: ProbeView { encoder: line.skip("TAG:encoder="@.len() as int), ..l.probe },
            ..l
        }
    } else {
        l
    }
}

pub open spec fn listing(lines: Seq<Seq<char>>) -> Listing
    decreases lines.len(),
{
    if lines.len() == 0 {
        Listing {
            probe: ProbeView { video: 0, audio: 0, subtitle: 0, duration: seq![], encoder: seq![] },
            codec: seq![],
        }
    } else {
        listing_line(listing(lines.drop_last()), lines.last())
    }
}

pub fn parse_probe(text: &str) -> (r: Probe)
    ensures
        r@ == listing(text::lines_of(text@)).probe,
{
    let lines = text::lines(text);
    let ghost ls = text::lines_of(text@);
    let mut p = Probe {
        video: 0,
        audio: 0,
        subtitle: 0,
        duration: String::new(),
        encoder: String::new(),
    };
    let mut codec = String::new();
    let mut i: usize = 0;
    assert(ls.take(0) =~= seq![]);
    assert(p@ =~= listing(ls.take(0)).probe);
    assert(codec@ =~= seq![]);
    while i < lines.len()
        invariant
            i <= lines.len(),
            ls == text::texts(lines@),
            p@ == listing(ls.take(i as int)).probe,
            codec@ == listing(ls.take(i as int)).codec,
            p.video <= i,
            p.audio <= i,
            p.subtitle <= i,
        decreases lines.len() - i,
    {
        proof {
            assert(ls.take(i + 1).drop_last() =~= ls.take(i as int));
            assert(ls.take(i + 1).last() == lines@[i as int]@);
        }
        let line = lines[i].as_str();
        if let Some(name) = text::strip_prefix(line, "codec_name=") {
            codec = name;
        } else if let Some(kind) = text::strip_prefix(line, "codec_type=") {
            if text::same(kind.as_str(), "video") {
                p.video += 1;
            } else if text::same(kind.as_str(), "audio") {
                p.audio += 1;
            } else if text::same(kind.as_str(), "subtitle") && text::is_one_of(
                codec.as_str(),
                &TEXT_SUB_CODECS,
            ) {
                p.subtitle += 1;
            }
        } else if let Some(d) = text::strip_prefix(line, "duration=") {
            p.duration = d;
        } else if let Some(tool) = text::strip_prefix(line, "TAG:encoder=") {
            p.encoder = tool;
        }
        i += 1;
    }
    assert(ls.take(i as int) =~= ls);
    p
}

pub open spec fn hash_of(text: Seq<char>) -> Seq<char> {
    digest::hex_of(digest::sha256(vstd::utf8::encode_utf8(text)))
}

/// SHA-256, as hex, of the text that gets embedded — the decoded UTF-8,
/// so a sidecar re-saved in another encoding (or merely touched) is not
/// a change; only different captions are. The hash is one that the caption
/// record can hold.
pub fn sidecar_hash(text: &str) -> (r: String)
    requires
        digest::digestible(text@),
    ensures
        r@ == hash_of(text@),
        captions::recorded(captions::TAG_PREFIX@ + r@) == Some(r@),
{
    let digest = digest::digest_text(text);
    let hash = digest::hex(&digest);
    proof {
        digest::lemma_hex(digest@);
        captions::tag_round_trip(hash@, seq![]);
        assert(captions::TAG_PREFIX@ + hash@ + seq![] =~= captions::TAG_PREFIX@ + hash@);
    }
    hash
}

/// What a sidecar gives to embed.
#[derive(Debug)]
pub enum Sidecar {
    Skip(Skip),
    /// Its text; `convert` says that a UTF-8 copy has to be written for the
    /// mux. The original .srt is never modified.
    Use { text: String, convert: bool },
}

/// What to embed, going by the video's name and by the bytes of its sidecar
/// (none for no regular file of a bearable size). mov_text needs clean UTF-8
/// text: the unambiguous encodings (UTF-16 via BOM, mostly-ASCII
/// Windows-1252/Latin-1) are decoded rather than embedded as mojibake;
/// anything unclear is skipped.
pub fn look_at_sidecar(name: &str, sidecar: Option<Vec<u8>>) -> (r: Sidecar)
    ensures
        match sidecar {
            _ if !mp4(name@) => r == Sidecar::Skip(Skip::NotMp4),
            None => r == Sidecar::Skip(Skip::NoSidecar),
            Some(bytes) => if bytes@.len() == 0 {
                r == Sidecar::Skip(Skip::Empty)
            } else {
                match textenc::subtitle_text(bytes@) {
                    None => r == Sidecar::Skip(Skip::Unrecognized),
                    Some(t) => r matches Sidecar::Use { text, convert } && text@ == t && convert
                        == (vstd::utf8::encode_utf8(t) != bytes@),
                }
            },
        },
{
    if !is_mp4(name) {
        return Sidecar::Skip(Skip::NotMp4);
    }
    let bytes = match sidecar {
        None => {
            return Sidecar::Skip(Skip::NoSidecar);
        },
        Some(bytes) => bytes,
    };
    if bytes.len() == 0 {
        return Sidecar::Skip(Skip::Empty);
    }
    match textenc::decode_subtitle_text(&bytes) {
        None => Sidecar::Skip(Skip::Unrecognized),
        Some(text) => {
            let convert = !remux::same_bytes(text.as_str(), &bytes);
            Sidecar::Use { text, convert }
        },
    }
}

/// Whether captions are embedded anew or replaced, or why neither: captions
/// of unknown provenance are never touched, and neither is a file whose
/// subtitle layout changed since the embedding.
pub open spec fn replacing(before: ProbeView, hash: Seq<char>) -> Result<bool, Skip> {
    if before.video == 0 {
        Err(Skip::NoVideo)
    } else if before.subtitle == 0 {
        Ok(false)
    } else {
        match captions::recorded(before.encoder) {
            None => Err(Skip::HasSubtitles),
            Some(recorded) => if recorded == hash {
                Err(Skip::UpToDate)
            } else if before.subtitle != 1 {
                Err(Skip::LayoutChanged)
            } else {
                Ok(true)
            },
        }
    }
}

/// What to do with a file once it has been probed.
#[derive(Debug, Clone, Copy, PartialEq, Eq, Structural)]
pub enum Step {
    Done(Outcome),
    /// Mux, replacing the one text track or not, then verify.
    Mux { replace: bool },
}

/// From a probe and the sidecar's hash to the next step. With `dry_run`,
/// decide only.
pub fn decide(before: &Probe, hash: &str, dry_run: bool) -> (r: Step)
    ensures
        r == (match replacing(before@, hash@) {
            Err(why) => Step::Done(Outcome::Skipped(why)),
            Ok(replace) => if !dry_run {
                Step::Mux { replace }
            } else if replace {
                Step::Done(Outcome::WouldReplace)
            } else {
                Step::Done(Outcome::WouldEmbed)
            },
        }),
{
    if before.video == 0 {
        return Step::Done(Outcome::Skipped(Skip::NoVideo));
    }
    let mut replace = false;
    if before.subtitle != 0 {
        match captions::recorded_hash(before.encoder.as_str()) {
            None => {
                return Step::Done(Outcome::Skipped(Skip::HasSubtitles));
            },
            Some(recorded) => {
                if text::same(recorded.as_str(), hash) {
                    return Step::Done(Outcome::Skipped(Skip::UpToDate));
                }
                if before.subtitle != 1 {
                    return Step::Done(Outcome::Skipped(Skip::LayoutChanged));
                }
                replace = true;
            },
        }
    }
    if !dry_run {
        Step::Mux { replace }
    } else if replace {
        Step::Done(Outcome::WouldReplace)
    } else {
        Step::Done(Outcome::WouldEmbed)
    }
}

/// The ffmpeg invocation: a plain single-pass stream copy, exactly like the
/// manual recipe. No +faststart: it rewrites the whole file a second time to
/// move the moov atom, doubling I/O and leaving a window where the output can
/// lack its moov entirely; range-request streaming doesn't need it.
///
/// On a first embedding, whatever (non-text) subtitle streams the file has
/// come along. A replacement drops the one text track, ours.
pub fn embed_args(media: &str, srt: &str, replace: bool, hash: &str, output: &str) -> (r: Vec<
    String,
>)
    ensures
        text::texts(r@) == seq!["-v"@, "error"@, "-nostdin"@, "-i"@, media@, "-i"@, srt@]
            + seq!["-map"@, "0:v"@, "-map"@, "0:a?"@] + (if replace {
            seq![]
        } else {
            seq!["-map"@, "0:s?"@]
        }) + seq![
            "-map"@,
            "1"@,
            "-c"@,
            "copy"@,
            "-c:s"@,
            "mov_text"@,
            "-metadata:s:s:0"@,
            "language=eng"@,
            "-metadata"@,
            "encoding_tool="@ + (captions::TAG_PREFIX@ + hash@),
            "-y"@,
            output@,
        ],
{
    let mut args: Vec<String> = Vec::new();
    text::push_words(&mut args, &["-v", "error", "-nostdin", "-i"]);
    text::push_text(&mut args, media);
    text::push_text(&mut args, "-i");
    text::push_text(&mut args, srt);
    assert(text::texts(args@) =~= seq!["-v"@, "error"@, "-nostdin"@, "-i"@, media@, "-i"@, srt@]);
    text::push_words(&mut args, &["-map", "0:v", "-map", "0:a?"]);
    if !replace {
        text::push_words(&mut args, &["-map", "0:s?"]);
    }
    let ghost so_far = text::texts(args@);
    assert(so_far =~= seq!["-v"@, "error"@, "-nostdin"@, "-i"@, media@, "-i"@, srt@] + seq![
        "-map"@,
        "0:v"@,
        "-map"@,
        "0:a?"@,
    ] + (if replace {
        seq![]
    } else {
        seq!["-map"@, "0:s?"@]
    }));
    text::push_words(
        &mut args,
        &[
            "-map",
            "1",
            "-c",
            "copy",
            "-c:s",
            "mov_text",
            "-metadata:s:s:0",
            "language=eng",
            "-metadata",
        ],
    );
    let mut tool = "encoding_tool=".to_owned();
    tool.push_str(captions::tag(hash).as_str());
    text::push_text(&mut args, tool.as_str());
    text::push_text(&mut args, "-y");
    text::push_text(&mut args, output);
    assert(text::texts(args@) =~= so_far + seq![
        "-map"@,
        "1"@,
        "-c"@,
        "copy"@,
        "-c:s"@,
        "mov_text"@,
        "-metadata:s:s:0"@,
        "language=eng"@,
        "-metadata"@,
        "encoding_tool="@ + (captions::TAG_PREFIX@ + hash@),
        "-y"@,
        output@,
    ]);
    args
}

/// What the muxed file must hold: every video/audio stream preserved, a
/// subtitle present, and the record written. Data/attachment streams are
/// ignored on both sides — faithful copies of odd containers carry them.
pub open spec fn faithful(before: ProbeView, after: ProbeView, hash: Seq<char>) -> bool {
    &&& after.subtitle >= 1
    &&& after.video == before.video
    &&& after.audio == before.audio
    &&& captions::recorded(after.encoder) == Some(hash)
}

/// Whether the muxed file may take the original's place, given whether its
/// duration is unchanged.
pub fn verified(before: &Probe, after: &Probe, hash: &str, duration_kept: bool) -> (r: bool)
    ensures
        r == (faithful(before@, after@, hash@) && duration_kept),
{
    let record = match captions::recorded_hash(after.encoder.as_str()) {
        Some(recorded) => text::same(recorded.as_str(), hash),
        None => false,
    };
    after.subtitle >= 1 && after.video == before.video && after.audio == before.audio
        && duration_kept && record
}

/// What was done, once the muxed file has taken the original's place.
pub fn embedded(replace: bool) -> (r: Outcome)
    ensures
        r == (if replace {
            Outcome::Replaced
        } else {
            Outcome::Embedded
        }),
{
    if replace {
        Outcome::Replaced
    } else {
        Outcome::Embedded
    }
}

// -------------------------------------------------------------- extraction

#[derive(Debug)]
pub enum ExtractOutcome {
    Skipped(&'static str),
    /// Dry run: the track that would be extracted.
    WouldExtract(Track),
    Extracted(Track),
}

#[derive(Debug)]
pub enum Extraction {
    Done(ExtractOutcome),
    /// Extract this track.
    Extract(Track),
}

fn copied(t: &Track) -> (r: Track)
    ensures
        r@ == t@,
{
    let language = match &t.language {
        Some(l) => Some(l.clone()),
        None => None,
    };
    let title = match &t.title {
        Some(l) => Some(l.clone()),
        None => None,
    };
    Track {
        ordinal: t.ordinal,
        codec: t.codec.clone(),
        language,
        title,
        default: t.default,
        forced: t.forced,
        hearing_impaired: t.hearing_impaired,
    }
}

/// Extract the best embedded text subtitle track when no sidecar exists.
/// Never overwrites: a sidecar that is already there, hand-made or not, is
/// left alone. Forced tracks lose to full captions, SDH preferred.
pub fn extraction(sidecar_exists: bool, tracks: &Vec<Track>, dry_run: bool) -> (r: Extraction)
    ensures
        sidecar_exists ==> (r matches Extraction::Done(ExtractOutcome::Skipped(why)) && why@
            == "sidecar exists"@),
        !sidecar_exists ==> (match r {
            Extraction::Done(ExtractOutcome::Skipped(why)) => why@ == "no text subtitle track"@
                && forall|i: int|
                0 <= i < tracks@.len() ==> !(#[trigger] tracks@[i])@.text(),
            Extraction::Done(ExtractOutcome::WouldExtract(t)) => dry_run && exists|i: int|
                subtitles::is_best(subtitles::track_views(tracks@), i) && #[trigger] tracks@[i]@
                    == t@,
            Extraction::Extract(t) => !dry_run && exists|i: int|
                subtitles::is_best(subtitles::track_views(tracks@), i) && #[trigger] tracks@[i]@
                    == t@,
            _ => false,
        }),
{
    if sidecar_exists {
        return Extraction::Done(ExtractOutcome::Skipped("sidecar exists"));
    }
    match subtitles::best_text_track(tracks) {
        None => Extraction::Done(ExtractOutcome::Skipped("no text subtitle track")),
        Some(t) => {
            let track = copied(t);
            if dry_run {
                Extraction::Done(ExtractOutcome::WouldExtract(track))
            } else {
                Extraction::Extract(track)
            }
        },
    }
}

pub fn extract_args(media: &str, track: &Track, output: &str) -> (r: Vec<String>)
    ensures
        text::texts(r@) == seq![
            "-v"@,
            "error"@,
            "-nostdin"@,
            "-i"@,
            media@,
            "-map"@,
            "0:s:"@ + text::decimal(track.ordinal as int),
            "-f"@,
            "srt"@,
            "-y"@,
            output@,
        ],
{
    let mut args: Vec<String> = Vec::new();
    text::push_words(&mut args, &["-v", "error", "-nostdin", "-i"]);
    text::push_text(&mut args, media);
    text::push_text(&mut args, "-map");
    let mut stream = "0:s:".to_owned();
    stream.push_str(text::dec_usize(track.ordinal).as_str());
    text::push_text(&mut args, stream.as_str());
    text::push_words(&mut args, &["-f", "srt", "-y"]);
    text::push_text(&mut args, output);
    args
}

/// A track can exist yet carry no cues (empty placeholder tracks are
/// not rare); an empty sidecar would mask the fallback.
pub fn has_cues(extracted: &str) -> (r: bool)
    ensures
        r == text::holds(extracted@, "-->"@),
{
    text::contains(extracted, "-->")
}

// -------------------------------------------------------------------- laws

/// Embedding is done once: after a verified mux the same sidecar is up to
/// date, and the file is left alone until the sidecar changes.
pub proof fn embedding_once_is_enough(before: ProbeView, after: ProbeView, hash: Seq<char>)
    requires
        replacing(before, hash) is Ok,
        faithful(before, after, hash),
    ensures
        replacing(after, hash) == Err::<bool, Skip>(Skip::UpToDate),
{
}

/// A corrected sidecar flows into the file: after a verified mux that left
/// one text track, a sidecar of another hash replaces it.
pub proof fn corrections_are_embedded(
    before: ProbeView,
    after: ProbeView,
    hash: Seq<char>,
    corrected: Seq<char>,
)
    requires
        replacing(before, hash) is Ok,
        faithful(before, after, hash),
        after.subtitle == 1,
        corrected != hash,
    ensures
        replacing(after, corrected) == Ok::<bool, Skip>(true),
{
}

/// Captions of unknown provenance are never touched.
pub proof fn unknown_captions_are_kept(before: ProbeView, hash: Seq<char>)
    requires
        before.subtitle > 0,
        captions::recorded(before.encoder) is None,
    ensures
        replacing(before, hash) is Err,
{
}

/// What becomes of a file: one without pictures is passed over; one without
/// text subtitles gets the sidecar; one whose captions were embedded from this
/// very text is up to date; one whose single text track was embedded from
/// another text has it replaced; and captions that were not embedded here, or
/// not alone, stay.
pub proof fn sidecars_are_embedded_where_they_belong(before: ProbeView, hash: Seq<char>)
    requires
        0 <= before.video,
        0 <= before.subtitle,
    ensures
        before.video == 0 ==> replacing(before, hash) == Err::<bool, Skip>(Skip::NoVideo),
        before.video > 0 && before.subtitle == 0 ==> replacing(before, hash) == Ok::<bool, Skip>(
            false,
        ),
        before.video > 0 && before.subtitle > 0 ==> match captions::recorded(before.encoder) {
            None => replacing(before, hash) == Err::<bool, Skip>(Skip::HasSubtitles),
            Some(h) => {
                &&& h == hash ==> replacing(before, hash) == Err::<bool, Skip>(Skip::UpToDate)
                &&& h != hash && before.subtitle == 1 ==> replacing(before, hash) == Ok::<
                    bool,
                    Skip,
                >(true)
                &&& h != hash && before.subtitle > 1 ==> replacing(before, hash) == Err::<
                    bool,
                    Skip,
                >(Skip::LayoutChanged)
            },
        },
{
}

/// A muxed file takes the other's place only with all its pictures and sound,
/// with captions, and with the record of where they came from.
pub proof fn an_embedding_is_held_to_account(before: ProbeView, after: ProbeView, hash: Seq<char>)
    ensures
        faithful(before, after, hash) <==> {
            &&& after.video == before.video
            &&& after.audio == before.audio
            &&& after.subtitle > 0
            &&& captions::recorded(after.encoder) is Some
            &&& captions::recorded(after.encoder)->Some_0 == hash
        },
{
}

/// A codec of subtitles that are texts.
pub open spec fn text_codec(codec: Seq<char>) -> bool {
    codec == "subrip"@ || codec == "srt"@ || codec == "ass"@ || codec == "ssa"@ || codec
        == "mov_text"@ || codec == "webvtt"@ || codec == "text"@ || codec == "subviewer"@
}

proof fn lemma_text_codec(codec: Seq<char>)
    ensures
        text::listed(codec, TEXT_SUB_CODECS@) == text_codec(codec),
{
    let t = TEXT_SUB_CODECS@;
    assert(t[0]@ == "subrip"@ && t[1]@ == "srt"@ && t[2]@ == "ass"@ && t[3]@ == "ssa"@ && t[4]@
        == "mov_text"@ && t[5]@ == "webvtt"@ && t[6]@ == "text"@ && t[7]@ == "subviewer"@);
}

/// A census counts each stream once, by its type; of subtitles it counts those
/// that are texts.
pub proof fn streams_are_counted_by_type(
    lines: Seq<Seq<char>>,
    codec: Seq<char>,
    kind: Seq<char>,
)
    ensures
        ({
            let l = listing(lines).probe;
            let m = listing(lines + seq!["codec_name="@ + codec, "codec_type="@ + kind]).probe;
            &&& m.video == l.video + (if kind == "video"@ {
                1int
            } else {
                0
            })
            &&& m.audio == l.audio + (if kind == "audio"@ {
                1int
            } else {
                0
            })
            &&& m.subtitle == l.subtitle + (if kind == "subtitle"@ && text_codec(codec) {
                1int
            } else {
                0
            })
            &&& m.duration == l.duration
            &&& m.encoder == l.encoder
        }),
{
    reveal_strlit("codec_name=");
    reveal_strlit("codec_type=");
    reveal_strlit("video");
    reveal_strlit("audio");
    reveal_strlit("subtitle");
    assert("video"@[0] == 'v' && "audio"@[0] == 'a' && "subtitle"@[0] == 's');
    let a = "codec_name="@ + codec;
    let b = "codec_type="@ + kind;
    let l1 = lines.push(a);
    let l2 = l1.push(b);
    assert(l2 =~= lines + seq![a, b]);
    assert(l1.drop_last() =~= lines);
    assert(l2.drop_last() =~= l1);
    assert(a.subrange(0, "codec_name="@.len() as int) =~= "codec_name="@);
    assert(a.skip("codec_name="@.len() as int) =~= codec);
    assert(b.subrange(0, "codec_type="@.len() as int) =~= "codec_type="@);
    assert(b.skip("codec_type="@.len() as int) =~= kind);
    assert(b[6] == 't');
    if text::begins(b, "codec_name="@) {
        assert(b.subrange(0, "codec_name="@.len() as int)[6] == 'n');
    }
    lemma_text_codec(codec);
    assert(text::begins(a, "codec_name="@));
    assert(text::begins(b, "codec_type="@));
    let l = listing(lines);
    assert(listing(l1) == (Listing { codec, ..l }));
    assert(listing(l2) == listing_line(listing(l1), b));
    assert(kind == "video"@ ==> kind != "audio"@ && kind != "subtitle"@);
    assert(kind == "audio"@ ==> kind != "subtitle"@);
}

/// Captions go into MP4 files, whatever the case of the extension.
pub proof fn captions_go_into_mp4(name: Seq<char>, e: Seq<char>)
    requires
        paths::extension_of(name) == Some(e),
    ensures
        text::lowered(e) == "mp4"@ || text::lowered(e) == "m4v"@ ==> mp4(name),
        text::lowered(e) != "mp4"@ && text::lowered(e) != "m4v"@ ==> !mp4(name),
{
}

} // verus!
