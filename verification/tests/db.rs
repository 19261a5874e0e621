use mediaserver::db::captions::{recorded_hash, tag};
use mediaserver::db::container_title::{
    encode_vint, inspect, mp4_title_atoms, strip, title_text, ByteReader, ContainerError,
    TitleStatus,
};
use mediaserver::db::mime::mime_for_extension;
use mediaserver::db::models::{BrowseItem, MediaKind, Rendition, Root, Score, SegmentKind};
use mediaserver::db::nameparse::{clean_name, episode, movie, music_from_path, sort_title};
use mediaserver::db::open::{check_version, default_db_path, pending_migrations, OpenError};
use mediaserver::db::queries::files::{
    art_source, detail, dir_children, directory_pattern, file_stem, inherited_added_at,
    is_configured, item_from_row, like_escape, roots_of_kind, same_stem_siblings, sibling_pattern,
    sort_by_title, strip_extension, ArtSource, DetailRow, ItemRow, Sibling,
};
use mediaserver::db::queries::merge::merge_renditions;
use mediaserver::db::queries::segments::{
    decode_print, encode_print, replace_for_file, Replacement,
};
use mediaserver::db::queries::tv::{episode_key, movie_key, year_from};
use mediaserver::db::rttm::{clean_label, cues, is_dash_line, speaker_line, tag_vtt};
use mediaserver::db::schema::{MIGRATIONS, SCHEMA_VERSION};
use mediaserver::db::sidecar::{
    is_regular_within, read_capped, read_text_capped, write_atomic, Found, SidecarError, MAX_TEXT,
};
use mediaserver::db::subtitles::{best_text_track, parse_ffprobe};
use mediaserver::db::textenc::decode_subtitle_text;

// ------------------------------------------------------------------ captions

#[test]
fn tag_round_trips_and_rejects_strangers() {
    let hex = "ab".repeat(32);
    assert_eq!(recorded_hash(&tag(&hex)).as_deref(), Some(hex.as_str()));
    assert_eq!(recorded_hash(&format!("{} ; more", tag(&hex))).as_deref(), Some(hex.as_str()));
    assert_eq!(recorded_hash("Lavf63.1.101"), None);
    assert_eq!(recorded_hash("media-enrich; captions=srt:sha256:short"), None);
    assert_eq!(recorded_hash(""), None);
}

// --------------------------------------------------------------------- files

#[test]
fn strip_extension_handles_dotted_names_and_dirs() {
    assert_eq!(
        strip_extension("Movies/The.Mummy.2026.mkv").as_deref(),
        Some("Movies/The.Mummy.2026")
    );
    assert_eq!(strip_extension("Heat (1995).mp4").as_deref(), Some("Heat (1995)"));
    assert_eq!(strip_extension("dir.with.dots/noext"), None);
    assert_eq!(strip_extension(".hidden"), None);
}

#[test]
fn a_remuxed_file_keeps_the_original_added_at() {
    let rows = vec![
        Sibling { id: 1, rel_path: "Heat (1995).mkv".into(), added_at: 1000 },
        Sibling { id: 2, rel_path: "Heat (1995) Extras.mkv".into(), added_at: 7 },
    ];
    let found = same_stem_siblings("Heat (1995).mp4", &rows);
    assert_eq!(found, vec![(1, 1000)]);
    assert_eq!(inherited_added_at(2000, &found), 1000);
    assert_eq!(inherited_added_at(500, &found), 500);
    assert_eq!(sibling_pattern("Heat (1995).mp4").as_deref(), Some("Heat (1995).%"));
    assert_eq!(sibling_pattern("noext"), None);
}

#[test]
fn like_patterns_are_literal() {
    assert_eq!(like_escape("50%_a\\b"), "50\\%\\_a\\\\b");
    assert_eq!(directory_pattern("a_b"), "a\\_b/%");
    assert_eq!(directory_pattern(""), "%");
    assert_eq!(file_stem("a/b/Heat (1995).mkv"), "Heat (1995)");
}

#[test]
fn a_folder_lists_its_subfolders_and_files() {
    let paths: Vec<String> =
        ["b/x.mkv", "A/y.mkv", "top.mkv", "A/c/z.mkv"].iter().map(|s| s.to_string()).collect();
    let (dirs, files) = dir_children(&paths, "");
    assert_eq!(dirs, vec!["A".to_string(), "b".to_string()]);
    assert_eq!(files, vec![2]);
    let below: Vec<String> = vec!["A/y.mkv".to_string(), "A/c/z.mkv".to_string()];
    let (dirs, files) = dir_children(&below, "A");
    assert_eq!(dirs, vec!["c".to_string()]);
    assert_eq!(files, vec![0]);
    let sorted = sort_by_title(vec![named("b"), named("A"), named("a")]);
    assert_eq!(sorted.iter().map(|i| i.title.as_str()).collect::<Vec<_>>(), vec!["A", "a", "b"]);
}

#[test]
fn art_comes_from_a_sidecar_or_the_file_itself() {
    assert!(matches!(
        art_source("/m", "a/b.mp3", "embedded"),
        ArtSource::Embedded(p) if p == "/m/a/b.mp3"
    ));
    assert!(matches!(
        art_source("/m", "a/b.mp3", "a/cover.jpg"),
        ArtSource::File(p) if p == "/m/a/cover.jpg"
    ));
}

fn named(title: &str) -> BrowseItem {
    BrowseItem::new(1, MediaKind::Movies, title.into(), "video/mp4".into(), 1)
}

fn row() -> ItemRow {
    ItemRow {
        file_id: 7,
        kind: "movies".into(),
        mime: "video/mp4".into(),
        size: 10,
        duration_ms: Some(1000),
        width: Some(1920),
        height: Some(1080),
        rel_path: "x/Heat.mp4".into(),
        has_art: true,
        movie_title: Some("Heat".into()),
        movie_year: Some(1995),
        series: None,
        season: None,
        episode: None,
        episode_title: None,
        track_title: None,
        artist: None,
        album: None,
        track_no: None,
        track_year: None,
        movie_rating: Some(Score { micros: 8_300_000, label: "8.3".into() }),
        episode_rating: None,
    }
}

fn more() -> DetailRow {
    DetailRow {
        container: None,
        frame_rate: None,
        video_codec: None,
        audio_codec: None,
        audio_profile: None,
        audio_bitrate: None,
        audio_sample_rate: None,
        audio_bit_depth: None,
        audio_channels: None,
        added_at_text: "2026-01-02".into(),
        movie_plot: Some("Cops and robbers.".into()),
        episode_plot: None,
        movie_imdb: Some("tt0113277".into()),
        episode_imdb: None,
        movie_genre: Some("Crime".into()),
        track_genre: None,
        director: Some("Michael Mann".into()),
        collection: None,
        album_artist: None,
    }
}

#[test]
fn rows_become_items() {
    let item = item_from_row(row());
    assert_eq!((item.file_id, item.title.as_str(), item.year), (7, "Heat", Some(1995)));
    assert_eq!(item.kind, MediaKind::Movies);
    assert_eq!(item.rating.as_ref().map(|r| r.micros), Some(8_300_000));
    let mut bare = row();
    bare.movie_title = None;
    assert_eq!(item_from_row(bare).title, "Heat");
    let mut foreign = row();
    foreign.kind = "other".into();
    assert_eq!(item_from_row(foreign).kind, MediaKind::Movies);

    let d = detail(row(), more());
    assert_eq!(d.plot.as_deref(), Some("Cops and robbers."));
    assert_eq!(d.imdb_id.as_deref(), Some("tt0113277"));
    assert_eq!(d.genre.as_deref(), Some("Crime"));
}

// ------------------------------------------------------------------ segments

#[test]
fn empty_deliberate_writes_spare_detector_segments() {
    assert!(matches!(replace_for_file("chapters", true), Replacement::ClearDeliberate));
    assert!(matches!(replace_for_file("edl", false), Replacement::ReplaceAll));
    assert!(matches!(replace_for_file("audio", true), Replacement::ReplaceAll));
    assert!(matches!(replace_for_file("audio", false), Replacement::ReplaceAll));
}

#[test]
fn prints_round_trip() {
    let print = vec![0u32, 1, 0xdead_beef, u32::MAX];
    let blob = encode_print(&print);
    assert_eq!(blob.len(), 16);
    assert_eq!(&blob[8..12], &[0xef, 0xbe, 0xad, 0xde]);
    assert_eq!(decode_print(&blob), print);
    assert_eq!(decode_print(&vec![1, 0, 0, 0, 9]), vec![1]);
}

#[test]
fn kinds_are_named() {
    for k in [MediaKind::Movies, MediaKind::Music, MediaKind::Tv] {
        assert_eq!(MediaKind::parse(k.as_str()), Some(k));
    }
    assert_eq!(MediaKind::parse("games"), None);
    assert!(MediaKind::Tv.is_video() && !MediaKind::Music.is_video());
    for k in [
        SegmentKind::Intro,
        SegmentKind::Credits,
        SegmentKind::Recap,
        SegmentKind::Commercial,
    ] {
        assert_eq!(SegmentKind::parse(k.as_str()), Some(k));
    }
    assert_eq!(SegmentKind::parse("outro"), None);
    assert_eq!(mime_for_extension("mkv", true), Some("video/x-matroska"));
    assert_eq!(mime_for_extension("flac", false), Some("audio/flac"));
    assert_eq!(mime_for_extension("flac", true), None);
}

// --------------------------------------------------------------------- merge

fn version(id: i64, width: i64, size: i64) -> BrowseItem {
    let mut b = BrowseItem::new(id, MediaKind::Movies, "Heat".into(), "video/mp4".into(), size);
    b.width = Some(width);
    b.height = Some(width / 2);
    b.year = Some(1995);
    b
}

#[test]
fn copies_of_a_film_become_one_item() {
    let items = vec![version(1, 1280, 5), version(2, 3840, 9), {
        let mut other = version(3, 1280, 5);
        other.title = "Ronin".into();
        other
    }];
    let keys = items.iter().map(movie_key).collect();
    let merged = merge_renditions(items, &keys);
    assert_eq!(merged.len(), 2);
    assert_eq!(merged[0].file_id, 2);
    assert_eq!(merged[0].renditions.iter().map(|r| r.file_id).collect::<Vec<_>>(), vec![1]);
    assert_eq!(merged[1].file_id, 3);
    let sized = |width: Option<i64>| Rendition {
        file_id: 1,
        mime: "video/mp4".into(),
        size: 1,
        duration_ms: None,
        width,
        height: width,
    };
    assert!(sized(Some(10)).better_than(&sized(None)));
}

#[test]
fn art_stays_with_its_file() {
    let mut a = version(1, 1280, 100);
    a.has_art = true;
    let items = vec![a, version(2, 1920, 200), version(3, 3840, 300)];
    let keys = items.iter().map(movie_key).collect();
    let out = merge_renditions(items, &keys);
    assert_eq!((out.len(), out[0].file_id), (1, 3));
    assert_eq!(out[0].renditions.iter().map(|r| r.file_id).collect::<Vec<_>>(), vec![2, 1]);
    assert!(out[0].has_art);
    assert_eq!(out[0].art_file_id, Some(1));

    // Art on the best copy needs no link of its own, wherever it comes.
    let mut best = version(1, 3840, 100);
    best.has_art = true;
    let items = vec![best, version(2, 1280, 50)];
    let keys = items.iter().map(movie_key).collect();
    assert_eq!(merge_renditions(items, &keys)[0].art_file_id, None);
    let mut worse = version(2, 1280, 50);
    worse.has_art = true;
    let items = vec![version(1, 3840, 100), worse];
    let keys = items.iter().map(movie_key).collect();
    assert_eq!(merge_renditions(items, &keys)[0].art_file_id, Some(2));
}

#[test]
fn episodes_merge_by_place() {
    let mut a = BrowseItem::new(1, MediaKind::Tv, "x".into(), "video/mp4".into(), 1);
    a.series = Some("Show".into());
    a.season = Some(1);
    a.episode = Some(2);
    let k = episode_key(&a);
    assert_eq!((k.first, k.second), (Some(1), Some(2)));
    assert_eq!(year_from(Some("2008-01-20")), Some(2008));
    assert_eq!(year_from(Some("n/a")), None);
    assert_eq!(year_from(None), None);
}

// ---------------------------------------------------------------------- rttm

const RTTM: &str = "\
SPEAKER ep 1 0.50 3.00 <NA> <NA> Alice <NA> <NA>
;; a comment
SPKR-INFO ep 1 <NA> <NA> <NA> unknown Alice <NA>
SPEAKER ep 1 3.60 2.00 <NA> <NA> Bob <NA> <NA>
SPEAKER ep 1 bad 2.00 <NA> <NA> Bob <NA> <NA>
SPEAKER ep 1 10.0 1.0 <NA> <NA> <Al&ice> <NA> <NA>
";

#[test]
fn parses_speaker_lines_only_in_time_order() {
    let found: Vec<(f64, f64, String)> = RTTM
        .lines()
        .filter_map(speaker_line)
        .filter_map(|l| {
            let start: f64 = l.start.parse().ok()?;
            let duration: f64 = l.duration.parse().ok()?;
            (duration > 0.0).then_some((start, start + duration, l.speaker))
        })
        .collect();
    assert_eq!(found.len(), 3);
    assert_eq!(found[0], (0.5, 3.5, "Alice".to_string()));
    assert_eq!(found[1].2, "Bob");
    assert_eq!(found[2].2, "Alice", "tag delimiters stripped from the label");
    assert!(speaker_line("").is_none());
    let still = speaker_line("SPEAKER ep 1 1.0 0.0 <NA> <NA> X <NA> <NA>").unwrap();
    assert_eq!(still.duration.parse::<f64>(), Ok(0.0), "zero duration");
    assert_eq!(clean_label("<Al&ice>"), "Alice");
}

/// Which lines of a body are timing lines.
fn timed(vtt: &str) -> Vec<bool> {
    vtt.lines().map(|l| l.contains("-->")).collect()
}

fn voice(name: &str) -> Option<String> {
    Some(name.to_string())
}

#[test]
fn cues_get_voice_spans_and_everything_else_passes_through() {
    let vtt = "WEBVTT\n\nNOTE hello\n\n1\n00:00:01.000 --> 00:00:02.000\nHi there.\n\n00:00:07.000 --> 00:00:08.000 line:90%\nSilence.\n\n00:00:03.000 --> 00:00:05.000\n<i>Well,</i>\nhello.\n";
    let voices = vec![vec![voice("Alice")], vec![None], vec![voice("Bob")]];
    assert_eq!(
        tag_vtt(vtt, &timed(vtt), &voices),
        "WEBVTT\n\nNOTE hello\n\n1\n00:00:01.000 --> 00:00:02.000\n<v Alice>Hi there.</v>\n\n00:00:07.000 --> 00:00:08.000 line:90%\nSilence.\n\n00:00:03.000 --> 00:00:05.000\n<v Bob><i>Well,</i>\nhello.</v>\n"
    );
    let silent = vec![vec![None], vec![None], vec![None]];
    assert_eq!(tag_vtt(vtt, &timed(vtt), &silent), vtt, "no segments: untouched");
    let foreign = "WEBVTT\r\n\r\n00:00:07.000 --> 00:00:08.000\r\nx\r\n";
    assert_eq!(tag_vtt(foreign, &timed(foreign), &vec![vec![None]]), foreign);
    assert_eq!(
        tag_vtt(foreign, &timed(foreign), &vec![vec![voice("Alice")]]),
        "WEBVTT\r\n\r\n00:00:07.000 --> 00:00:08.000\r\n<v Alice>x</v>\r\n"
    );
    let short = "WEBVTT\n\n00:00:07.000 --> 00:00:08.000\nx";
    assert_eq!(
        tag_vtt(short, &timed(short), &vec![vec![None]]),
        short,
        "no trailing newline kept"
    );
}

#[test]
fn dashed_lines_split_a_shared_cue() {
    let vtt = "WEBVTT\n\n00:00:02.000 --> 00:00:05.000\n- Hello?\n- Hello!\n";
    let found = cues(vtt, &timed(vtt));
    assert_eq!(found.len(), 1);
    assert!(found[0].shared);
    assert_eq!(found[0].weights, vec![8, 8]);
    assert_eq!(
        tag_vtt(vtt, &timed(vtt), &vec![vec![voice("Alice"), voice("Bob")]]),
        "WEBVTT\n\n00:00:02.000 --> 00:00:05.000\n<v Alice>- Hello?</v>\n<v Bob>- Hello!</v>\n"
    );
    let one = "WEBVTT\n\n00:00:02.000 --> 00:00:03.000\n- Hello?\n";
    assert!(!cues(one, &timed(one))[0].shared);
    assert_eq!(
        tag_vtt(one, &timed(one), &vec![vec![voice("Alice")]]),
        "WEBVTT\n\n00:00:02.000 --> 00:00:03.000\n<v Alice>- Hello?</v>\n"
    );
    assert!(is_dash_line("<i>- Hi") && !is_dash_line("Hi -"));
}

// ------------------------------------------------------------------ sidecars

#[test]
fn reads_are_capped_and_writes_land_atomically() {
    let bytes = b"<movie/>".to_vec();
    assert_eq!(
        read_text_capped(Found::File(8), bytes.clone(), MAX_TEXT).unwrap(),
        "<movie/>"
    );
    assert!(matches!(
        read_capped(Found::File(8), bytes.clone(), 3),
        Err(SidecarError::TooLarge(8, 3))
    ));
    assert!(matches!(read_capped(Found::File(3), bytes.clone(), 3), Err(SidecarError::Grew)));
    assert!(is_regular_within(Found::File(8), 8));
    assert!(!is_regular_within(Found::File(8), 7));
    assert!(!is_regular_within(Found::Other, MAX_TEXT), "a directory is not a sidecar");
    assert!(matches!(read_capped(Found::Missing, Vec::new(), 3), Err(SidecarError::Missing)));
    assert!(matches!(read_capped(Found::Other, Vec::new(), 3), Err(SidecarError::NotRegular)));
    assert!(matches!(
        read_text_capped(Found::File(1), vec![0xff], MAX_TEXT),
        Err(SidecarError::NotUtf8)
    ));
    assert!(write_atomic(Found::Missing, "a.nfo", 42).is_ok());
}

#[test]
fn symlinks_are_neither_read_nor_written_through() {
    assert!(read_capped(Found::Symlink, b"secret".to_vec(), MAX_TEXT).is_err());
    assert!(!is_regular_within(Found::Symlink, MAX_TEXT));
    assert!(matches!(write_atomic(Found::Symlink, "b.srt", 1), Err(SidecarError::Symlink)));
    assert!(!SidecarError::Symlink.message().is_empty());
}

// ----------------------------------------------------------------- subtitles

fn stream(
    codec: &str,
    lang: &str,
    title: Option<&str>,
    default: bool,
    forced: bool,
    hi: bool,
) -> String {
    let mut s = format!(
        "[STREAM]\ncodec_name={codec}\nDISPOSITION:default={}\nDISPOSITION:forced={}\nDISPOSITION:hearing_impaired={}\nTAG:language={lang}\n",
        default as u8, forced as u8, hi as u8
    );
    if let Some(title) = title {
        s.push_str(&format!("TAG:title={title}\n"));
    }
    s.push_str("[/STREAM]\n");
    s
}

#[test]
fn parses_streams_in_order() {
    let text = stream("mov_text", "eng", None, true, true, false)
        + &stream("subrip", "fra", Some("Français"), false, false, false);
    let tracks = parse_ffprobe(&text);
    assert_eq!(tracks.len(), 2);
    assert_eq!(tracks[0].ordinal, 0);
    assert!(tracks[0].forced && tracks[0].default);
    assert_eq!(tracks[1].language.as_deref(), Some("fra"));
    assert_eq!(tracks[1].title.as_deref(), Some("Français"));
}

#[test]
fn sdh_beats_a_forced_track_listed_first() {
    let text = stream("mov_text", "eng", None, true, true, false)
        + &stream("mov_text", "eng", None, false, false, false)
        + &stream("mov_text", "eng", None, false, false, true);
    let tracks = parse_ffprobe(&text);
    assert_eq!(best_text_track(&tracks).unwrap().ordinal, 2);
}

#[test]
fn sdh_is_recognized_from_the_title() {
    let text = stream("subrip", "eng", Some("English"), true, false, false)
        + &stream("subrip", "eng", Some("English (SDH)"), false, false, false);
    let tracks = parse_ffprobe(&text);
    assert_eq!(best_text_track(&tracks).unwrap().ordinal, 1);
    assert_eq!(best_text_track(&tracks).unwrap().describe(), "eng, SDH");
}

#[test]
fn plain_english_beats_other_languages_and_forced_is_last_resort() {
    let text = stream("subrip", "fra", None, false, false, true)
        + &stream("subrip", "eng", None, false, false, false);
    assert_eq!(best_text_track(&parse_ffprobe(&text)).unwrap().ordinal, 1);
    let text = stream("subrip", "eng", None, true, true, false)
        + &stream("subrip", "fra", None, false, false, false);
    assert_eq!(best_text_track(&parse_ffprobe(&text)).unwrap().ordinal, 1);
    let text = stream("subrip", "eng", None, true, true, false);
    assert_eq!(best_text_track(&parse_ffprobe(&text)).unwrap().ordinal, 0);
}

#[test]
fn bitmap_only_yields_nothing_and_handler_name_stands_in_for_title() {
    let text = stream("hdmv_pgs_subtitle", "eng", None, true, false, false);
    assert!(best_text_track(&parse_ffprobe(&text)).is_none());
    let text = "[STREAM]\ncodec_name=mov_text\nTAG:language=und\nTAG:handler_name=English (SDH)\n[/STREAM]\n";
    let tracks = parse_ffprobe(text);
    assert!(tracks[0].is_english() && tracks[0].is_sdh());
    let text = "[STREAM]\ncodec_name=mov_text\nTAG:language=und\nTAG:handler_name=SubtitleHandler\n[/STREAM]\n";
    assert!(parse_ffprobe(text)[0].title.is_none());
}

#[test]
fn subtitle_bytes_are_decoded() {
    assert_eq!(decode_subtitle_text(&b"\xEF\xBB\xBFhi".to_vec()).as_deref(), Some("hi"));
    assert_eq!(decode_subtitle_text(&vec![0xFF, 0xFE, b'h', 0, b'i', 0]).as_deref(), Some("hi"));
    assert_eq!(decode_subtitle_text(&vec![0xFE, 0xFF, 0, b'h', 0, b'i']).as_deref(), Some("hi"));
    // A pair of surrogates, and three that are in none: the second of the two
    // in a row starts the pair.
    let marked: Vec<u8> = vec![
        0xFE, 0xFF, 0xD8, 0x34, 0xDD, 0x1E, 0xDD, 0x1E, 0, b'm', 0xD8, 0x34, 0xD8, 0x34, 0xDD, 0x1E, 0xD8, 0,
    ];
    assert_eq!(
        decode_subtitle_text(&marked).as_deref(),
        Some("\u{1D11E}\u{FFFD}m\u{FFFD}\u{1D11E}\u{FFFD}")
    );
    assert_eq!(decode_subtitle_text(&b"caf\xC3\xA9".to_vec()).as_deref(), Some("café"));
}

// --------------------------------------------------------------------- names

#[test]
fn names_tell_films_and_episodes() {
    assert_eq!(movie("Heat.1995.1080p.BluRay"), ("Heat".to_string(), Some(1995)));
    assert_eq!(movie("Blade Runner 2049 (2017)"), ("Blade Runner 2049".to_string(), Some(2017)));
    assert_eq!(sort_title("The Thing"), "Thing");
    assert_eq!(clean_name("A.Name_with.dots"), "A Name with dots");
    for raw in ["A.Name_with.dots", " - [The..Film] (", "a\u{3000}b\t\tc", "...", ""] {
        let once = clean_name(raw);
        assert_eq!(clean_name(&once), once);
    }
    assert_eq!(clean_name(" - [The..Film] ("), "The Film]");
    assert_eq!(clean_name("a\u{3000}b\t\tc"), "a b c");
    let dirs = vec!["Show".to_string(), "Season 1".to_string()];
    let e = episode("Show.S02E08.The.Title", &dirs).unwrap();
    assert_eq!((e.series.as_str(), e.season, e.episode), ("Show", 2, 8));
    assert_eq!(e.title, "The Title");
    assert!(episode("Just A Film", &Vec::new()).is_none());
    let (artist, album, no, title) =
        music_from_path("03 - Song", &vec!["Artist".to_string(), "Album".to_string()]);
    assert_eq!(artist.as_deref(), Some("Artist"));
    assert_eq!(album.as_deref(), Some("Album"));
    assert_eq!((no, title.as_str()), (Some(3), "Song"));
}

// -------------------------------------------------------------------- schema

#[test]
fn schemas_are_brought_up_to_date() {
    assert_eq!(pending_migrations(SCHEMA_VERSION).unwrap().len(), 0);
    assert_eq!(pending_migrations(0).unwrap().len(), MIGRATIONS.len());
    assert!(matches!(
        pending_migrations(SCHEMA_VERSION + 1),
        Err(OpenError::TooNew(v)) if v == SCHEMA_VERSION + 1
    ));
    assert!(check_version(SCHEMA_VERSION).is_ok());
    assert!(matches!(check_version(3), Err(OpenError::Mismatch(3))));
    assert!(OpenError::Mismatch(3).message().contains('3'));
    assert!(default_db_path("/home/u").starts_with("/home/u/"));
}

// ----------------------------------------------------------------- container

fn atom(kind: &[u8; 4], body: &[u8]) -> Vec<u8> {
    let mut out = ((body.len() + 8) as u32).to_be_bytes().to_vec();
    out.extend(kind);
    out.extend(body);
    out
}

fn mp4(title: &str) -> Vec<u8> {
    let mut data = vec![0, 0, 0, 1, 0, 0, 0, 0];
    data.extend(title.as_bytes());
    let nam = atom(&[0xA9, b'n', b'a', b'm'], &atom(b"data", &data));
    let mut meta = vec![0, 0, 0, 0];
    meta.extend(atom(b"ilst", &nam));
    let udta = atom(b"udta", &atom(b"meta", &meta));
    let mut file = atom(b"ftyp", b"isom");
    file.extend(atom(b"moov", &udta));
    file
}

#[test]
fn an_mp4_title_is_neutralized_in_place() {
    let mut file = mp4("Scene.Release");
    let before = file.len();
    assert!(matches!(
        inspect(&file),
        Ok(TitleStatus::Titles(t)) if t == vec!["Scene.Release".to_string()]
    ));
    let found = mp4_title_atoms(&file).unwrap().unwrap();
    assert_eq!(title_text(&file, &found[0]).unwrap(), "Scene.Release");
    assert_eq!(strip(&mut file).unwrap(), vec!["Scene.Release".to_string()]);
    assert_eq!(file.len(), before);
    assert!(matches!(inspect(&file), Ok(TitleStatus::NoTitle)));
    assert_eq!(strip(&mut file).unwrap().len(), 0);
}

#[test]
fn a_file_is_read_byte_by_byte() {
    let file = mp4("Scene.Release");
    let reader = ByteReader::new(file.len() as u64, |i: u64| file[i as usize]);
    assert!(matches!(
        inspect(&reader),
        Ok(TitleStatus::Titles(t)) if t == vec!["Scene.Release".to_string()]
    ));
    let untitled = atom(b"ftyp", b"isom");
    let reader = ByteReader::new(untitled.len() as u64, |i: u64| untitled[i as usize]);
    assert_eq!(format!("{:?}", inspect(&reader)), format!("{:?}", inspect(&untitled)));
}

#[test]
fn roots_follow_the_configuration() {
    let root = |id: i64, path: &str, kind: MediaKind| Root { id, path: path.to_string(), kind };
    let configured = vec![
        ("/media/films".to_string(), MediaKind::Movies),
        ("/media/music".to_string(), MediaKind::Music),
    ];
    assert!(is_configured(&root(1, "/media/music", MediaKind::Tv), &configured));
    assert!(!is_configured(&root(2, "/media/tv", MediaKind::Tv), &configured));
    assert!(!is_configured(&root(2, "/media/tv", MediaKind::Tv), &Vec::new()));
    let roots = vec![
        root(1, "/a", MediaKind::Tv),
        root(2, "/b", MediaKind::Movies),
        root(3, "/c", MediaKind::Tv),
    ];
    let tv = roots_of_kind(roots, MediaKind::Tv);
    assert_eq!(tv.iter().map(|r| r.id).collect::<Vec<_>>(), vec![1, 3]);
}

#[test]
fn a_matroska_title_is_voided_in_place() {
    let title = b"Scene";
    let mut info = vec![0x7B, 0xA9, 0x80 | title.len() as u8];
    info.extend(title);
    let mut segment = vec![0x15, 0x49, 0xA9, 0x66, 0x80 | info.len() as u8];
    segment.extend(&info);
    let mut file = vec![0x1A, 0x45, 0xDF, 0xA3, 0x80];
    file.extend([0x18, 0x53, 0x80, 0x67, 0x80 | segment.len() as u8]);
    file.extend(&segment);
    let before = file.len();
    assert!(matches!(
        inspect(&file),
        Ok(TitleStatus::Titles(t)) if t == vec!["Scene".to_string()]
    ));
    assert_eq!(strip(&mut file).unwrap(), vec!["Scene".to_string()]);
    assert_eq!(file.len(), before);
    assert!(matches!(inspect(&file), Ok(TitleStatus::NoTitle)));
    assert_eq!(encode_vint(5, 1).unwrap(), vec![0x85]);
    assert!(matches!(encode_vint(500, 1), Err(ContainerError::DoesNotFit)));
    assert!(matches!(inspect(&b"plain text".to_vec()), Ok(TitleStatus::Unsupported) | Err(_)));
}

/// A Matroska file with these bytes in its Segment, and some behind it.
fn matroska(segment: &[u8], behind: &[u8]) -> Vec<u8> {
    let mut file = vec![0x1A, 0x45, 0xDF, 0xA3, 0x80];
    file.extend([0x18, 0x53, 0x80, 0x67, 0x80 | segment.len() as u8]);
    file.extend(segment);
    file.extend(behind);
    file
}

#[test]
fn titles_are_voided_beside_children_that_claim_too_much() {
    // The first Info holds a title and an element of fifty bytes of which
    // only the header is there.
    let mut segment = vec![0x15, 0x49, 0xA9, 0x66, 0x8B, 0x7B, 0xA9, 0x85];
    segment.extend(b"Scene");
    segment.extend([0x4D, 0x80, 0x80 | 50]);
    segment.extend([0x15, 0x49, 0xA9, 0x66, 0x88, 0x7B, 0xA9, 0x85]);
    segment.extend(b"Other");
    let mut file = matroska(&segment, &[]);
    let both = vec!["Scene".to_string(), "Other".to_string()];
    assert!(matches!(inspect(&file), Ok(TitleStatus::Titles(t)) if t == both));
    assert_eq!(strip(&mut file).unwrap(), both);
    assert!(matches!(inspect(&file), Ok(TitleStatus::NoTitle)));

    // The title of the last Info reaches past it and past the Segment.
    let mut file = matroska(&[0x15, 0x49, 0xA9, 0x66, 0x83, 0x7B, 0xA9, 0x85], b"Scene");
    assert_eq!(strip(&mut file).unwrap(), vec!["Scene".to_string()]);
    assert!(matches!(inspect(&file), Ok(TitleStatus::NoTitle)));

    // A title that reaches over the next element effaces it.
    let mut segment = vec![0x15, 0x49, 0xA9, 0x66, 0x83, 0x7B, 0xA9, 0x85, 0xEC, 0x83];
    segment.extend([1, 2, 3]);
    let mut file = matroska(&segment, &[]);
    assert_eq!(strip(&mut file).unwrap().len(), 1);
    assert!(matches!(inspect(&file), Err(ContainerError::InvalidId(18))));
}

#[test]
fn a_broken_container_says_what_is_wrong() {
    let headed = |tail: &[u8]| {
        let mut file = vec![0x1A, 0x45, 0xDF, 0xA3];
        file.extend(tail);
        inspect(&file)
    };
    assert!(matches!(headed(&[]), Err(ContainerError::UnexpectedEnd)));
    assert!(matches!(headed(&[0xFF]), Err(ContainerError::UnknownSize(0))));
    assert!(matches!(headed(&[0x80, 0x08, 0x80]), Err(ContainerError::InvalidId(5))));
    assert!(matches!(
        headed(&[0x80, 0x18, 0x53, 0x80, 0x67, 0x00]),
        Err(ContainerError::InvalidSize(5))
    ));
    assert!(matches!(
        headed(&[0x80, 0x1A, 0x45, 0xDF, 0xA3, 0x80]),
        Err(ContainerError::NoSegment)
    ));
    let short = vec![0, 0, 0, 4, b'f', b't', b'y', b'p'];
    assert!(matches!(mp4_title_atoms(&short), Err(ContainerError::MalformedAtom(0))));
    assert!(matches!(inspect(&short), Ok(TitleStatus::Unsupported)));
}

#[test]
fn a_title_with_the_longest_size_field_is_voided() {
    let mut file = vec![0x1A, 0x45, 0xDF, 0xA3, 0x80, 0x18, 0x53, 0x80, 0x67, 0x90];
    file.extend([0x15, 0x49, 0xA9, 0x66, 0x8B]);
    file.extend([0x7B, 0xA9, 0x01, 0, 0, 0, 0, 0, 0, 0x01, b'A']);
    assert_eq!(file.len(), 26);
    assert!(matches!(inspect(&file), Ok(TitleStatus::Titles(t)) if t == vec!["A".to_string()]));
    assert_eq!(strip(&mut file).unwrap(), vec!["A".to_string()]);
    assert_eq!(file[15..], [0xEC, 0x01, 0, 0, 0, 0, 0, 0, 0x02, 0, 0]);
    assert!(matches!(inspect(&file), Ok(TitleStatus::NoTitle)));
}
