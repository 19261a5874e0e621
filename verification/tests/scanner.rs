use mediaserver::db::models::{MediaKind, Root, SegmentKind};
use mediaserver::db::queries::files::KnownFile;
use mediaserver::json::{document, Json};
use mediaserver::scanner::analyze::{
    agreement_needed, common_spans, consensus, decode_args, detected, fingerprint, match_season,
    samples_of, Episode, Limits,
};
use mediaserver::scanner::config::{Config, ConfigError, RootConfig};
use mediaserver::scanner::extract::audio::{
    codec_of, ffprobe_label, split_genres, AudioSort, Mp4Audio, Tags,
};
use mediaserver::scanner::extract::nfo::parse;
use mediaserver::scanner::extract::segments::{
    classify, discover, edl_line, edl_segments, from_chapters, Chapter, EdlEntry,
};
use mediaserver::scanner::extract::video::{probe, probe_output};
use mediaserver::scanner::extract::{
    ancestor_meta_paths, discover_sidecar_art, episode_record, movie_record, nearest_music_meta,
    season_identity, show_series, sidecar_art_candidates, stored_art, track_record, DirMusicMeta,
    Extracted,
};
use mediaserver::scanner::reconcile::{
    is_art_stale, is_hidden, media_mime, reconcile_root, too_fresh, Seen,
};
use mediaserver::scanner::watch::{
    art_affects, catalog_reflects, handle_path, is_art_changed, locate, music_meta_affects,
    poll_secs, reconcile_due, resolve_enrich_command, sidecar_affects, AnalyzeRunner, Attempt, Child, EnrichRunner, Presence,
    Reaction, SettleQueue, MAX_PROBE_RETRIES,
};

// ------------------------------------------------------------------- analyze

#[test]
fn consensus_takes_medians_and_respects_need() {
    let spans = vec![(10_000, 40_000), (11_000, 41_000), (90_000, 95_000)];
    assert_eq!(consensus(&spans, 2), Some((11_000, 41_000)));
    let one = spans[..1].to_vec();
    assert_eq!(consensus(&one, 2), None);
    assert_eq!(consensus(&one, 1), Some((10_000, 40_000)));
    assert_eq!(consensus(&Vec::new(), 1), None);
}

fn item_s() -> f32 {
    rusty_chromaprint::Configuration::preset_test2().item_duration_in_seconds()
}

/// What counts as a shared stretch, for windows of up to `n` items.
fn limits(n: usize) -> Limits {
    let item_s = item_s();
    let least = |len: usize| (0..=len).find(|m| *m as f32 >= len as f32 * 0.6).unwrap_or(len);
    let longest = |window: usize| {
        (0..=window)
            .rev()
            .find(|len| !(*len as f32 * item_s > window as f32 * item_s * 0.8))
            .unwrap_or(0)
    };
    Limits {
        gap_items: (3.0 / item_s) as usize,
        min_items: ((12.0 / item_s) as usize).max(1),
        least_matched: (0..=n).map(least).collect(),
        longest: (0..=n).map(longest).collect(),
    }
}

type Span = (f32, f32);

/// The shared stretches in seconds, within each window.
fn spans(a: &Vec<u32>, b: &Vec<u32>) -> Vec<(Span, Span)> {
    let item_s = item_s();
    common_spans(a, b, &limits(a.len().max(b.len())))
        .into_iter()
        .map(|r| {
            let duration = r.len as f32 * item_s;
            let sa = r.start as f32 * item_s;
            let sb = (r.start as isize - r.offset) as f32 * item_s;
            ((sa, sa + duration), (sb, sb + duration))
        })
        .collect()
}

/// Deterministic pseudo-random fingerprint items.
fn noise(seed: u32, n: usize) -> Vec<u32> {
    let mut state = seed.wrapping_mul(2654435761).wrapping_add(1);
    (0..n)
        .map(|_| {
            state = state.wrapping_mul(1664525).wrapping_add(1013904223);
            state
        })
        .collect()
}

#[test]
fn common_span_finds_shared_run_at_different_offsets() {
    let item_s = item_s();
    let shared = noise(7, (30.0 / item_s) as usize); // ~30 seconds
    // a: 20s noise + shared; b: 45s different noise + shared.
    let pre_a = (20.0 / item_s) as usize;
    let pre_b = (45.0 / item_s) as usize;
    let mut a = noise(1, pre_a);
    a.extend(&shared);
    a.extend(noise(2, (400.0 / item_s) as usize));
    let mut b = noise(3, pre_b);
    b.extend(&shared);
    b.extend(noise(4, (380.0 / item_s) as usize));

    let ((sa, ea), (sb, eb)) = spans(&a, &b).into_iter().next().expect("span found");
    assert!((sa - 20.0).abs() < 3.0, "start in a: {sa}");
    assert!((sb - 45.0).abs() < 3.0, "start in b: {sb}");
    assert!((ea - sa - 30.0).abs() < 4.0, "duration: {}", ea - sa);
    assert!(((ea - sa) - (eb - sb)).abs() < 0.01);
}

#[test]
fn common_span_rejects_wall_to_wall_matches() {
    let same = noise(9, 4000);
    assert!(spans(&same, &same).is_empty());
}

#[test]
fn common_span_rejects_dissimilar_audio() {
    assert!(spans(&noise(1, 3000), &noise(2, 3000)).is_empty());
}

#[test]
fn common_span_finds_two_shared_runs_at_different_alignments() {
    // Intro and credits sit at different relative offsets between two
    // episodes — both must be found.
    let item_s = item_s();
    let items = |secs: f32| (secs / item_s) as usize;
    let intro = noise(7, items(25.0));
    let credits = noise(8, items(20.0));
    let mut a = noise(1, items(15.0));
    a.extend(&intro);
    a.extend(noise(2, items(200.0)));
    a.extend(&credits);
    let mut b = noise(3, items(40.0));
    b.extend(&intro);
    b.extend(noise(4, items(150.0)));
    b.extend(&credits);

    let spans = spans(&a, &b);
    assert_eq!(spans.len(), 2, "{spans:?}");
    let ((ia, _), (ib, _)) = spans[0]; // longest = intro
    assert!((ia - 15.0).abs() < 3.0 && (ib - 40.0).abs() < 3.0, "{spans:?}");
    let ((ca, _), (cb, _)) = spans[1];
    assert!((ca - 240.0).abs() < 3.0 && (cb - 215.0).abs() < 3.0, "{spans:?}");
}

#[test]
fn the_longest_shared_run_comes_first() {
    // Three stretches, the longest of them last in both prints.
    let (short, middle, long) = (noise(7, 120), noise(8, 150), noise(9, 200));
    let (mut a, mut b) = (noise(1, 300), noise(2, 200));
    for (seed, run) in [(20, &middle), (30, &short), (40, &long)] {
        a.extend(run);
        a.extend(noise(seed, 400));
        b.extend(run);
        b.extend(noise(seed + 1, 250));
    }
    let found = common_spans(&a, &b, &limits(a.len()));
    let starts: Vec<usize> = found.iter().map(|r| r.start).collect();
    assert_eq!(found.len(), 3, "{found:?}");
    assert!(found[0].len >= found[1].len && found[1].len >= found[2].len, "{found:?}");
    assert!(starts[0].abs_diff(1370) < 10, "{starts:?}");
    assert!(starts[1].abs_diff(300) < 10 && starts[2].abs_diff(850) < 10, "{starts:?}");
}

#[test]
fn a_season_shares_its_intro() {
    let intro = noise(7, 200);
    let episode = |n: i64, seed: u32, before: usize| {
        let mut head = noise(seed, before);
        head.extend(&intro);
        head.extend(noise(seed + 50, 1500));
        Episode { episode: n, head, tail: Vec::new(), intro_limit: 1000 }
    };
    let episodes = vec![episode(1, 1, 100), episode(2, 2, 300), episode(2, 2, 300)];
    let found = match_season(&episodes, &limits(2100));
    assert_eq!(found.len(), 3);
    // Two files of one episode are never matched with each other.
    assert_eq!(found[0].head.len(), 2);
    assert_eq!(found[1].head.len(), 1);
    let (start, len) = found[0].head[0];
    assert!(start <= 105 && len >= 190, "{start} {len}");
    assert_eq!((agreement_needed(2), agreement_needed(3)), (1, 2));
    let rows = detected(Some((0, 5)), Some((9, 12)), true);
    assert_eq!(
        rows.iter().map(|s| (s.kind, s.start_ms, s.end_ms)).collect::<Vec<_>>(),
        vec![(SegmentKind::Intro, 0, 5), (SegmentKind::Credits, 9, 12)]
    );
    assert_eq!(detected(Some((0, 5)), Some((9, 12)), false).len(), 1);
}

#[test]
fn a_print_has_an_item_for_each_frame() {
    assert_eq!(samples_of(&vec![1, 0, 0xff, 0xff, 7]), vec![1i16, -1]);
    assert_eq!(fingerprint(&vec![0; 1000]).unwrap().len(), 0);
    // 4096 samples for the first frame, 1365 for each of 19 more.
    let enough = 2 * (4096 + 19 * 1365);
    assert_eq!(fingerprint(&vec![0; enough]).unwrap().len(), 1);
    assert_eq!(fingerprint(&vec![0; enough - 2]).unwrap().len(), 0);
    let tone: Vec<u8> = (0..200_000u32)
        .flat_map(|i| (((i * 37) % 2000) as i16 - 1000).to_le_bytes())
        .collect();
    let print = fingerprint(&tone).unwrap();
    assert_eq!(print.len(), (200_000 - 4096) / 1365 + 1 - 19);
    assert!(print.iter().any(|x| *x != 0));
    assert!(decode_args("/m/a.mkv", true).contains(&"/m/a.mkv".to_string()));
    assert!(decode_args("/m/a.mkv", false).contains(&"-sseof".to_string()));
}

// ----------------------------------------------------------------------- nfo

#[test]
fn parses_tvshow_nfo() {
    let data = parse(
        "<?xml version=\"1.0\"?>\n<!-- generated by media-enrich (TMDB) -->\n<tvshow>\n\
         <title>Fake Show</title>\n<plot>About things.</plot>\n<rating>8.7</rating>\n\
         <uniqueid type=\"imdb\">tt9999999</uniqueid>\n</tvshow>\n",
    )
    .unwrap();
    assert_eq!(data.title.as_deref(), Some("Fake Show"));
    assert_eq!(data.plot.as_deref(), Some("About things."));
    assert_eq!(data.ratings.last().and_then(|r| r.parse::<f64>().ok()), Some(8.7));
    assert_eq!(data.imdb_id.as_deref(), Some("tt9999999"));
}

#[test]
fn reassembles_text_split_by_references_and_cdata() {
    let data = parse(
        "<movie><title>Tom &amp; Jerry &#x2014; &quot;Redux&quot;</title>\n\
         <plot><![CDATA[a < b & c]]> then &lt;more&gt;</plot>\n\
         <uniqueid type=\"imdb\">tt0000001</uniqueid><genre>&unknown;</genre></movie>",
    )
    .unwrap();
    assert_eq!(data.title.as_deref(), Some("Tom & Jerry \u{2014} \"Redux\""));
    assert_eq!(data.plot.as_deref(), Some("a < b & c then <more>"));
    assert_eq!(data.imdb_id.as_deref(), Some("tt0000001"));
    assert_eq!(data.genres, vec!["&unknown;".to_string()]);
}

#[test]
fn parses_season_nfo() {
    let data = parse(
        "<season>\n<showtitle>Fake Show</showtitle>\n<seasonnumber>3</seasonnumber>\n\
         <plot>A season.</plot>\n</season>\n",
    )
    .unwrap();
    assert_eq!(data.show_title.as_deref(), Some("Fake Show"));
    assert_eq!(data.season, Some(3));
    assert_eq!(data.plot.as_deref(), Some("A season."));
}

#[test]
fn a_broken_nfo_is_none() {
    assert!(parse("<movie><title>x</movie>").is_none());
    let far = parse("<movie><year>3000</year></movie>").unwrap();
    assert_eq!(far.year, None);
    let show = parse("<tvshow><title>Show</title></tvshow>").unwrap();
    assert_eq!(show_series(&show, Some("Dir".into())).as_deref(), Some("Show"));
    let season = parse("<season><seasonnumber>2</seasonnumber></season>").unwrap();
    assert_eq!(
        season_identity(&season, Some("Season 2".into()), Some("Show".into())),
        Some(("Show".to_string(), 2))
    );
}

// ------------------------------------------------------------------ segments

fn chapter(start_ms: i64, end_ms: i64, title: &str) -> Chapter {
    Chapter { start_ms, end_ms, title: title.to_string() }
}

#[test]
fn named_chapters_classify() {
    let segments = from_chapters(
        &vec![
            chapter(0, 25_000, "Previously On"),
            chapter(25_000, 115_000, "Opening Credits"),
            chapter(115_000, 2_500_000, "Part 1"),
            chapter(2_500_000, 2_580_000, "End Credits"),
        ],
        Some(2_580_000),
    );
    let kinds: Vec<SegmentKind> = segments.iter().map(|s| s.kind).collect();
    assert_eq!(kinds, [SegmentKind::Recap, SegmentKind::Intro, SegmentKind::Credits]);
    assert_eq!(segments[1].start_ms, 25_000);
    assert_eq!(segments[1].end_ms, 115_000);
    assert_eq!(classify("Chapter 1"), None);
}

#[test]
fn unnamed_and_ordinary_chapters_yield_nothing() {
    let segments = from_chapters(
        &vec![chapter(0, 60_000, ""), chapter(60_000, 120_000, "Chapter 2")],
        None,
    );
    assert!(segments.is_empty());
}

#[test]
fn absurd_chapter_spans_are_discarded() {
    // A named chapter spanning nearly the whole episode (real-world
    // garbage chaptering) must not become a skip target.
    let whole = from_chapters(&vec![chapter(5_000, 3_500_000, "Intro")], Some(3_600_000));
    assert!(whole.is_empty());
    // Over half the file, even under the absolute cap.
    let half = from_chapters(&vec![chapter(0, 600_000, "Intro")], Some(1_100_000));
    assert!(half.is_empty());
    // Without a known duration the absolute cap still applies…
    let long = from_chapters(&vec![chapter(0, 1_000_000, "Intro")], None);
    assert!(long.is_empty());
    // …and a normal intro is kept.
    let ok = from_chapters(&vec![chapter(0, 90_000, "Intro")], None);
    assert_eq!(ok.len(), 1);
}

/// The entries of an EDL, its times read as seconds.
fn entries(text: &str) -> Vec<EdlEntry> {
    text.lines()
        .filter_map(edl_line)
        .filter_map(|l| {
            let start: f64 = l.start.parse().ok()?;
            let stop: f64 = l.stop.parse().ok()?;
            let action =
                l.action.and_then(|a| a.parse::<f64>().ok()).map(|a| a as i64).unwrap_or(0);
            Some(EdlEntry {
                start_ms: (start * 1000.0) as i64,
                end_ms: (stop * 1000.0) as i64,
                action,
            })
        })
        .collect()
}

#[test]
fn edl_kinds_follow_position() {
    let text = "# comskip output\n\
                10.5 95 3\n\
                700 880 3\n\
                2510.25 2600 0\n\
                100 200 2\n\
                junk line\n";
    let segments = edl_segments(&entries(text), Some(2_600_000));
    let kinds: Vec<SegmentKind> = segments.iter().map(|s| s.kind).collect();
    assert_eq!(kinds, [SegmentKind::Intro, SegmentKind::Commercial, SegmentKind::Credits]);
    assert_eq!(segments[0].start_ms, 10_500);
    assert_eq!(segments[2].end_ms, 2_600_000);
}

#[test]
fn edl_without_duration_never_claims_credits() {
    let segments = edl_segments(&entries("2510 2600 0\n"), None);
    assert_eq!(segments[0].kind, SegmentKind::Commercial);
    let (source, found) = discover(Some(&entries("2510 2600 0\n")), None, &Vec::new());
    assert_eq!((source, found.len()), ("edl", 1));
    let (source, found) = discover(None, None, &vec![chapter(0, 90_000, "Intro")]);
    assert_eq!((source, found.len()), ("chapters", 1));
}

// ------------------------------------------------------------------- records

#[test]
fn records_are_made_from_names_and_sidecars() {
    let m = movie_record("Heat.1995.1080p", Some("Crime".into()), None);
    assert_eq!((m.title.as_str(), m.year), ("Heat", Some(1995)));
    assert_eq!(m.genres, vec!["Crime".to_string()]);
    let nfo = parse("<movie><title>Heat!</title><year>1996</year></movie>");
    let m = movie_record("Heat.1995", None, nfo);
    assert_eq!((m.title.as_str(), m.year), ("Heat!", Some(1996)));

    let dirs = vec!["Show".to_string(), "Season 1".to_string()];
    let e = episode_record("Show.S01E02.Pilot", &dirs, None);
    assert_eq!((e.series.as_str(), e.season, e.episode), ("Show", 1, 2));

    let album = vec!["Artist".to_string(), "Album".to_string()];
    let tags = Tags {
        title: Some("Tagged".into()),
        artist: Some("A".into()),
        album: None,
        album_artist: None,
        track: Some(4),
        disc: None,
        year: Some(1999),
        genre: Some("Rock; Pop".into()),
    };
    let t = track_record("03 - Song", &album, Some(tags), None);
    assert_eq!((t.title.as_str(), t.track_no, t.year), ("Tagged", Some(4), Some(1999)));
    assert_eq!(t.genres, vec!["Rock".to_string(), "Pop".to_string()]);
    let over = DirMusicMeta {
        artist: Some("Forced".into()),
        album_artist: None,
        album: None,
        genre: None,
        track_number_prefix: None,
    };
    let t = track_record("03 - Song", &album, None, nearest_music_meta(&vec![over]));
    assert_eq!(t.artist.as_deref(), Some("Forced"));
    assert_eq!((t.title.as_str(), t.track_no), ("Song", Some(3)));

    let digits = || {
        Some(DirMusicMeta {
            artist: None,
            album_artist: None,
            album: None,
            genre: None,
            track_number_prefix: Some(false),
        })
    };
    let t = track_record("30 Minutes", &album, None, digits());
    assert_eq!((t.title.as_str(), t.track_no), ("30 Minutes", None));
    let tags = Tags {
        title: Some("Minutes".into()),
        artist: None,
        album: None,
        album_artist: None,
        track: Some(30),
        disc: None,
        year: None,
        genre: None,
    };
    let t = track_record("30 Minutes", &album, Some(tags), digits());
    assert_eq!((t.title.as_str(), t.track_no), ("Minutes", Some(30)), "the tags' own");
    assert_eq!(
        ancestor_meta_paths("a/b/c.mp3"),
        vec!["a/b/music.toml".to_string(), "a/music.toml".to_string(), "music.toml".to_string()]
    );
}

#[test]
fn art_is_looked_for_beside_the_file() {
    let names = sidecar_art_candidates("Heat (1995)/Heat.mkv", MediaKind::Movies);
    assert!(!names.is_empty());
    let mut present = vec![false; names.len()];
    present[1] = true;
    assert_eq!(discover_sidecar_art(&names, &present).as_ref(), Some(&names[1]));
    assert_eq!(discover_sidecar_art(&names, &vec![false; names.len()]), None);
    assert_eq!(stored_art(Some("a.jpg".into()), true).as_deref(), Some("a.jpg"));
    assert_eq!(stored_art(None, true).as_deref(), Some("embedded"));
    assert_eq!(stored_art(None, false), None);
}

#[test]
fn codecs_are_named() {
    assert_eq!(split_genres("Rock; Pop"), vec!["Rock".to_string(), "Pop".to_string()]);
    assert_eq!(ffprobe_label("aac", Some("LC")), "AAC LC");
    assert_eq!(ffprobe_label("dts", Some("DTS-HD MA")), "DTS-HD MA");
    assert_eq!(ffprobe_label("eac3", None), "E-AC-3");
    assert_eq!(ffprobe_label("ac3", None), "AC-3 (Dolby Digital)");
    assert_eq!(codec_of(&AudioSort::Flac).0, "flac");
    assert_eq!(codec_of(&AudioSort::Mp4(Mp4Audio::Alac)).0, "alac");
}

#[test]
fn a_probe_is_read_from_its_document() {
    let text = |s: &str| Json::Text(s.to_string());
    let doc = Json::Object(vec![
        (
            "format".into(),
            Json::Object(vec![
                ("duration".into(), text("12.5")),
                ("format_name".into(), text("matroska,webm")),
            ]),
        ),
        (
            "streams".into(),
            Json::Array(vec![Json::Object(vec![
                ("codec_type".into(), text("video")),
                ("codec_name".into(), text("h264")),
                ("width".into(), Json::Int(1920)),
                ("height".into(), Json::Int(1080)),
            ])]),
        ),
    ]);
    let p = probe(&doc);
    assert_eq!(p.duration.as_deref(), Some("12.5"));
    assert_eq!(p.streams.video_codec.as_deref(), Some("h264"));
    assert_eq!((p.streams.width, p.streams.height), (Some(1920), Some(1080)));
    assert!(probe(&Json::Null).streams.video_codec.is_none());
}

#[test]
fn a_probe_is_read_from_what_was_printed() {
    let printed = br#"{"format": {"duration": "12.5", "tags": {"GENRE": "Drama"}},
        "streams": [{"codec_type": "audio", "codec_name": "eac3", "channels": 6,
                     "sample_rate": "48000", "bit_rate": 640000.5}],
        "chapters": [{"start_time": "0", "end_time": "9.5", "tags": {"title": "Intro"}}]}"#;
    let p = probe_output(&printed.to_vec()).unwrap();
    assert_eq!(p.duration.as_deref(), Some("12.5"));
    assert_eq!(p.genre.as_deref(), Some("Drama"));
    assert_eq!(p.streams.audio_profile.as_deref(), Some("E-AC-3"));
    assert_eq!(p.streams.audio_channels, Some(6));
    assert_eq!(p.streams.audio_sample_rate, Some(48_000));
    assert_eq!(p.streams.audio_bitrate, None, "no whole number");
    assert_eq!(p.chapters[0].title, "Intro");
    assert!(probe_output(&b"{".to_vec()).is_none());
    assert!(probe_output(&b"null".to_vec()).unwrap().chapters.is_empty());
    assert!(matches!(
        document(&b" [true, 7, 7.5, null, \"x\"] ".to_vec()),
        Some(Json::Array(v)) if matches!(v[0], Json::Bool(true))
            && matches!(v[1], Json::Int(7))
            && matches!(&v[2], Json::Number(n) if n == "7.5")
            && matches!(v[3], Json::Null)
    ));
}

// ----------------------------------------------------------------- reconcile

fn known(id: i64, size: i64, mtime: i64) -> KnownFile {
    KnownFile {
        id,
        size,
        mtime,
        status: "ready".into(),
        nfo_mtime: None,
        edl_mtime: None,
        art: None,
        updated_at: 0,
    }
}

fn seen(rel: &str, size: i64, mtime: i64) -> Seen {
    Seen {
        rel: rel.into(),
        size,
        mtime,
        nfo_mtime: None,
        edl_mtime: None,
        art: None,
        music_mtime: None,
    }
}

#[test]
fn a_pass_over_a_root_finds_what_changed() {
    let before = vec![
        ("same.mkv".to_string(), known(1, 10, 100)),
        ("changed.mkv".to_string(), known(2, 10, 100)),
        ("gone.mkv".to_string(), known(3, 10, 100)),
    ];
    let now = vec![
        seen("same.mkv", 10, 100),
        seen("changed.mkv", 11, 100),
        seen("new.mkv", 5, 100),
        seen("growing.mkv", 5, 1000),
    ];
    let pass = reconcile_root(MediaKind::Movies, before, &now, 1000);
    assert_eq!(pass.vanished, vec![3]);
    assert_eq!(pass.steps.iter().map(|s| s.seen).collect::<Vec<_>>(), vec![1, 2]);
    assert_eq!(pass.steps[0].id, Some(2));
    assert_eq!(pass.new_media, 2);
    assert!(too_fresh(1000, 999, 2000) && !too_fresh(1000, 900, 2000));
    // An age that no i64 holds is an age all the same.
    assert!(!too_fresh(i64::MAX, i64::MIN, 2000) && too_fresh(i64::MIN, i64::MAX, 2000));
    assert!(is_hidden("._x.mkv") && !is_hidden("x.mkv"));
    assert_eq!(media_mime(MediaKind::Movies, "a/B.MKV"), Some("video/x-matroska"));
    assert_eq!(media_mime(MediaKind::Music, "a/B.MKV"), None);
    assert_eq!(media_mime(MediaKind::Tv, "a/b.Mkv"), media_mime(MediaKind::Tv, "mKV.mkv"));
    assert_eq!(media_mime(MediaKind::Tv, "a/b.m\u{212a}v"), Some("video/x-matroska"));
    assert_eq!(media_mime(MediaKind::Tv, "a.mkv/b"), None);
}

#[test]
fn a_changed_edl_is_extracted_again() {
    let row = || vec![("a.mkv".to_string(), known(1, 10, 100))];
    let mut file = seen("a.mkv", 10, 100);
    file.edl_mtime = Some(5);
    let pass = reconcile_root(MediaKind::Tv, row(), &vec![file], 1000);
    assert_eq!((pass.new_media, pass.steps.len()), (0, 1));
    assert_eq!((pass.steps[0].id, pass.steps[0].upsert), (Some(1), false));
    let mut track = seen("a.mkv", 10, 100);
    track.edl_mtime = Some(5);
    let pass = reconcile_root(MediaKind::Music, row(), &vec![track], 1000);
    assert!(pass.steps.is_empty(), "segments are of video files");
}

// --------------------------------------------------------------------- watch

#[test]
fn settle_queue_waits_for_stability_then_backs_off() {
    let path = "episode.mp4";
    let mut queue = SettleQueue::new(300);
    assert!(queue.note(path, 7, 1, 0));
    assert!(queue.due(&vec![Some((7, 1))], 0).is_empty(), "not due before the window passes");
    assert_eq!(queue.due(&vec![Some((7, 1))], 400), vec![path.to_string()]);

    // The copy resumed: the window starts over.
    assert!(queue.due(&vec![Some((23, 1))], 410).is_empty());
    assert_eq!(queue.due(&vec![Some((23, 1))], 810), vec![path.to_string()]);

    // Unreadable: retried with a growing delay, then given up on.
    assert!(queue.will_retry(path));
    let mut delays = Vec::new();
    while let Some(delay) = queue.retry_later(path, 810) {
        delays.push(delay);
    }
    assert_eq!(delays.len(), MAX_PROBE_RETRIES as usize);
    assert!(delays.windows(2).all(|w| w[0] <= w[1]));
    assert!(!queue.will_retry(path));
    assert!(queue.due(&vec![Some((23, 1))], 820).is_empty(), "back-off holds the file");

    // A vanished file leaves the queue.
    queue.remove(path);
    queue.note(path, 7, 1, 900);
    assert!(queue.due(&vec![None], 900).is_empty());
    assert!(queue.is_empty());
}

#[test]
fn attempts_end_or_are_repeated() {
    let mut queue = SettleQueue::new(300);
    queue.note("a.mkv", 1, 1, 0);
    queue.note("b.mkv", 1, 1, 0);
    assert!(matches!(queue.attempted("a.mkv", Some(Extracted::NoTechInfo), 0), Attempt::Retry(600)));
    assert!(
        queue.due(&vec![Some((1, 1)), Some((1, 1))], 500) == vec!["b.mkv".to_string()],
        "put off, the other is not"
    );
    queue.remove("b.mkv");
    for _ in 1..MAX_PROBE_RETRIES {
        assert!(matches!(
            queue.attempted("a.mkv", Some(Extracted::NoTechInfo), 0),
            Attempt::Retry(_)
        ));
    }
    assert!(matches!(
        queue.attempted("a.mkv", Some(Extracted::NoTechInfo), 0),
        Attempt::Done { catalogued: true }
    ));
    queue.note("a.mkv", 1, 1, 0);
    assert!(matches!(
        queue.attempted("a.mkv", Some(Extracted::Ready), 0),
        Attempt::Done { catalogued: true }
    ));
    assert!(queue.is_empty());
}

#[test]
fn enrichment_waits_for_quiet() {
    let mut runner = EnrichRunner::new(60, 600, 0);
    assert!(runner.is_idle());
    runner.note_media_added(1_000);
    assert!(!runner.tick(Child::Finished { success: true }, 30_000));
    assert!(runner.tick(Child::Finished { success: true }, 700_000));
    runner.launched(true);
    assert!(!runner.is_idle());
    // Its own writes do not start it again.
    runner.tick(Child::Finished { success: true }, 710_000);
    assert!(!runner.note_caption_sidecar_changed(710_001));
    let mut analysis = AnalyzeRunner { pending: false, last_add: 0 };
    analysis.note_media_added(0);
    assert!(!analysis.is_due(true, 10) && analysis.is_due(true, 60_001));
    assert!(!analysis.is_due(false, 60_001));
    analysis.analyzed(Some(false));
    assert!(!analysis.is_due(true, 60_001));
}

#[test]
fn events_are_told_apart() {
    let movies = MediaKind::Movies;
    assert!(matches!(handle_path(movies, "a.mkv", Presence::File), Reaction::Media));
    assert!(matches!(handle_path(movies, "a.nfo", Presence::File), Reaction::RefreshNfo));
    assert!(matches!(handle_path(movies, "a.srt", Presence::File), Reaction::Captions));
    assert!(matches!(handle_path(movies, "poster.jpg", Presence::File), Reaction::RefreshArt));
    assert!(matches!(handle_path(movies, "a.edl", Presence::File), Reaction::RefreshEdl));
    assert!(matches!(
        handle_path(MediaKind::Tv, "Show/tvshow.nfo", Presence::File),
        Reaction::IngestDirNfo
    ));
    assert!(matches!(
        handle_path(MediaKind::Music, "music.toml", Presence::File),
        Reaction::RefreshMusicMeta
    ));
    assert!(matches!(handle_path(movies, "a.mkv", Presence::Link), Reaction::Ignore));
    assert!(matches!(handle_path(movies, "dir", Presence::Directory), Reaction::ScanSubtree));
    assert!(matches!(
        handle_path(movies, "a.mkv", Presence::Gone),
        Reaction::Remove { bequeath: true }
    ));
    let roots = vec![
        Root { id: 1, path: "/m".into(), kind: movies },
        Root { id: 2, path: "/t".into(), kind: MediaKind::Tv },
    ];
    assert_eq!(locate(&roots, "/t/Show/a.mkv"), Some((1, "Show/a.mkv".to_string())));
    assert_eq!(locate(&roots, "/mm/a.mkv"), None);
    assert!(art_affects("dir/poster.jpg", "dir/a.mkv"));
    assert!(!art_affects("other/poster.jpg", "dir/a.mkv"));
    assert!(sidecar_affects("dir/a.nfo", "nfo", "dir/a.mkv"));
    assert!(is_art_changed(&None, &Some("p.jpg".into()), Some(5), 10));
    assert!(!is_art_changed(&Some("p.jpg".into()), &Some("p.jpg".into()), Some(5), 10));
    assert!(catalog_reflects(&Some((5, 6, "ready".into())), 5, 6));
    assert!(!catalog_reflects(&Some((5, 6, "pending".into())), 5, 6));
    assert!(reconcile_due(6, 0, 6 * 3_600_000) && !reconcile_due(6, 0, 1000));
    assert!(poll_secs(true) <= poll_secs(false));
    assert_eq!(resolve_enrich_command("media-enrich", Some("/x/media-enrich".into())), "/x/media-enrich");
    assert_eq!(resolve_enrich_command("/usr/bin/other", Some("/x/media-enrich".into())), "/usr/bin/other");
}

#[test]
fn settings_are_checked() {
    let mut cfg = Config {
        db_path: None,
        roots: Vec::new(),
        settle_ms: 1,
        reconcile_interval_hours: 1,
        ffprobe_path: "ffprobe".into(),
        enrich: None,
    };
    assert!(matches!(cfg.check(), Err(ConfigError::NoRoots)));
    cfg.roots.push(RootConfig { path: "/m".into(), kind: "games".into() });
    assert!(matches!(
        cfg.check(),
        Err(ConfigError::UnknownKind { path, kind }) if path == "/m" && kind == "games"
    ));
    cfg.roots[0].kind = "movies".into();
    assert!(cfg.check().is_ok());
    assert_eq!(cfg.root_specs(), vec![("/m".to_string(), MediaKind::Movies)]);
    assert!(cfg.db_path("/home/u").starts_with("/home/u/"));
    cfg.db_path = Some("/x.db".into());
    assert_eq!(cfg.db_path("/home/u"), "/x.db");
}

#[test]
fn overrides_apply_below_their_directory() {
    assert!(music_meta_affects("Artist/music.toml", "Artist/Album/01.flac", "ready"));
    assert!(!music_meta_affects("Artist/music.toml", "Other/01.flac", "ready"));
    assert!(!music_meta_affects("Artist/music.toml", "Artist/01.flac", "pending"));
    assert!(music_meta_affects("music.toml", "Other/01.flac", "ready"));
    assert!(is_art_stale(&Some("a.jpg".into()), &None));
    assert!(!is_art_stale(&Some("embedded".into()), &None));
}
