use mediaserver::db::captions;
use mediaserver::enrich::captions_state::{self, CaptionsState, Stamp};
use mediaserver::enrich::imdb::{self, cache_is_fresh, cache_path, rating_line};
use mediaserver::enrich::loudness::{
    self, is_marked, label, parse_summary, Kind, Look, Verdict, DONE, TWIN_LABEL,
};
use mediaserver::enrich::loudness_state::{self, Levels, LoudnessState};
use mediaserver::enrich::remux::{
    self, ffmpeg_args, plan, same_bytes, srt_input, Probe, SrtInput, Stream, StreamKind,
};
use mediaserver::enrich::subtitles::{
    self, decide, embed_args, extraction, has_cues, look_at_sidecar, parse_probe, sidecar_hash,
    Extraction, Outcome, Sidecar, Skip, Step,
};
use mediaserver::enrich::tmdb::{
    answer, episode_ids_path, episode_imdb_id, first_result, hit_id, is_bearer, movie_details,
    movie_searches, poster_url, search_params, season_details, series_info, Answer, Search,
};
use mediaserver::json::Json;

// ------------------------------------------------------------------ loudness

#[test]
fn parses_the_meter_summary() {
    let text = "[Parsed_ebur128_0 @ 0x1] Summary:\n\n  Integrated loudness:\n    I:         -38.2 LUFS\n    \
                Threshold: -50.4 LUFS\n\n  Loudness range:\n    LRA:        20.2 LU\n    Threshold: -61.8 LUFS\n    \
                LRA low:   -41.8 LUFS\n    LRA high:  -21.6 LUFS\n\n  True peak:\n    Peak:      -12.3 dBFS\n";
    let s = parse_summary(text).unwrap();
    let number = |o: Option<String>| o.and_then(|t| t.parse::<f64>().ok());
    assert_eq!(number(s.integrated), Some(-38.2));
    assert_eq!(number(s.true_peak), Some(-12.3));
    assert_eq!(number(s.range), Some(20.2));
    assert!(parse_summary("no summary here").is_none());
}

fn stream(
    index: usize,
    kind: Kind,
    codec: &str,
    channels: usize,
    default: bool,
    label: &str,
) -> loudness::Stream {
    loudness::Stream { index, kind, codec: codec.into(), channels, default, label: label.into() }
}

#[test]
fn plans_the_playing_track_and_replaces_a_bare_twin() {
    let plain = loudness::Probe {
        streams: vec![
            stream(0, Kind::Video, "hevc", 0, true, ""),
            stream(1, Kind::Audio, "aac", 6, true, "SoundHandler"),
            stream(2, Kind::Subtitle, "mov_text", 0, false, ""),
        ],
        duration: "".into(),
        encoder: "".into(),
    };
    let p = loudness::plan(&plain, "x.mp4").unwrap();
    assert_eq!(
        (p.source, p.layout, p.channels_out, p.drop, p.keep.clone()),
        (1, None, 6, None, vec![1])
    );
    assert!(p.hevc_mp4 && !p.matroska);
    let joined = loudness::ffmpeg_args(&p, 102, "x.mp4", Some("rec".into()), "t.mp4").join(" ");
    assert!(joined.contains("-map 0:v? -map 0:1 -map 0:1 -map 0:s? -c copy -c:a:0 aac -b:a:0 384k -filter:a:0 volume=10.2dB"), "{joined}");
    assert!(joined.contains("-disposition:a:0 default -disposition:a:1 0 -tag:v hvc1 -metadata encoding_tool=rec"), "{joined}");

    let twinned = |label: &str| loudness::Probe {
        streams: vec![
            stream(0, Kind::Video, "h264", 0, true, ""),
            stream(1, Kind::Audio, "aac", 2, true, label),
            stream(2, Kind::Audio, "eac3", 6, false, "SoundHandler"),
        ],
        duration: "".into(),
        encoder: "".into(),
    };
    let p = loudness::plan(&twinned("Stereo (AAC)"), "x.mkv").unwrap();
    assert_eq!(
        (p.source, p.layout, p.drop, p.keep.clone()),
        (2, Some("stereo"), Some(1), vec![2])
    );
    assert!(label(90, true).starts_with(TWIN_LABEL) && is_marked(&label(90, true)));

    let done = twinned(&label(90, true));
    assert_eq!(loudness::plan(&done, "x.mp4").err(), Some(DONE.to_string()));
    assert!(!is_marked("Stereo (AAC)") && !is_marked("Commentary (normalized)"));
    assert!(matches!(
        loudness::look(&done, "x.mp4"),
        Look::Done(loudness::Outcome::AlreadyNormalized)
    ));
}

#[test]
fn parses_ffprobe_output_from_both_containers() {
    let text = "[STREAM]\nindex=0\ncodec_name=h264\ncodec_type=video\nDISPOSITION:default=1\n[/STREAM]\n\
                [STREAM]\nindex=1\ncodec_name=aac\ncodec_type=audio\nchannels=2\nDISPOSITION:default=1\n\
                TAG:title=Normalized +15.0 dB (media-enrich)\nTAG:HANDLER_NAME=SoundHandler\n[/STREAM]\n\
                [FORMAT]\nduration=40.000000\nTAG:encoder=media-enrich; captions=srt:sha256:ab\n[/FORMAT]\n";
    let p = loudness::parse_probe(text);
    assert_eq!(p.streams.iter().filter(|s| s.kind == Kind::Video).count(), 1);
    assert_eq!(p.streams.iter().filter(|s| s.kind == Kind::Audio).count(), 1);
    let a = p.streams.iter().find(|s| s.kind == Kind::Audio).unwrap();
    assert!(a.default && a.channels == 2 && is_marked(&a.label));
    assert_eq!(p.duration.parse::<f64>(), Ok(40.0));
    assert_eq!(p.encoder, "media-enrich; captions=srt:sha256:ab");
}

#[test]
fn a_verdict_is_followed() {
    assert!(matches!(
        loudness::decide(Verdict::Normal, false),
        loudness::Step::Done(loudness::Outcome::Normal)
    ));
    assert!(matches!(
        loudness::decide(Verdict::NoHeadroom, false),
        loudness::Step::Done(loudness::Outcome::NoHeadroom)
    ));
    assert!(matches!(
        loudness::decide(Verdict::Gain(102), true),
        loudness::Step::Done(loudness::Outcome::WouldNormalize(102))
    ));
    assert!(matches!(loudness::decide(Verdict::Gain(102), false), loudness::Step::Mux(102)));
    assert!(matches!(
        loudness::decide(Verdict::Silent, false),
        loudness::Step::Done(loudness::Outcome::Skipped(_))
    ));
    assert_eq!(label(102, false), "Normalized +10.2 dB (media-enrich)");
    assert_eq!(loudness::bitrate(2), "192k");
}

fn stamp(size: u64) -> Stamp {
    Stamp { size, mtime_secs: 5, mtime_nanos: 6 }
}

#[test]
fn remembers_by_stem_until_the_file_changes() {
    let mkv = "/m/Film (1978).mkv";
    let mut state = LoudnessState::load(loudness_state::VERSION, None, Vec::new());
    assert!(!state.started());
    assert_eq!(state.since_or_start(1000), 1000);
    assert_eq!(state.since_or_start(2000), 1000, "the first run stays the start");
    assert!(!state.settled(mkv, Some(stamp(3))));
    let m = Levels {
        integrated: (-30.0f64).to_bits(),
        true_peak: (-3.0f64).to_bits(),
        range: 12.0f64.to_bits(),
    };
    state.record(mkv, Some(stamp(3)), "within range", Some(m), None);
    assert!(state.settled(mkv, Some(stamp(3))));
    assert!(state.is_dirty());

    let (since, entries) = state.stored();
    let kept: Vec<(String, loudness_state::Entry)> = entries
        .iter()
        .map(|(k, e)| {
            (
                k.clone(),
                loudness_state::Entry {
                    file: e.file.clone(),
                    stamp: e.stamp,
                    note: e.note.clone(),
                    measured: e.measured,
                    gain: e.gain,
                },
            )
        })
        .collect();
    let mut state = LoudnessState::load(loudness_state::VERSION, since, kept);
    assert_eq!(state.since_or_start(3000), 1000);
    assert!(state.settled(mkv, Some(stamp(3))), "survives a reload");

    // Changed on disk: a fresh look is due.
    assert!(!state.settled(mkv, Some(stamp(13))));

    // Remuxed to .mp4 and recorded again: same entry, new name.
    let mp4 = "/m/Film (1978).mp4";
    state.record(mp4, Some(stamp(13)), "normalized", Some(m), Some(6.0f64.to_bits()));
    assert!(state.settled(mp4, Some(stamp(13))));
    assert_eq!(state.names(), vec![mp4.to_string()]);

    state.forget_missing(&vec![false]);
    assert!(state.names().is_empty());
    assert_eq!(LoudnessState::load(99, Some(1), Vec::new()).stored().0, None);
}

// ------------------------------------------------------------------ captions

fn remembered() -> Vec<(String, captions_state::Entry)> {
    vec![(
        "/d/Movies/a.mp4".to_string(),
        captions_state::Entry {
            media: stamp(3),
            srt: stamp(2),
            note: "embedded".into(),
            canonical: Some("abc".into()),
        },
    )]
}

#[test]
fn remembers_pairs_across_loads_and_forgets_the_gone() {
    let movie = "/d/Movies/a.mp4";
    let mut state = CaptionsState::load(captions_state::VERSION, Vec::new());
    assert!(!state.unchanged(movie, stamp(3), stamp(2)), "nothing remembered yet");
    state.record(movie, stamp(3), stamp(2), "embedded", Some("abc".into()));
    assert!(state.is_dirty());
    assert_eq!(state.stored().len(), 1);
    assert_eq!(state.stored()[0].1.canonical.as_deref(), Some("abc"));

    let mut again = CaptionsState::load(captions_state::VERSION, remembered());
    assert!(again.unchanged(movie, stamp(3), stamp(2)));
    assert_eq!(again.canonical_hash(movie).as_deref(), Some("abc"));
    again.record(movie, stamp(3), stamp(2), "captions up to date", None);
    assert_eq!(again.canonical_hash(movie).as_deref(), Some("abc"), "a skip keeps provenance");
    assert!(!again.unchanged(movie, stamp(3), stamp(9)), "a changed sidecar is a change");

    let mut prune = CaptionsState::load(captions_state::VERSION, remembered());
    prune.forget_unseen_under(&vec!["/d/Series".to_string()]);
    assert_eq!(prune.len(), 1);
    prune.forget_unseen_under(&vec!["/d/Movies".to_string()]);
    assert_eq!(prune.len(), 0);
}

#[test]
fn a_foreign_or_broken_file_means_empty() {
    assert_eq!(CaptionsState::load(99, remembered()).len(), 0);
    assert_eq!(CaptionsState::load(captions_state::VERSION, Vec::new()).len(), 0);
}

// --------------------------------------------------------------------- remux

fn s(index: usize, kind: StreamKind, codec: &str) -> Stream {
    Stream { index, kind, codec: codec.into(), language: None, dovi: false }
}

fn probe(streams: Vec<Stream>) -> Probe {
    Probe { streams, duration: "1.0".into() }
}

#[test]
fn parses_ffprobe_default_output_with_side_data() {
    let text = "[STREAM]\nindex=0\ncodec_name=hevc\ncodec_type=video\nTAG:language=und\n[SIDE_DATA]\nside_data_type=DOVI configuration record\n[/SIDE_DATA]\n[/STREAM]\n[STREAM]\nindex=1\ncodec_name=eac3\ncodec_type=audio\nTAG:language=eng\n[/STREAM]\n[FORMAT]\nduration=5400.123000\n[/FORMAT]\n";
    let p = remux::parse_probe(text);
    assert_eq!(p.streams.len(), 2);
    assert!(p.streams[0].dovi);
    assert_eq!(p.streams[0].language, None);
    assert_eq!(p.streams[1].language.as_deref(), Some("eng"));
    assert_eq!(p.streams[1].kind, StreamKind::Audio);
    assert!((p.duration.parse::<f64>().unwrap() - 5400.123).abs() < 1e-6);
}

#[test]
fn plan_copies_aac_and_twins_dolby_digital() {
    let p = probe(vec![
        s(0, StreamKind::Video, "h264"),
        s(1, StreamKind::Audio, "eac3"),
        s(2, StreamKind::Audio, "aac"),
        s(3, StreamKind::Subtitle, "subrip"),
        s(4, StreamKind::Other, "ttf"),
    ]);
    let plan = plan(&p, false).unwrap();
    assert_eq!(plan.video, vec![0]);
    assert_eq!(plan.audio, vec![(1, true), (2, false)]);
    assert_eq!(plan.subtitles, vec![3]);
    assert_eq!(plan.twins(), 1);
    assert!(!plan.hevc);

    let joined = ffmpeg_args(&plan, "in.mkv", None, "out.mp4").join(" ");
    // Twin mapped before its original, then the aac track, then subs.
    assert!(joined.contains("-map 0:0 -map 0:1 -map 0:1 -map 0:2 -map 0:3"), "{joined}");
    assert!(joined.contains("-c:a:0 aac"), "{joined}");
    assert!(joined.contains("-disposition:a:0 default"), "{joined}");
    assert!(joined.contains("-disposition:a:1 0"), "{joined}");
    assert!(joined.contains("-disposition:a:2 0"), "{joined}");
    assert!(joined.contains("-c:s mov_text"), "{joined}");
    assert!(!joined.contains("hvc1"), "{joined}");
    assert!(joined.ends_with("-movflags +faststart out.mp4"), "{joined}");
}

#[test]
fn plan_refuses_what_mp4_cannot_carry() {
    let refuse = |streams: Vec<Stream>| plan(&probe(streams), false).err().unwrap();
    assert!(refuse(vec![s(0, StreamKind::Video, "h264"), s(1, StreamKind::Audio, "dts")])
        .contains("dts"));
    assert!(refuse(vec![s(0, StreamKind::Video, "h264"), s(1, StreamKind::Audio, "flac")])
        .contains("flac"));
    assert!(refuse(vec![
        s(0, StreamKind::Video, "h264"),
        s(1, StreamKind::Audio, "aac"),
        s(2, StreamKind::Subtitle, "hdmv_pgs_subtitle"),
    ])
    .contains("bitmap"));
    assert!(refuse(vec![s(0, StreamKind::Video, "vp9"), s(1, StreamKind::Audio, "aac")])
        .contains("vp9"));
    let mut dv = s(0, StreamKind::Video, "hevc");
    dv.dovi = true;
    assert!(refuse(vec![dv, s(1, StreamKind::Audio, "aac")]).contains("Dolby Vision"));
    assert!(refuse(vec![s(0, StreamKind::Audio, "aac")]).contains("no video"));
}

#[test]
fn srt_sidecar_forgives_bitmap_subs_and_gets_embedded() {
    let p = probe(vec![
        s(0, StreamKind::Video, "h264"),
        s(1, StreamKind::Audio, "aac"),
        s(2, StreamKind::Subtitle, "hdmv_pgs_subtitle"),
    ]);
    let plan = plan(&p, true).unwrap();
    assert!(plan.subtitles.is_empty());
    assert!(plan.embed_srt);
    assert!(
        plan.notes.iter().any(|n| n.contains("bitmap subtitles dropped")),
        "{:?}",
        plan.notes
    );

    let joined = ffmpeg_args(&plan, "in.mkv", Some("in.srt".into()), "out.mp4").join(" ");
    assert!(joined.contains("-i in.mkv -i in.srt"), "{joined}");
    // The bitmap track (0:2) is not mapped; the sidecar is the one sub.
    assert!(joined.contains("-map 0:0 -map 0:1 -map 1:0"), "{joined}");
    assert!(!joined.contains("-map 0:2"), "{joined}");
    assert!(joined.contains("-c:s mov_text"), "{joined}");
    assert!(joined.contains("-metadata:s:s:0 language=eng"), "{joined}");
}

#[test]
fn internal_text_subs_win_over_the_sidecar() {
    // Bitmap dropped, subrip kept, nothing embedded on top of it.
    let p = probe(vec![
        s(0, StreamKind::Video, "h264"),
        s(1, StreamKind::Audio, "aac"),
        s(2, StreamKind::Subtitle, "hdmv_pgs_subtitle"),
        s(3, StreamKind::Subtitle, "subrip"),
    ]);
    let plan = plan(&p, true).unwrap();
    assert_eq!(plan.subtitles, vec![3]);
    assert!(!plan.embed_srt);
}

#[test]
fn sidecar_is_embedded_when_the_mkv_has_no_subs() {
    let p = probe(vec![s(0, StreamKind::Video, "h264"), s(1, StreamKind::Audio, "aac")]);
    assert!(plan(&p, true).unwrap().embed_srt);
    assert!(!plan(&p, false).unwrap().embed_srt);
}

#[test]
fn hevc_gets_the_apple_tag_and_a_lone_original_stays_default() {
    let p = probe(vec![s(0, StreamKind::Video, "hevc"), s(1, StreamKind::Audio, "aac")]);
    let plan = plan(&p, false).unwrap();
    assert!(plan.hevc);
    let joined = ffmpeg_args(&plan, "in.mkv", None, "out.mp4").join(" ");
    assert!(joined.contains("-tag:v hvc1"), "{joined}");
    assert!(joined.contains("-disposition:a:0 default"), "{joined}");
}

#[test]
fn a_remux_is_held_to_its_plan() {
    let streams = || vec![s(0, StreamKind::Video, "h264"), s(1, StreamKind::Audio, "eac3")];
    let plan = plan(&probe(streams()), false).unwrap();
    let mut made = streams();
    made.push(s(2, StreamKind::Audio, "aac"));
    let made = probe(made);
    assert!(remux::verified(&plan, &made, true));
    assert!(!remux::verified(&plan, &made, false));
    assert!(!remux::verified(&plan, &probe(streams()), true));
    assert!(remux::is_mkv("a.MKV") && !remux::is_mkv("a.mp4"));
    assert!(remux::pass_over("a.mp4", false).is_some());
    assert!(remux::pass_over("a.mkv", true).is_some());
    assert!(remux::pass_over("a.mkv", false).is_none());
    let temp = remux::temp_name("a", "remux", 7, "mp4");
    assert!(remux::is_stale_temp(&temp, "a", "remux"), "{temp}");
}

// ----------------------------------------------------------------- subtitles

#[test]
fn probe_reads_streams_and_the_record() {
    let p = parse_probe(
        "codec_name=h264\ncodec_type=video\ncodec_name=aac\ncodec_type=audio\n\
         codec_name=mov_text\ncodec_type=subtitle\nduration=3.0\n\
         TAG:title=Scene.Release\nTAG:encoder=media-enrich; captions=srt:sha256:ab\n",
    );
    assert_eq!((p.video, p.audio, p.subtitle), (1, 1, 1));
    assert_eq!(p.encoder, "media-enrich; captions=srt:sha256:ab");
    assert_eq!(captions::recorded_hash(&p.encoder), None, "too short to be ours");
}

#[test]
fn hash_is_of_the_decoded_text() {
    let a = sidecar_hash("1\n00:00:01,000 --> 00:00:02,000\nhi\n");
    assert_eq!(a.len(), 64);
    assert_eq!(a, sidecar_hash("1\n00:00:01,000 --> 00:00:02,000\nhi\n"));
    assert_ne!(a, sidecar_hash("1\n00:00:01,500 --> 00:00:02,000\nhi\n"));
    assert!(captions::recorded_hash(&captions::tag(&a)).as_deref() == Some(a.as_str()));
    assert_eq!(
        sidecar_hash("abc"),
        "ba7816bf8f01cfea414140de5dae2223b00361a396177a9cb410ff61f20015ad"
    );
}

fn bare(subtitle: usize, encoder: &str) -> subtitles::Probe {
    subtitles::Probe {
        video: 1,
        audio: 1,
        subtitle,
        duration: "3.0".into(),
        encoder: encoder.into(),
    }
}

#[test]
fn captions_are_embedded_once() {
    let hash = "ab".repeat(32);
    assert!(matches!(decide(&bare(0, ""), &hash, false), Step::Mux { replace: false }));
    assert!(matches!(
        decide(&bare(0, ""), &hash, true),
        Step::Done(Outcome::WouldEmbed)
    ));
    let done = captions::tag(&hash);
    assert!(matches!(
        decide(&bare(1, &done), &hash, false),
        Step::Done(Outcome::Skipped(Skip::UpToDate))
    ));
    let other = "cd".repeat(32);
    assert!(matches!(decide(&bare(1, &done), &other, false), Step::Mux { replace: true }));
    assert!(matches!(
        decide(&bare(1, "Lavf"), &hash, false),
        Step::Done(Outcome::Skipped(Skip::HasSubtitles))
    ));
    assert!(matches!(
        look_at_sidecar("a.mkv", Some(b"x".to_vec())),
        Sidecar::Skip(Skip::NotMp4)
    ));
    assert!(matches!(look_at_sidecar("a.mp4", None), Sidecar::Skip(Skip::NoSidecar)));
    assert!(matches!(
        look_at_sidecar("a.mp4", Some(b"1\n00:00:01,000 --> 00:00:02,000\nhi\n".to_vec())),
        Sidecar::Use { convert: false, .. }
    ));
    for skip in [Skip::NotMp4, Skip::NoSidecar, Skip::Empty, Skip::Unrecognized] {
        assert!(!skip.reason().is_empty());
    }
    assert!(matches!(extraction(true, &Vec::new(), false), Extraction::Done(_)));
}

// ------------------------------------------------------------- imdb and tmdb

#[test]
fn ratings_of_the_needed_titles_are_read() {
    let needed = vec!["tt0113277".to_string()];
    assert_eq!(
        rating_line("tt0113277\t8.3\t750000", &needed),
        Some(("tt0113277".to_string(), "8.3".to_string()))
    );
    assert_eq!(rating_line("tt0000001\t5.0\t1", &needed), None);
    assert_eq!(rating_line("tconst", &needed), None);
    assert!(cache_is_fresh(Some(10), 7) && !cache_is_fresh(Some(8 * 86_400), 7));
    assert!(!cache_is_fresh(None, 7));
    assert!(cache_path("/d").starts_with("/d/"));
}

#[test]
fn reading_stops_once_every_rating_is_found() {
    let needed = vec!["tt1".to_string(), "tt2".to_string()];
    let mut found = imdb::Found::new(&needed);
    assert!(!found.rated("tt2", true, &needed));
    assert!(!found.rated("tt2", true, &needed));
    assert!(!found.rated("tt1", false, &needed));
    assert!(found.rated("tt1", true, &needed));
}

fn text(s: &str) -> Json {
    Json::Text(s.to_string())
}

#[test]
fn a_missing_entry_is_told_from_a_failure() {
    assert_eq!(answer(200), Answer::Found);
    assert_eq!(answer(401), Answer::Unauthorized);
    assert_eq!(answer(404), Answer::Missing);
    assert_eq!(answer(500), Answer::Failed);
    assert_eq!(answer(302), Answer::Failed);
}

#[test]
fn a_film_is_told_from_its_details() {
    let details = Json::Object(vec![
        ("title".into(), text("Heat")),
        ("release_date".into(), text("1995-12-15")),
        ("overview".into(), text("Cops and robbers.")),
        (
            "genres".into(),
            Json::Array(vec![Json::Object(vec![("name".into(), text("Crime"))])]),
        ),
        ("imdb_id".into(), text("tt0113277")),
    ]);
    let m = movie_details(949, &details, "fallback");
    assert_eq!((m.tmdb_id, m.title.as_str(), m.year), (949, "Heat", Some(1995)));
    assert_eq!(m.genres, vec!["Crime".to_string()]);
    assert_eq!(movie_details(1, &Json::Null, "fallback").title, "fallback");

    let found = Json::Object(vec![(
        "results".into(),
        Json::Array(vec![Json::Object(vec![("id".into(), Json::Int(949))])]),
    )]);
    assert_eq!(first_result(&found).and_then(hit_id), Some(949));
    assert!(first_result(&Json::Null).is_none());
    assert_eq!(movie_searches(None).len(), 1);
    assert_eq!(movie_searches(Some(1995)).len(), 2);
    let params = search_params("Heat", Search::PrimaryYear(1995));
    assert!(params.contains(&("query".to_string(), "Heat".to_string())));
    assert!(!is_bearer("SECRET-REDACTED"));
}

#[test]
fn a_series_is_told_from_its_details_or_its_hit() {
    let hit = Json::Object(vec![
        ("name".into(), text("Show")),
        ("overview".into(), text("")),
        ("poster_path".into(), text("/p.jpg")),
    ]);
    let bare = series_info(7, &hit, None, "show");
    assert_eq!((bare.tmdb_id, bare.name.as_str()), (7, "Show"));
    assert_eq!((bare.plot, bare.imdb_id), (None, None));
    assert_eq!(bare.poster_path.as_deref(), Some("/p.jpg"));
    let ids = Json::Object(vec![("imdb_id".into(), text("tt0000007"))]);
    let details = Json::Object(vec![
        ("overview".into(), text("A show.")),
        ("external_ids".into(), ids),
    ]);
    let full = series_info(7, &hit, Some(&details), "show");
    assert_eq!(full.name, "show");
    assert_eq!(full.plot.as_deref(), Some("A show."));
    assert_eq!(full.imdb_id.as_deref(), Some("tt0000007"));
}

#[test]
fn a_season_lists_its_episodes_by_number() {
    let episode = |n: i64, name: &str| {
        Json::Object(vec![
            ("episode_number".into(), Json::Int(n)),
            ("name".into(), text(name)),
            ("overview".into(), text("Things happen.")),
        ])
    };
    let season = Json::Object(vec![
        ("overview".into(), text("The first.")),
        ("episodes".into(), Json::Array(vec![episode(1, "Pilot"), episode(2, "Second")])),
    ]);
    let found = season_details(Some(&season));
    assert_eq!(found.overview.as_deref(), Some("The first."));
    assert_eq!(found.episodes.len(), 2);
    assert_eq!(found.episodes[&2], ("Second".to_string(), "Things happen.".to_string()));
    assert!(season_details(None).episodes.is_empty());
    let ids = Json::Object(vec![("imdb_id".into(), text("tt0000008"))]);
    assert_eq!(episode_imdb_id(Some(&ids)).as_deref(), Some("tt0000008"));
    assert_eq!(episode_imdb_id(None), None);
    assert_eq!(episode_ids_path(7, 1, 2), "/tv/7/season/1/episode/2/external_ids");
    assert_eq!(poster_url("/p.jpg"), "https://image.tmdb.org/t/p/w500/p.jpg");
}

#[test]
fn captions_are_fed_as_they_are_or_converted() {
    assert!(matches!(srt_input(false, Some("x".into()), &b"x".to_vec()), SrtInput::Nothing));
    assert!(matches!(srt_input(true, Some("x".into()), &b"x".to_vec()), SrtInput::AsIs));
    assert!(matches!(
        srt_input(true, Some("caf\u{e9}".into()), &vec![b'c', b'a', b'f', 0xE9]),
        SrtInput::Converted(t) if t == "caf\u{e9}"
    ));
    assert!(same_bytes("caf\u{e9}", &"caf\u{e9}".as_bytes().to_vec()));
    let args = embed_args("/v/a.mp4", "/v/a.srt", true, "h", "/v/out.mp4");
    assert!(args.contains(&"/v/a.srt".to_string()));
    assert_eq!(args.last().map(String::as_str), Some("/v/out.mp4"));
    assert!(has_cues("1\n00:00:01,000 --> 00:00:02,000\nHi\n") && !has_cues("WEBVTT\n"));
}
