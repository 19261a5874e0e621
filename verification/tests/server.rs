use mediaserver::db::models::{BrowseItem, MediaKind, Root, Score, Segment, SegmentKind};
use mediaserver::db::queries::files::ItemDetail;
use mediaserver::server::art::{
    art_answer, art_step, cache_control, etag, none_match, og_art, read_art, ArtFound, ArtRead,
    ArtStamp, ArtStep,
};
use mediaserver::server::browse::{
    browse_page, episode_grid_html, listing_row, rating_chip, search_page, About, BrowsePage,
    Parent,
};
use mediaserver::server::config::{
    advertised_ip, base_url, load_or_create_uuid, location, Updates,
};
use mediaserver::server::control::{
    action, browse_request, cds_control, children_reply, cms_control, metadata_reply,
    search_reply, search_request, window, CdsAction,
};
use mediaserver::server::counts::{canon, compute, Cache, Tally};
use mediaserver::server::didl::{didl_duration, render, xml_escape};
use mediaserver::server::formats::{human_duration, human_size, is_uhd, seconds};
use mediaserver::server::item::{item_page, problem, ItemPage};
use mediaserver::server::objectid::ObjectId;
use mediaserver::server::page::{tab_title, truncate_words};
use mediaserver::server::player::{
    captions_page, info_card, neighbour_label, neighbour_nav_html, neighbours, play_page,
    siblings_of, tv_context_html, PlayPage, Siblings, Subs,
};
use mediaserver::server::profiles::{
    civil, cookie_profile_id, deleted, dismiss, dismiss_series, key, left, profile_name, reported, selected,
    set_cookie, set_position, set_seen, upgrade, ymd, NameError, WatchRow, SCHEMA,
};
use mediaserver::server::search::{
    flatten_items, parse_search_criteria, playlist_section, playlist_title, query_terms,
    render_m3u, search_scope, ClassFilter, Found, MAX_TERMS,
};
use mediaserver::server::security::{
    csp, image_mime, imdb_title_id, policy_for, redirect, request_base_url, TlsInfo,
};
use mediaserver::server::soap::{action_from_header, envelope, fault, param};
use mediaserver::server::ssdp::{
    notify, responses, targets, usable_address, uuid_in, Relay, RelayStep, SERVER_ID,
};
use mediaserver::server::subs::{
    extract_args, fresh, serve_subs, srt_to_vtt, subs_id, subs_of, text_sub_stream, Look, Moment,
    Next, Probed,
};
use mediaserver::server::tree::{browse_children, browse_metadata, entries_for, Entry, Known, Rows};
use mediaserver::server::watch::{
    chip_html, clock, continue_html, initials, note, picker_html, resume_secs, row_marks, tile_colour,
    up_next, Recent, States,
};

// ----------------------------------------------------------------------- art

fn encoded(width: u32, height: u32, format: image::ImageFormat) -> Vec<u8> {
    let img = image::DynamicImage::new_rgb8(width, height);
    let mut out = std::io::Cursor::new(Vec::new());
    img.write_to(&mut out, format).unwrap();
    out.into_inner()
}

#[test]
fn og_art_downscales_to_capped_jpeg() {
    let poster = encoded(1200, 1800, image::ImageFormat::Png);
    let (bytes, mime) = og_art(poster, "image/png".to_string());
    assert_eq!(mime, "image/jpeg");
    let img = image::load_from_memory(&bytes).unwrap();
    assert_eq!((img.width(), img.height()), (600, 900));
}

#[test]
fn og_art_passes_small_jpeg_through() {
    let small = encoded(400, 600, image::ImageFormat::Jpeg);
    let (bytes, mime) = og_art(small.clone(), "image/jpeg".to_string());
    assert_eq!(mime, "image/jpeg");
    assert_eq!(bytes, small);
}

#[test]
fn og_art_leaves_undecodable_bytes_alone() {
    let junk = b"not an image".to_vec();
    let (bytes, mime) = og_art(junk.clone(), "image/jpeg".to_string());
    assert_eq!((bytes, mime), (junk, "image/jpeg".to_string()));
}

#[test]
fn only_large_art_is_shrunk() {
    for (w, h) in [(400, 600), (900, 900), (1, 1)] {
        let small = encoded(w, h, image::ImageFormat::Png);
        let kept = og_art(small.clone(), "image/png".into());
        assert_eq!(kept, (small, "image/png".to_string()));
    }
    let (wide, mime) = og_art(encoded(1801, 7, image::ImageFormat::Png), "image/png".into());
    assert_eq!(mime, "image/jpeg");
    assert_eq!(&wide[..3], &[0xFF, 0xD8, 0xFF]);
    // (16 * (200 - 2 * 82) + 50) / 100
    assert_eq!(wide[44], 6);
    assert_eq!(u16::from_be_bytes([wide[27], wide[28]]), 900);
    assert_eq!(u16::from_be_bytes([wide[25], wide[26]]), 3);
}

#[test]
fn art_is_revalidated() {
    let stamp = ArtStamp { secs: 784_111_777, len: 255 };
    assert_eq!(etag(stamp, false), "\"2ebc98a1-ff\"");
    assert_eq!(etag(stamp, true), "\"2ebc98a1-ff-og\"");
    assert!(none_match("\"a\", \"2ebc98a1-ff\"", &etag(stamp, false)));
    assert!(none_match(" * ", "\"x\""));
    assert!(!none_match("\"a\"", "\"x\""));
    let there = ArtFound::There(Some(stamp));
    match art_step(&there, false, false, None) {
        ArtStep::Serve { tag, last_modified, cache_control } => {
            assert_eq!(tag.as_deref(), Some("\"2ebc98a1-ff\""));
            assert_eq!(last_modified.as_deref(), Some("Sun, 06 Nov 1994 08:49:37 GMT"));
            assert_eq!(cache_control, "public, max-age=86400, stale-while-revalidate=604800");
        }
        other => panic!("{other:?}"),
    }
    assert!(matches!(
        art_step(&there, false, true, Some("\"2ebc98a1-ff\"")),
        ArtStep::NotModified { .. }
    ));
    assert!(matches!(art_step(&ArtFound::Missing, false, false, None), ArtStep::Status(404)));
    assert!(matches!(art_step(&ArtFound::LookupFailed, false, false, None), ArtStep::Status(500)));
    assert!(matches!(
        art_step(&ArtFound::There(None), false, false, None),
        ArtStep::Serve { tag: None, .. }
    ));
    assert_eq!(cache_control(true), "public, max-age=31536000, immutable");
}

#[test]
fn art_is_answered() {
    let png = encoded(3, 3, image::ImageFormat::Png);
    let plain = art_answer(ArtRead::Bytes(png.clone()), false);
    assert_eq!((plain.status, plain.mime.as_str()), (200, "image/png"));
    assert_eq!(plain.bytes, png);
    let card = art_answer(ArtRead::Bytes(png.clone()), true);
    assert_eq!((card.status, card.mime.as_str()), (200, "image/png"));
    assert_eq!(card.bytes, png);
    let large = encoded(1000, 10, image::ImageFormat::Png);
    let card = art_answer(ArtRead::Bytes(large), true);
    assert_eq!((card.status, card.mime.as_str()), (200, "image/jpeg"));
    let page = art_answer(ArtRead::Bytes(b"<html>".to_vec()), false);
    assert_eq!((page.status, page.no_store), (503, true));
    assert_eq!(art_answer(ArtRead::Failed, false).status, 503);
    assert_eq!(art_answer(ArtRead::Lost, false).status, 500);
    assert!(read_art(b"<html>".to_vec()).is_none());
    assert_eq!(image_mime(&b"GIF89a...".to_vec()), Some("image/gif"));
    assert_eq!(image_mime(&b"RIFF....WEBPVP8 ".to_vec()), Some("image/webp"));
    assert_eq!(image_mime(&b"BM".to_vec()), Some("image/bmp"));
}

// --------------------------------------------------------------------- texts

#[test]
fn truncate_words_cuts_on_a_word_boundary() {
    assert_eq!(truncate_words("short enough", 300), "short enough");
    let long = "word ".repeat(100);
    let cut = truncate_words(&long, 30);
    assert!(cut.ends_with('…'));
    assert!(cut.chars().count() <= 31);
    assert!(!cut.trim_end_matches('…').ends_with(' '));
}

#[test]
fn sizes_and_times_are_shown() {
    assert_eq!(human_size(512), "512 B");
    assert_eq!(human_size(1536), "1.50 KB");
    assert_eq!(human_size(5 * 1024 * 1024 * 1024), "5.00 GB");
    assert_eq!(human_duration(3_723_000), "1:02:03");
    assert_eq!(seconds(90_500), "90.5");
    assert_eq!(seconds(90_000), "90");
    assert_eq!(didl_duration(3_723_004), "1:02:03");
    assert!(is_uhd(Some(3840), None) && !is_uhd(Some(1920), Some(1080)));
    assert_eq!(xml_escape("a<b & \"c\""), "a&lt;b &amp; &quot;c&quot;");
}

// ------------------------------------------------------------------ profiles

#[test]
fn a_first_release_database_gains_the_dismissed_column() {
    let conn = rusqlite::Connection::open_in_memory().unwrap();
    conn.execute_batch(&SCHEMA.replace("    dismissed   INTEGER NOT NULL DEFAULT 0,\n", ""))
        .unwrap();
    let columns = |conn: &rusqlite::Connection| -> Vec<String> {
        let mut stmt = conn.prepare("SELECT name FROM pragma_table_info('watch')").unwrap();
        let names = stmt.query_map([], |r| r.get(0)).unwrap();
        names.map(|n| n.unwrap()).collect()
    };
    let sql = upgrade(&columns(&conn)).expect("the column is missing");
    conn.execute_batch(sql).unwrap();
    assert!(upgrade(&columns(&conn)).is_none(), "idempotent");
    conn.execute("INSERT INTO profiles (id, name, created_at) VALUES (1, 'x', 0)", []).unwrap();
    conn.execute(
        "INSERT INTO watch (profile_id, key, file_id, position_ms, watched, updated_at) VALUES (1, 'k', 1, 0, 1, 0)",
        [],
    )
    .unwrap();
    let dismissed: bool =
        conn.query_row("SELECT dismissed FROM watch", [], |r| r.get(0)).unwrap();
    assert!(!dismissed);
}

#[test]
fn keys_identify_programs_not_files() {
    let a = key(MediaKind::Tv, 1, Some("Curb Your Enthusiasm"), Some(2), Some(8), "x", None);
    let b = key(MediaKind::Tv, 99, Some("curb your enthusiasm "), Some(2), Some(8), "y", None);
    assert_eq!(a, b);
    assert_eq!(
        key(MediaKind::Tv, 7, Some("Show"), Some(1), None, "Special", None).as_deref(),
        Some("f|7")
    );
    assert_eq!(
        key(MediaKind::Movies, 3, None, None, None, "Heat", Some(1995)).as_deref(),
        Some("mv|heat|1995")
    );
    // The same movie however a listing dressed its title.
    for shown in ["Heat (1995)", "8.3 · Heat", "8.3 · Heat (1995)", "  Heat "] {
        assert_eq!(
            key(MediaKind::Movies, 3, None, None, None, shown, Some(1995)).as_deref(),
            Some("mv|heat|1995"),
            "{shown}"
        );
    }
    assert_eq!(
        key(MediaKind::Movies, 3, None, None, None, "2001 (1968)", None).as_deref(),
        Some("mv|2001 (1968)|")
    );
    assert_eq!(
        key(MediaKind::Movies, 3, None, None, None, "Se7en · Remastered", None).as_deref(),
        Some("mv|se7en · remastered|")
    );
    assert_eq!(key(MediaKind::Music, 3, None, None, None, "Song", None), None);
}

#[test]
fn positions_finish_near_the_end_and_ticks_reset() {
    assert_eq!(profile_name(" Dennis ").unwrap(), "Dennis");
    assert!(matches!(profile_name("  "), Err(NameError::Empty)));
    assert!(matches!(profile_name(&"x".repeat(41)), Err(NameError::TooLong)));

    let k = "tv|s|1|1";
    let row = set_position(&None, k, 10, 600_000, Some(1_500_000), 100);
    assert!(row.in_progress() && row.position_ms == 600_000 && row.file_id == 10);

    // Leaving during the credits is finishing.
    let row = set_position(&Some(row), k, 11, 1_450_000, Some(1_500_000), 101);
    assert!(row.watched && row.position_ms == 0 && row.file_id == 11);

    // Rewatching part-way keeps the tick but records the spot.
    let row = set_position(&Some(row), k, 11, 300_000, None, 102);
    assert!(row.watched && row.position_ms == 300_000 && row.duration_ms == Some(1_500_000));

    let mut row = set_seen(&Some(row), k, 11, false, 103);
    assert!(!row.watched && row.position_ms == 0);

    // Dismissing flags it; so does dismissing its series, every episode.
    dismiss(&mut row);
    assert!(row.dismissed && row.updated_at == 103);
    row.dismissed = false;
    let other = set_seen(&None, "tv|s|1|2", 12, true, 103);
    let film = set_seen(&None, "mv|s|1995", 13, true, 103);
    let mut rows = vec![row, other, film];
    dismiss_series(&mut rows, "S");
    assert!(rows[0].dismissed && rows[1].dismissed && !rows[2].dismissed);

    // The next report clears that.
    let row = set_position(&Some(rows.remove(0)), k, 11, 1000, None, 104);
    assert!(!row.dismissed);
    assert_eq!(row.updated_at, 104);
}

#[test]
fn cookie_and_dates() {
    let lines = |s: &str| vec![s.to_string()];
    assert_eq!(cookie_profile_id(&lines("autonext=1; profile=42; cc=0")), Some(42));
    assert_eq!(cookie_profile_id(&lines("profile=abc")), None);
    assert_eq!(ymd(0), "1970-01-01");
    assert_eq!(ymd(1_789_430_400), "2026-09-15");
    let now = 1_789_430_400;
    assert_eq!(mediaserver::server::profiles::when(now, now - 10), "just now");
    assert_eq!(mediaserver::server::profiles::when(now, now - 100_000), "yesterday");
    assert_eq!(civil(-1), (1969, 12, 31));
    assert_eq!(civil(11_016), (2000, 2, 29));
    assert!(set_cookie(Some(42)).starts_with("profile=42"));
    assert!(set_cookie(None).starts_with("profile="));
}

// ---------------------------------------------------------------------- soap

#[test]
fn param_reassembles_text_around_references() {
    let body = r#"<s:Envelope xmlns:s="x"><s:Body><u:Search xmlns:u="y">            <ContainerID>0</ContainerID>            <SearchCriteria> dc:title contains "Tom &amp; Jerry" &#x26; &#38; more </SearchCriteria>            <Filter><![CDATA[a<b]]></Filter><Empty/><Blank></Blank>            <Custom>&nope;</Custom></u:Search></s:Body></s:Envelope>"#;
    assert_eq!(
        param(body, "SearchCriteria").as_deref(),
        Some(r#"dc:title contains "Tom & Jerry" & & more"#)
    );
    assert_eq!(param(body, "Filter").as_deref(), Some("a<b"));
    assert_eq!(param(body, "Empty").as_deref(), Some(""));
    assert_eq!(param(body, "Blank").as_deref(), Some(""));
    assert_eq!(param(body, "Custom").as_deref(), Some("&nope;"));
    assert_eq!(param(body, "Missing"), None);
    assert_eq!(param("<broken", "Filter"), None);
    assert_eq!(param("", "Filter"), None);
}

#[test]
fn actions_are_answered() {
    let header = "\"urn:schemas-upnp-org:service:ContentDirectory:1#Browse\"";
    assert_eq!(action_from_header(header).as_deref(), Some("Browse"));
    assert_eq!(action(Some(header)), "Browse");
    assert_eq!(action(None), "");
    assert!(matches!(cds_control("Browse", 1), CdsAction::Browse));
    assert!(matches!(cds_control("Search", 1), CdsAction::Search));
    match cds_control("GetSystemUpdateID", 7) {
        CdsAction::Answered(a) => {
            assert!(!a.fault);
            assert!(a.body.contains("<Id>7</Id>"));
        }
        other => panic!("{other:?}"),
    }
    match cds_control("CreateObject", 7) {
        CdsAction::Answered(a) => {
            assert!(a.fault);
            assert!(a.body.contains("<errorCode>401</errorCode>"));
        }
        other => panic!("{other:?}"),
    }
    let info = cms_control("GetProtocolInfo");
    assert!(info.body.contains("<Source>http-get:*:audio/aac:*,http-get:*:audio/aiff:*,"));
    assert_eq!(info.body.matches("video/mp4").count(), 1);
    assert!(cms_control("GetCurrentConnectionIDs").body.contains("<ConnectionIDs>0<"));
    assert!(cms_control("PrepareForConnection").fault);
    assert!(fault(701, "a<b").contains("a&lt;b"));
    assert!(envelope("urn:x", "Go", &vec![("A", "1".to_string())])
        .contains("<u:GoResponse xmlns:u=\"urn:x\"><A>1</A></u:GoResponse>"));
}

#[test]
fn requests_are_read() {
    let body = "<Browse><ObjectID>mv:year:1995</ObjectID><BrowseFlag>BrowseMetadata</BrowseFlag><StartingIndex>2</StartingIndex><RequestedCount>x</RequestedCount></Browse>";
    let q = browse_request(body).unwrap();
    assert!(matches!(q.oid, ObjectId::MoviesYear(1995)));
    assert_eq!((q.metadata, q.start, q.count), (true, 2, 0));
    let q = browse_request("<Browse/>").unwrap();
    assert!(matches!(q.oid, ObjectId::Root) && !q.metadata);
    assert!(browse_request("<B><ObjectID>bogus</ObjectID></B>").is_none());
    let q = search_request(
        "<S><ContainerID>mu</ContainerID><SearchCriteria>dc:title contains \"Blue\"</SearchCriteria></S>",
    )
    .unwrap();
    assert!(matches!(q.scope, ObjectId::Music));
    assert_eq!(q.terms, vec!["blue".to_string()]);
    assert!(search_request("<S><ContainerID>bogus</ContainerID></S>").is_none());
}

#[test]
fn pages_make_up_the_list() {
    let list = || (0..5).collect::<Vec<i32>>();
    assert_eq!(window(list(), 0, 2), vec![0, 1]);
    assert_eq!(window(list(), 2, 2), vec![2, 3]);
    assert_eq!(window(list(), 4, 2), vec![4]);
    assert_eq!(window(list(), 9, 2), Vec::<i32>::new());
    assert_eq!(window(list(), 1, 0), vec![1, 2, 3, 4]);
    assert_eq!(window(list(), 1, usize::MAX), vec![1, 2, 3, 4]);
}

// ---------------------------------------------------------------------- tree

fn film(id: i64, title: &str, year: i64) -> BrowseItem {
    let mut b =
        BrowseItem::new(id, MediaKind::Movies, title.into(), "video/mp4".into(), 1000);
    b.year = Some(year);
    b
}

fn ids(entries: &Vec<Entry>) -> Vec<String> {
    entries
        .iter()
        .map(|e| match e {
            Entry::Container { id, .. } => id.clone(),
            Entry::Item { id, .. } => id.clone(),
        })
        .collect()
}

#[test]
fn ids_round_trip() {
    let all: Vec<ObjectId> = vec![
        ObjectId::Root,
        ObjectId::MoviesYear(1995),
        ObjectId::MoviesFranchise("Alien: ☆".into()),
        ObjectId::MusicAlbum { artist: "A:B".into(), album: "".into() },
        ObjectId::TvSeason { series: "Show".into(), season: -1 },
        ObjectId::Dir { root_id: 3, rel_dir: "a/b".into() },
        ObjectId::Item(9),
    ];
    for o in &all {
        let id = o.to_id();
        let back = ObjectId::parse(&id).expect(&id);
        assert_eq!(back.to_id(), id);
    }
    assert!(ObjectId::parse("nope").is_none());
    assert_eq!(ObjectId::<String>::Root.to_id(), "0");
}

#[test]
fn the_tree_is_walked() {
    let roots = vec![
        Root { id: 1, path: "/m".into(), kind: MediaKind::Movies },
        Root { id: 2, path: "/t".into(), kind: MediaKind::Tv },
    ];
    let top = browse_children(&ObjectId::Root, Rows::Roots(roots));
    assert_eq!(ids(&top), vec!["mv".to_string(), "tv".to_string()]);
    let year = browse_children(&ObjectId::MoviesYear(1995), Rows::Items(vec![film(7, "Heat", 1995)]));
    match &year[0] {
        Entry::Item { id, parent, item } => {
            assert_eq!((id.as_str(), parent.as_str()), ("it:7", "mv:year:1995"));
            assert_eq!(item.file_id, 7);
        }
        other => panic!("{other:?}"),
    }
    assert!(browse_metadata(&ObjectId::Movies, Known::Nothing).is_ok());
    assert!(browse_metadata(&ObjectId::Item(7), Known::Nothing).is_err());

    let reply = children_reply(year, 0, 0, "http://h:1", 9);
    assert!(!reply.fault);
    assert!(reply.body.contains("<TotalMatches>1</TotalMatches>"));
    assert!(reply.body.contains("&lt;dc:title&gt;Heat&lt;/dc:title&gt;"));
    let one = browse_metadata(&ObjectId::Movies, Known::Nothing).unwrap();
    assert!(metadata_reply(one, "http://h:1", 9).body.contains("<UpdateID>9</UpdateID>"));
    let found = search_reply(&ObjectId::Movies, vec![film(7, "Heat", 1995)], 0, 1, "http://h:1", 9);
    assert!(found.body.contains("<NumberReturned>1</NumberReturned>"));
    let didl = render(&entries_for(&ObjectId::Movies, vec![film(7, "Heat", 1995)]), "http://h:1");
    assert!(didl.contains("http://h:1/media/7"));
}

#[test]
fn branches_are_counted() {
    let tally = Tally::ByName(vec![("Show".to_string(), 3), ("Other".to_string(), 2)]);
    let counts = compute(&ObjectId::MoviesByFranchise, &tally, 25);
    let key = canon(&ObjectId::MoviesFranchise("SHOW".into()));
    assert_eq!(counts.get(&key), Some(3));
    let mut cache = Cache::new();
    assert_eq!(cache.lookup(1, &ObjectId::MoviesByFranchise), None);
    cache.store(&ObjectId::MoviesByFranchise, counts);
    assert!(cache.lookup(1, &ObjectId::MoviesByFranchise).is_some());
    assert_eq!(cache.lookup(2, &ObjectId::MoviesByFranchise), None);
}

// -------------------------------------------------------------------- search

#[test]
fn searches_find_every_word() {
    let items = vec![film(1, "Blue Velvet", 1986), film(2, "Velvet Goldmine", 1998)];
    let terms = query_terms("  velvet BLUE ");
    assert_eq!(terms, vec!["blue".to_string(), "velvet".to_string()]);
    let found = search_scope(items, &terms, ClassFilter::Any);
    assert_eq!(found.iter().map(|i| i.file_id).collect::<Vec<_>>(), vec![1]);
    assert!(search_scope(vec![film(1, "x", 1)], &query_terms("x"), ClassFilter::Audio).is_empty());
    let many: String = (0..40).map(|i| format!("w{i} ")).collect();
    assert_eq!(query_terms(&many).len(), MAX_TERMS);
    let (terms, class) = parse_search_criteria(
        "upnp:class derivedfrom \"object.item.videoItem\" and dc:title contains \"Heat\"",
    );
    assert_eq!((terms, class), (vec!["heat".to_string()], ClassFilter::Video));
    let nested = vec![
        Found::Item(film(1, "a", 1)),
        Found::Below(vec![Found::Item(film(2, "b", 1)), Found::Item(film(1, "a", 1))]),
    ];
    assert_eq!(
        flatten_items(nested).iter().map(|i| i.file_id).collect::<Vec<_>>(),
        vec![1, 2]
    );
}

#[test]
fn playlists_are_written() {
    let mut heat = film(7, "Heat\nLine", 1995);
    heat.duration_ms = Some(61_000);
    let m3u = render_m3u("http://h:1", &vec![heat]);
    assert!(m3u.starts_with("#EXTM3U\n"));
    assert!(m3u.contains("#EXTINF:61,"));
    assert!(m3u.ends_with("http://h:1/media/7\n"));
    assert!(!m3u.contains("Heat\nLine"));
    assert!(matches!(playlist_section("movies.m3u"), Some(ObjectId::Movies)));
    assert!(playlist_section("games.m3u").is_none());
    let mut e = ep(1, 1, 2);
    e.title = "Pilot".into();
    assert!(playlist_title(&e).contains("S01E02"));
}

// --------------------------------------------------------------------- watch

fn ep(id: i64, season: i64, episode: i64) -> BrowseItem {
    let mut e =
        BrowseItem::new(id, MediaKind::Tv, format!("Ep {episode}"), "video/mp4".into(), 1);
    e.series = Some("Show".into());
    e.season = Some(season);
    e.episode = Some(episode);
    e
}

fn row(key: &str, watched: bool, position_ms: i64, updated_at: i64) -> (String, WatchRow) {
    (
        key.to_string(),
        WatchRow {
            key: key.to_string(),
            file_id: 0,
            position_ms,
            duration_ms: Some(940_000),
            watched,
            updated_at,
            dismissed: false,
        },
    )
}

#[test]
fn up_next_resumes_or_advances_across_seasons() {
    let eps = vec![ep(1, 1, 1), ep(2, 1, 2), ep(3, 2, 1)];
    assert!(up_next(&eps, &States::new()).is_none());

    // Part-way through S01E02: pick it up.
    let rows: States =
        vec![row("tv|show|1|1", true, 0, 10), row("tv|show|1|2", false, 500, 20)];
    let (next, r) = up_next(&eps, &rows).unwrap();
    assert_eq!((eps[next].file_id, r.is_some()), (2, true));

    // Finished S01E02 last: the first unseen after it is S02E01.
    let rows: States = vec![row("tv|show|1|1", true, 0, 10), row("tv|show|1|2", true, 0, 20)];
    let (next, r) = up_next(&eps, &rows).unwrap();
    assert_eq!((eps[next].file_id, r.is_none()), (3, true));

    // Everything after the latest is seen: nothing to offer.
    let rows: States = vec![row("tv|show|1|2", true, 0, 20), row("tv|show|2|1", true, 0, 5)];
    assert!(up_next(&eps, &rows).is_none());
}

#[test]
fn notes_and_tiles() {
    let now = 1_789_430_400;
    let (_, r) = row("k", false, 90_000, now - 30);
    assert_eq!(note(&r, now), "14:10 left · just now");
    let (_, r) = row("k", true, 0, now - 30);
    assert_eq!(note(&r, now), "watched just now");
    assert_eq!(initials("dennis forbes"), "DF");
    assert_eq!(initials("Émile"), "É");
    assert_eq!(tile_colour("a"), tile_colour("a"));
}

#[test]
fn what_was_begun_is_offered() {
    let now = 1_789_430_400;
    let recent = vec![Recent {
        row: row("mv|heat|1995", false, 90_000, now - 30).1,
        item: Some(film(7, "Heat", 1995)),
        rows: States::new(),
        episodes: Vec::new(),
    }];
    let html = continue_html(&recent, now);
    assert!(html.contains("Heat"), "{html}");
    assert_eq!(continue_html(&Vec::new(), now), "");
    assert_eq!(clock(3_723_000), "1:02:03");
    assert_eq!(resume_secs(Some(&row("k", false, 90_000, now).1)), Some(90));
    assert_eq!(resume_secs(None), None);
    assert!(chip_html(None).contains("/profiles"));
    assert!(picker_html(&Vec::new(), None, true).contains("/profiles/add"));
}

// ---------------------------------------------------------------- the pages

fn item_detail() -> ItemDetail {
    ItemDetail {
        file_id: 7,
        kind: MediaKind::Movies,
        title: "Heat & Dust".into(),
        rel_path: "Heat.mkv".into(),
        size: 1536,
        mime: "video/x-matroska".into(),
        container: Some("matroska".into()),
        duration_ms: Some(3_723_000),
        width: Some(3840),
        height: Some(2160),
        frame_rate: Some("23.976".into()),
        video_codec: Some("hevc".into()),
        audio_codec: Some("aac".into()),
        audio_profile: None,
        audio_bitrate: Some(192),
        audio_sample_rate: Some(48_000),
        audio_bit_depth: None,
        audio_channels: Some(6),
        added_at_text: "2026-01-02".into(),
        has_art: true,
        year: Some(1995),
        rating: Some(Score { micros: 8_300_000, label: "8.3".into() }),
        plot: Some("A <plot>.".into()),
        genre: Some("Crime".into()),
        director: None,
        artist: None,
        album: None,
        track_no: None,
        series: None,
        season: None,
        episode: None,
        imdb_id: Some("tt0113277".into()),
        collection: Some("Mann".into()),
        album_artist: None,
    }
}

#[test]
fn an_item_page_tells_all() {
    let page = |user_agent: &str| {
        item_page(&ItemPage {
            id: 7,
            detail: item_detail(),
            genres: vec![(3, "Crime".into())],
            directors: Vec::new(),
            sample_rate: Some("48".into()),
            user_agent: user_agent.into(),
            prev: None,
            next: None,
            base: "http://h:1".into(),
            site: "Server".into(),
        })
    };
    let html = page("Mozilla/5.0 Firefox/140.0");
    assert!(html.contains("Heat &amp; Dust (1995)"));
    assert!(html.contains("<a href=\"/browse/mv:genre:3\">Crime</a>"));
    assert!(html.contains("3840 × 2160 @ 23.976 fps"));
    assert!(html.contains("<td>5.1</td>"));
    assert!(html.contains("48 kHz"));
    assert!(html.contains("1.50 KB"));
    assert!(html.contains("an MKV with HEVC video, which Firefox likely cannot play"));
    assert!(!page("Mozilla/5.0 Chrome/140.0 Safari/537.36").contains("likely cannot play"));
    assert_eq!(problem("x Safari/1", true, false), Some(("an MKV file", "Safari")));
    assert_eq!(problem("x Safari/1 Chrome/2", true, true), None);
}

#[test]
fn a_player_page_plays() {
    let html = play_page(&PlayPage {
        id: 7,
        detail: item_detail(),
        mime: "video/x-matroska".into(),
        prev: None,
        next: None,
        segments: vec![Segment { kind: SegmentKind::Intro, start_ms: 500, end_ms: 61_000 }],
        subs: Subs::Instant,
        base: "http://h:1".into(),
        site: "Server".into(),
    });
    assert!(html.contains("[{&quot;kind&quot;:&quot;intro&quot;,&quot;start&quot;:0.5,&quot;end&quot;:61}]"));
    assert!(html.contains("<track kind=\"subtitles\" src=\"/subs/7.vtt\""));
    assert!(!html.contains("id=\"autonext\" checked"));
    assert!(info_card(7, &item_detail(), "").contains("IMDb 8.3"));
    assert!(captions_page(&item_detail()).contains("Captions — Heat &amp; Dust"));
    assert!(tab_title(&item_detail()).contains("Heat & Dust"));
}

#[test]
fn neighbours_are_mutual() {
    let eps = vec![ep(1, 1, 1), ep(2, 1, 2), ep(3, 2, 1)];
    assert_eq!(neighbours(&eps, 1), (None, Some(1)));
    assert_eq!(neighbours(&eps, 2), (Some(0), Some(2)));
    assert_eq!(neighbours(&eps, 3), (Some(1), None));
    assert_eq!(neighbours(&eps, 9), (None, None));
    assert_eq!(neighbour_label(MediaKind::Tv, Some(1), &eps[2]), "S2 01 - Ep 1");
    let nav = neighbour_nav_html(MediaKind::Tv, Some(1), Some(&eps[0]), None);
    assert!(nav.contains("« Prior episode: 01 - Ep 1"));
    assert_eq!(neighbour_nav_html(MediaKind::Tv, Some(1), None, None), "");
    assert!(tv_context_html("A & B", 1, 2).contains("A &amp; B</a> — "));
    assert!(matches!(siblings_of(&item_detail()), Siblings::Nobody));
    let mut song = item_detail();
    song.kind = MediaKind::Music;
    assert!(matches!(
        siblings_of(&song),
        Siblings::Album { artist, album } if artist == "Unknown Artist" && album == "Unknown Album"
    ));
}

#[test]
fn a_listing_page_lists() {
    let children = browse_children(&ObjectId::MoviesAll, Rows::Items(vec![film(7, "Heat", 1995)]));
    let counts = compute(&ObjectId::MoviesAll, &Tally::Nothing, 25);
    let html = browse_page(
        &BrowsePage {
            oid: "mv:all".into(),
            title: "All Movies".into(),
            parent: Some(Parent { id: "mv".into(), title: "Movies".into() }),
            art_item: None,
            children,
            about: About::Nothing,
            episodes: Vec::new(),
            base: "http://h:1".into(),
            site: "Server".into(),
        },
        &counts,
    );
    assert!(html.contains("/item/7"));
    assert!(html.contains("/browse/mv"));
    assert!(rating_chip(&Some(Score { micros: 7_500_000, label: "7.5".into() })).contains("#2e7d32"));
    assert_eq!(rating_chip(&None), "");
    assert!(listing_row(&film(7, "A<B", 1)).contains("A&lt;B"));
    assert!(search_page("0", "Library", "heat", false, &vec![film(7, "Heat", 1)]).contains("Heat"));
    assert_eq!(episode_grid_html(&Vec::new()), "");
    assert!(episode_grid_html(&vec![ep(1, 1, 1), ep(2, 1, 3)]).contains("<td></td>"));
}

// ------------------------------------------------------------------ security

#[test]
fn pages_are_sent_to_https() {
    let tls = TlsInfo { hostname: "media.example".into(), port: 443, redirect_pages: true };
    assert_eq!(tls.origin(), "https://media.example");
    assert_eq!(
        redirect(Some(&tls), "/item/7", "/item/7?x=1", true, false).as_deref(),
        Some("https://media.example/item/7?x=1")
    );
    assert_eq!(redirect(Some(&tls), "/media/7", "/media/7", true, false), None);
    assert_eq!(redirect(Some(&tls), "/item/7", "/item/7", true, true), None);
    assert_eq!(request_base_url("http://h:1", Some(&tls), Some("me:8443"), true), "https://me:8443");
    assert_eq!(request_base_url("http://h:1", Some(&tls), Some("me"), false), "http://h:1");
    assert_eq!(imdb_title_id("tt0113277"), Some("tt0113277"));
    assert_eq!(imdb_title_id("tt1<script>"), None);
    let policy = policy_for(&vec!["abc".to_string()]);
    assert!(policy.contains("'sha256-ungWv48Bz+pBQUDeXa4iI7ADYaOWF3qctBD/YfIAFa0='"), "{policy}");
    assert!(csp().is_some());
}

// ----------------------------------------------------------------- subtitles

#[test]
fn srt_becomes_vtt() {
    assert_eq!(
        srt_to_vtt("1\r\n00:00:01,000 --> 00:00:02,500\r\nOh, hi.\r\n"),
        "WEBVTT\n\n1\n00:00:01.000 --> 00:00:02.500\nOh, hi.\n"
    );
    assert_eq!(subs_id("42.vtt"), Some(42));
    assert_eq!(subs_id("42"), Some(42));
    assert_eq!(subs_id("x.vtt"), None);
    let at = |secs, nanos| Some(Moment { secs, nanos });
    assert!(fresh(at(5, 0), at(5, 0)) && fresh(at(5, 1), at(5, 0)));
    assert!(!fresh(at(4, 9), at(5, 0)) && !fresh(None, at(5, 0)));
    assert_eq!(text_sub_stream(false, &Vec::new()), Probed::Failed);
    assert_eq!(text_sub_stream(true, &Vec::new()), Probed::Nothing);
    let listing = b"[STREAM]\ncodec_name=hdmv_pgs_subtitle\n[/STREAM]\n[STREAM]\ncodec_name=subrip\n[/STREAM]\n";
    assert_eq!(text_sub_stream(true, &listing.to_vec()), Probed::Track(1));
    assert_eq!(extract_args("/m/a.mkv", 1)[6], "0:s:1");
    assert_eq!(subs_of(false, true, false, false), Subs::Instant);
    assert_eq!(subs_of(false, false, true, false), Subs::Extract);
    assert_eq!(subs_of(false, false, false, false), Subs::Missing);
}

// ----------------------------------------------------------------- discovery

#[test]
fn searches_are_answered() {
    let uuid = "1234";
    assert_eq!(targets(uuid).len(), 5);
    assert_eq!(targets(uuid)[4], ("uuid:1234".to_string(), "uuid:1234".to_string()));
    let search = |st: &str| format!("M-SEARCH * HTTP/1.1\r\nMAN: x\r\nST: {st}\r\n\r\n");
    assert_eq!(responses(&search("ssdp:all"), uuid, "http://h/d", SERVER_ID).len(), 5);
    let one = responses(&search("upnp:rootdevice"), uuid, "http://h/d", SERVER_ID);
    assert_eq!(one.len(), 1);
    assert!(one[0].contains("LOCATION: http://h/d\r\n"));
    assert!(one[0].contains("USN: uuid:1234::upnp:rootdevice\r\n"));
    assert!(responses("NOTIFY *", uuid, "http://h/d", SERVER_ID).is_empty());
    let bye = notify(uuid, "http://h/d", SERVER_ID, false);
    assert_eq!(bye.len(), 5);
    assert!(bye[0].contains("NTS: ssdp:byebye\r\n"));
    assert!(usable_address([192, 168, 1, 2]));
    assert!(!usable_address([127, 0, 0, 1]) && !usable_address([169, 254, 1, 1]));
}

#[test]
fn a_relay_says_goodbye_once() {
    assert_eq!(uuid_in("<UDN>uuid: 12 </UDN>").as_deref(), Some("12"));
    assert_eq!(uuid_in("<UDN>"), None);
    let mut relay = Relay::new();
    assert!(matches!(relay.checked(None), RelayStep::Quiet));
    assert!(matches!(
        relay.checked(Some("a".into())),
        RelayStep::Announce { news: true, .. }
    ));
    assert!(matches!(
        relay.checked(Some("a".into())),
        RelayStep::Announce { news: false, .. }
    ));
    assert!(matches!(relay.checked(None), RelayStep::Farewell(u) if u == "a"));
    assert!(matches!(relay.checked(None), RelayStep::Quiet));
}

#[test]
fn the_server_has_an_identity() {
    let kept = load_or_create_uuid(Some(" abc \n"));
    assert_eq!((kept.uuid.as_str(), kept.fresh), ("abc", false));
    let made = load_or_create_uuid(None);
    assert!(made.fresh);
    assert_eq!(made.uuid.len(), 36);
    assert_eq!(&made.uuid[14..15], "4");
    assert_ne!(made.uuid, load_or_create_uuid(Some("  ")).uuid);
    assert_eq!(advertised_ip(&Some("1.2.3.4".into()), "0.0.0.0", true).as_deref(), Some("1.2.3.4"));
    assert_eq!(advertised_ip(&None, "10.0.0.1", false).as_deref(), Some("10.0.0.1"));
    assert_eq!(advertised_ip(&None, "0.0.0.0", true), None);
    assert_eq!(location(&base_url("10.0.0.1", 8200)), "http://10.0.0.1:8200/device.xml");
    let mut updates = Updates::new();
    assert!(!updates.seen(5));
    assert!(!updates.seen(5));
    assert!(updates.seen(6));
    assert_eq!(updates.update_id, 2);
}

#[test]
fn the_player_reports_its_end_or_where_it_was_left() {
    let old = Some(row("m:heat:1995", false, 60_000, 100).1);
    let at = |event: &str, played: Option<i64>| {
        reported(event, &old, "m:heat:1995", 7, 120_000, played, Some(6_000_000), 200)
    };
    let ended = at("ended", None);
    assert!(ended.watched && ended.position_ms == 0 && ended.duration_ms == Some(6_000_000));
    let ticked = at("tick", Some(5_000_000));
    assert!(!ticked.watched && ticked.position_ms == 120_000);
    assert_eq!(ticked.duration_ms, Some(5_000_000));
    assert_eq!((ticked.file_id, ticked.updated_at), (7, 200));
}

#[test]
fn a_browser_lands_with_its_cookie() {
    let home = selected(Some(3));
    assert_eq!((home.cookie, home.to), (Some(set_cookie(Some(3))), "/"));
    let gone = selected(None);
    assert_eq!((gone.cookie, gone.to), (None, "/profiles"));
    assert_eq!(deleted(Some(3), 3).cookie, Some(set_cookie(None)));
    assert_eq!(deleted(Some(4), 3).cookie, None);
    assert_eq!(deleted(None, 3).to, "/profiles");
    assert_eq!(left().cookie, Some(set_cookie(None)));
}

#[test]
fn a_listing_row_carries_its_tick_and_note() {
    let heat = film(7, "Heat", 1995);
    let k = mediaserver::server::profiles::item_key(&heat).unwrap();
    let seen: States = vec![row(&k, true, 0, 100)];
    let (tick, span) = row_marks(&heat, Some(&seen), 100);
    assert!(tick.starts_with("<input type=\"checkbox\" data-seen=\"7\"") && tick.ends_with(" checked>"));
    assert!(span.starts_with("<span class=\"wnote\">watched") && span.ends_with("</span>"));
    let (tick, span) = row_marks(&heat, Some(&Vec::new()), 100);
    assert!(!tick.contains("checked>"));
    assert_eq!(span, "<span class=\"wnote\"></span>");
    assert_eq!(row_marks(&heat, None, 100), (String::new(), String::new()));
}

#[test]
fn subtitles_come_from_the_first_place_that_has_them() {
    let at = |secs: i64| Some(Moment { secs, nanos: 0 });
    let srt = b"1\n00:00:01,000 --> 00:00:02,000\nHi\n".to_vec();
    assert!(matches!(
        serve_subs(Look::Sidecar(Some(srt)), at(9), at(1)),
        Next::Serve(t) if t == "WEBVTT\n\n1\n00:00:01.000 --> 00:00:02.000\nHi\n"
    ));
    let noise = vec![0x80u8; 40];
    assert!(matches!(serve_subs(Look::Sidecar(Some(noise)), at(9), at(1)), Next::ReadCache));
    assert!(matches!(serve_subs(Look::Sidecar(None), at(9), at(9)), Next::ReadCache));
    assert!(matches!(serve_subs(Look::Sidecar(None), at(1), at(9)), Next::Extract));
    assert!(matches!(serve_subs(Look::Cache(None), at(9), at(1)), Next::Extract));
    assert!(matches!(
        serve_subs(Look::Cache(Some("kept".into())), at(9), at(1)),
        Next::Serve(t) if t == "kept"
    ));
    assert!(matches!(serve_subs(Look::Extraction(None), None, at(1)), Next::NotFound));
}

#[test]
fn numbered_episodes_have_keys_of_their_own() {
    let key_of = |series: &str, season: i64, episode: i64| {
        key(MediaKind::Tv, 1, Some(series), Some(season), Some(episode), "x", None).unwrap()
    };
    assert_eq!(key_of(" Show|1", 2, 3), "tv|show|1|2|3");
    assert_ne!(key_of("Show|1", 2, 3), key_of("Show", 1, 23));
    assert_ne!(key_of("Show", 1, 23), key_of("Show", 12, 3));
}
