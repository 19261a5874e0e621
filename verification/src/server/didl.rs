//! DIDL-Lite documents.
use vstd::prelude::*;
use crate::db::models::{BrowseItem, MediaKind, Rendition};
use crate::numbers;
use crate::server::tree::Entry;
use crate::text;

verus! {

/// A character as XML text.
pub open spec fn escaped_char(c: char) -> Seq<char> {
    if c == '&' {
        "&amp;"@
    } else if c == '<' {
        "&lt;"@
    } else if c == '>' {
        "&gt;"@
    } else if c == '"' {
        "&quot;"@
    } else if c == '\'' {
        "&apos;"@
    } else {
        seq![c]
    }
}

/// A text as XML text.
pub open spec fn escaped(s: Seq<char>) -> Seq<char>
    decreases s.len(),
{
    if s.len() == 0 {
        seq![]
    } else {
        escaped_char(s[0]) + escaped(s.skip(1))
    }
}

pub fn xml_escape(s: &str) -> (r: String)
    ensures
        r@ == escaped(s@),
{
    let v = text::chars_of(s);
    let mut out = String::new();
    let mut i: usize = 0;
    assert(s@.skip(0) =~= s@);
    assert(out@ + escaped(s@) =~= escaped(s@));
    while i < v.len()
        invariant
            i <= v.len(),
            v@ == s@,
            out@ + escaped(s@.skip(i as int)) == escaped(s@),
        decreases v.len() - i,
    {
        let c = v[i];
        let ghost before = out@;
        let ghost rest = s@.skip(i as int);
        assert(rest[0] == c);
        assert(rest.skip(1) =~= s@.skip(i + 1));
        if c == '&' {
            out.push_str("&amp;");
        } else if c == '<' {
            out.push_str("&lt;");
        } else if c == '>' {
            out.push_str("&gt;");
        } else if c == '"' {
            out.push_str("&quot;");
        } else if c == '\'' {
            out.push_str("&apos;");
        } else {
            out.push(c);
        }
        assert(out@ =~= before + escaped_char(c));
        assert(before + escaped(rest) =~= out@ + escaped(s@.skip(i + 1)));
        i += 1;
    }
    assert(s@.skip(i as int) =~= seq![]);
    assert(out@ + escaped(s@.skip(i as int)) =~= out@);
    out
}

/// DLNA duration format: H:MM:SS.
pub open spec fn duration_of(ms: int) -> Seq<char> {
    let secs = numbers::quotient(ms, 1000);
    text::decimal(numbers::quotient(secs, 3600)) + ":"@ + text::padded(
        numbers::quotient(numbers::remainder(secs, 3600), 60),
        2,
    ) + ":"@ + text::padded(numbers::remainder(secs, 60), 2)
}

/// DLNA duration format: H:MM:SS.
pub fn didl_duration(ms: i64) -> (r: String)
    ensures
        r@ == duration_of(ms as int),
{
    let secs: i64 = numbers::quot(ms, 1000);
    let mut out = text::dec(numbers::quot(secs, 3600));
    out.push_str(":");
    let m = text::dec_padded(numbers::quot(numbers::rem(secs, 3600), 60), 2);
    out.push_str(m.as_str());
    out.push_str(":");
    let s = text::dec_padded(numbers::rem(secs, 60), 2);
    out.push_str(s.as_str());
    out
}

pub open spec fn class_of(kind: MediaKind) -> Seq<char> {
    match kind {
        MediaKind::Movies => "object.item.videoItem.movie"@,
        MediaKind::Tv => "object.item.videoItem"@,
        MediaKind::Music => "object.item.audioItem.musicTrack"@,
    }
}

pub fn item_class(kind: MediaKind) -> (r: &'static str)
    ensures
        r@ == class_of(kind),
{
    match kind {
        MediaKind::Movies => "object.item.videoItem.movie",
        MediaKind::Tv => "object.item.videoItem",
        MediaKind::Music => "object.item.audioItem.musicTrack",
    }
}

/// protocolInfo fourth field: seek-by-byte-range supported, no conversion.
pub const DLNA_FEATURES: &'static str =
    "DLNA.ORG_OP=01;DLNA.ORG_CI=0;DLNA.ORG_FLAGS=01700000000000000000000000000000";

/// An element with this content.
pub open spec fn element(name: Seq<char>, content: Seq<char>) -> Seq<char> {
    "<"@ + name + ">"@ + content + "</"@ + name + ">"@
}

pub fn elem(name: &str, content: &str) -> (r: String)
    ensures
        r@ == element(name@, content@),
{
    let mut out = "<".to_owned();
    out.push_str(name);
    out.push_str(">");
    out.push_str(content);
    out.push_str("</");
    out.push_str(name);
    out.push_str(">");
    out
}

/// An element with this text, where there is one.
pub open spec fn opt_element(name: Seq<char>, content: Option<Seq<char>>) -> Seq<char> {
    match content {
        Some(c) => element(name, escaped(c)),
        None => seq![],
    }
}

fn opt_elem(name: &str, content: &Option<String>) -> (r: String)
    ensures
        r@ == opt_element(name@, text::opt_text(*content)),
{
    match content {
        Some(c) => {
            let e = xml_escape(c.as_str());
            elem(name, e.as_str())
        },
        None => {
            let s = String::new();
            assert(s@ =~= seq![]);
            s
        },
    }
}

pub open spec fn number_element(name: Seq<char>, n: Option<i64>, tail: Seq<char>) -> Seq<char> {
    match n {
        Some(n) => element(name, text::decimal(n as int) + tail),
        None => seq![],
    }
}

fn number_elem(name: &str, n: Option<i64>, tail: &str) -> (r: String)
    ensures
        r@ == number_element(name@, n, tail@),
{
    match n {
        Some(n) => {
            let mut c = text::dec(n);
            c.push_str(tail);
            elem(name, c.as_str())
        },
        None => {
            let s = String::new();
            assert(s@ =~= seq![]);
            s
        },
    }
}

/// The start tag of an entry.
pub open spec fn opened(tag: Seq<char>, id: Seq<char>, parent: Seq<char>, tail: Seq<char>) -> Seq<
    char,
> {
    "<"@ + tag + " id=\""@ + escaped(id) + "\" parentID=\""@ + escaped(parent)
        + "\" restricted=\"1\""@ + tail + ">"@
}

fn open_tag(tag: &str, id: &str, parent: &str, tail: &str) -> (r: String)
    ensures
        r@ == opened(tag@, id@, parent@, tail@),
{
    let mut out = "<".to_owned();
    out.push_str(tag);
    out.push_str(" id=\"");
    let id = xml_escape(id);
    out.push_str(id.as_str());
    out.push_str("\" parentID=\"");
    let parent = xml_escape(parent);
    out.push_str(parent.as_str());
    out.push_str("\" restricted=\"1\"");
    out.push_str(tail);
    out.push_str(">");
    out
}

/// The artwork of an entry.
pub open spec fn art_of(base_url: Seq<char>, file_id: Option<i64>) -> Seq<char> {
    match file_id {
        Some(id) => "<upnp:albumArtURI dlna:profileID=\"JPEG_TN\">"@ + base_url + "/art/"@
            + text::decimal(id as int) + "</upnp:albumArtURI>"@,
        None => seq![],
    }
}

fn art_elem(base_url: &str, file_id: Option<i64>) -> (r: String)
    ensures
        r@ == art_of(base_url@, file_id),
{
    match file_id {
        Some(id) => {
            let mut out = "<upnp:albumArtURI dlna:profileID=\"JPEG_TN\">".to_owned();
            out.push_str(base_url);
            out.push_str("/art/");
            let id = text::dec(id);
            out.push_str(id.as_str());
            out.push_str("</upnp:albumArtURI>");
            out
        },
        None => {
            let s = String::new();
            assert(s@ =~= seq![]);
            s
        },
    }
}

/// A resource: where the bytes of a rendition are, and what they are.
pub open spec fn resource(r: Rendition, base_url: Seq<char>) -> Seq<char> {
    "<res protocolInfo=\"http-get:*:"@ + r.mime@ + ":"@ + DLNA_FEATURES@ + "\" size=\""@
        + text::decimal(r.size as int) + "\""@ + (match r.duration_ms {
        Some(ms) => " duration=\""@ + duration_of(ms as int) + "\""@,
        None => seq![],
    }) + (match (r.width, r.height) {
        (Some(w), Some(h)) => " resolution=\""@ + text::decimal(w as int) + "x"@ + text::decimal(
            h as int,
        ) + "\""@,
        _ => seq![],
    }) + ">"@ + base_url + "/media/"@ + text::decimal(r.file_id as int) + "</res>"@
}

fn render_res(r: &Rendition, base_url: &str) -> (out: String)
    ensures
        out@ == resource(*r, base_url@),
{
    let mut out = "<res protocolInfo=\"http-get:*:".to_owned();
    out.push_str(r.mime.as_str());
    out.push_str(":");
    out.push_str(DLNA_FEATURES);
    out.push_str("\" size=\"");
    let size = text::dec(r.size);
    out.push_str(size.as_str());
    out.push_str("\"");
    let mut duration = String::new();
    assert(duration@ =~= seq![]);
    if let Some(ms) = r.duration_ms {
        duration = " duration=\"".to_owned();
        let d = didl_duration(ms);
        duration.push_str(d.as_str());
        duration.push_str("\"");
    }
    out.push_str(duration.as_str());
    let mut resolution = String::new();
    assert(resolution@ =~= seq![]);
    if let (Some(w), Some(h)) = (r.width, r.height) {
        resolution = " resolution=\"".to_owned();
        let w = text::dec(w);
        resolution.push_str(w.as_str());
        resolution.push_str("x");
        let h = text::dec(h);
        resolution.push_str(h.as_str());
        resolution.push_str("\"");
    }
    out.push_str(resolution.as_str());
    out.push_str(">");
    out.push_str(base_url);
    out.push_str("/media/");
    let id = text::dec(r.file_id);
    out.push_str(id.as_str());
    out.push_str("</res>");
    out
}

pub open spec fn resources(rs: Seq<Rendition>, base_url: Seq<char>) -> Seq<char>
    decreases rs.len(),
{
    if rs.len() == 0 {
        seq![]
    } else {
        resources(rs.drop_last(), base_url) + resource(rs.last(), base_url)
    }
}

fn render_all(rs: &Vec<Rendition>, base_url: &str) -> (r: String)
    ensures
        r@ == resources(rs@, base_url@),
{
    let mut out = String::new();
    assert(out@ =~= seq![]);
    assert(rs@.take(0) =~= seq![]);
    let mut i: usize = 0;
    while i < rs.len()
        invariant
            i <= rs.len(),
            out@ == resources(rs@.take(i as int), base_url@),
        decreases rs.len() - i,
    {
        assert(rs@.take(i + 1).drop_last() =~= rs@.take(i as int));
        let res = render_res(&rs[i], base_url);
        out.push_str(res.as_str());
        i += 1;
    }
    assert(rs@.take(i as int) =~= rs@);
    out
}

/// What says who and where an item is from.
pub open spec fn credits(item: BrowseItem) -> Seq<char> {
    number_element("dc:date"@, item.year, "-01-01"@) + opt_element(
        "upnp:genre"@,
        text::opt_text(item.genre),
    ) + opt_element("upnp:director"@, text::opt_text(item.director)) + opt_element(
        "upnp:artist"@,
        text::opt_text(item.artist),
    ) + opt_element("dc:creator"@, text::opt_text(item.artist)) + opt_element(
        "upnp:album"@,
        text::opt_text(item.album),
    ) + number_element("upnp:originalTrackNumber"@, item.track_no, ""@) + opt_element(
        "upnp:seriesTitle"@,
        text::opt_text(item.series),
    ) + number_element("upnp:episodeNumber"@, item.episode, ""@)
}

fn render_credits(item: &BrowseItem) -> (r: String)
    ensures
        r@ == credits(*item),
{
    let mut out = number_elem("dc:date", item.year, "-01-01");
    let genre = opt_elem("upnp:genre", &item.genre);
    out.push_str(genre.as_str());
    let director = opt_elem("upnp:director", &item.director);
    out.push_str(director.as_str());
    let artist = opt_elem("upnp:artist", &item.artist);
    out.push_str(artist.as_str());
    let creator = opt_elem("dc:creator", &item.artist);
    out.push_str(creator.as_str());
    let album = opt_elem("upnp:album", &item.album);
    out.push_str(album.as_str());
    let track_no = number_elem("upnp:originalTrackNumber", item.track_no, "");
    out.push_str(track_no.as_str());
    let series = opt_elem("upnp:seriesTitle", &item.series);
    out.push_str(series.as_str());
    let episode = number_elem("upnp:episodeNumber", item.episode, "");
    out.push_str(episode.as_str());
    out
}

/// The file whose artwork an item shows.
pub open spec fn art_file(item: BrowseItem) -> Option<i64> {
    if item.has_art {
        Some(
            match item.art_file_id {
                Some(id) => id,
                None => item.file_id,
            },
        )
    } else {
        None
    }
}

/// An item, its primary rendition first: naive clients that only read the
/// first <res> get the best quality.
pub open spec fn item_entry(
    id: Seq<char>,
    parent: Seq<char>,
    item: BrowseItem,
    base_url: Seq<char>,
) -> Seq<char> {
    opened("item"@, id, parent, ""@) + element("dc:title"@, escaped(item.title@)) + element(
        "upnp:class"@,
        class_of(item.kind),
    ) + credits(item) + art_of(base_url, art_file(item)) + resource(item.primary(), base_url)
        + resources(item.renditions@, base_url) + "</item>"@
}

fn render_item(id: &str, parent: &str, item: &BrowseItem, base_url: &str) -> (r: String)
    ensures
        r@ == item_entry(id@, parent@, *item, base_url@),
{
    let mut out = open_tag("item", id, parent, "");
    let title = xml_escape(item.title.as_str());
    let title = elem("dc:title", title.as_str());
    out.push_str(title.as_str());
    let class = elem("upnp:class", item_class(item.kind));
    out.push_str(class.as_str());
    let credits = render_credits(item);
    out.push_str(credits.as_str());
    let art = if item.has_art {
        art_elem(
            base_url,
            Some(
                match item.art_file_id {
                    Some(id) => id,
                    None => item.file_id,
                },
            ),
        )
    } else {
        art_elem(base_url, None)
    };
    out.push_str(art.as_str());
    let primary = item.primary_rendition();
    let res = render_res(&primary, base_url);
    out.push_str(res.as_str());
    let others = render_all(&item.renditions, base_url);
    out.push_str(others.as_str());
    out.push_str("</item>");
    out
}

pub open spec fn container_entry(
    id: Seq<char>,
    parent: Seq<char>,
    title: Seq<char>,
    class: Seq<char>,
    art_item: Option<i64>,
    base_url: Seq<char>,
) -> Seq<char> {
    opened("container"@, id, parent, " searchable=\"1\""@) + element("dc:title"@, escaped(title))
        + element("upnp:class"@, class) + art_of(base_url, art_item) + "</container>"@
}

fn render_container(
    id: &str,
    parent: &str,
    title: &str,
    class: &str,
    art_item: Option<i64>,
    base_url: &str,
) -> (r: String)
    ensures
        r@ == container_entry(id@, parent@, title@, class@, art_item, base_url@),
{
    let mut out = open_tag("container", id, parent, " searchable=\"1\"");
    let title = xml_escape(title);
    let title = elem("dc:title", title.as_str());
    out.push_str(title.as_str());
    let class = elem("upnp:class", class);
    out.push_str(class.as_str());
    let art = art_elem(base_url, art_item);
    out.push_str(art.as_str());
    out.push_str("</container>");
    out
}

pub open spec fn rendered(e: Entry, base_url: Seq<char>) -> Seq<char> {
    match e {
        Entry::Container { id, parent, title, class, art_item } => container_entry(
            id@,
            parent@,
            title@,
            class@,
            art_item,
            base_url,
        ),
        Entry::Item { id, parent, item } => item_entry(id@, parent@, item, base_url),
    }
}

pub open spec fn all_rendered(es: Seq<Entry>, base_url: Seq<char>) -> Seq<char>
    decreases es.len(),
{
    if es.len() == 0 {
        seq![]
    } else {
        all_rendered(es.drop_last(), base_url) + rendered(es.last(), base_url)
    }
}

pub const DIDL_START: &'static str =
    "<DIDL-Lite xmlns=\"urn:schemas-upnp-org:metadata-1-0/DIDL-Lite/\" xmlns:dc=\"http://purl.org/dc/elements/1.1/\" xmlns:upnp=\"urn:schemas-upnp-org:metadata-1-0/upnp/\" xmlns:dlna=\"urn:schemas-dlna-org:metadata-1-0/\">";

/// Render entries as a DIDL-Lite document.
pub fn render(entries: &Vec<Entry>, base_url: &str) -> (r: String)
    ensures
        r@ == DIDL_START@ + all_rendered(entries@, base_url@) + "</DIDL-Lite>"@,
{
    let mut inner = String::new();
    assert(inner@ =~= seq![]);
    assert(entries@.take(0) =~= seq![]);
    let mut i: usize = 0;
    while i < entries.len()
        invariant
            i <= entries.len(),
            inner@ == all_rendered(entries@.take(i as int), base_url@),
        decreases entries.len() - i,
    {
        assert(entries@.take(i + 1).drop_last() =~= entries@.take(i as int));
        let one = match &entries[i] {
            Entry::Container { id, parent, title, class, art_item } => render_container(
                id.as_str(),
                parent.as_str(),
                title.as_str(),
                class,
                *art_item,
                base_url,
            ),
            Entry::Item { id, parent, item } => render_item(
                id.as_str(),
                parent.as_str(),
                item,
                base_url,
            ),
        };
        inner.push_str(one.as_str());
        i += 1;
    }
    assert(entries@.take(i as int) =~= entries@);
    let mut out = DIDL_START.to_owned();
    out.push_str(inner.as_str());
    out.push_str("</DIDL-Lite>");
    out
}

// -------------------------------------------------------------------- laws

pub open spec fn markup(c: char) -> bool {
    c == '<' || c == '>' || c == '"' || c == '\''
}

proof fn lemma_entities()
    ensures
        "&amp;"@ == seq!['&', 'a', 'm', 'p', ';'],
        "&lt;"@ == seq!['&', 'l', 't', ';'],
        "&gt;"@ == seq!['&', 'g', 't', ';'],
        "&quot;"@ == seq!['&', 'q', 'u', 'o', 't', ';'],
        "&apos;"@ == seq!['&', 'a', 'p', 'o', 's', ';'],
{
    reveal_strlit("&amp;");
    reveal_strlit("&lt;");
    reveal_strlit("&gt;");
    reveal_strlit("&quot;");
    reveal_strlit("&apos;");
    assert("&amp;"@ =~= seq!['&', 'a', 'm', 'p', ';']);
    assert("&lt;"@ =~= seq!['&', 'l', 't', ';']);
    assert("&gt;"@ =~= seq!['&', 'g', 't', ';']);
    assert("&quot;"@ =~= seq!['&', 'q', 'u', 'o', 't', ';']);
    assert("&apos;"@ =~= seq!['&', 'a', 'p', 'o', 's', ';']);
}

/// Escaped text holds no character of markup, so whatever a title holds, it
/// cannot end the element or the attribute that it stands in.
pub proof fn escaped_text_is_no_markup(s: Seq<char>)
    ensures
        forall|i: int| 0 <= i < escaped(s).len() ==> !markup(#[trigger] escaped(s)[i]),
    decreases s.len(),
{
    if s.len() > 0 {
        escaped_text_is_no_markup(s.skip(1));
        lemma_entities();
        let head = escaped_char(s[0]);
        let tail = escaped(s.skip(1));
        assert forall|i: int| 0 <= i < escaped(s).len() implies !markup(
            #[trigger] escaped(s)[i],
        ) by {
            if i >= head.len() {
                assert(escaped(s)[i] == tail[i - head.len()]);
            } else {
                assert(escaped(s)[i] == head[i]);
            }
        }
    }
}

/// The text that escaped text stands for.
pub open spec fn unescaped(s: Seq<char>) -> Seq<char>
    decreases s.len(),
{
    if s.len() == 0 {
        seq![]
    } else if text::begins(s, seq!['&', 'a', 'm', 'p', ';']) {
        seq!['&'] + unescaped(s.skip(5))
    } else if text::begins(s, seq!['&', 'l', 't', ';']) {
        seq!['<'] + unescaped(s.skip(4))
    } else if text::begins(s, seq!['&', 'g', 't', ';']) {
        seq!['>'] + unescaped(s.skip(4))
    } else if text::begins(s, seq!['&', 'q', 'u', 'o', 't', ';']) {
        seq!['"'] + unescaped(s.skip(6))
    } else if text::begins(s, seq!['&', 'a', 'p', 'o', 's', ';']) {
        seq!['\''] + unescaped(s.skip(6))
    } else {
        seq![s[0]] + unescaped(s.skip(1))
    }
}

/// What was escaped can be read back, whatever it was.
pub proof fn escaping_loses_nothing(s: Seq<char>)
    ensures
        unescaped(escaped(s)) == s,
    decreases s.len(),
{
    if s.len() > 0 {
        escaping_loses_nothing(s.skip(1));
        lemma_entities();
        let head = escaped_char(s[0]);
        let tail = escaped(s.skip(1));
        let all = escaped(s);
        assert(all == head + tail);
        assert(all.skip(head.len() as int) =~= tail);
        assert(all.take(head.len() as int) =~= head);
        assert(all[0] == head[0]);
        if head.len() > 1 {
            assert(all[1] == head[1] && all[2] == head[2] && all[3] == head[3]);
        }
        assert(text::begins(all, head)) by {
            assert(all.subrange(0, head.len() as int) =~= head);
        }
        assert(seq![s[0]] + s.skip(1) =~= s);
    } else {
        assert(s =~= seq![]);
    }
}

/// A duration is given in hours, minutes and seconds; what is less than a
/// second does not count.
pub proof fn durations_are_clock_times(h: int, m: int, s: int, rest: int)
    requires
        0 <= h,
        0 <= m < 60,
        0 <= s < 60,
        0 <= rest < 1000,
    ensures
        duration_of(1000 * (3600 * h + 60 * m + s) + rest) == text::decimal(h) + ":"@
            + text::padded(m, 2) + ":"@ + text::padded(s, 2),
{
    let ms = 1000 * (3600 * h + 60 * m + s) + rest;
    let secs = 3600 * h + 60 * m + s;
    assert(ms / 1000 == secs);
    assert(secs / 3600 == h);
    assert(secs % 3600 == 60 * m + s);
    assert((60 * m + s) / 60 == m);
    assert(secs % 60 == s) by {
        assert(secs == 60 * (60 * h + m) + s);
    }
}

/// An item shows the artwork of the file that has it: the one that it names,
/// else its own; without artwork it shows none.
pub proof fn artwork_comes_from_its_file(item: BrowseItem)
    ensures
        !item.has_art ==> art_file(item) is None,
        item.has_art && item.art_file_id is Some ==> art_file(item) == item.art_file_id,
        item.has_art && item.art_file_id is None ==> art_file(item) == Some(item.file_id),
{
}

/// The resources of an item stand in the order of its renditions.
pub proof fn resources_keep_their_order(a: Seq<Rendition>, r: Rendition, base: Seq<char>)
    ensures
        resources(seq![], base).len() == 0,
        resources(a.push(r), base) == resources(a, base) + resource(r, base),
        resources(seq![r] + a, base) == resource(r, base) + resources(a, base),
    decreases a.len(),
{
    assert(a.push(r).drop_last() =~= a);
    let s = seq![r] + a;
    if a.len() == 0 {
        assert(s.drop_last() =~= Seq::<Rendition>::empty());
        assert(s.last() == r);
        assert(resources(s, base) == resources(s.drop_last(), base) + resource(r, base));
        assert(Seq::<char>::empty() + resource(r, base) =~= resource(r, base)
            + Seq::<char>::empty());
    } else {
        resources_keep_their_order(a.drop_last(), r, base);
        assert(s.drop_last() =~= seq![r] + a.drop_last());
        assert(s.last() == a.last());
        assert(resources(s, base) == resources(s.drop_last(), base) + resource(a.last(), base));
        assert(resources(a, base) == resources(a.drop_last(), base) + resource(a.last(), base));
        assert(resource(r, base) + resources(a.drop_last(), base) + resource(a.last(), base)
            =~= resource(r, base) + resources(a, base));
    }
}

/// The entries of a listing are rendered one behind another, none missing.
pub proof fn entries_keep_their_order(es: Seq<Entry>, e: Entry, base: Seq<char>)
    ensures
        all_rendered(seq![], base).len() == 0,
        all_rendered(es.push(e), base) == all_rendered(es, base) + rendered(e, base),
{
    assert(es.push(e).drop_last() =~= es);
}

} // verus!
