//! Where a request is sent, and what its reply may do: the origin of links,
//! the redirect to the HTTPS pages, the policy on scripts, and what is taken
//! for an image or a title id.
use vstd::prelude::*;
use crate::digest;
use crate::encoding;
use crate::server::assets;
use crate::text;

verus! {

// ------------------------------------------------------------------- origin

/// The HTTPS listener.
#[derive(Debug)]
pub struct TlsInfo {
    pub hostname: String,
    pub port: u16,
    pub redirect_pages: bool,
}

pub open spec fn origin_of(hostname: Seq<char>, port: int) -> Seq<char> {
    if port == 443 {
        "https://"@ + hostname
    } else {
        "https://"@ + hostname + ":"@ + text::decimal(port)
    }
}

impl TlsInfo {
    /// "https://host" or "https://host:port".
    pub fn origin(&self) -> (r: String)
        ensures
            r@ == origin_of(self.hostname@, self.port as int),
    {
        let mut out = "https://".to_owned();
        out.push_str(self.hostname.as_str());
        if self.port != 443 {
            out.push_str(":");
            let port = text::dec(self.port as i64);
            out.push_str(port.as_str());
        }
        out
    }
}

pub open spec fn opt_str(o: Option<&str>) -> Option<Seq<char>> {
    match o {
        Some(s) => Some(s@),
        None => None,
    }
}

/// The URL prefix for links that leave a page.
pub open spec fn link_base(
    base_url: Seq<char>,
    tls: Option<(Seq<char>, int)>,
    host: Option<Seq<char>>,
    https: bool,
) -> Seq<char> {
    if !https {
        base_url
    } else {
        match host {
            Some(h) if h.len() > 0 => "https://"@ + h,
            _ => match tls {
                Some((hostname, port)) => origin_of(hostname, port),
                None => base_url,
            },
        }
    }
}

pub open spec fn tls_view(tls: Option<&TlsInfo>) -> Option<(Seq<char>, int)> {
    match tls {
        Some(t) => Some((t.hostname@, t.port as int)),
        None => None,
    }
}

/// Absolute URL prefix for links that leave the page (playlists): the
/// host the client actually used when over HTTPS, else the canonical
/// UPnP base URL.
pub fn request_base_url(base_url: &str, tls: Option<&TlsInfo>, host: Option<&str>, https: bool) -> (r:
    String)
    ensures
        r@ == link_base(base_url@, tls_view(tls), opt_str(host), https),
{
    if !https {
        return base_url.to_owned();
    }
    if let Some(h) = host {
        if !h.is_empty() {
            let mut out = "https://".to_owned();
            out.push_str(h);
            return out;
        }
    }
    match tls {
        Some(t) => t.origin(),
        None => base_url.to_owned(),
    }
}

/// Whether a path is that of an HTML page.
pub open spec fn page_path(path: Seq<char>) -> bool {
    ||| path == "/"@
    ||| path == "/browse"@
    ||| text::begins(path, "/browse/"@)
    ||| text::begins(path, "/item/"@)
    ||| text::begins(path, "/play/"@)
    ||| text::begins(path, "/captions/"@)
    ||| path == "/search"@
}

pub fn is_page(path: &str) -> (r: bool)
    ensures
        r == page_path(path@),
{
    text::same(path, "/") || text::same(path, "/browse") || text::starts_with(path, "/browse/")
        || text::starts_with(path, "/item/") || text::starts_with(path, "/play/")
        || text::starts_with(path, "/captions/") || text::same(path, "/search")
}

/// With `redirect_pages`, where a request goes: HTML page requests on the
/// plain listener go to the HTTPS origin. Everything UPnP clients fetch
/// (device.xml, control, /media, /art, playlists, icons) is left alone.
pub fn redirect(tls: Option<&TlsInfo>, path: &str, path_and_query: &str, get: bool, https: bool) -> (r:
    Option<String>)
    ensures
        match tls {
            Some(t) if t.redirect_pages && page_path(path@) && get && !https => r matches Some(u)
                && u@ == origin_of(t.hostname@, t.port as int) + path_and_query@,
            _ => r is None,
        },
{
    match tls {
        Some(t) => if t.redirect_pages && is_page(path) && get && !https {
            let mut out = t.origin();
            out.push_str(path_and_query);
            Some(out)
        } else {
            None
        },
        None => None,
    }
}

/// What UPnP clients fetch is never redirected.
pub proof fn renderers_are_left_alone(path: Seq<char>)
    requires
        text::begins(path, "/media/"@) || text::begins(path, "/art/"@) || text::begins(
            path,
            "/control/"@,
        ) || path == "/device.xml"@ || text::begins(path, "/playlist"@),
    ensures
        !page_path(path),
{
    reveal_strlit("/");
    reveal_strlit("/browse");
    reveal_strlit("/browse/");
    reveal_strlit("/item/");
    reveal_strlit("/play/");
    reveal_strlit("/captions/");
    reveal_strlit("/search");
    reveal_strlit("/media/");
    reveal_strlit("/art/");
    reveal_strlit("/control/");
    reveal_strlit("/device.xml");
    reveal_strlit("/playlist");
    if text::begins(path, "/media/"@) {
        assert(path.subrange(0, 7)[1] == path[1] && path[1] == 'm');
    } else if text::begins(path, "/art/"@) {
        assert(path.subrange(0, 5)[1] == path[1] && path[1] == 'a');
    } else if text::begins(path, "/control/"@) {
        assert(path.subrange(0, 9)[1] == path[1] && path[1] == 'c');
        assert(path.subrange(0, 9)[2] == path[2] && path[2] == 'o');
    } else if path == "/device.xml"@ {
        assert(path[1] == 'd');
    } else {
        assert(path.subrange(0, 9)[1] == path[1] && path[1] == 'p');
        assert(path.subrange(0, 9)[5] == path[5] && path[5] == 'l');
        assert(path.len() >= 9);
    }
    if text::begins(path, "/browse/"@) {
        assert(path.subrange(0, 8)[1] == 'b');
        assert(path.subrange(0, 8)[1] == path[1]);
    }
    if text::begins(path, "/item/"@) {
        assert(path.subrange(0, 6)[1] == 'i');
        assert(path.subrange(0, 6)[1] == path[1]);
    }
    if text::begins(path, "/play/"@) {
        assert(path.subrange(0, 6)[1] == 'p');
        assert(path.subrange(0, 6)[1] == path[1]);
        assert(path.subrange(0, 6)[5] == '/');
        assert(path.subrange(0, 6)[5] == path[5]);
    }
    if text::begins(path, "/captions/"@) {
        assert(path.subrange(0, 10)[1] == 'c');
        assert(path.subrange(0, 10)[1] == path[1]);
        assert(path.subrange(0, 10)[2] == 'a');
        assert(path.subrange(0, 10)[2] == path[2]);
    }
    if path == "/browse"@ {
        assert(path[1] == 'b');
    }
    if path == "/search"@ {
        assert(path[1] == 's');
    }
    if path == "/"@ {
        assert(path.len() == 1);
    }
}

// ------------------------------------------------------------------- policy

/// What an inline script runs: the text between its tags.
pub open spec fn script_body(script: Seq<char>) -> Seq<char> {
    if text::begins(script, "<script>"@) {
        let rest = script.skip("<script>"@.len() as int);
        if text::ends(rest, "</script>"@) {
            rest.take(rest.len() - "</script>"@.len())
        } else {
            script
        }
    } else {
        script
    }
}

fn body_of(script: &str) -> (r: String)
    ensures
        r@ == script_body(script@),
{
    match text::strip_prefix(script, "<script>") {
        Some(rest) => match text::strip_suffix(rest.as_str(), "</script>") {
            Some(body) => body,
            None => script.to_owned(),
        },
        None => script.to_owned(),
    }
}

/// The source expression that lets a script run, by its hash.
pub open spec fn script_source(script: Seq<char>) -> Seq<char> {
    let digest = digest::sha256(vstd::utf8::encode_utf8(script_body(script)));
    "'sha256-"@ + (encoding::base64_of(digest, false) + encoding::padding(32)) + "'"@
}

pub open spec fn sources(scripts: Seq<Seq<char>>) -> Seq<Seq<char>> {
    Seq::new(scripts.len(), |i: int| script_source(scripts[i]))
}

/// The policy that lets these scripts run, and no others.
pub open spec fn policy(scripts: Seq<Seq<char>>) -> Seq<char> {
    "default-src 'self'; script-src "@ + text::joined(sources(scripts), " "@)
       
            + "; style-src 'self' 'unsafe-inline'; img-src 'self'; media-src 'self' blob:; connect-src 'self'; object-src 'none'; base-uri 'none'; frame-ancestors 'none'; form-action 'self'"@
}

/// Whether every script can be hashed.
pub open spec fn hashable(scripts: Seq<Seq<char>>) -> bool {
    forall|i: int|
        0 <= i < scripts.len() ==> digest::digestible(script_body(#[trigger] scripts[i]))
}

/// The policy: the SHA-256 of a script's body is what lets it run; inline
/// styles stay allowed (the pages lean on style attributes, which cannot
/// execute anything); blob: covers the subtitle track attached from an
/// extraction fetch.
pub fn policy_for(scripts: &Vec<String>) -> (r: String)
    requires
        hashable(text::texts(scripts@)),
    ensures
        r@ == policy(text::texts(scripts@)),
{
    let ghost ss = text::texts(scripts@);
    let mut hashes: Vec<String> = Vec::new();
    let mut i: usize = 0;
    assert(text::texts(hashes@) =~= sources(ss).take(0));
    while i < scripts.len()
        invariant
            i <= scripts.len(),
            ss == text::texts(scripts@),
            hashable(ss),
            text::texts(hashes@) == sources(ss).take(i as int),
        decreases scripts.len() - i,
    {
        assert(ss[i as int] == scripts@[i as int]@);
        let body = body_of(scripts[i].as_str());
        let digest = digest::digest_text(body.as_str());
        let mut h = "'sha256-".to_owned();
        let b64 = encoding::encode_standard(&digest);
        h.push_str(b64.as_str());
        h.push_str("'");
        assert(h@ == sources(ss)[i as int]);
        text::push_text(&mut hashes, h.as_str());
        i += 1;
        assert(text::texts(hashes@) =~= sources(ss).take(i as int));
    }
    assert(sources(ss).take(i as int) =~= sources(ss));
    let mut out = "default-src 'self'; script-src ".to_owned();
    let joined = text::join(&hashes, " ");
    out.push_str(joined.as_str());
    out.push_str(
        "; style-src 'self' 'unsafe-inline'; img-src 'self'; media-src 'self' blob:; connect-src 'self'; object-src 'none'; base-uri 'none'; frame-ancestors 'none'; form-action 'self'",
    );
    out
}

/// The scripts that the pages carry.
pub open spec fn page_scripts() -> Seq<Seq<char>> {
    seq![
        assets::player_script_text(),
        assets::CC_PANEL_SCRIPT@,
        assets::CAPTIONS_SCRIPT@,
        assets::COVERS_SCRIPT@,
    ]
}

/// The policy of every reply, which permits exactly the inline scripts the
/// pages carry — by hash — so an escaping slip anywhere in the pages cannot
/// run script. None where a script is longer than its hash can count.
pub fn csp() -> (r: Option<String>)
    ensures
        match r {
            Some(p) => p@ == policy(page_scripts()),
            None => !hashable(page_scripts()),
        },
{
    let mut scripts: Vec<String> = Vec::new();
    scripts.push(assets::player_script());
    scripts.push(assets::CC_PANEL_SCRIPT.to_owned());
    scripts.push(assets::CAPTIONS_SCRIPT.to_owned());
    scripts.push(assets::COVERS_SCRIPT.to_owned());
    let ghost ss = text::texts(scripts@);
    assert(ss =~= page_scripts());
    let mut i: usize = 0;
    while i < scripts.len()
        invariant
            i <= scripts.len(),
            ss == text::texts(scripts@),
            ss == page_scripts(),
            forall|k: int| 0 <= k < i ==> digest::digestible(script_body(#[trigger] ss[k])),
        decreases scripts.len() - i,
    {
        assert(ss[i as int] == scripts@[i as int]@);
        let body = body_of(scripts[i].as_str());
        if !digest::is_digestible(body.as_str()) {
            return None;
        }
        i += 1;
    }
    Some(policy_for(&scripts))
}

// ------------------------------------------------------------ what is taken

/// An IMDb title id: "tt" plus 7–9 digits and nothing else.
pub open spec fn title_id(id: Seq<char>) -> bool {
    &&& text::begins(id, "tt"@)
    &&& 9 <= id.len() <= 11
    &&& forall|i: int| 2 <= i < id.len() ==> text::is_digit(#[trigger] id[i])
}

/// An IMDb title id fit to print and link: "tt" plus 7–9 digits and
/// nothing else. Sidecar .nfo files are writable by anything that can
/// reach the share, so the id is validated where it is rendered.
pub fn imdb_title_id(id: &str) -> (r: Option<&str>)
    ensures
        opt_str(r) == (if title_id(id@) {
            Some(id@)
        } else {
            None
        }),
{
    let v = text::chars_of(id);
    if !text::starts_with(id, "tt") || v.len() < 9 || v.len() > 11 {
        return None;
    }
    let mut i: usize = 2;
    while i < v.len()
        invariant
            2 <= i <= v.len(),
            v@ == id@,
            9 <= v.len() <= 11,
            text::begins(id@, "tt"@),
            forall|k: int| 2 <= k < i ==> text::is_digit(#[trigger] v@[k]),
        decreases v.len() - i,
    {
        let u = text::code(v[i]);
        if !(48 <= u && u <= 57) {
            assert(!text::is_digit(id@[i as int]));
            return None;
        }
        i += 1;
    }
    Some(id)
}

pub open spec fn bytes_begin(b: Seq<u8>, p: Seq<u8>) -> bool {
    b.len() >= p.len() && b.take(p.len() as int) == p
}

/// The image type that bytes are of, told by what they start with.
pub open spec fn image_type(b: Seq<u8>) -> Option<Seq<char>> {
    if bytes_begin(b, seq![0xFF, 0xD8, 0xFF]) {
        Some("image/jpeg"@)
    } else if bytes_begin(b, seq![0x89, 0x50, 0x4E, 0x47, 0x0D, 0x0A, 0x1A, 0x0A]) {
        Some("image/png"@)
    } else if bytes_begin(b, seq![0x47, 0x49, 0x46, 0x38, 0x37, 0x61]) || bytes_begin(
        b,
        seq![0x47, 0x49, 0x46, 0x38, 0x39, 0x61],
    ) {
        Some("image/gif"@)
    } else if b.len() >= 12 && bytes_begin(b, seq![0x52, 0x49, 0x46, 0x46]) && b.subrange(8, 12)
        == seq![0x57u8, 0x45, 0x42, 0x50] {
        Some("image/webp"@)
    } else if bytes_begin(b, seq![0x42, 0x4D]) {
        Some("image/bmp"@)
    } else {
        None
    }
}

fn holds_at(b: &Vec<u8>, at: usize, p: &[u8]) -> (r: bool)
    requires
        at + p@.len() <= usize::MAX,
    ensures
        r == (b@.len() >= at + p@.len() && b@.subrange(at as int, at + p@.len()) == p@),
{
    if b.len() < at + p.len() {
        return false;
    }
    let mut i: usize = 0;
    while i < p.len()
        invariant
            i <= p.len(),
            b.len() >= at + p.len(),
            forall|k: int| 0 <= k < i ==> b@[at + k] == p@[k],
        decreases p.len() - i,
    {
        if b[at + i] != p[i] {
            assert(b@.subrange(at as int, at + p@.len())[i as int] != p@[i as int]);
            return false;
        }
        i += 1;
    }
    assert(b@.subrange(at as int, at + p@.len()) =~= p@);
    true
}

/// The image types the art routes serve, told apart by magic bytes: the
/// MIME comes from the bytes, never from a tag or a file extension that
/// something on the share chose (an APIC frame declaring text/html would
/// otherwise have a browser render its payload on this origin).
pub fn image_mime(bytes: &Vec<u8>) -> (r: Option<&'static str>)
    ensures
        (match r {
            Some(m) => Some(m@),
            None => None,
        }) == image_type(bytes@),
{
    let jpeg: [u8; 3] = [0xFF, 0xD8, 0xFF];
    let png: [u8; 8] = [0x89, 0x50, 0x4E, 0x47, 0x0D, 0x0A, 0x1A, 0x0A];
    let gif87: [u8; 6] = [0x47, 0x49, 0x46, 0x38, 0x37, 0x61];
    let gif89: [u8; 6] = [0x47, 0x49, 0x46, 0x38, 0x39, 0x61];
    let riff: [u8; 4] = [0x52, 0x49, 0x46, 0x46];
    let webp: [u8; 4] = [0x57, 0x45, 0x42, 0x50];
    let bmp: [u8; 2] = [0x42, 0x4D];
    proof {
        assert(jpeg@ =~= seq![0xFFu8, 0xD8, 0xFF]);
        assert(png@ =~= seq![0x89u8, 0x50, 0x4E, 0x47, 0x0D, 0x0A, 0x1A, 0x0A]);
        assert(gif87@ =~= seq![0x47u8, 0x49, 0x46, 0x38, 0x37, 0x61]);
        assert(gif89@ =~= seq![0x47u8, 0x49, 0x46, 0x38, 0x39, 0x61]);
        assert(riff@ =~= seq![0x52u8, 0x49, 0x46, 0x46]);
        assert(webp@ =~= seq![0x57u8, 0x45, 0x42, 0x50]);
        assert(bmp@ =~= seq![0x42u8, 0x4D]);
    }
    if holds_at(bytes, 0, &jpeg) {
        Some("image/jpeg")
    } else if holds_at(bytes, 0, &png) {
        Some("image/png")
    } else if holds_at(bytes, 0, &gif87) || holds_at(bytes, 0, &gif89) {
        Some("image/gif")
    } else if bytes.len() >= 12 && holds_at(bytes, 0, &riff) && holds_at(bytes, 8, &webp) {
        Some("image/webp")
    } else if holds_at(bytes, 0, &bmp) {
        Some("image/bmp")
    } else {
        None
    }
}

/// Whatever bytes the share holds, what is served as art is served as an
/// image, never as a document.
pub proof fn art_is_never_a_document(b: Seq<u8>)
    ensures
        image_type(b) matches Some(m) ==> text::begins(m, "image/"@),
{
    reveal_strlit("image/");
    reveal_strlit("image/jpeg");
    reveal_strlit("image/png");
    reveal_strlit("image/gif");
    reveal_strlit("image/webp");
    reveal_strlit("image/bmp");
    if let Some(m) = image_type(b) {
        assert(m.subrange(0, 6) =~= "image/"@);
    }
}

/// Links that leave a page go to where the page was fetched from: over HTTPS
/// to the host that the request names, else to the listener's; over HTTP to
/// the server's own address. The standard port is left out.
pub proof fn links_lead_back_to_the_page(
    base: Seq<char>,
    host: Seq<char>,
    hostname: Seq<char>,
    port: int,
    tls: Option<(Seq<char>, int)>,
    named: Option<Seq<char>>,
)
    ensures
        link_base(base, tls, named, false) == base,
        host.len() > 0 ==> link_base(base, tls, Some(host), true) == "https://"@ + host,
        port != 443 ==> link_base(base, Some((hostname, port)), None, true) == "https://"@
            + hostname + ":"@ + text::decimal(port),
        link_base(base, Some((hostname, 443)), None, true) == "https://"@ + hostname,
        link_base(base, None, None, true) == base,
{
}

/// The pages are the front page, what is below browse, item, play and
/// captions, and the search.
pub proof fn pages_are_what_browsers_show(rest: Seq<char>)
    ensures
        page_path("/"@),
        page_path("/browse"@),
        page_path("/search"@),
        page_path("/browse/"@ + rest),
        page_path("/item/"@ + rest),
        page_path("/play/"@ + rest),
        page_path("/captions/"@ + rest),
{
    assert(("/browse/"@ + rest).subrange(0, "/browse/"@.len() as int) =~= "/browse/"@);
    assert(("/item/"@ + rest).subrange(0, "/item/"@.len() as int) =~= "/item/"@);
    assert(("/play/"@ + rest).subrange(0, "/play/"@.len() as int) =~= "/play/"@);
    assert(("/captions/"@ + rest).subrange(0, "/captions/"@.len() as int) =~= "/captions/"@);
}

/// What is hashed of a script is what stands between its tags.
pub proof fn scripts_are_hashed_without_their_tags(body: Seq<char>)
    ensures
        script_body("<script>"@ + body + "</script>"@) == body,
{
    reveal_strlit("<script>");
    reveal_strlit("</script>");
    let s = "<script>"@ + body + "</script>"@;
    assert(s.subrange(0, 8) =~= "<script>"@);
    let rest = s.skip(8);
    assert(rest =~= body + "</script>"@);
    assert(rest.subrange(rest.len() - 9, rest.len() as int) =~= "</script>"@);
    assert(rest.take(rest.len() - 9) =~= body);
}

/// An IMDb id is "tt" and seven, eight or nine digits.
pub proof fn imdb_ids_are_numbers(digits: Seq<char>)
    ensures
        title_id("tt"@ + digits) <==> (digits.len() == 7 || digits.len() == 8 || digits.len() == 9)
            && forall|i: int| 0 <= i < digits.len() ==> text::is_digit(#[trigger] digits[i]),
{
    reveal_strlit("tt");
    let s = "tt"@ + digits;
    assert(s.subrange(0, 2) =~= "tt"@);
    assert(forall|i: int| 0 <= i < digits.len() ==> #[trigger] digits[i] == s[i + 2]);
    assert(forall|i: int| 2 <= i < s.len() ==> #[trigger] s[i] == digits[i - 2]);
}

/// The type of an image is told by its first bytes, whatever follows them.
pub proof fn images_are_told_by_their_first_bytes(rest: Seq<u8>, size: Seq<u8>)
    requires
        size.len() == 4,
    ensures
        image_type(seq![0xFFu8, 0xD8, 0xFF] + rest) == Some("image/jpeg"@),
        image_type(seq![0x89u8, 0x50, 0x4E, 0x47, 0x0D, 0x0A, 0x1A, 0x0A] + rest) == Some(
            "image/png"@,
        ),
        image_type(seq![0x47u8, 0x49, 0x46, 0x38, 0x39, 0x61] + rest) == Some("image/gif"@),
        image_type(seq![0x47u8, 0x49, 0x46, 0x38, 0x37, 0x61] + rest) == Some("image/gif"@),
        image_type(
            seq![0x52u8, 0x49, 0x46, 0x46] + size + seq![0x57u8, 0x45, 0x42, 0x50] + rest,
        ) == Some("image/webp"@),
        image_type(seq![0x42u8, 0x4D] + rest) == Some("image/bmp"@),
        image_type(seq![0x3Cu8] + rest) is None,
        image_type(seq![]) is None,
{
    let jpeg = seq![0xFFu8, 0xD8, 0xFF];
    let png = seq![0x89u8, 0x50, 0x4E, 0x47, 0x0D, 0x0A, 0x1A, 0x0A];
    let gif9 = seq![0x47u8, 0x49, 0x46, 0x38, 0x39, 0x61];
    let gif7 = seq![0x47u8, 0x49, 0x46, 0x38, 0x37, 0x61];
    let riff = seq![0x52u8, 0x49, 0x46, 0x46];
    let webp = seq![0x57u8, 0x45, 0x42, 0x50];
    let bmp = seq![0x42u8, 0x4D];
    assert((jpeg + rest).take(3) =~= jpeg);
    assert((png + rest).take(8) =~= png);
    assert((gif9 + rest).take(6) =~= gif9);
    assert((gif7 + rest).take(6) =~= gif7);
    assert((bmp + rest).take(2) =~= bmp);
    let w = riff + size + webp + rest;
    assert(w.take(4) =~= riff);
    assert(w.subrange(8, 12) =~= webp);
    assert forall|b: Seq<u8>, p: Seq<u8>| p.len() > 0 && #[trigger] bytes_begin(b, p) implies b[0]
        == p[0] by {
        assert(b.take(p.len() as int)[0] == b[0]);
    }
    assert((png + rest)[0] == 0x89 && (gif9 + rest)[0] == 0x47 && (gif7 + rest)[0] == 0x47);
    assert(w[0] == 0x52 && (bmp + rest)[0] == 0x42 && (seq![0x3Cu8] + rest)[0] == 0x3C);
    assert(jpeg[0] == 0xFF && png[0] == 0x89 && gif7[0] == 0x47 && gif9[0] == 0x47 && riff[0] == 0x52
        && bmp[0] == 0x42);
}

} // verus!
