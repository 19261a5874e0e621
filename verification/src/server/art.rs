//! Artwork: validators and caching, and pictures sized for link previews.
use vstd::prelude::*;
use crate::db::sidecar::MAX_IMAGE;
use crate::digest;
use crate::server::page;
use crate::server::profiles;
use crate::server::security;
use crate::text;

verus! {

// ----------------------------------------------------------------- pictures

/// The size of a picture, where its bytes decode under limits on the width, the
/// height and what the decoder allocates: the outcome of `image`'s
/// `ImageReader::decode`.
pub uninterp spec fn picture_size(bytes: Seq<u8>, max_width: u32, max_height: u32, max_alloc: u64) -> Option<
    (u32, u32),
>;

/// `image::ImageReader::decode`, with the format guessed from the bytes and
/// under the given limits, then `DynamicImage::width` and `height`: the size of
/// the picture, or none where it does not decode. The limits on the size are
/// strict: what decodes is within them.
#[verifier::external_body]
fn decoded_size(bytes: &Vec<u8>, max_width: u32, max_height: u32, max_alloc: u64) -> (r: Option<
    (u32, u32),
>)
    ensures
        r == picture_size(bytes@, max_width, max_height, max_alloc),
        r matches Some((w, h)) ==> w <= max_width && h <= max_height,
{
    let mut limits = image::Limits::default();
    limits.max_image_width = Some(max_width);
    limits.max_image_height = Some(max_height);
    limits.max_alloc = Some(max_alloc);
    let mut reader = image::ImageReader::new(std::io::Cursor::new(bytes)).with_guessed_format().ok()?;
    reader.limits(limits);
    let picture = reader.decode().ok()?;
    Some((picture.width(), picture.height()))
}

/// The first luma step of a JPEG's quantisation at a quality.
pub open spec fn luma_step(quality: int) -> int {
    let q: int = if quality < 1 {
        1
    } else if quality > 100 {
        100
    } else {
        quality
    };
    let scale: int = if q < 50 {
        5000int / q
    } else {
        200 - q * 2
    };
    let step = (16 * scale + 50) / 100;
    if step < 1 {
        1
    } else if step > 255 {
        255
    } else {
        step
    }
}

/// Whether bytes start as a JPEG file of a size and a quality does: its start
/// and application markers, then the frame's height and width, then the table
/// of quantisation steps.
pub open spec fn jpeg_of(b: Seq<u8>, width: int, height: int, quality: int) -> bool {
    &&& b.len() > 44
    &&& b[0] == 0xFF && b[1] == 0xD8 && b[2] == 0xFF
    &&& b[25] * 256 + b[26] == height
    &&& b[27] * 256 + b[28] == width
    &&& b[44] == luma_step(quality)
}

/// Whether a size is another one scaled so that its long edge has a length:
/// the short edge in proportion, to the nearest pixel, and at least one.
pub open spec fn scaled(width: int, height: int, new_width: int, new_height: int, edge: int) -> bool {
    if width >= height {
        new_width == edge && near(new_height, height * edge, width)
    } else {
        new_height == edge && near(new_width, width * edge, height)
    }
}

/// Whether a count of pixels is a fraction's nearest whole number, or one where
/// that is none.
pub open spec fn near(n: int, a: int, b: int) -> bool {
    n >= 1 && (n == 1 || 2 * (n * b - a) <= b) && 2 * (a - n * b) <= b
}

/// `image::ImageReader::decode` under the given limits,
/// `DynamicImage::resize` with the Lanczos3 filter to fit a square, and
/// `JpegEncoder::encode_image` on its 8-bit RGB pixels: a JPEG whose long edge
/// has the length of the square's, the short edge in proportion. There is one
/// wherever the picture decodes. Which colours its pixels get is not stated:
/// the filter goes by the machine's floating-point sine.
#[verifier::external_body]
fn fitted_jpeg(
    bytes: &Vec<u8>,
    max_width: u32,
    max_height: u32,
    max_alloc: u64,
    edge: u16,
    quality: u8,
) -> (r: Option<Vec<u8>>)
    requires
        edge > 0,
    ensures
        match picture_size(bytes@, max_width, max_height, max_alloc) {
            Some((w, h)) => w > 0 || h > 0 ==> (r matches Some(j) && exists|nw: int, nh: int|
                #[trigger] scaled(w as int, h as int, nw, nh, edge as int) && jpeg_of(
                    j@,
                    nw,
                    nh,
                    quality as int,
                )),
            None => r is None,
        },
        r matches Some(j) ==> j@.len() > 2 && j@[0] == 0xFF && j@[1] == 0xD8 && j@[2] == 0xFF,
{
    let mut limits = image::Limits::default();
    limits.max_image_width = Some(max_width);
    limits.max_image_height = Some(max_height);
    limits.max_alloc = Some(max_alloc);
    let mut reader = image::ImageReader::new(std::io::Cursor::new(bytes)).with_guessed_format().ok()?;
    reader.limits(limits);
    let side = u32::from(edge);
    let picture = reader.decode().ok()?.resize(side, side, image::imageops::FilterType::Lanczos3);
    let mut out = Vec::new();
    let mut encoder = image::codecs::jpeg::JpegEncoder::new_with_quality(&mut out, quality);
    encoder.encode_image(&picture.to_rgb8()).ok()?;
    Some(out)
}

/// The long edge of a picture in a preview card, in pixels.
pub const MAX_EDGE: u16 = 900;

/// Decode under limits: a crafted poster (a 40000×40000 PNG is a few KB on
/// disk) must not turn a preview fetch into a multi-GB decode.
pub const MAX_SIDE: u32 = 12_000;

pub const MAX_ALLOC: u64 = 268_435_456;

pub const QUALITY: u8 = 82;

/// What is done with art for a preview card.
#[derive(Debug, Clone, Copy, PartialEq, Eq, Structural)]
pub enum Preview {
    /// It passes through unchanged.
    Keep,
    /// It is shrunk, and becomes a JPEG.
    Shrink,
}

/// What is done with art for a preview card: what does not decode, or is
/// small already, passes through.
pub open spec fn preview_of(size: Option<(u32, u32)>) -> Preview {
    match size {
        None => Preview::Keep,
        Some((w, h)) => if w > MAX_EDGE || h > MAX_EDGE {
            Preview::Shrink
        } else {
            Preview::Keep
        },
    }
}

pub fn preview(size: Option<(u32, u32)>) -> (r: Preview)
    ensures
        r == preview_of(size),
{
    match size {
        None => Preview::Keep,
        Some((w, h)) => if w > MAX_EDGE as u32 || h > MAX_EDGE as u32 {
            Preview::Shrink
        } else {
            Preview::Keep
        },
    }
}

/// The size of art as the preview decodes it.
pub open spec fn art_size(bytes: Seq<u8>) -> Option<(u32, u32)> {
    picture_size(bytes, MAX_SIDE, MAX_SIDE, MAX_ALLOC)
}

/// Art downscaled for link-preview cards: a JPEG capped at 900px on the
/// long edge (a 2:3 poster becomes 600×900). Preview scrapers silently
/// drop images beyond a few hundred KB, which full-size posters routinely
/// exceed. Art that fails to decode — or is already small — passes
/// through unchanged.
pub fn og_art(bytes: Vec<u8>, mime: String) -> (r: (Vec<u8>, String))
    ensures
        match preview_of(art_size(bytes@)) {
            Preview::Keep => r.0@ == bytes@ && r.1@ == mime@,
            Preview::Shrink => art_size(bytes@) matches Some((w, h)) && r.1@ == "image/jpeg"@
                && exists|nw: int, nh: int|
                #[trigger] scaled(w as int, h as int, nw, nh, MAX_EDGE as int) && jpeg_of(
                    r.0@,
                    nw,
                    nh,
                    QUALITY as int,
                ),
        },
        r.0@ == bytes@ && r.1@ == mime@ || r.1@ == "image/jpeg"@ && security::image_type(r.0@) == Some(
            r.1@,
        ),
{
    let size = decoded_size(&bytes, MAX_SIDE, MAX_SIDE, MAX_ALLOC);
    let made = match preview(size) {
        Preview::Keep => None,
        Preview::Shrink => fitted_jpeg(&bytes, MAX_SIDE, MAX_SIDE, MAX_ALLOC, MAX_EDGE, QUALITY),
    };
    match made {
        Some(j) => {
            assert(j@.subrange(0, 3) =~= seq![0xFFu8, 0xD8, 0xFF]);
            (j, "image/jpeg".to_owned())
        },
        None => (bytes, mime),
    }
}

/// The art of an item, where it is one: its bytes and the MIME type that they
/// show. What is too large, or is no image, is none.
pub fn read_art(bytes: Vec<u8>) -> (r: Option<(Vec<u8>, &'static str)>)
    ensures
        match r {
            Some((b, mime)) => b@ == bytes@ && bytes@.len() <= MAX_IMAGE && security::image_type(
                bytes@,
            ) == Some(mime@),
            None => bytes@.len() > MAX_IMAGE || security::image_type(bytes@) is None,
        },
{
    if bytes.len() as u64 > MAX_IMAGE {
        return None;
    }
    match security::image_mime(&bytes) {
        Some(mime) => Some((bytes, mime)),
        None => None,
    }
}

// --------------------------------------------------------------- validators

/// A number in hexadecimal, without leading zeros.
pub open spec fn hex_number(n: int) -> Seq<char>
    decreases n,
{
    if n < 16 {
        seq![digest::hex_char(n)]
    } else {
        hex_number(n / 16).push(digest::hex_char(n % 16))
    }
}

fn to_hex(n: u64) -> (r: String)
    ensures
        r@ == hex_number(n as int),
    decreases n,
{
    if n < 16 {
        let mut out = String::new();
        out.push(digest::write_digit(n as u8));
        assert(out@ =~= hex_number(n as int));
        out
    } else {
        let mut out = to_hex(n / 16);
        out.push(digest::write_digit((n % 16) as u8));
        out
    }
}

/// When the file was changed that the art comes from, in whole seconds, and how
/// long it is.
#[derive(Debug, Clone, Copy)]
pub struct ArtStamp {
    pub secs: u64,
    pub len: u64,
}

pub open spec fn etag_of(stamp: ArtStamp, social: bool) -> Seq<char> {
    "\""@ + hex_number(stamp.secs as int) + "-"@ + hex_number(stamp.len as int) + (if social {
        "-og"@
    } else {
        ""@
    }) + "\""@
}

/// The validator of art: from the file that it comes from (the media file
/// itself for an embedded picture), so that a client holding a copy revalidates
/// instead of downloading again.
pub fn etag(stamp: ArtStamp, social: bool) -> (r: String)
    ensures
        r@ == etag_of(stamp, social),
{
    let mut out = "\"".to_owned();
    let secs = to_hex(stamp.secs);
    out.push_str(secs.as_str());
    out.push_str("-");
    let len = to_hex(stamp.len);
    out.push_str(len.as_str());
    out.push_str(if social { "-og" } else { "" });
    out.push_str("\"");
    out
}

/// Whether an If-None-Match header holds a validator, or the star.
pub open spec fn names_tag(header: Seq<char>, tag: Seq<char>) -> bool {
    exists|i: int|
        0 <= i < text::pieces(header, ',').len() && (text::trimmed(
            #[trigger] text::pieces(header, ',')[i],
        ) == tag || text::trimmed(text::pieces(header, ',')[i]) == "*"@)
}

pub fn none_match(header: &str, tag: &str) -> (r: bool)
    ensures
        r == names_tag(header@, tag@),
{
    let parts = text::split(header, ',');
    let ghost ps = text::pieces(header@, ',');
    let mut i: usize = 0;
    while i < parts.len()
        invariant
            i <= parts.len(),
            text::texts(parts@) == ps,
            ps == text::pieces(header@, ','),
            ps.len() == parts@.len(),
            forall|k: int|
                0 <= k < i ==> text::trimmed(#[trigger] ps[k]) != tag@ && text::trimmed(ps[k])
                    != "*"@,
        decreases parts.len() - i,
    {
        assert(ps[i as int] == parts@[i as int]@);
        let t = text::trim(parts[i].as_str());
        if text::same(t.as_str(), tag) || text::same(t.as_str(), "*") {
            return true;
        }
        i += 1;
    }
    false
}

pub open spec fn caching(versioned: bool) -> Seq<char> {
    if versioned {
        "public, max-age=31536000, immutable"@
    } else {
        "public, max-age=86400, stale-while-revalidate=604800"@
    }
}

/// How long a response may live in caches: a year where the page vouches for
/// the version in the address.
pub fn cache_control(versioned: bool) -> (r: &'static str)
    ensures
        r@ == caching(versioned),
{
    if versioned {
        "public, max-age=31536000, immutable"
    } else {
        "public, max-age=86400, stale-while-revalidate=604800"
    }
}

// -------------------------------------------------------------------- dates

pub open spec fn weekday_name(n: int) -> Seq<char> {
    if n == 0 {
        "Thu"@
    } else if n == 1 {
        "Fri"@
    } else if n == 2 {
        "Sat"@
    } else if n == 3 {
        "Sun"@
    } else if n == 4 {
        "Mon"@
    } else if n == 5 {
        "Tue"@
    } else {
        "Wed"@
    }
}

pub open spec fn month_name(m: int) -> Seq<char> {
    if m == 1 {
        "Jan"@
    } else if m == 2 {
        "Feb"@
    } else if m == 3 {
        "Mar"@
    } else if m == 4 {
        "Apr"@
    } else if m == 5 {
        "May"@
    } else if m == 6 {
        "Jun"@
    } else if m == 7 {
        "Jul"@
    } else if m == 8 {
        "Aug"@
    } else if m == 9 {
        "Sep"@
    } else if m == 10 {
        "Oct"@
    } else if m == 11 {
        "Nov"@
    } else {
        "Dec"@
    }
}

/// A date and a time of day as HTTP writes them.
pub open spec fn http_date_of(y: int, m: int, d: int, secs: int) -> Seq<char> {
    weekday_name((secs / 86_400) % 7) + ", "@ + text::padded(d, 2) + " "@ + month_name(m) + " "@
        + text::padded(y, 4) + " "@ + text::padded((secs % 86_400) / 3600, 2) + ":"@ + text::padded(
        (secs % 3600) / 60,
        2,
    ) + ":"@ + text::padded(secs % 60, 2) + " GMT"@
}

/// Whether a text is a moment as HTTP writes it: the moment's weekday, its date
/// in UTC and its time of day.
pub open spec fn is_http_date(s: Seq<char>, secs: int) -> bool {
    exists|y: int, m: int, d: int|
        profiles::is_date(y, m, d) && #[trigger] profiles::day_number(y, m, d) == secs / 86_400 && s
            == http_date_of(y, m, d, secs)
}

/// `httpdate::fmt_http_date` of a moment, in seconds since 1970: the moment as
/// an IMF-fixdate, such as `Fri, 15 May 2015 15:34:21 GMT`. It panics on years
/// after 9999.
#[verifier::external_body]
fn http_date(secs: u64) -> (r: String)
    requires
        secs < 253_402_300_800,
    ensures
        is_http_date(r@, secs as int),
{
    httpdate::fmt_http_date(std::time::UNIX_EPOCH + std::time::Duration::from_secs(secs))
}

// ---------------------------------------------------------------- responses

/// What came of looking for art.
#[derive(Debug)]
pub enum ArtFound {
    /// The item has no art.
    Missing,
    /// The catalog could not be asked.
    LookupFailed,
    /// The catalog says that the item has art, in a file with this stamp (none
    /// where the file cannot be asked).
    There(Option<ArtStamp>),
}

/// What is done next for a request of art.
#[derive(Debug)]
pub enum ArtStep {
    /// Answer with a status alone.
    Status(u16),
    /// The client's copy is still good.
    NotModified { etag: String, cache_control: &'static str },
    /// Read the art and serve it.
    Serve { tag: Option<String>, last_modified: Option<String>, cache_control: &'static str },
}

/// Whether a stamp's moment can be written as an HTTP date.
pub open spec fn datable(found: ArtFound) -> bool {
    found matches ArtFound::There(Some(s)) ==> s.secs < 253_402_300_800
}

/// What is done for a request of art, before the art itself is read: a versioned
/// URL never asks again, and another one revalidates.
pub fn art_step(found: &ArtFound, social: bool, versioned: bool, none_match_header: Option<&str>) -> (r:
    ArtStep)
    requires
        datable(*found),
    ensures
        match *found {
            ArtFound::Missing => r == ArtStep::Status(404),
            ArtFound::LookupFailed => r == ArtStep::Status(500),
            ArtFound::There(None) => r matches ArtStep::Serve {
                tag: None,
                last_modified: None,
                cache_control: c,
            } && c@ == caching(versioned),
            ArtFound::There(Some(stamp)) => if (page::opt_str(none_match_header) matches Some(h)
                && names_tag(h, etag_of(stamp, social))) {
                r matches ArtStep::NotModified { etag: t, cache_control: c } && t@ == etag_of(
                    stamp,
                    social,
                ) && c@ == caching(versioned)
            } else {
                r matches ArtStep::Serve {
                    tag: Some(t),
                    last_modified: Some(l),
                    cache_control: c,
                } && t@ == etag_of(stamp, social) && is_http_date(l@, stamp.secs as int) && c@
                    == caching(versioned)
            },
        },
{
    let control = cache_control(versioned);
    match found {
        ArtFound::Missing => ArtStep::Status(404),
        ArtFound::LookupFailed => ArtStep::Status(500),
        ArtFound::There(None) => ArtStep::Serve {
            tag: None,
            last_modified: None,
            cache_control: control,
        },
        ArtFound::There(Some(stamp)) => {
            let tag = etag(*stamp, social);
            let known = match none_match_header {
                Some(h) => none_match(h, tag.as_str()),
                None => false,
            };
            if known {
                ArtStep::NotModified { etag: tag, cache_control: control }
            } else {
                ArtStep::Serve {
                    tag: Some(tag),
                    last_modified: Some(http_date(stamp.secs)),
                    cache_control: control,
                }
            }
        },
    }
}

/// What came of reading art.
#[derive(Debug)]
pub enum ArtRead {
    Bytes(Vec<u8>),
    /// The file could not be read, or holds no picture.
    Failed,
    /// The reader itself failed.
    Lost,
}

/// The answer to a request of art, once it is read.
#[derive(Debug)]
pub struct ArtAnswer {
    pub status: u16,
    pub mime: String,
    /// That nothing may be kept of this answer.
    pub no_store: bool,
    pub bytes: Vec<u8>,
}

/// The answer to a request of art, once it is read. The catalog says this item
/// HAS art, so a read failure now is transient (spun-down drive, EIO, a file
/// mid-replacement) — not "no such art". 404 is authoritative and clients cache
/// it, which turns a momentary blip into a permanently missing poster.
pub fn art_answer(read: ArtRead, social: bool) -> (r: ArtAnswer)
    ensures
        match read {
            ArtRead::Bytes(b) if b@.len() <= MAX_IMAGE && security::image_type(b@) is Some => {
                &&& r.status == 200
                &&& !r.no_store
                &&& security::image_type(r.bytes@) == Some(r.mime@)
                &&& !social ==> r.bytes@ == b@
                &&& social ==> (match preview_of(art_size(b@)) {
                    Preview::Keep => r.bytes@ == b@,
                    Preview::Shrink => art_size(b@) matches Some((w, h)) && exists|nw: int, nh: int|
                        #[trigger] scaled(w as int, h as int, nw, nh, MAX_EDGE as int) && jpeg_of(
                            r.bytes@,
                            nw,
                            nh,
                            QUALITY as int,
                        ),
                })
            },
            ArtRead::Lost => r.status == 500 && !r.no_store && r.bytes@.len() == 0,
            _ => r.status == 503 && r.no_store && r.bytes@.len() == 0,
        },
{
    match read {
        ArtRead::Bytes(b) => match read_art(b) {
            Some((bytes, mime)) => {
                let mime = mime.to_owned();
                if social {
                    let (bytes, mime) = og_art(bytes, mime);
                    ArtAnswer { status: 200, mime, no_store: false, bytes }
                } else {
                    ArtAnswer { status: 200, mime, no_store: false, bytes }
                }
            },
            None => ArtAnswer {
                status: 503,
                mime: String::new(),
                no_store: true,
                bytes: Vec::new(),
            },
        },
        ArtRead::Failed => ArtAnswer {
            status: 503,
            mime: String::new(),
            no_store: true,
            bytes: Vec::new(),
        },
        ArtRead::Lost => ArtAnswer {
            status: 500,
            mime: String::new(),
            no_store: false,
            bytes: Vec::new(),
        },
    }
}

// -------------------------------------------------------------------- laws

proof fn lemma_hex_numbers_differ(a: int, b: int)
    requires
        a >= 0,
        b >= 0,
        hex_number(a) == hex_number(b),
    ensures
        a == b,
    decreases a,
{
    lemma_hex_len(a);
    lemma_hex_len(b);
    lemma_hex_digits_differ(a % 16, b % 16);
    if a < 16 || b < 16 {
        if a >= 16 {
            lemma_hex_len(a / 16);
            assert(hex_number(a).len() > 1);
            assert(hex_number(b).len() == 1);
        }
        if b >= 16 {
            lemma_hex_len(b / 16);
            assert(hex_number(b).len() > 1);
            assert(hex_number(a).len() == 1);
        }
        assert(hex_number(a)[0] == digest::hex_char(a));
        assert(hex_number(b)[0] == digest::hex_char(b));
    } else {
        assert(hex_number(a).last() == digest::hex_char(a % 16));
        assert(hex_number(b).last() == digest::hex_char(b % 16));
        assert(hex_number(a).drop_last() =~= hex_number(a / 16));
        assert(hex_number(b).drop_last() =~= hex_number(b / 16));
        lemma_hex_numbers_differ(a / 16, b / 16);
    }
}

proof fn lemma_hex_len(n: int)
    requires
        n >= 0,
    ensures
        hex_number(n).len() > 0,
        forall|i: int| 0 <= i < hex_number(n).len() ==> #[trigger] hex_number(n)[i] != '-'
            && hex_number(n)[i] != '"',
    decreases n,
{
    if n >= 16 {
        lemma_hex_len(n / 16);
    }
    lemma_hex_digit_plain(n % 16);
    if n < 16 {
        lemma_hex_digit_plain(n);
    }
}

proof fn lemma_hex_digit_plain(d: int)
    requires
        0 <= d < 16,
    ensures
        digest::hex_char(d) != '-',
        digest::hex_char(d) != '"',
{
}

proof fn lemma_hex_digits_differ(a: int, b: int)
    requires
        0 <= a < 16,
        0 <= b < 16,
    ensures
        digest::hex_char(a) == digest::hex_char(b) ==> a == b,
{
}

/// The first dash of a text that starts with one that has none.
proof fn lemma_first_dash(a: Seq<char>, x: Seq<char>, b: Seq<char>, y: Seq<char>)
    requires
        forall|i: int| 0 <= i < a.len() ==> a[i] != '-',
        forall|i: int| 0 <= i < b.len() ==> b[i] != '-',
        a + seq!['-'] + x == b + seq!['-'] + y,
    ensures
        a == b,
        x == y,
{
    let s = a + seq!['-'] + x;
    if a.len() < b.len() {
        assert(s[a.len() as int] == '-');
        assert((b + seq!['-'] + y)[a.len() as int] == b[a.len() as int]);
    }
    if b.len() < a.len() {
        assert((b + seq!['-'] + y)[b.len() as int] == '-');
        assert(s[b.len() as int] == a[b.len() as int]);
    }
    assert(a =~= s.take(a.len() as int));
    assert(b =~= (b + seq!['-'] + y).take(b.len() as int));
    assert(x =~= s.skip(a.len() as int + 1));
    assert(y =~= (b + seq!['-'] + y).skip(b.len() as int + 1));
}

/// Changed art is never taken for an old copy: art whose file was changed in
/// another second, or has another length, or of the other variant, has another
/// validator.
pub proof fn validators_are_distinct(a: ArtStamp, a_social: bool, b: ArtStamp, b_social: bool)
    requires
        etag_of(a, a_social) == etag_of(b, b_social),
    ensures
        a.secs == b.secs,
        a.len == b.len,
        a_social == b_social,
{
    let sa = hex_number(a.secs as int);
    let sb = hex_number(b.secs as int);
    let la = hex_number(a.len as int);
    let lb = hex_number(b.len as int);
    lemma_hex_len(a.secs as int);
    lemma_hex_len(b.secs as int);
    lemma_hex_len(a.len as int);
    lemma_hex_len(b.len as int);
    let ta = tag_tail(a_social);
    let tb = tag_tail(b_social);
    lemma_tag_parts(a, a_social);
    lemma_tag_parts(b, b_social);
    lemma_first_dash(sa, la + ta, sb, lb + tb);
    lemma_hex_numbers_differ(a.secs as int, b.secs as int);
    if a_social && b_social {
        let og = seq!['o', 'g', '"'];
        assert(la + ta =~= la + seq!['-'] + og);
        assert(lb + tb =~= lb + seq!['-'] + og);
        lemma_first_dash(la, og, lb, og);
    } else if !a_social && !b_social {
        assert((la + ta).drop_last() =~= la);
        assert((lb + tb).drop_last() =~= lb);
    } else if a_social {
        lemma_no_dash(la, lb);
    } else {
        lemma_no_dash(lb, la);
    }
    lemma_hex_numbers_differ(a.len as int, b.len as int);
}

/// What follows the length in a validator.
spec fn tag_tail(social: bool) -> Seq<char> {
    if social {
        seq!['-', 'o', 'g', '"']
    } else {
        seq!['"']
    }
}

proof fn lemma_tag_parts(a: ArtStamp, social: bool)
    ensures
        etag_of(a, social).skip(1) == hex_number(a.secs as int) + seq!['-'] + (hex_number(
            a.len as int,
        ) + tag_tail(social)),
{
    reveal_strlit("\"");
    reveal_strlit("-");
    reveal_strlit("-og");
    reveal_strlit("");
    assert(etag_of(a, social).skip(1) =~= hex_number(a.secs as int) + seq!['-'] + (hex_number(
        a.len as int,
    ) + tag_tail(social)));
}

/// A text with a dash in its tail is none without.
proof fn lemma_no_dash(a: Seq<char>, b: Seq<char>)
    requires
        forall|i: int| 0 <= i < b.len() ==> b[i] != '-',
    ensures
        a + tag_tail(true) != b + tag_tail(false),
{
    let x = a + tag_tail(true);
    let y = b + tag_tail(false);
    assert(x[a.len() as int] == '-');
    assert(x.len() == a.len() + 4);
    assert(y.len() == b.len() + 1);
    if x == y {
        assert(y[a.len() as int] == b[a.len() as int]);
    }
}

/// Art is shrunk for a preview where one of its edges has more than 900
/// pixels; smaller art, and what is no picture, is left as it is.
pub proof fn large_art_is_shrunk(w: u32, h: u32)
    ensures
        preview_of(Some((w, h))) == Preview::Shrink <==> w >= 901 || h >= 901,
        preview_of(None) == Preview::Keep,
        MAX_SIDE == 12_000 && MAX_ALLOC == 256 * 1024 * 1024 && QUALITY == 82,
{
}

/// Each day has the weekday behind that of the day before; the first of
/// January 1970 was a Thursday.
pub proof fn weekdays_follow_each_other(day: int)
    requires
        0 <= day,
    ensures
        weekday_name(0) == "Thu"@,
        weekday_name(day % 7) == "Thu"@ ==> weekday_name((day + 1) % 7) == "Fri"@,
        weekday_name(day % 7) == "Fri"@ ==> weekday_name((day + 1) % 7) == "Sat"@,
        weekday_name(day % 7) == "Sat"@ ==> weekday_name((day + 1) % 7) == "Sun"@,
        weekday_name(day % 7) == "Sun"@ ==> weekday_name((day + 1) % 7) == "Mon"@,
        weekday_name(day % 7) == "Mon"@ ==> weekday_name((day + 1) % 7) == "Tue"@,
        weekday_name(day % 7) == "Tue"@ ==> weekday_name((day + 1) % 7) == "Wed"@,
        weekday_name(day % 7) == "Wed"@ ==> weekday_name((day + 1) % 7) == "Thu"@,
{
    reveal_strlit("Thu");
    reveal_strlit("Fri");
    reveal_strlit("Sat");
    reveal_strlit("Sun");
    reveal_strlit("Mon");
    reveal_strlit("Tue");
    reveal_strlit("Wed");
    assert("Thu"@[0] == 'T' && "Thu"@[1] == 'h');
    assert("Fri"@[0] == 'F');
    assert("Sat"@[0] == 'S' && "Sat"@[1] == 'a');
    assert("Sun"@[0] == 'S' && "Sun"@[1] == 'u');
    assert("Mon"@[0] == 'M');
    assert("Tue"@[0] == 'T' && "Tue"@[1] == 'u');
    assert("Wed"@[0] == 'W');
}

/// A moment is written with the time of day that it has.
pub proof fn moments_are_written_with_their_time(
    y: int,
    m: int,
    d: int,
    day: int,
    hour: int,
    minute: int,
    second: int,
)
    requires
        0 <= day,
        0 <= hour < 24,
        0 <= minute < 60,
        0 <= second < 60,
    ensures
        http_date_of(y, m, d, 86_400 * day + 3600 * hour + 60 * minute + second) == weekday_name(
            day % 7,
        ) + ", "@ + text::padded(d, 2) + " "@ + month_name(m) + " "@ + text::padded(y, 4) + " "@
            + text::padded(hour, 2) + ":"@ + text::padded(minute, 2) + ":"@ + text::padded(
            second,
            2,
        ) + " GMT"@,
{
    let secs = 86_400 * day + 3600 * hour + 60 * minute + second;
    assert(secs / 86_400 == day);
    assert(secs % 86_400 == 3600 * hour + 60 * minute + second);
    assert((3600 * hour + 60 * minute + second) / 3600 == hour);
    assert(secs == 3600 * (24 * day + hour) + 60 * minute + second);
    assert(secs % 3600 == 60 * minute + second);
    assert((60 * minute + second) / 60 == minute);
    assert(secs == 60 * (1440 * day + 60 * hour + minute) + second);
    assert(secs % 60 == second);
}

/// A validator of the client's counts wherever it stands in the list, and so
/// does a star.
pub proof fn validators_are_found_in_the_list(header: Seq<char>, tag: Seq<char>, i: int)
    requires
        0 <= i < text::pieces(header, ',').len(),
    ensures
        text::trimmed(text::pieces(header, ',')[i]) == tag ==> names_tag(header, tag),
        text::trimmed(text::pieces(header, ',')[i]) == "*"@ ==> names_tag(header, tag),
        (forall|k: int|
            0 <= k < text::pieces(header, ',').len() ==> text::trimmed(
                #[trigger] text::pieces(header, ',')[k],
            ) != tag && text::trimmed(text::pieces(header, ',')[k]) != "*"@) ==> !names_tag(
            header,
            tag,
        ),
{
    let p = text::pieces(header, ',')[i];
    assert(text::pieces(header, ',')[i] == p);
}

/// Versioned art is kept for a year, other art for a day.
pub proof fn versioned_art_is_kept_for_a_year()
    ensures
        caching(true) == "public, max-age=31536000, immutable"@,
        caching(false) == "public, max-age=86400, stale-while-revalidate=604800"@,
{
}

} // verus!
