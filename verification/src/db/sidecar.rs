//! Files beside the media — .nfo, .srt, .edl, posters, music.toml — are
//! the one input every service reads that anything able to write to the
//! share can shape. So reads here are bounded in size and refuse symlinks
//! (a link could aim anywhere on this host), and writes go to a temp file
//! beside the target and rename over it — never through a symlink already
//! sitting at the target, and never leaving a half-written sidecar for
//! the scanner to ingest.
use vstd::prelude::*;
use crate::text;

verus! {

/// Largest text sidecar (nfo, srt, edl, toml) read into memory.
pub const MAX_TEXT: u64 = 8_388_608;

/// Largest image sidecar or embedded picture read into memory.
pub const MAX_IMAGE: u64 = 33_554_432;

/// What stands at a path, links not followed.
#[derive(Debug, Clone, Copy, PartialEq, Eq, Structural)]
pub enum Found {
    /// A regular file of this many bytes.
    File(u64),
    Symlink,
    /// A directory, a device, ...
    Other,
    /// Nothing, or nothing that can be looked at.
    Missing,
}

/// Why a sidecar is neither read nor written.
#[derive(Debug, Clone, Copy, PartialEq, Eq, Structural)]
pub enum SidecarError {
    Missing,
    NotRegular,
    /// This many bytes, over this limit.
    TooLarge(u64, u64),
    /// Grew past the limit while being read.
    Grew,
    NotUtf8,
    Symlink,
}

impl SidecarError {
    pub open spec fn told(&self) -> Seq<char> {
        match *self {
            SidecarError::Missing => "no such file"@,
            SidecarError::NotRegular => "not a regular file"@,
            SidecarError::TooLarge(n, max) => text::decimal(n as int) + " bytes exceeds the "@
                + text::decimal(max as int) + "-byte sidecar limit"@,
            SidecarError::Grew => "file grew past the sidecar limit"@,
            SidecarError::NotUtf8 => "not UTF-8"@,
            SidecarError::Symlink => "refusing to write through a symlink"@,
        }
    }

    pub fn message(&self) -> (r: String)
        ensures
            r@ == self.told(),
    {
        match *self {
            SidecarError::Missing => "no such file".to_owned(),
            SidecarError::NotRegular => "not a regular file".to_owned(),
            SidecarError::TooLarge(n, max) => {
                let mut out = text::dec_u64(n);
                out.push_str(" bytes exceeds the ");
                out.push_str(text::dec_u64(max).as_str());
                out.push_str("-byte sidecar limit");
                out
            },
            SidecarError::Grew => "file grew past the sidecar limit".to_owned(),
            SidecarError::NotUtf8 => "not UTF-8".to_owned(),
            SidecarError::Symlink => "refusing to write through a symlink".to_owned(),
        }
    }
}

/// Whether what was found is a regular file (not a symlink) of at most
/// `max` bytes.
pub fn is_regular_within(found: Found, max: u64) -> (r: bool)
    ensures
        r == (found matches Found::File(n) && n <= max),
{
    match found {
        Found::File(n) => n <= max,
        _ => false,
    }
}

/// Why a file is not read, going by what was found at its path.
pub open spec fn unreadable(found: Found, max: u64) -> Option<SidecarError> {
    match found {
        Found::Missing => Some(SidecarError::Missing),
        Found::File(n) => if n > max {
            Some(SidecarError::TooLarge(n, max))
        } else {
            None
        },
        _ => Some(SidecarError::NotRegular),
    }
}

/// The bytes of a regular file of at most `max` bytes, given what was found
/// at its path and what was then read there. The limit bounds the read as
/// well: the file may grow between the two.
pub fn read_capped(found: Found, read: Vec<u8>, max: u64) -> (r: Result<Vec<u8>, SidecarError>)
    ensures
        r == (match unreadable(found, max) {
            Some(e) => Err::<Vec<u8>, SidecarError>(e),
            None => if read@.len() > max {
                Err::<Vec<u8>, SidecarError>(SidecarError::Grew)
            } else {
                Ok::<Vec<u8>, SidecarError>(read)
            },
        }),
{
    match found {
        Found::Missing => {
            return Err(SidecarError::Missing);
        },
        Found::File(n) => {
            if n > max {
                return Err(SidecarError::TooLarge(n, max));
            }
        },
        _ => {
            return Err(SidecarError::NotRegular);
        },
    }
    if read.len() as u64 > max {
        return Err(SidecarError::Grew);
    }
    Ok(read)
}

/// `read_capped` as UTF-8 text; anything else is an error.
pub fn read_text_capped(found: Found, read: Vec<u8>, max: u64) -> (r: Result<
    String,
    SidecarError,
>)
    ensures
        match r {
            Ok(s) => unreadable(found, max) is None && read@.len() <= max
                && vstd::utf8::encode_utf8(s@) == read@,
            Err(e) => match unreadable(found, max) {
                Some(why) => e == why,
                None => if read@.len() > max {
                    e == SidecarError::Grew
                } else {
                    e == SidecarError::NotUtf8 && !vstd::utf8::valid_utf8(read@)
                },
            },
        },
{
    match read_capped(found, read, max) {
        Err(e) => Err(e),
        Ok(bytes) => match text::from_utf8(&bytes) {
            None => Err(SidecarError::NotUtf8),
            Some(s) => {
                proof {
                    vstd::utf8::decode_utf8_encode_utf8(bytes@);
                }
                Ok(s)
            },
        },
    }
}

/// Where a sidecar is written before it is moved into place.
pub open spec fn temp_of(name: Seq<char>, process: int) -> Seq<char> {
    "."@ + name + "."@ + text::decimal(process) + ".part"@
}

/// The name of the temp file that a sidecar of this name is written to, or
/// why it is not written: a symlink stands at the target. The temp name
/// starts with a dot and ends in .part, which the scanner ignores.
pub fn write_atomic(target: Found, name: &str, process: u32) -> (r: Result<String, SidecarError>)
    ensures
        match r {
            Ok(temp) => target != Found::Symlink && temp@ == temp_of(name@, process as int),
            Err(e) => target == Found::Symlink && e == SidecarError::Symlink,
        },
{
    if target == Found::Symlink {
        return Err(SidecarError::Symlink);
    }
    let mut temp = ".".to_owned();
    temp.push_str(name);
    temp.push_str(".");
    temp.push_str(text::dec(process as i64).as_str());
    temp.push_str(".part");
    Ok(temp)
}

/// A sidecar that `read_capped` gives is one that `is_regular_within`
/// admits, and no symlink passes either way.
pub proof fn links_are_refused(max: u64)
    ensures
        unreadable(Found::Symlink, max) == Some(SidecarError::NotRegular),
        forall|found: Found| #[trigger]
            unreadable(found, max) is None ==> (found matches Found::File(n) && n <= max),
{
}

} // verus!
