//! The server's settings and identity.
use vstd::prelude::*;
use crate::digest;
use crate::text;

verus! {

/// HTTP listen address.
pub const DEFAULT_BIND: &'static str = "0.0.0.0:8200";

/// HTTPS listen address.
pub const DEFAULT_TLS_BIND: &'static str = "0.0.0.0:8443";

pub const DEFAULT_NAME: &'static str = "Rust Media Server";

/// How many items the "Recently Added" views list per media type.
pub const DEFAULT_RECENT_COUNT: usize = 25;

/// Seconds between periodic announcements.
pub const DEFAULT_ALIVE_SECS: u64 = 120;

/// How often the certificate files are read again, in seconds.
pub const DEFAULT_RELOAD_SECS: u64 = 3600;

pub const DEFAULT_FFMPEG: &'static str = "ffmpeg";

pub const DEFAULT_FFPROBE: &'static str = "ffprobe";

/// The address other devices should use to reach the server: the one that is
/// set, else the one that is listened on; none where that is every address.
pub fn advertised_ip(set: &Option<String>, bind_ip: &str, unspecified: bool) -> (r: Option<String>)
    ensures
        text::opt_text(r) == (match *set {
            Some(ip) => Some(ip@),
            None => if unspecified {
                None
            } else {
                Some(bind_ip@)
            },
        }),
{
    match set {
        Some(ip) => Some(ip.clone()),
        None => if unspecified {
            None
        } else {
            Some(bind_ip.to_owned())
        },
    }
}

pub open spec fn base_of(ip: Seq<char>, port: int) -> Seq<char> {
    "http://"@ + ip + ":"@ + text::decimal(port)
}

/// The server's address in links.
pub fn base_url(ip: &str, port: u16) -> (r: String)
    ensures
        r@ == base_of(ip@, port as int),
{
    let mut out = "http://".to_owned();
    out.push_str(ip);
    out.push_str(":");
    let port = text::dec(port as i64);
    out.push_str(port.as_str());
    out
}

/// Where the device description is.
pub fn location(base_url: &str) -> (r: String)
    ensures
        r@ == base_url@ + "/device.xml"@,
{
    let mut out = base_url.to_owned();
    out.push_str("/device.xml");
    out
}

/// The seconds between reads of the certificate: at least half a minute.
pub fn reload_secs(configured: u64) -> (r: u64)
    ensures
        r == (if configured < 30 {
            30
        } else {
            configured as int
        }),
{
    if configured < 30 {
        30
    } else {
        configured
    }
}

// ----------------------------------------------------------------- identity

/// Whether a character is a lower-case hexadecimal digit.
pub open spec fn hex_digit(c: char) -> bool {
    exists|d: int| 0 <= d < 16 && c == #[trigger] digest::hex_char(d)
}

/// Whether a text is a random UUID in its hyphenated form.
pub open spec fn random_uuid(s: Seq<char>) -> bool {
    &&& s.len() == 36
    &&& forall|i: int|
        0 <= i < 36 ==> if i == 8 || i == 13 || i == 18 || i == 23 {
            #[trigger] s[i] == '-'
        } else {
            hex_digit(s[i])
        }
    &&& s[14] == '4'
}

/// `uuid::Uuid::new_v4`, written by its `Display`: 32 lower-case hexadecimal
/// digits in groups of 8, 4, 4, 4 and 12, the version among them. Which digits
/// is up to chance.
#[verifier::external_body]
fn new_uuid() -> (r: String)
    ensures
        random_uuid(r@),
{
    uuid::Uuid::new_v4().to_string()
}

/// A device's identity, and whether it is new and has to be kept.
#[derive(Debug)]
pub struct Identity {
    pub uuid: String,
    pub fresh: bool,
}

/// The UPnP device UUID must survive restarts so clients recognize us: what was
/// kept is used, where it is not blank, and else a new one is made.
pub fn load_or_create_uuid(kept: Option<&str>) -> (r: Identity)
    ensures
        match crate::server::page::opt_str(kept) {
            Some(k) if text::trimmed(k).len() > 0 => !r.fresh && r.uuid@ == text::trimmed(k),
            _ => r.fresh && random_uuid(r.uuid@),
        },
{
    if let Some(k) = kept {
        let trimmed = text::trim(k);
        if !trimmed.as_str().is_empty() {
            return Identity { uuid: trimmed, fresh: false };
        }
    }
    Identity { uuid: new_uuid(), fresh: true }
}

// ------------------------------------------------------------------ updates

/// The number of the catalog's state, as clients see it. It goes up whenever
/// another connection has changed the catalog; what is seen first changes
/// nothing.
#[derive(Debug, Clone, Copy)]
pub struct Updates {
    pub last: Option<i64>,
    pub update_id: u32,
}

impl Updates {
    pub fn new() -> (r: Self)
        ensures
            r.last is None,
            r.update_id == 1,
    {
        Updates { last: None, update_id: 1 }
    }

    /// Note the version of the catalog; whether it changed.
    pub fn seen(&mut self, version: i64) -> (r: bool)
        ensures
            r == (old(self).last matches Some(l) && l >= 0 && l != version),
            final(self).last == Some(version),
            final(self).update_id == (if r {
                (if old(self).update_id == u32::MAX {
                    0
                } else {
                    old(self).update_id + 1
                })
            } else {
                old(self).update_id as int
            }),
    {
        let changed = match self.last {
            Some(l) => l >= 0 && l != version,
            None => false,
        };
        if changed {
            self.update_id = if self.update_id == u32::MAX {
                0
            } else {
                self.update_id + 1
            };
        }
        self.last = Some(version);
        changed
    }
}

} // verus!
