//! Discovery: the announcements of the server, and the answers to searches.
use vstd::prelude::*;
use crate::text;

verus! {

pub const SSDP_ADDR: &'static str = "239.255.255.250:1900";

pub const SERVER_ID: &'static str = "Darwin/UPnP/1.0 RustMediaServer/0.1";

/// How a relay that announces a server elsewhere calls itself.
pub const ANNOUNCER_ID: &'static str = "Darwin/UPnP/1.0 RustMediaServer/0.1 (announcer)";

pub const NOTIFICATION_TYPES: [&'static str; 4] = [
    "upnp:rootdevice",
    "urn:schemas-upnp-org:device:MediaServer:1",
    "urn:schemas-upnp-org:service:ContentDirectory:1",
    "urn:schemas-upnp-org:service:ConnectionManager:1",
];

pub open spec fn udn_of(uuid: Seq<char>) -> Seq<char> {
    "uuid:"@ + uuid
}

/// The notification targets a MediaServer:1 advertises, as (NT, USN) pairs: the
/// four types under the device's name, then the name itself.
pub open spec fn targets_of(uuid: Seq<char>) -> Seq<(Seq<char>, Seq<char>)> {
    Seq::new(
        4,
        |i: int| (NOTIFICATION_TYPES@[i]@, udn_of(uuid) + "::"@ + NOTIFICATION_TYPES@[i]@),
    ).push((udn_of(uuid), udn_of(uuid)))
}

pub open spec fn pair_views(v: Seq<(String, String)>) -> Seq<(Seq<char>, Seq<char>)> {
    Seq::new(v.len(), |i: int| (v[i].0@, v[i].1@))
}

/// The notification targets a MediaServer:1 advertises, as (NT, USN) pairs.
pub fn targets(uuid: &str) -> (r: Vec<(String, String)>)
    ensures
        pair_views(r@) == targets_of(uuid@),
        r@.len() == 5,
{
    let mut udn = "uuid:".to_owned();
    udn.push_str(uuid);
    let ghost goal = targets_of(uuid@);
    let mut out: Vec<(String, String)> = Vec::new();
    let mut i: usize = 0;
    while i < 4
        invariant
            i <= 4,
            goal == targets_of(uuid@),
            udn@ == udn_of(uuid@),
            pair_views(out@) == goal.take(i as int),
        decreases 4 - i,
    {
        let nt = NOTIFICATION_TYPES[i];
        let mut usn = udn.clone();
        usn.push_str("::");
        usn.push_str(nt);
        let ghost had = out@;
        out.push((nt.to_owned(), usn));
        i += 1;
        assert(out@.drop_last() =~= had);
        assert(pair_views(out@) =~= pair_views(had).push(goal[i - 1]));
        assert(pair_views(out@) =~= goal.take(i as int));
    }
    let ghost had = out@;
    out.push((udn.clone(), udn));
    assert(out@.drop_last() =~= had);
    assert(pair_views(out@) =~= pair_views(had).push(goal[4]));
    assert(pair_views(out@) =~= goal);
    assert(pair_views(out@).len() == out@.len());
    out
}

// ----------------------------------------------------------------- searches

/// The target that a line of a search names.
pub open spec fn st_in(line: Seq<char>) -> Option<Seq<char>> {
    if text::begins(line, "ST:"@) {
        Some(line.skip("ST:"@.len() as int))
    } else if text::begins(line, "st:"@) {
        Some(line.skip("st:"@.len() as int))
    } else {
        None
    }
}

/// The target that the first line names which names one.
pub open spec fn first_st(lines: Seq<Seq<char>>) -> Seq<char>
    decreases lines.len(),
{
    if lines.len() == 0 {
        ""@
    } else {
        match st_in(lines[0]) {
            Some(t) => text::trimmed(t),
            None => first_st(lines.drop_first()),
        }
    }
}

/// What a message searches for; none where it is no search.
pub open spec fn searched_for(message: Seq<char>) -> Option<Seq<char>> {
    if text::begins(message, "M-SEARCH"@) {
        Some(first_st(text::lines_of(message)))
    } else {
        None
    }
}

/// What a message searches for; none where it is no search.
pub fn search_target(message: &str) -> (r: Option<String>)
    ensures
        text::opt_text(r) == searched_for(message@),
{
    if !text::starts_with(message, "M-SEARCH") {
        return None;
    }
    let lines = text::lines(message);
    let ghost ls = text::lines_of(message@);
    assert(text::texts(lines@).len() == lines@.len());
    assert(ls.skip(0) =~= ls);
    let mut i: usize = 0;
    while i < lines.len()
        invariant
            i <= lines.len(),
            text::texts(lines@) == ls,
            ls.len() == lines@.len(),
            searched_for(message@) == Some(first_st(ls)),
            first_st(ls) == first_st(ls.skip(i as int)),
        decreases lines.len() - i,
    {
        assert(ls.skip(i as int)[0] == lines@[i as int]@);
        assert(ls.skip(i as int).drop_first() =~= ls.skip(i + 1));
        let line = lines[i].as_str();
        let named = match text::strip_prefix(line, "ST:") {
            Some(t) => Some(t),
            None => text::strip_prefix(line, "st:"),
        };
        if let Some(t) = named {
            return Some(text::trim(t.as_str()));
        }
        i += 1;
    }
    Some("".to_owned())
}

pub open spec fn response_of(location: Seq<char>, server: Seq<char>, nt: Seq<char>, usn: Seq<char>) -> Seq<
    char,
> {
    "HTTP/1.1 200 OK\r\nCACHE-CONTROL: max-age=1800\r\nEXT:\r\nLOCATION: "@ + location
        + "\r\nSERVER: "@ + server + "\r\nST: "@ + nt + "\r\nUSN: "@ + usn + "\r\n\r\n"@
}

fn response(location: &str, server: &str, nt: &str, usn: &str) -> (r: String)
    ensures
        r@ == response_of(location@, server@, nt@, usn@),
{
    let mut out =
        "HTTP/1.1 200 OK\r\nCACHE-CONTROL: max-age=1800\r\nEXT:\r\nLOCATION: ".to_owned();
    out.push_str(location);
    out.push_str("\r\nSERVER: ");
    out.push_str(server);
    out.push_str("\r\nST: ");
    out.push_str(nt);
    out.push_str("\r\nUSN: ");
    out.push_str(usn);
    out.push_str("\r\n\r\n");
    out
}

/// The answers to a search: one for each target that it is for.
pub open spec fn responses_of(
    st: Seq<char>,
    targets: Seq<(Seq<char>, Seq<char>)>,
    location: Seq<char>,
    server: Seq<char>,
) -> Seq<Seq<char>>
    decreases targets.len(),
{
    if targets.len() == 0 {
        seq![]
    } else {
        let rest = responses_of(st, targets.drop_last(), location, server);
        let t = targets.last();
        if st == "ssdp:all"@ || st == t.0 {
            rest.push(response_of(location, server, t.0, t.1))
        } else {
            rest
        }
    }
}

/// The answers to a message: none to one that is no search.
pub fn responses(message: &str, uuid: &str, location: &str, server: &str) -> (r: Vec<String>)
    ensures
        text::texts(r@) == (match searched_for(message@) {
            Some(st) => responses_of(st, targets_of(uuid@), location@, server@),
            None => seq![],
        }),
{
    let mut out: Vec<String> = Vec::new();
    assert(text::texts(out@) =~= seq![]);
    if let Some(st) = search_target(message) {
        let all = targets(uuid);
        let ghost ts = targets_of(uuid@);
        let mut i: usize = 0;
        assert(ts.take(0) =~= seq![]);
        while i < all.len()
            invariant
                i <= all.len(),
                ts == pair_views(all@),
                text::texts(out@) == responses_of(st@, ts.take(i as int), location@, server@),
            decreases all.len() - i,
        {
            assert(ts.take(i + 1).drop_last() =~= ts.take(i as int));
            assert(ts.take(i + 1).last() == ts[i as int]);
            let nt = all[i].0.as_str();
            if text::same(st.as_str(), "ssdp:all") || text::same(st.as_str(), nt) {
                let one = response(location, server, nt, all[i].1.as_str());
                text::push_text(&mut out, one.as_str());
            }
            i += 1;
        }
        assert(ts.take(i as int) =~= ts);
    }
    out
}

// ------------------------------------------------------------ announcements

pub open spec fn notice_of(
    location: Seq<char>,
    server: Seq<char>,
    alive: bool,
    nt: Seq<char>,
    usn: Seq<char>,
) -> Seq<char> {
    "NOTIFY * HTTP/1.1\r\nHOST: "@ + SSDP_ADDR@ + "\r\nCACHE-CONTROL: max-age=1800\r\nLOCATION: "@
        + location + "\r\nNT: "@ + nt + "\r\nNTS: "@ + (if alive {
        "ssdp:alive"@
    } else {
        "ssdp:byebye"@
    }) + "\r\nSERVER: "@ + server + "\r\nUSN: "@ + usn + "\r\n\r\n"@
}

fn notice(location: &str, server: &str, alive: bool, nt: &str, usn: &str) -> (r: String)
    ensures
        r@ == notice_of(location@, server@, alive, nt@, usn@),
{
    let mut out = "NOTIFY * HTTP/1.1\r\nHOST: ".to_owned();
    out.push_str(SSDP_ADDR);
    out.push_str("\r\nCACHE-CONTROL: max-age=1800\r\nLOCATION: ");
    out.push_str(location);
    out.push_str("\r\nNT: ");
    out.push_str(nt);
    out.push_str("\r\nNTS: ");
    out.push_str(if alive { "ssdp:alive" } else { "ssdp:byebye" });
    out.push_str("\r\nSERVER: ");
    out.push_str(server);
    out.push_str("\r\nUSN: ");
    out.push_str(usn);
    out.push_str("\r\n\r\n");
    out
}

pub open spec fn notices_of(uuid: Seq<char>, location: Seq<char>, server: Seq<char>, alive: bool) -> Seq<
    Seq<char>,
> {
    Seq::new(
        5,
        |i: int| notice_of(location, server, alive, targets_of(uuid)[i].0, targets_of(uuid)[i].1),
    )
}

/// The messages that announce the server, or its end: one for each target.
pub fn notify(uuid: &str, location: &str, server: &str, alive: bool) -> (r: Vec<String>)
    ensures
        text::texts(r@) == notices_of(uuid@, location@, server@, alive),
{
    let all = targets(uuid);
    let ghost ts = targets_of(uuid@);
    let ghost goal = notices_of(uuid@, location@, server@, alive);
    let mut out: Vec<String> = Vec::new();
    assert(text::texts(out@) =~= goal.take(0));
    let mut i: usize = 0;
    while i < all.len()
        invariant
            i <= all.len(),
            all@.len() == 5,
            ts == targets_of(uuid@),
            ts == pair_views(all@),
            goal == notices_of(uuid@, location@, server@, alive),
            text::texts(out@) == goal.take(i as int),
        decreases all.len() - i,
    {
        assert(ts[i as int] == (all@[i as int].0@, all@[i as int].1@));
        let one = notice(location, server, alive, all[i].0.as_str(), all[i].1.as_str());
        text::push_text(&mut out, one.as_str());
        i += 1;
        assert(text::texts(out@) =~= goal.take(i as int));
    }
    assert(goal.take(i as int) =~= goal);
    out
}

/// The seconds between announcements: at least half a minute.
pub fn alive_secs(configured: u64) -> (r: u64)
    ensures
        r == (if configured < 30 {
            30
        } else {
            configured as int
        }),
{
    if configured < 30 {
        30
    } else {
        configured
    }
}

/// Whether an interface's IPv4 address is one to announce on: not loopback
/// (127.0.0.0/8), not link-local (169.254.0.0/16).
pub fn usable_address(octets: [u8; 4]) -> (r: bool)
    ensures
        r == (octets@[0] != 127 && !(octets@[0] == 169 && octets@[1] == 254)),
{
    octets[0] != 127 && !(octets[0] == 169 && octets[1] == 254)
}

// -------------------------------------------------------------------- relay

/// The identity in a server's device description.
pub open spec fn described_uuid(body: Seq<char>) -> Option<Seq<char>> {
    match text::cut_once(body, "<UDN>uuid:"@) {
        Some((_, rest)) => match text::cut_once(rest, "</UDN>"@) {
            Some((uuid, _)) => Some(text::trimmed(uuid)),
            None => None,
        },
        None => None,
    }
}

/// Health check that doubles as identity discovery: a reachable server's
/// device description carries its name.
pub fn uuid_in(body: &str) -> (r: Option<String>)
    ensures
        text::opt_text(r) == described_uuid(body@),
{
    match text::split_once(body, "<UDN>uuid:") {
        Some((_, rest)) => match text::split_once(rest.as_str(), "</UDN>") {
            Some((uuid, _)) => Some(text::trim(uuid.as_str())),
            None => None,
        },
        None => None,
    }
}

/// A beacon that announces a server on another network segment.
#[derive(Debug)]
pub struct Relay {
    /// The server's identity; none while it is unreachable.
    pub uuid: Option<String>,
}

/// What a relay does after a health check.
#[derive(Debug)]
pub enum RelayStep {
    /// Announce the server; whether it is newly there or has a new identity.
    Announce { uuid: String, news: bool },
    /// Say that the server is gone.
    Farewell(String),
    /// The server is still away.
    Quiet,
}

impl Relay {
    pub fn new() -> (r: Self)
        ensures
            r.uuid is None,
    {
        Relay { uuid: None }
    }

    /// While the server is healthy it is announced; when it disappears that is
    /// said once, and the relay falls silent until it returns.
    pub fn checked(&mut self, found: Option<String>) -> (r: RelayStep)
        ensures
            text::opt_text(final(self).uuid) == text::opt_text(found),
            match found {
                Some(u) => r matches RelayStep::Announce { uuid, news } && uuid@ == u@ && news == (
                text::opt_text(old(self).uuid) != Some(u@)),
                None => match old(self).uuid {
                    Some(was) => r matches RelayStep::Farewell(u) && u@ == was@,
                    None => r is Quiet,
                },
            },
    {
        let mut was: Option<String> = None;
        std::mem::swap(&mut was, &mut self.uuid);
        match found {
            Some(u) => {
                let news = match &was {
                    Some(w) => !text::same(w.as_str(), u.as_str()),
                    None => true,
                };
                self.uuid = Some(u.clone());
                RelayStep::Announce { uuid: u, news }
            },
            None => match was {
                Some(w) => RelayStep::Farewell(w),
                None => RelayStep::Quiet,
            },
        }
    }
}

/// The seconds between health checks: at least a quarter of a minute.
pub fn check_secs(configured: u64) -> (r: u64)
    ensures
        r == (if configured < 15 {
            15
        } else {
            configured as int
        }),
{
    if configured < 15 {
        15
    } else {
        configured
    }
}

// -------------------------------------------------------------------- laws

/// Who searches for everything is answered with each target, as it is
/// announced.
pub proof fn everything_is_answered(uuid: Seq<char>, location: Seq<char>, server: Seq<char>)
    ensures
        responses_of("ssdp:all"@, targets_of(uuid), location, server) == Seq::new(
            5,
            |i: int|
                response_of(location, server, targets_of(uuid)[i].0, targets_of(uuid)[i].1),
        ),
{
    let ts = targets_of(uuid);
    lemma_all_answered(ts, location, server);
    assert(responses_of("ssdp:all"@, ts, location, server) =~= Seq::new(
        5,
        |i: int| response_of(location, server, ts[i].0, ts[i].1),
    ));
}

proof fn lemma_all_answered(
    ts: Seq<(Seq<char>, Seq<char>)>,
    location: Seq<char>,
    server: Seq<char>,
)
    ensures
        responses_of("ssdp:all"@, ts, location, server).len() == ts.len(),
        forall|i: int|
            0 <= i < ts.len() ==> #[trigger] responses_of("ssdp:all"@, ts, location, server)[i]
                == response_of(location, server, ts[i].0, ts[i].1),
    decreases ts.len(),
{
    if ts.len() > 0 {
        lemma_all_answered(ts.drop_last(), location, server);
    }
}

/// A search is answered for a target where it asks for that target or for
/// everything, and for no other.
pub proof fn searches_are_answered_for_what_they_ask(
    st: Seq<char>,
    targets: Seq<(Seq<char>, Seq<char>)>,
    nt: Seq<char>,
    usn: Seq<char>,
    location: Seq<char>,
    server: Seq<char>,
)
    ensures
        responses_of(st, seq![], location, server).len() == 0,
        st == nt || st == "ssdp:all"@ ==> responses_of(
            st,
            targets.push((nt, usn)),
            location,
            server,
        ) == responses_of(st, targets, location, server).push(
            response_of(location, server, nt, usn),
        ),
        st != nt && st != "ssdp:all"@ ==> responses_of(
            st,
            targets.push((nt, usn)),
            location,
            server,
        ) == responses_of(st, targets, location, server),
{
    assert(targets.push((nt, usn)).drop_last() =~= targets);
}

/// What is searched for stands behind the first line's ST; lines before it that
/// name no target do not count, nor do lines behind it.
pub proof fn the_first_target_counts(lines: Seq<Seq<char>>, rest: Seq<char>, tail: Seq<Seq<char>>)
    requires
        forall|i: int|
            0 <= i < lines.len() ==> !text::begins(#[trigger] lines[i], "ST:"@) && !text::begins(
                lines[i],
                "st:"@,
            ),
    ensures
        first_st(lines + seq!["ST:"@ + rest] + tail) == text::trimmed(rest),
        first_st(lines + seq!["st:"@ + rest] + tail) == text::trimmed(rest),
        first_st(lines).len() == 0,
    decreases lines.len(),
{
    reveal_strlit("ST:");
    reveal_strlit("st:");
    reveal_strlit("");
    let a = "ST:"@ + rest;
    let b = "st:"@ + rest;
    if lines.len() == 0 {
        assert((lines + seq![a] + tail)[0] == a);
        assert((lines + seq![b] + tail)[0] == b);
        assert(a.subrange(0, 3) =~= "ST:"@);
        assert(b.subrange(0, 3) =~= "st:"@);
        assert(b.subrange(0, 3)[0] == 's' && "ST:"@[0] == 'S');
        assert(a.skip(3) =~= rest);
        assert(b.skip(3) =~= rest);
    } else {
        let more = lines.drop_first();
        assert forall|i: int| 0 <= i < more.len() implies !text::begins(
            #[trigger] more[i],
            "ST:"@,
        ) && !text::begins(more[i], "st:"@) by {
            assert(more[i] == lines[i + 1]);
        }
        the_first_target_counts(more, rest, tail);
        assert(st_in(lines[0]) is None);
        assert((lines + seq![a] + tail)[0] == lines[0]);
        assert((lines + seq![b] + tail)[0] == lines[0]);
        assert((lines + seq![a] + tail).drop_first() =~= more + seq![a] + tail);
        assert((lines + seq![b] + tail).drop_first() =~= more + seq![b] + tail);
    }
}

/// The targets are the device's types, each under the device's name, and the
/// name itself.
pub proof fn targets_go_by_the_devices_name(uuid: Seq<char>)
    ensures
        ({
            let t = targets_of(uuid);
            let name = "uuid:"@ + uuid;
            &&& t.len() == 5
            &&& t[0] == ("upnp:rootdevice"@, name + "::"@ + "upnp:rootdevice"@)
            &&& t[1].0 == "urn:schemas-upnp-org:device:MediaServer:1"@
            &&& t[2].0 == "urn:schemas-upnp-org:service:ContentDirectory:1"@
            &&& t[3].0 == "urn:schemas-upnp-org:service:ConnectionManager:1"@
            &&& forall|i: int| 0 <= i < 4 ==> (#[trigger] t[i]).1 == name + "::"@ + t[i].0
            &&& t[4] == (name, name)
        }),
{
    assert(NOTIFICATION_TYPES@[0]@ == "upnp:rootdevice"@);
    assert(NOTIFICATION_TYPES@[1]@ == "urn:schemas-upnp-org:device:MediaServer:1"@);
    assert(NOTIFICATION_TYPES@[2]@ == "urn:schemas-upnp-org:service:ContentDirectory:1"@);
    assert(NOTIFICATION_TYPES@[3]@ == "urn:schemas-upnp-org:service:ConnectionManager:1"@);
}

} // verus!
