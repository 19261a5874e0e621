//! The UPnP control points: what an action is answered.
use vstd::prelude::*;
use crate::db::mime;
use crate::db::mime::{AUDIO_EXTENSIONS, VIDEO_EXTENSIONS};
use crate::db::models::BrowseItem;
use crate::lists;
use crate::order;
use crate::server::didl;
use crate::server::didl::DIDL_START;
use crate::server::objectid;
use crate::server::objectid::ObjectId;
use crate::server::search;
use crate::server::search::{ClassFilter, MAX_TERMS};
use crate::server::soap;
use crate::server::tree;
use crate::server::tree::{Dress, Entry, Node};
use crate::text;
use crate::xml;
use crate::xml::{EventView, XmlEvent};

verus! {

pub const CDS_SERVICE: &'static str = "urn:schemas-upnp-org:service:ContentDirectory:1";

pub const CMS_SERVICE: &'static str = "urn:schemas-upnp-org:service:ConnectionManager:1";

/// The body of a reply, and whether it is a fault (sent with HTTP status 500).
#[derive(Debug)]
pub struct Answer {
    pub fault: bool,
    pub body: String,
}

pub open spec fn answers(a: Answer, body: Seq<char>) -> bool {
    !a.fault && a.body@ == body
}

pub open spec fn faults(a: Answer, code: int, description: Seq<char>) -> bool {
    a.fault && a.body@ == soap::fault_of(code, description)
}

/// A UPnP fault as an answer.
pub fn soap_fault(code: u32, description: &str) -> (r: Answer)
    ensures
        faults(r, code as int, description@),
{
    Answer { fault: true, body: soap::fault(code, description) }
}

/// What is answered where an object is not known.
pub fn no_such_object() -> (r: Answer)
    ensures
        faults(r, 701, "No such object"@),
{
    soap_fault(701, "No such object")
}

/// What is answered where a search cannot be made.
pub fn search_failed() -> (r: Answer)
    ensures
        faults(r, 720, "Search failed"@),
{
    soap_fault(720, "Search failed")
}

// ------------------------------------------------------------------ actions

/// The action that a SOAPACTION header names; none where there is no header.
pub open spec fn action_of(header: Option<Seq<char>>) -> Seq<char> {
    match header {
        Some(h) => match text::rcut_once(soap::unquoted(h), "#"@) {
            Some((_, action)) => action,
            None => ""@,
        },
        None => ""@,
    }
}

pub fn action(header: Option<&str>) -> (r: String)
    ensures
        r@ == action_of(crate::server::page::opt_str(header)),
{
    match header {
        Some(h) => match soap::action_from_header(h) {
            Some(a) => a,
            None => "".to_owned(),
        },
        None => "".to_owned(),
    }
}

/// What a content directory action asks for.
#[derive(Debug)]
pub enum CdsAction {
    /// List the children of an object, or describe it.
    Browse,
    /// Search below an object.
    Search,
    /// Answered without a look at the catalog.
    Answered(Answer),
}

pub const SEARCH_CAPABILITIES: &'static str = "dc:title,upnp:class,upnp:artist,upnp:album,upnp:genre";

/// A reply with one argument.
pub open spec fn one_arg(service: Seq<char>, action: Seq<char>, name: Seq<char>, value: Seq<char>) -> Seq<
    char,
> {
    soap::reply(service, action, seq![(name, value)])
}

fn reply_one(service: &str, action: &str, name: &'static str, value: String) -> (r: Answer)
    ensures
        answers(r, one_arg(service@, action@, name@, value@)),
{
    let ghost v = value@;
    let mut args: Vec<(&'static str, String)> = Vec::new();
    args.push((name, value));
    assert(soap::arg_views(args@) =~= seq![(name@, v)]);
    Answer { fault: false, body: soap::envelope(service, action, &args) }
}

/// What the content directory does with an action.
pub fn cds_control(action: &str, update_id: u32) -> (r: CdsAction)
    ensures
        match r {
            CdsAction::Browse => action@ == "Browse"@,
            CdsAction::Search => action@ == "Search"@,
            CdsAction::Answered(a) => action@ != "Browse"@ && action@ != "Search"@ && (if action@
                == "GetSystemUpdateID"@ {
                answers(a, one_arg(CDS_SERVICE@, action@, "Id"@, text::decimal(update_id as int)))
            } else if action@ == "GetSearchCapabilities"@ {
                answers(a, one_arg(CDS_SERVICE@, action@, "SearchCaps"@, SEARCH_CAPABILITIES@))
            } else if action@ == "GetSortCapabilities"@ {
                answers(a, one_arg(CDS_SERVICE@, action@, "SortCaps"@, ""@))
            } else {
                faults(a, 401, "Invalid Action"@)
            }),
        },
{
    if text::same(action, "Browse") {
        CdsAction::Browse
    } else if text::same(action, "Search") {
        CdsAction::Search
    } else if text::same(action, "GetSystemUpdateID") {
        CdsAction::Answered(reply_one(CDS_SERVICE, action, "Id", text::dec(update_id as i64)))
    } else if text::same(action, "GetSearchCapabilities") {
        CdsAction::Answered(
            reply_one(CDS_SERVICE, action, "SearchCaps", SEARCH_CAPABILITIES.to_owned()),
        )
    } else if text::same(action, "GetSortCapabilities") {
        CdsAction::Answered(reply_one(CDS_SERVICE, action, "SortCaps", "".to_owned()))
    } else {
        CdsAction::Answered(soap_fault(401, "Invalid Action"))
    }
}

// ----------------------------------------------------------------- requests

/// The text of the first element of a name in a document.
pub open spec fn param_of(events: Seq<EventView>, name: Seq<char>) -> Option<Seq<char>> {
    soap::text_from(events, 0, vstd::utf8::encode_utf8(name), soap::outside())
}

/// The text of an element, or what stands for it where it is missing.
pub open spec fn param_or(events: Seq<EventView>, name: Seq<char>, default: Seq<char>) -> Seq<char> {
    match param_of(events, name) {
        Some(s) => s,
        None => default,
    }
}

fn text_or(events: &Vec<XmlEvent>, name: &str, default: &str) -> (r: String)
    ensures
        r@ == param_or(xml::event_views(events@), name@, default@),
{
    match soap::param_in(events, name) {
        Some(s) => s,
        None => default.to_owned(),
    }
}

/// The number in an element; zero where it is missing or no number.
pub open spec fn number_of(events: Seq<EventView>, name: Seq<char>) -> int {
    match param_of(events, name) {
        Some(s) => match text::integer_usize(s) {
            Some(n) => n,
            None => 0,
        },
        None => 0,
    }
}

fn number(events: &Vec<XmlEvent>, name: &str) -> (r: usize)
    ensures
        r == number_of(xml::event_views(events@), name@),
{
    match soap::param_in(events, name) {
        Some(s) => match text::parse_usize(s.as_str()) {
            Some(n) => n,
            None => 0,
        },
        None => 0,
    }
}

/// A Browse request: which object, its description or its children, and which
/// part of them.
#[derive(Debug)]
pub struct BrowseRequest {
    pub oid: ObjectId,
    pub metadata: bool,
    pub start: usize,
    pub count: usize,
}

/// A Browse request, given the events of its document; none where it names no
/// object.
pub fn browse_request_in(events: &Vec<XmlEvent>) -> (r: Option<BrowseRequest>)
    ensures
        ({
            let es = xml::event_views(events@);
            match objectid::parsed(param_or(es, "ObjectID"@, "0"@)) {
                Some(o) => r matches Some(q) && q.oid@ == o && q.metadata == (param_or(
                    es,
                    "BrowseFlag"@,
                    "BrowseDirectChildren"@,
                ) == "BrowseMetadata"@) && q.start == number_of(es, "StartingIndex"@) && q.count
                    == number_of(es, "RequestedCount"@),
                None => r is None,
            }
        }),
{
    let id = text_or(events, "ObjectID", "0");
    let flag = text_or(events, "BrowseFlag", "BrowseDirectChildren");
    let start = number(events, "StartingIndex");
    let count = number(events, "RequestedCount");
    match ObjectId::parse(id.as_str()) {
        Some(oid) => Some(
            BrowseRequest { oid, metadata: text::same(flag.as_str(), "BrowseMetadata"), start, count },
        ),
        None => None,
    }
}

/// A Browse request; none where it names no object.
pub fn browse_request(body: &str) -> (r: Option<BrowseRequest>)
    ensures
        ({
            let es = xml::xml_events(body@);
            match objectid::parsed(param_or(es, "ObjectID"@, "0"@)) {
                Some(o) => r matches Some(q) && q.oid@ == o && q.metadata == (param_or(
                    es,
                    "BrowseFlag"@,
                    "BrowseDirectChildren"@,
                ) == "BrowseMetadata"@) && q.start == number_of(es, "StartingIndex"@) && q.count
                    == number_of(es, "RequestedCount"@),
                None => r is None,
            }
        }),
{
    let events = xml::read_events(body);
    browse_request_in(&events)
}

/// A Search request: within which object, for what, and which part of what is
/// found.
#[derive(Debug)]
pub struct SearchRequest {
    pub scope: ObjectId,
    pub terms: Vec<String>,
    pub class: ClassFilter,
    pub start: usize,
    pub count: usize,
}

/// A Search request, given the events of its document; none where it names no
/// object.
pub fn search_request_in(events: &Vec<XmlEvent>) -> (r: Option<SearchRequest>)
    ensures
        ({
            let es = xml::event_views(events@);
            let asked = search::asked(param_or(es, "SearchCriteria"@, ""@));
            match objectid::parsed(param_or(es, "ContainerID"@, "0"@)) {
                Some(o) => r matches Some(q) && q.scope@ == o && search::honoured(
                    text::texts(q.terms@),
                    asked.terms,
                ) && q.terms@.len() <= MAX_TERMS && q.class == asked.class && q.start == number_of(
                    es,
                    "StartingIndex"@,
                ) && q.count == number_of(es, "RequestedCount"@),
                None => r is None,
            }
        }),
{
    let id = text_or(events, "ContainerID", "0");
    let criteria = text_or(events, "SearchCriteria", "");
    let start = number(events, "StartingIndex");
    let count = number(events, "RequestedCount");
    match ObjectId::parse(id.as_str()) {
        Some(scope) => {
            let (terms, class) = search::parse_search_criteria(criteria.as_str());
            Some(SearchRequest { scope, terms, class, start, count })
        },
        None => None,
    }
}

/// A Search request; none where it names no object.
pub fn search_request(body: &str) -> (r: Option<SearchRequest>)
    ensures
        ({
            let es = xml::xml_events(body@);
            let asked = search::asked(param_or(es, "SearchCriteria"@, ""@));
            match objectid::parsed(param_or(es, "ContainerID"@, "0"@)) {
                Some(o) => r matches Some(q) && q.scope@ == o && search::honoured(
                    text::texts(q.terms@),
                    asked.terms,
                ) && q.terms@.len() <= MAX_TERMS && q.class == asked.class && q.start == number_of(
                    es,
                    "StartingIndex"@,
                ) && q.count == number_of(es, "RequestedCount"@),
                None => r is None,
            }
        }),
{
    let events = xml::read_events(body);
    search_request_in(&events)
}

// ------------------------------------------------------------------ windows

/// Where the part of a list starts that is asked for.
pub open spec fn window_start(total: int, start: int) -> int {
    if start < total {
        start
    } else {
        total
    }
}

/// Where the part of a list ends that is asked for. A count of zero asks for
/// all of the rest.
pub open spec fn window_end(total: int, start: int, count: int) -> int {
    if count == 0 || start + count > total {
        total
    } else {
        start + count
    }
}

/// The part of a list that is asked for.
pub open spec fn window_of<T>(s: Seq<T>, start: int, count: int) -> Seq<T> {
    s.subrange(
        window_start(s.len() as int, start),
        window_end(s.len() as int, start, count),
    )
}

/// The part of a list that is asked for.
pub fn window<T>(list: Vec<T>, start: usize, count: usize) -> (r: Vec<T>)
    ensures
        r@ == window_of(list@, start as int, count as int),
{
    let ghost all = list@;
    let total = list.len();
    let lo: usize = if start < total {
        start
    } else {
        total
    };
    let hi: usize = if count == 0 || count > total - lo {
        total
    } else {
        lo + count
    };
    let mut rest = lists::reversed(list);
    let mut out: Vec<T> = Vec::new();
    let mut i: usize = 0;
    while i < hi
        invariant
            i <= hi <= total,
            lo <= hi,
            total == all.len(),
            rest@ == all.reverse().take(total - i),
            out@ == all.subrange(lo as int, if i < lo { lo as int } else { i as int }),
        decreases hi - i,
    {
        let x = rest.pop();
        assert(all.reverse().take(total - i).drop_last() =~= all.reverse().take(total - i - 1));
        if let Some(x) = x {
            assert(x == all[i as int]);
            if i >= lo {
                out.push(x);
            }
        }
        i += 1;
        assert(out@ =~= all.subrange(lo as int, if i < lo { lo as int } else { i as int }));
    }
    assert(out@ =~= window_of(all, start as int, count as int));
    out
}

// ------------------------------------------------------------------ replies

/// The arguments of a reply that lists a part of what there is.
pub open spec fn listing_args(didl: Seq<char>, returned: int, total: int, update_id: int) -> Seq<
    (Seq<char>, Seq<char>),
> {
    seq![
        ("Result"@, didl::escaped(didl)),
        ("NumberReturned"@, text::decimal(returned)),
        ("TotalMatches"@, text::decimal(total)),
        ("UpdateID"@, text::decimal(update_id)),
    ]
}

fn reply_listing(action: &str, didl: &str, returned: usize, total: usize, update_id: u32) -> (r: Answer)
    ensures
        answers(
            r,
            soap::reply(
                CDS_SERVICE@,
                action@,
                listing_args(didl@, returned as int, total as int, update_id as int),
            ),
        ),
{
    let mut args: Vec<(&'static str, String)> = Vec::new();
    args.push(("Result", didl::xml_escape(didl)));
    args.push(("NumberReturned", text::dec_usize(returned)));
    args.push(("TotalMatches", text::dec_usize(total)));
    args.push(("UpdateID", text::dec(update_id as i64)));
    assert(soap::arg_views(args@) =~= listing_args(
        didl@,
        returned as int,
        total as int,
        update_id as int,
    ));
    Answer { fault: false, body: soap::envelope(CDS_SERVICE, action, &args) }
}

/// A DIDL-Lite document of entries.
pub open spec fn document(entries: Seq<Entry>, base_url: Seq<char>) -> Seq<char> {
    DIDL_START@ + didl::all_rendered(entries, base_url) + "</DIDL-Lite>"@
}

/// The answer to a Browse for the children of an object: the part of them that
/// is asked for, and how many there are.
pub fn children_reply(
    children: Vec<Entry>,
    start: usize,
    count: usize,
    base_url: &str,
    update_id: u32,
) -> (r: Answer)
    ensures
        ({
            let page = window_of(children@, start as int, count as int);
            answers(
                r,
                soap::reply(
                    CDS_SERVICE@,
                    "Browse"@,
                    listing_args(
                        document(page, base_url@),
                        page.len() as int,
                        children@.len() as int,
                        update_id as int,
                    ),
                ),
            )
        }),
{
    let total = children.len();
    let page = window(children, start, count);
    let didl = didl::render(&page, base_url);
    reply_listing("Browse", didl.as_str(), page.len(), total, update_id)
}

/// The answer to a Browse for an object's own description.
pub fn metadata_reply(entry: Entry, base_url: &str, update_id: u32) -> (r: Answer)
    ensures
        answers(
            r,
            soap::reply(
                CDS_SERVICE@,
                "Browse"@,
                listing_args(document(seq![entry], base_url@), 1, 1, update_id as int),
            ),
        ),
{
    let ghost e = entry;
    let mut page: Vec<Entry> = Vec::new();
    page.push(entry);
    assert(page@ =~= seq![e]);
    let didl = didl::render(&page, base_url);
    reply_listing("Browse", didl.as_str(), 1, 1, update_id)
}

/// Whether an answer lists the part of what was found that is asked for, as
/// entries below the object that was searched.
pub open spec fn lists_found(
    a: Answer,
    scope: Node,
    found: Seq<BrowseItem>,
    start: int,
    count: int,
    base_url: Seq<char>,
    update_id: int,
) -> bool {
    let page = window_of(found, start, count);
    exists|entries: Seq<Entry>|
        #![trigger tree::entry_views(entries)]
        tree::entry_views(entries) == tree::item_views(scope, page, Dress::Plain) && answers(
            a,
            soap::reply(
                CDS_SERVICE@,
                "Search"@,
                listing_args(
                    document(entries, base_url),
                    page.len() as int,
                    found.len() as int,
                    update_id,
                ),
            ),
        )
}

/// The answer to a Search: the same scoped search the web pages use, rendered
/// as DIDL.
pub fn search_reply(
    scope: &ObjectId,
    found: Vec<BrowseItem>,
    start: usize,
    count: usize,
    base_url: &str,
    update_id: u32,
) -> (r: Answer)
    ensures
        lists_found(r, scope@, found@, start as int, count as int, base_url@, update_id as int),
{
    let total = found.len();
    let page = window(found, start, count);
    let returned = page.len();
    let entries = tree::entries_for(scope, page);
    let didl = didl::render(&entries, base_url);
    reply_listing("Search", didl.as_str(), returned, total, update_id)
}

// -------------------------------------------------------- connection manager

/// The protocol info of a MIME type.
pub open spec fn source_of(mime: Seq<char>) -> Seq<char> {
    "http-get:*:"@ + mime + ":*"@
}

/// Whether a text is the protocol info of one of the MIME types of a table.
pub open spec fn is_source(t: Seq<(Seq<char>, Seq<char>)>, s: Seq<char>) -> bool {
    exists|i: int| 0 <= i < t.len() && s == source_of((#[trigger] t[i]).1)
}

fn add_sources(out: &mut Vec<String>, t: &[(&'static str, &'static str)])
    requires
        order::ascending(text::texts(old(out)@)),
    ensures
        order::ascending(text::texts(final(out)@)),
        forall|s: Seq<char>| #[trigger]
            text::texts(final(out)@).contains(s) <==> text::texts(old(out)@).contains(s)
                || is_source(mime::table(t@), s),
{
    let ghost had = text::texts(out@);
    let ghost all = mime::table(t@);
    let mut i: usize = 0;
    assert(all.take(0) =~= seq![]);
    while i < t.len()
        invariant
            i <= t.len(),
            all == mime::table(t@),
            order::ascending(text::texts(out@)),
            forall|s: Seq<char>| #[trigger]
                text::texts(out@).contains(s) <==> had.contains(s) || is_source(
                    all.take(i as int),
                    s,
                ),
        decreases t.len() - i,
    {
        let mut one = "http-get:*:".to_owned();
        one.push_str(t[i].1);
        one.push_str(":*");
        let ghost it = one@;
        let ghost before = text::texts(out@);
        order::insert_ascending(out, one);
        proof {
            let now = all.take(i + 1);
            assert(now[i as int] == all[i as int]);
            assert(it == source_of(now[i as int].1));
            assert forall|s: Seq<char>| #[trigger] text::texts(out@).contains(s) <==> had.contains(s)
                || is_source(now, s) by {
                if is_source(all.take(i as int), s) {
                    let k = choose|k: int|
                        0 <= k < i && s == source_of((#[trigger] all.take(i as int)[k]).1);
                    assert(now[k] == all.take(i as int)[k]);
                }
                if is_source(now, s) && !before.contains(s) {
                    let k = choose|k: int| 0 <= k < now.len() && s == source_of((#[trigger] now[k]).1);
                    if k < i {
                        assert(all.take(i as int)[k] == now[k]);
                    }
                }
            }
        }
        i += 1;
    }
    assert(all.take(i as int) =~= all);
}

/// Whether texts are the protocol infos of all MIME types that can be served,
/// in order, each once.
pub open spec fn all_sources(list: Seq<Seq<char>>) -> bool {
    &&& order::ascending(list)
    &&& forall|s: Seq<char>| #[trigger]
        list.contains(s) <==> is_source(mime::table(VIDEO_EXTENSIONS@), s) || is_source(
            mime::table(AUDIO_EXTENSIONS@),
            s,
        )
}

/// The protocol infos of all MIME types that can be served.
pub fn sources() -> (r: Vec<String>)
    ensures
        all_sources(text::texts(r@)),
{
    let mut out: Vec<String> = Vec::new();
    assert(text::texts(out@) =~= seq![]);
    add_sources(&mut out, &VIDEO_EXTENSIONS);
    add_sources(&mut out, &AUDIO_EXTENSIONS);
    out
}

/// The answer of the connection manager's GetProtocolInfo.
pub open spec fn protocol_info(list: Seq<Seq<char>>) -> Seq<char> {
    soap::reply(
        CMS_SERVICE@,
        "GetProtocolInfo"@,
        seq![("Source"@, didl::escaped(text::joined(list, ","@))), ("Sink"@, ""@)],
    )
}

pub open spec fn connection_info() -> Seq<(Seq<char>, Seq<char>)> {
    seq![
        ("RcsID"@, "-1"@),
        ("AVTransportID"@, "-1"@),
        ("ProtocolInfo"@, ""@),
        ("PeerConnectionManager"@, ""@),
        ("PeerConnectionID"@, "-1"@),
        ("Direction"@, "Output"@),
        ("Status"@, "OK"@),
    ]
}

/// What the connection manager answers.
pub fn cms_control(action: &str) -> (r: Answer)
    ensures
        if action@ == "GetProtocolInfo"@ {
            exists|list: Seq<Seq<char>>|
                #[trigger] all_sources(list) && answers(r, protocol_info(list))
        } else if action@ == "GetCurrentConnectionIDs"@ {
            answers(r, one_arg(CMS_SERVICE@, action@, "ConnectionIDs"@, "0"@))
        } else if action@ == "GetCurrentConnectionInfo"@ {
            answers(r, soap::reply(CMS_SERVICE@, action@, connection_info()))
        } else {
            faults(r, 401, "Invalid Action"@)
        },
{
    if text::same(action, "GetProtocolInfo") {
        let list = sources();
        let source = text::join(&list, ",");
        let mut args: Vec<(&'static str, String)> = Vec::new();
        args.push(("Source", didl::xml_escape(source.as_str())));
        args.push(("Sink", "".to_owned()));
        let ghost l = text::texts(list@);
        assert(soap::arg_views(args@) =~= seq![
            ("Source"@, didl::escaped(text::joined(l, ","@))),
            ("Sink"@, ""@),
        ]);
        let r = Answer { fault: false, body: soap::envelope(CMS_SERVICE, action, &args) };
        assert(all_sources(l) && answers(r, protocol_info(l)));
        r
    } else if text::same(action, "GetCurrentConnectionIDs") {
        reply_one(CMS_SERVICE, action, "ConnectionIDs", "0".to_owned())
    } else if text::same(action, "GetCurrentConnectionInfo") {
        let mut args: Vec<(&'static str, String)> = Vec::new();
        args.push(("RcsID", "-1".to_owned()));
        args.push(("AVTransportID", "-1".to_owned()));
        args.push(("ProtocolInfo", "".to_owned()));
        args.push(("PeerConnectionManager", "".to_owned()));
        args.push(("PeerConnectionID", "-1".to_owned()));
        args.push(("Direction", "Output".to_owned()));
        args.push(("Status", "OK".to_owned()));
        assert(soap::arg_views(args@) =~= connection_info());
        Answer { fault: false, body: soap::envelope(CMS_SERVICE, action, &args) }
    } else {
        soap_fault(401, "Invalid Action")
    }
}

// -------------------------------------------------------------------- laws

/// Paging loses nothing: asked for in parts of one size, from the front on, a
/// list comes back whole. Each part starts where the one before it ended.
pub proof fn pages_make_up_the_list<T>(s: Seq<T>, start: int, count: int)
    requires
        0 <= start <= s.len(),
        count > 0,
    ensures
        s.take(start) + window_of(s, start, count) == s.take(
            window_end(s.len() as int, start, count),
        ),
        window_of(s, start, count).len() <= count,
        start < s.len() ==> window_of(s, start, count).len() > 0,
        window_of(s, start, 0) == s.skip(start),
{
    assert(s.take(start) + window_of(s, start, count) =~= s.take(
        window_end(s.len() as int, start, count),
    ));
    assert(window_of(s, start, 0) =~= s.skip(start));
}

/// A part of a list holds the items from where it was asked for on, as many as
/// were asked for where there are so many; a count of nought asks for all.
pub proof fn parts_start_where_they_were_asked_for<T>(s: Seq<T>, start: int, count: int, i: int)
    requires
        0 <= start,
        0 <= count,
    ensures
        start >= s.len() ==> window_of(s, start, count).len() == 0,
        count > 0 && start + count <= s.len() ==> window_of(s, start, count).len() == count,
        count > 0 && start <= s.len() < start + count ==> window_of(s, start, count).len() == s.len()
            - start,
        count == 0 && start <= s.len() ==> window_of(s, start, count).len() == s.len() - start,
        0 <= i < window_of(s, start, count).len() ==> window_of(s, start, count)[i] == s[start + i],
{
}

/// The action of a request is what stands behind the mark in its header,
/// whether or not the header is quoted.
pub proof fn actions_stand_behind_the_mark(service: Seq<char>, action: Seq<char>)
    requires
        service.len() > 0,
        service[0] != '"',
        action.len() > 0,
        action.last() != '"',
        !action.contains('#'),
    ensures
        action_of(Some(service + "#"@ + action)) == action,
        action_of(Some(seq!['"'] + (service + "#"@ + action) + seq!['"'])) == action,
        action_of(None).len() == 0,
{
    reveal_strlit("#");
    reveal_strlit("");
    assert("#"@ =~= seq!['#']);
    let s = service + "#"@ + action;
    let q = seq!['"'] + s + seq!['"'];
    assert(s[0] == service[0] && s.last() == action.last());
    assert(soap::unquoted(s) == s);
    assert(q.skip(1) =~= s + seq!['"']);
    assert((s + seq!['"']).drop_last() =~= s);
    assert(soap::front_unquoted(q) == soap::front_unquoted(q.skip(1)));
    assert((s + seq!['"'])[0] == service[0]);
    assert(soap::front_unquoted(s + seq!['"']) == s + seq!['"']);
    assert(soap::back_unquoted(s + seq!['"']) == soap::back_unquoted(s));
    assert(soap::unquoted(q) == s);
    let i = service.len() as int;
    assert(s.subrange(i, i + 1) =~= "#"@);
    assert forall|k: int| k > i implies !#[trigger] text::occurs_at(s, "#"@, k) by {
        if text::occurs_at(s, "#"@, k) {
            assert(s.subrange(k, k + 1)[0] == '#');
            assert(action[k - i - 1] == '#');
        }
    }
    assert(text::last_at(s, "#"@, i));
    text::lemma_rcut_once(s, "#"@, i);
    assert(s.skip(i + 1) =~= action);
}

} // verus!
