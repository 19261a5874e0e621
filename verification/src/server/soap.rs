//! SOAP requests and replies.
use vstd::prelude::*;
use vstd::string::*;
use crate::server::didl;
use crate::text;
use crate::xml;
use crate::xml::{EventView, XmlEvent};

verus! {

/// What was read of the element that is looked for: whether the reader is
/// inside it, and its text so far.
#[verifier::ext_equal]
pub struct Inside {
    pub inside: bool,
    pub text: Seq<char>,
}

/// The text of the first element of a local name, in a document's events from
/// the `i`th on. Comments and declarations between say nothing.
pub open spec fn text_from(events: Seq<EventView>, i: int, name: Seq<u8>, at: Inside) -> Option<
    Seq<char>,
>
    decreases events.len() - i,
{
    if i < 0 || i >= events.len() {
        None
    } else {
        match events[i] {
            EventView::Open(n, _) => text_from(
                events,
                i + 1,
                name,
                Inside { inside: n == name, text: seq![] },
            ),
            EventView::Bare(n) => if n == name {
                Some(seq![])
            } else {
                text_from(events, i + 1, name, at)
            },
            EventView::Close => if at.inside {
                Some(text::trimmed(at.text))
            } else {
                text_from(events, i + 1, name, at)
            },
            EventView::Ended => None,
            EventView::Failed => None,
            e => if !at.inside {
                text_from(events, i + 1, name, at)
            } else {
                match xml::text_added(e) {
                    Some(Ok(t)) => text_from(
                        events,
                        i + 1,
                        name,
                        Inside { text: at.text + t, ..at },
                    ),
                    Some(Err(_)) => None,
                    None => text_from(events, i + 1, name, at),
                }
            },
        }
    }
}

fn same_bytes(a: &Vec<u8>, b: &Vec<u8>) -> (r: bool)
    ensures
        r == (a@ == b@),
{
    if a.len() != b.len() {
        return false;
    }
    let mut i: usize = 0;
    while i < a.len()
        invariant
            i <= a.len(),
            a.len() == b.len(),
            forall|k: int| 0 <= k < i ==> a@[k] == b@[k],
        decreases a.len() - i,
    {
        if a[i] != b[i] {
            return false;
        }
        i += 1;
    }
    assert(a@ =~= b@);
    true
}

pub open spec fn outside() -> Inside {
    Inside { inside: false, text: seq![] }
}

/// The text of the first element of a name, given a document's events.
pub fn param_in(events: &Vec<XmlEvent>, name: &str) -> (r: Option<String>)
    ensures
        text::opt_text(r) == text_from(
            xml::event_views(events@),
            0,
            vstd::utf8::encode_utf8(name@),
            outside(),
        ),
{
    let ghost es = xml::event_views(events@);
    let bytes = name.as_bytes_vec();
    let ghost goal = text_from(es, 0, bytes@, outside());
    let mut inside = false;
    let mut buf = String::new();
    assert(buf@ =~= seq![]);
    let mut i: usize = 0;
    while i < events.len()
        invariant
            i <= events.len(),
            es == xml::event_views(events@),
            bytes@ == vstd::utf8::encode_utf8(name@),
            goal == text_from(es, 0, bytes@, outside()),
            goal == text_from(es, i as int, bytes@, Inside { inside, text: buf@ }),
        decreases events.len() - i,
    {
        let e = &events[i];
        assert(es[i as int] == e@);
        match e {
            XmlEvent::Open(n, _) => {
                inside = same_bytes(n, &bytes);
                buf = String::new();
                assert(buf@ =~= seq![]);
            },
            XmlEvent::Bare(n) => {
                if same_bytes(n, &bytes) {
                    let r = String::new();
                    assert(r@ =~= seq![]);
                    return Some(r);
                }
            },
            XmlEvent::Close => {
                if inside {
                    return Some(text::trim(buf.as_str()));
                }
            },
            XmlEvent::Ended => {
                return None;
            },
            XmlEvent::Failed => {
                return None;
            },
            _ => {
                if inside {
                    match xml::added_text(e) {
                        Ok(t) => {
                            let ghost before = buf@;
                            buf.push_str(t.as_str());
                            assert(xml::text_added(e@) is None ==> buf@ =~= before);
                        },
                        Err(_) => {
                            return None;
                        },
                    }
                }
            },
        }
        i += 1;
    }
    None
}

/// Pull the text of the first element named `name` (any namespace) out of a
/// SOAP request body. The reader hands character and entity references
/// over as events of their own, so the element's text is reassembled up
/// to its end tag, then trimmed. Anything malformed yields None.
pub fn param(body: &str, name: &str) -> (r: Option<String>)
    ensures
        text::opt_text(r) == text_from(
            xml::xml_events(body@),
            0,
            vstd::utf8::encode_utf8(name@),
            outside(),
        ),
{
    let events = xml::read_events(body);
    param_in(&events, name)
}

/// A text without the quotation marks at its front.
pub open spec fn front_unquoted(s: Seq<char>) -> Seq<char>
    decreases s.len(),
{
    if s.len() > 0 && s[0] == '"' {
        front_unquoted(s.skip(1))
    } else {
        s
    }
}

/// A text without the quotation marks at its back.
pub open spec fn back_unquoted(s: Seq<char>) -> Seq<char>
    decreases s.len(),
{
    if s.len() > 0 && s.last() == '"' {
        back_unquoted(s.drop_last())
    } else {
        s
    }
}

/// A text without the quotation marks around it.
pub open spec fn unquoted(s: Seq<char>) -> Seq<char> {
    back_unquoted(front_unquoted(s))
}

fn unquote(s: &str) -> (r: String)
    ensures
        r@ == unquoted(s@),
{
    let v = text::chars_of(s);
    let mut lo: usize = 0;
    assert(v@.skip(0) =~= s@);
    while lo < v.len() && v[lo] == '"'
        invariant
            lo <= v.len(),
            front_unquoted(v@.skip(lo as int)) == front_unquoted(s@),
        decreases v.len() - lo,
    {
        assert(v@.skip(lo as int).skip(1) =~= v@.skip(lo + 1));
        lo += 1;
    }
    let ghost front = v@.skip(lo as int);
    assert(front == front_unquoted(s@));
    let mut hi: usize = v.len();
    assert(v@.subrange(lo as int, hi as int) =~= front);
    while lo < hi && v[hi - 1] == '"'
        invariant
            lo <= hi <= v.len(),
            back_unquoted(v@.subrange(lo as int, hi as int)) == back_unquoted(front),
        decreases hi - lo,
    {
        assert(v@.subrange(lo as int, hi as int).drop_last() =~= v@.subrange(lo as int, hi - 1));
        hi -= 1;
    }
    text::string_of(&v, lo, hi)
}

/// The action name from a SOAPACTION header value like
/// "urn:schemas-upnp-org:service:ContentDirectory:1#Browse".
pub fn action_from_header(value: &str) -> (r: Option<String>)
    ensures
        text::opt_text(r) == (match text::rcut_once(unquoted(value@), "#"@) {
            Some((_, action)) => Some(action),
            None => None,
        }),
{
    let v = unquote(value);
    match text::rsplit_once(v.as_str(), "#") {
        Some((_, action)) => Some(action),
        None => None,
    }
}

pub open spec fn arg_views(args: Seq<(&'static str, String)>) -> Seq<(Seq<char>, Seq<char>)> {
    Seq::new(args.len(), |i: int| (args[i].0@, args[i].1@))
}

pub open spec fn arg_elements(args: Seq<(Seq<char>, Seq<char>)>) -> Seq<char>
    decreases args.len(),
{
    if args.len() == 0 {
        seq![]
    } else {
        arg_elements(args.drop_last()) + didl::element(args.last().0, args.last().1)
    }
}

pub const ENVELOPE_START: &'static str =
    "<?xml version=\"1.0\" encoding=\"utf-8\"?>\n<s:Envelope xmlns:s=\"http://schemas.xmlsoap.org/soap/envelope/\" s:encodingStyle=\"http://schemas.xmlsoap.org/soap/encoding/\"><s:Body>";

pub const ENVELOPE_END: &'static str = "</s:Body></s:Envelope>";

pub open spec fn reply(service: Seq<char>, action: Seq<char>, args: Seq<(Seq<char>, Seq<char>)>) -> Seq<
    char,
> {
    ENVELOPE_START@ + "<u:"@ + action + "Response xmlns:u=\""@ + service + "\">"@ + arg_elements(
        args,
    ) + "</u:"@ + action + "Response>"@ + ENVELOPE_END@
}

/// Wrap an action response body in a SOAP envelope.
/// `args` are (name, already-escaped-value) pairs.
pub fn envelope(service: &str, action: &str, args: &Vec<(&'static str, String)>) -> (r: String)
    ensures
        r@ == reply(service@, action@, arg_views(args@)),
{
    let ghost vs = arg_views(args@);
    let mut inner = String::new();
    assert(inner@ =~= seq![]);
    assert(vs.take(0) =~= seq![]);
    let mut i: usize = 0;
    while i < args.len()
        invariant
            i <= args.len(),
            vs == arg_views(args@),
            inner@ == arg_elements(vs.take(i as int)),
        decreases args.len() - i,
    {
        assert(vs.take(i + 1).drop_last() =~= vs.take(i as int));
        assert(vs.take(i + 1).last() == (args@[i as int].0@, args@[i as int].1@));
        let one = didl::elem(args[i].0, args[i].1.as_str());
        inner.push_str(one.as_str());
        i += 1;
    }
    assert(vs.take(i as int) =~= vs);
    let mut out = ENVELOPE_START.to_owned();
    out.push_str("<u:");
    out.push_str(action);
    out.push_str("Response xmlns:u=\"");
    out.push_str(service);
    out.push_str("\">");
    out.push_str(inner.as_str());
    out.push_str("</u:");
    out.push_str(action);
    out.push_str("Response>");
    out.push_str(ENVELOPE_END);
    out
}

pub open spec fn fault_of(code: int, description: Seq<char>) -> Seq<char> {
    ENVELOPE_START@
       
            + "<s:Fault><faultcode>s:Client</faultcode><faultstring>UPnPError</faultstring><detail><UPnPError xmlns=\"urn:schemas-upnp-org:control-1-0\"><errorCode>"@
        + text::decimal(code) + "</errorCode><errorDescription>"@ + didl::escaped(description)
        + "</errorDescription></UPnPError></detail></s:Fault>"@ + ENVELOPE_END@
}

/// A UPnP SOAP fault (used with HTTP status 500).
pub fn fault(code: u32, description: &str) -> (r: String)
    ensures
        r@ == fault_of(code as int, description@),
{
    let mut out = ENVELOPE_START.to_owned();
    out.push_str(
        "<s:Fault><faultcode>s:Client</faultcode><faultstring>UPnPError</faultstring><detail><UPnPError xmlns=\"urn:schemas-upnp-org:control-1-0\"><errorCode>",
    );
    let code = text::dec(code as i64);
    out.push_str(code.as_str());
    out.push_str("</errorCode><errorDescription>");
    let d = didl::xml_escape(description);
    out.push_str(d.as_str());
    out.push_str("</errorDescription></UPnPError></detail></s:Fault>");
    out.push_str(ENVELOPE_END);
    out
}

// -------------------------------------------------------------------- laws

/// The value of an element is the text between its tags, white space at its
/// ends aside; an element of another name is passed over, and an empty element
/// has an empty value.
pub proof fn values_stand_between_their_tags(
    events: Seq<EventView>,
    i: int,
    name: Seq<u8>,
    other: Seq<u8>,
    attributes: Seq<u8>,
    t: Seq<char>,
    at: Inside,
)
    requires
        0 <= i,
        i + 2 < events.len(),
        other != name,
        events[i + 1] is Chars,
        xml::text_added(events[i + 1]) == Some(Ok::<Seq<char>, ()>(t)),
        events[i + 2] == EventView::Close,
    ensures
        events[i] == EventView::Open(name, attributes) ==> text_from(events, i, name, at) == Some(
            text::trimmed(t),
        ),
        events[i] == EventView::Open(other, attributes) ==> text_from(events, i, name, at)
            == text_from(events, i + 3, name, Inside { inside: false, text: seq![] }),
        events[i] == EventView::Bare(name) ==> text_from(events, i, name, at) == Some(
            Seq::<char>::empty(),
        ),
        events[i] == EventView::Bare(other) ==> text_from(events, i, name, at) == text_from(
            events,
            i + 1,
            name,
            at,
        ),
        events[i] == EventView::Failed || events[i] == EventView::Ended ==> text_from(
            events,
            i,
            name,
            at,
        ) is None,
{
    assert(Seq::<char>::empty() + t =~= t);
    let inside = Inside { inside: true, text: seq![] };
    let out = Inside { inside: false, text: seq![] };
    assert(text_from(events, i + 1, name, inside) == text_from(
        events,
        i + 2,
        name,
        Inside { inside: true, text: t },
    ));
    assert(text_from(events, i + 2, name, Inside { inside: true, text: t }) == Some(
        text::trimmed(t),
    ));
    assert(text_from(events, i + 1, name, out) == text_from(events, i + 2, name, out));
    assert(text_from(events, i + 2, name, out) == text_from(events, i + 3, name, out));
}

/// The arguments of a reply stand in their order, each in an element of its
/// name.
pub proof fn arguments_keep_their_order(
    args: Seq<(Seq<char>, Seq<char>)>,
    name: Seq<char>,
    value: Seq<char>,
)
    ensures
        arg_elements(seq![]).len() == 0,
        arg_elements(args.push((name, value))) == arg_elements(args) + ("<"@ + name + ">"@ + value
            + "</"@ + name + ">"@),
{
    assert(args.push((name, value)).drop_last() =~= args);
}

/// Quotation marks around a text go, whatever their number; those inside stay.
pub proof fn quotes_around_a_text_go(s: Seq<char>)
    ensures
        s.len() > 0 && s[0] != '"' && s.last() != '"' ==> {
            &&& unquoted(s) == s
            &&& unquoted(seq!['"'] + s) == s
            &&& unquoted(s.push('"')) == s
            &&& unquoted(seq!['"'] + s.push('"')) == s
        },
{
    if s.len() > 0 && s[0] != '"' && s.last() != '"' {
        let a = seq!['"'] + s;
        let b = s.push('"');
        let c = seq!['"'] + b;
        assert(a.skip(1) =~= s);
        assert(b.drop_last() =~= s);
        assert(c.skip(1) =~= b);
        assert(b[0] == s[0]);
        assert(front_unquoted(a) == front_unquoted(s));
        assert(front_unquoted(b) == b);
        assert(front_unquoted(c) == front_unquoted(b));
        assert(back_unquoted(b) == back_unquoted(s));
    }
}

} // verus!
