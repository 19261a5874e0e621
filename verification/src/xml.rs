//! XML documents as the events that a reader finds in them.
use std::borrow::Cow;
use quick_xml::events::BytesStart;
use quick_xml::events::Event::{CData, Empty, End, Eof, GeneralRef, Start, Text};
use quick_xml::Reader;
use vstd::prelude::*;
use crate::text;
use crate::xml::XmlEvent::{Bare, Chars, Close, Ended, Failed, Open, Other, Reference, Section};

verus! {

/// What a reader finds next in a document, in the document's bytes.
#[derive(Debug)]
pub enum XmlEvent {
    /// The start of an element: its local name, and what stands behind the
    /// name in the tag.
    Open(Vec<u8>, Vec<u8>),
    Close,
    /// Text between tags.
    Chars(Vec<u8>),
    /// The content of a CDATA section.
    Section(Vec<u8>),
    /// A `&…;` reference: what stands between the marks.
    Reference(Vec<u8>),
    /// An empty element: its local name.
    Bare(Vec<u8>),
    /// A comment, a declaration, ...
    Other,
    /// The end of the document.
    Ended,
    /// The document is malformed here.
    Failed,
}

#[verifier::ext_equal]
pub enum EventView {
    Open(Seq<u8>, Seq<u8>),
    Close,
    Chars(Seq<u8>),
    Section(Seq<u8>),
    Reference(Seq<u8>),
    Bare(Seq<u8>),
    Other,
    Ended,
    Failed,
}

impl View for XmlEvent {
    type V = EventView;

    open spec fn view(&self) -> EventView {
        match *self {
            XmlEvent::Open(name, attributes) => EventView::Open(name@, attributes@),
            XmlEvent::Close => EventView::Close,
            XmlEvent::Chars(t) => EventView::Chars(t@),
            XmlEvent::Section(t) => EventView::Section(t@),
            XmlEvent::Reference(name) => EventView::Reference(name@),
            XmlEvent::Bare(n) => EventView::Bare(n@),
            XmlEvent::Other => EventView::Other,
            XmlEvent::Ended => EventView::Ended,
            XmlEvent::Failed => EventView::Failed,
        }
    }
}

pub open spec fn event_views(v: Seq<XmlEvent>) -> Seq<EventView> {
    Seq::new(v.len(), |i: int| v[i]@)
}

/// A reader of `quick_xml`, somewhere in a document.
#[verifier::external_type_specification]
#[verifier::external_body]
#[verifier::reject_recursive_types(R)]
pub struct ExReader<R>(quick_xml::Reader<R>);

/// The events of a document, up to its end or to where it is malformed.
pub uninterp spec fn xml_events(document: Seq<char>) -> Seq<EventView>;

/// The events that a reader still holds, up to the document's end or to where
/// it is malformed.
pub uninterp spec fn pending(reader: Reader<&[u8]>) -> Seq<EventView>;

/// `quick_xml::Reader::from_str`: a reader in front of all the events of the
/// document, which are a function of the text alone. The last of them is its
/// end or an error, so there is one.
#[verifier::external_body]
fn reader_of(document: &str) -> (r: Reader<&[u8]>)
    ensures
        pending(r) == xml_events(document@),
        pending(r).len() > 0,
{
    Reader::from_str(document)
}

/// `quick_xml::Reader::read_event`: the next event leaves the reader; the end
/// or an error is the last. What a reader gives behind an error is left
/// unsaid. The bytes are the event's own:
/// `BytesStart::local_name` and `attributes_raw`, and the content of texts,
/// CDATA sections and references as it stands.
#[verifier::external_body]
fn next_event(reader: &mut Reader<&[u8]>) -> (r: XmlEvent)
    ensures
        pending(*old(reader)).len() > 0 ==> {
            &&& r@ == pending(*old(reader))[0]
            &&& (r is Ended || r is Failed) <==> pending(*old(reader)).len() == 1
            &&& pending(*old(reader)).len() > 1 ==> pending(*final(reader)) == pending(
                *old(reader),
            ).drop_first()
        },
{
    match reader.read_event() {
        Ok(Start(e)) => Open(e.local_name().as_ref().to_vec(), e.attributes_raw().to_vec()),
        Ok(Empty(e)) => Bare(e.local_name().as_ref().to_vec()),
        Ok(End(_)) => Close,
        Ok(Text(t)) => Chars(t.to_vec()),
        Ok(CData(c)) => Section(c.to_vec()),
        Ok(GeneralRef(r)) => Reference(r.to_vec()),
        Ok(Eof) => Ended,
        Ok(_) => Other,
        Err(_) => Failed,
    }
}

/// The events of a document, up to its end or to where it is malformed.
pub(crate) fn read_events(document: &str) -> (r: Vec<XmlEvent>)
    ensures
        event_views(r@) == xml_events(document@),
{
    let mut reader = reader_of(document);
    let mut out: Vec<XmlEvent> = Vec::new();
    let mut more: bool = true;
    assert(event_views(out@) + pending(reader) =~= xml_events(document@));
    while more
        invariant
            more ==> {
                &&& pending(reader).len() > 0
                &&& event_views(out@) + pending(reader) == xml_events(document@)
            },
            !more ==> event_views(out@) == xml_events(document@),
        decreases
                if more {
                    pending(reader).len()
                } else {
                    0
                },
    {
        let ghost ahead = pending(reader);
        let ghost before = event_views(out@);
        let event = next_event(&mut reader);
        more = match event {
            Ended | Failed => false,
            _ => true,
        };
        out.push(event);
        proof {
            assert(event_views(out@) =~= before.push(ahead[0]));
            assert(event_views(out@) + ahead.drop_first() =~= before + ahead);
            if !more {
                assert(event_views(out@) =~= before + ahead);
            }
        }
    }
    out
}

/// The value of an attribute, in what stands behind the name in a tag.
pub uninterp spec fn xml_attribute(attributes: Seq<char>, name: Seq<char>) -> Option<Seq<char>>;

/// `BytesStart::try_get_attribute`, and the `normalized_value` of what it
/// found: the value of the first attribute of this name, none where there is
/// none or where the attributes before it or its value are malformed. Only
/// that it is a function of the two texts is claimed.
#[verifier::external_body]
pub(crate) fn attribute(attributes: &str, name: &str) -> (r: Option<String>)
    ensures
        text::opt_text(r) == xml_attribute(attributes@, name@),
{
    let start = BytesStart::from_content(attributes, 0);
    let found = start.try_get_attribute(name).ok().flatten()?;
    found.normalized_value(quick_xml::XmlVersion::Implicit1_0).ok().map(Cow::into_owned)
}

// ------------------------------------------------------------------- texts

/// Line ends made line feeds: `\r\n` and a lone `\r` are one each.
pub open spec fn normalized(s: Seq<char>) -> Seq<char>
    decreases s.len(),
{
    if s.len() == 0 {
        seq![]
    } else if s[0] != '\r' {
        seq![s[0]] + normalized(s.drop_first())
    } else if s.len() > 1 && s[1] == '\n' {
        seq!['\n'] + normalized(s.skip(2))
    } else {
        seq!['\n'] + normalized(s.drop_first())
    }
}

fn normalize(s: &str) -> (r: String)
    ensures
        r@ == normalized(s@),
{
    let v = text::chars_of(s);
    let mut out = String::new();
    let mut i: usize = 0;
    assert(s@.skip(0) =~= s@);
    assert(out@ + normalized(s@) =~= normalized(s@));
    while i < v.len()
        invariant
            i <= v.len(),
            v@ == s@,
            out@ + normalized(s@.skip(i as int)) == normalized(s@),
        decreases v.len() - i,
    {
        let ghost rest = s@.skip(i as int);
        let ghost before = out@;
        assert(rest[0] == v@[i as int]);
        assert(rest.drop_first() =~= s@.skip(i + 1));
        if v[i] != '\r' {
            out.push(v[i]);
            assert(before + normalized(rest) =~= out@ + normalized(s@.skip(i + 1)));
            i += 1;
        } else if i + 1 < v.len() && v[i + 1] == '\n' {
            assert(rest[1] == v@[i + 1]);
            assert(rest.skip(2) =~= s@.skip(i + 2));
            out.push('\n');
            assert(before + normalized(rest) =~= out@ + normalized(s@.skip(i + 2)));
            i += 2;
        } else {
            if i + 1 < v.len() {
                assert(rest[1] == v@[i + 1]);
            }
            out.push('\n');
            assert(before + normalized(rest) =~= out@ + normalized(s@.skip(i + 1)));
            i += 1;
        }
    }
    assert(s@.skip(i as int) =~= seq![]);
    assert(out@ + normalized(s@.skip(i as int)) =~= out@);
    out
}

/// The text that bytes encode.
pub open spec fn decoded(bytes: Seq<u8>) -> Option<Seq<char>> {
    if vstd::utf8::valid_utf8(bytes) {
        Some(vstd::utf8::decode_utf8(bytes))
    } else {
        None
    }
}

pub fn decode(bytes: &Vec<u8>) -> (r: Option<String>)
    ensures
        text::opt_text(r) == decoded(bytes@),
{
    text::from_utf8(bytes)
}

/// The value of a digit in this base, if it is one.
pub open spec fn digit_in(c: char, base: int) -> Option<int> {
    let d = if '0' as int <= c as int <= '9' as int {
        c as int - '0' as int
    } else if 'a' as int <= c as int <= 'z' as int {
        c as int - 'a' as int + 10
    } else if 'A' as int <= c as int <= 'Z' as int {
        c as int - 'A' as int + 10
    } else {
        -1
    };
    if 0 <= d < base {
        Some(d)
    } else {
        None
    }
}

/// The number that digits of this base stand for, none where another
/// character is among them.
pub open spec fn number_in(s: Seq<char>, base: int) -> Option<int>
    decreases s.len(),
{
    if s.len() == 0 {
        Some(0)
    } else {
        match (number_in(s.drop_last(), base), digit_in(s.last(), base)) {
            (Some(n), Some(d)) => Some(n * base + d),
            _ => None,
        }
    }
}

/// Whether a number is a character's.
pub open spec fn is_char(n: int) -> bool {
    0 <= n <= 0x10ffff && !(0xd800 <= n <= 0xdfff)
}

/// The character that a numeric reference stands for: `#` and decimal digits,
/// or `#x` and hexadecimal ones; the number is a character's and not zero.
pub open spec fn char_referred(name: Seq<char>) -> Option<char> {
    if !text::begins(name, "#"@) {
        None
    } else {
        let hex = text::begins(name, "#x"@);
        let digits = name.skip(
            if hex {
                2
            } else {
                1
            },
        );
        match number_in(
            digits,
            if hex {
                16
            } else {
                10
            },
        ) {
            Some(n) => if digits.len() > 0 && 0 < n && is_char(n) {
                Some(n as char)
            } else {
                None
            },
            None => None,
        }
    }
}

/// `char::from_u32`: the character of this number, none for a number that is
/// not a character's.
#[verifier::external_body]
fn char_of(code: u32) -> (r: Option<char>)
    ensures
        match r {
            Some(c) => c == (code as int) as char && is_char(code as int),
            None => !is_char(code as int),
        },
{
    char::from_u32(code)
}

fn digit_of(c: char, base: u32) -> (r: Option<u32>)
    requires
        base <= 36,
    ensures
        (match r {
            Some(d) => Some(d as int),
            None => None,
        }) == digit_in(c, base as int),
        r matches Some(d) ==> d < base,
{
    let u = text::code(c);
    let d: u32 = if 48 <= u && u <= 57 {
        u - 48
    } else if 97 <= u && u <= 122 {
        u - 87
    } else if 65 <= u && u <= 90 {
        u - 55
    } else {
        99
    };
    if d < base {
        Some(d)
    } else {
        None
    }
}

/// Once a number is past a bound, more digits keep it there.
proof fn lemma_number_grows(s: Seq<char>, base: int, n: int, bound: int)
    requires
        0 <= n <= s.len(),
        base >= 1,
        bound >= 0,
        number_in(s.take(n), base) matches Some(v) && v > bound,
    ensures
        number_in(s, base) matches Some(v) ==> v > bound,
    decreases s.len(),
{
    if n < s.len() {
        assert(s.drop_last().take(n) =~= s.take(n));
        lemma_number_grows(s.drop_last(), base, n, bound);
        if let Some(w) = number_in(s.drop_last(), base) {
            assert(w * base >= w) by (nonlinear_arith)
                requires
                    w > bound,
                    bound >= 0,
                    base >= 1,
            ;
        }
    } else {
        assert(s.take(n) =~= s);
    }
}

proof fn lemma_number_fails(s: Seq<char>, base: int, n: int)
    requires
        0 <= n <= s.len(),
        number_in(s.take(n), base) is None,
    ensures
        number_in(s, base) is None,
    decreases s.len(),
{
    if n < s.len() {
        assert(s.drop_last().take(n) =~= s.take(n));
        lemma_number_fails(s.drop_last(), base, n);
    } else {
        assert(s.take(n) =~= s);
    }
}

/// The character that a numeric reference stands for.
pub fn resolve_char_ref(name: &str) -> (r: Option<char>)
    ensures
        r == char_referred(name@),
{
    if !text::starts_with(name, "#") {
        return None;
    }
    proof {
        reveal_strlit("#");
        reveal_strlit("#x");
        assert("#"@.len() == 1);
        assert("#x"@.len() == 2);
    }
    let hex = text::starts_with(name, "#x");
    let base: u32 = if hex {
        16
    } else {
        10
    };
    let v = text::chars_of(name);
    let from: usize = if hex {
        2
    } else {
        1
    };
    let ghost digits = name@.skip(from as int);
    let mut n: u32 = 0;
    let mut i: usize = from;
    assert(digits.take(0) =~= seq![]);
    while i < v.len()
        invariant
            1 <= from <= i <= v.len(),
            v@ == name@,
            base == 10 || base == 16,
            digits == name@.skip(from as int),
            number_in(digits.take(i - from), base as int) == Some(n as int),
            n <= 0x10ffff,
            text::begins(name@, "#"@),
            hex == text::begins(name@, "#x"@),
            from == (if hex {
                2int
            } else {
                1
            }),
            base == (if hex {
                16int
            } else {
                10
            }),
        decreases v.len() - i,
    {
        let ghost m = i - from;
        assert(digits[m] == v@[i as int]);
        assert(digits.take(m + 1).drop_last() =~= digits.take(m));
        match digit_of(v[i], base) {
            None => {
                proof {
                    lemma_number_fails(digits, base as int, m + 1);
                }
                return None;
            },
            Some(d) => {
                n = n * base + d;
            },
        }
        i += 1;
        if n > 0x10ffff {
            proof {
                lemma_number_grows(digits, base as int, m + 1, 0x10ffff);
            }
            return None;
        }
    }
    assert(digits.take(i - from) =~= digits);
    if v.len() == from || n == 0 {
        return None;
    }
    char_of(n)
}

/// A reference as text: numeric character references and the five
/// predefined entities resolve; a DTD-defined entity is never expanded
/// (no DTDs are read, by design) and stays literal.
pub open spec fn resolved(name: Seq<char>) -> Seq<char> {
    match char_referred(name) {
        Some(c) => seq![c],
        None => if name == "amp"@ {
            "&"@
        } else if name == "lt"@ {
            "<"@
        } else if name == "gt"@ {
            ">"@
        } else if name == "quot"@ {
            "\""@
        } else if name == "apos"@ {
            "'"@
        } else {
            "&"@ + name + ";"@
        },
    }
}

pub fn resolve_ref(name: &str) -> (r: String)
    ensures
        r@ == resolved(name@),
{
    if let Some(c) = resolve_char_ref(name) {
        let mut out = String::new();
        out.push(c);
        assert(out@ =~= seq![c]);
        return out;
    }
    if text::same(name, "amp") {
        "&".to_owned()
    } else if text::same(name, "lt") {
        "<".to_owned()
    } else if text::same(name, "gt") {
        ">".to_owned()
    } else if text::same(name, "quot") {
        "\"".to_owned()
    } else if text::same(name, "apos") {
        "'".to_owned()
    } else {
        let mut out = "&".to_owned();
        out.push_str(name);
        out.push_str(";");
        out
    }
}

/// What an event adds to the text of the element that it stands in; none for
/// one that is no text, and an error for one that cannot be decoded.
pub open spec fn text_added(e: EventView) -> Option<Result<Seq<char>, ()>> {
    match e {
        EventView::Chars(b) => Some(
            match decoded(b) {
                Some(t) => Ok(normalized(t)),
                None => Err(()),
            },
        ),
        EventView::Section(b) => Some(
            match decoded(b) {
                Some(t) => Ok(t),
                None => Err(()),
            },
        ),
        EventView::Reference(b) => Some(
            match decoded(b) {
                Some(t) => Ok(resolved(t)),
                None => Err(()),
            },
        ),
        _ => None,
    }
}

/// The text that an event adds; an empty one where it is no text.
pub fn added_text(e: &XmlEvent) -> (r: Result<String, ()>)
    ensures
        match text_added(e@) {
            Some(Ok(t)) => r matches Ok(s) && s@ == t,
            Some(Err(_)) => r is Err,
            None => r matches Ok(s) && s@ == Seq::<char>::empty(),
        },
{
    match e {
        XmlEvent::Chars(b) => match decode(b) {
            Some(t) => Ok(normalize(t.as_str())),
            None => Err(()),
        },
        XmlEvent::Section(b) => match decode(b) {
            Some(t) => Ok(t),
            None => Err(()),
        },
        XmlEvent::Reference(b) => match decode(b) {
            Some(t) => Ok(resolve_ref(t.as_str())),
            None => Err(()),
        },
        _ => Ok(String::new()),
    }
}

} // verus!
