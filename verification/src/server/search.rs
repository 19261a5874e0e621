//! Searching a part of the tree, and playlists of what is below a node.
use std::collections::HashSet;
use vstd::prelude::*;
use crate::db::models::{BrowseItem, MediaKind};
use crate::lists;
use crate::numbers;
use crate::order;
use crate::server::objectid::{parsed, ObjectId};
use crate::server::page;
use crate::server::tree;
use crate::server::tree::Node;
use crate::text;

verus! {

/// Cap on search results, so a one-letter query can't build an unbounded
/// page or DIDL document.
pub const SEARCH_LIMIT: usize = 500;

/// How many distinct terms a search honours. Every item in scope is
/// checked against every term, so a request with thousands of quoted
/// literals must not multiply into thousands of passes over the catalog.
pub const MAX_TERMS: usize = 12;

/// Which media kinds a UPnP upnp:class constraint admits.
#[derive(Debug, Clone, Copy, PartialEq, Eq, Structural)]
pub enum ClassFilter {
    Any,
    Video,
    Audio,
    /// A class we hold nothing of (images, container-only searches).
    Nothing,
}

pub open spec fn allowed(filter: ClassFilter, kind: MediaKind) -> bool {
    match filter {
        ClassFilter::Any => true,
        ClassFilter::Video => kind != MediaKind::Music,
        ClassFilter::Audio => kind == MediaKind::Music,
        ClassFilter::Nothing => false,
    }
}

pub fn class_allows(filter: ClassFilter, kind: MediaKind) -> (r: bool)
    ensures
        r == allowed(filter, kind),
{
    match filter {
        ClassFilter::Any => true,
        ClassFilter::Video => kind != MediaKind::Music,
        ClassFilter::Audio => kind == MediaKind::Music,
        ClassFilter::Nothing => false,
    }
}

// ----------------------------------------------------------------- haystack

pub open spec fn spaced(value: Option<Seq<char>>) -> Seq<char> {
    match value {
        Some(v) => " "@ + text::lowered(v),
        None => ""@,
    }
}

fn space_lowered(value: &Option<String>) -> (r: String)
    ensures
        r@ == spaced(text::opt_text(*value)),
{
    match value {
        Some(v) => {
            let mut out = " ".to_owned();
            let v = text::to_lowercase(v.as_str());
            out.push_str(v.as_str());
            out
        },
        None => "".to_owned(),
    }
}

/// Everything a search term is matched against.
pub open spec fn haystack(item: BrowseItem) -> Seq<char> {
    text::lowered(item.title@) + spaced(text::opt_text(item.series)) + spaced(
        text::opt_text(item.artist),
    ) + spaced(text::opt_text(item.album)) + spaced(text::opt_text(item.genre)) + spaced(
        text::opt_text(item.director),
    ) + (match item.year {
        Some(y) => " "@ + text::decimal(y as int),
        None => ""@,
    })
}

pub fn search_haystack(item: &BrowseItem) -> (r: String)
    ensures
        r@ == haystack(*item),
{
    let mut hay = text::to_lowercase(item.title.as_str());
    let series = space_lowered(&item.series);
    hay.push_str(series.as_str());
    let artist = space_lowered(&item.artist);
    hay.push_str(artist.as_str());
    let album = space_lowered(&item.album);
    hay.push_str(album.as_str());
    let genre = space_lowered(&item.genre);
    hay.push_str(genre.as_str());
    let director = space_lowered(&item.director);
    hay.push_str(director.as_str());
    let year = match item.year {
        Some(y) => {
            let mut out = " ".to_owned();
            let y = text::dec(y);
            out.push_str(y.as_str());
            out
        },
        None => "".to_owned(),
    };
    hay.push_str(year.as_str());
    hay
}

/// Whether an item matches every term.
pub open spec fn matches_all(item: BrowseItem, terms: Seq<Seq<char>>) -> bool {
    forall|i: int| 0 <= i < terms.len() ==> text::holds(haystack(item), #[trigger] terms[i])
}

fn matches_terms(item: &BrowseItem, terms: &Vec<String>) -> (r: bool)
    ensures
        r == matches_all(*item, text::texts(terms@)),
{
    let hay = search_haystack(item);
    let ghost ts = text::texts(terms@);
    let mut i: usize = 0;
    while i < terms.len()
        invariant
            i <= terms.len(),
            ts == text::texts(terms@),
            hay@ == haystack(*item),
            forall|k: int| 0 <= k < i ==> text::holds(hay@, #[trigger] ts[k]),
        decreases terms.len() - i,
    {
        assert(ts[i as int] == terms@[i as int]@);
        if !text::contains(hay.as_str(), terms[i].as_str()) {
            return false;
        }
        i += 1;
    }
    true
}

// -------------------------------------------------------------------- terms

/// Sorted texts without the repeated ones.
pub open spec fn deduped(s: Seq<Seq<char>>) -> Seq<Seq<char>>
    decreases s.len(),
{
    if s.len() == 0 {
        seq![]
    } else {
        let head = deduped(s.drop_last());
        if head.len() > 0 && head.last() == s.last() {
            head
        } else {
            head.push(s.last())
        }
    }
}

pub open spec fn first_terms(s: Seq<Seq<char>>) -> Seq<Seq<char>> {
    if s.len() > MAX_TERMS {
        s.take(MAX_TERMS as int)
    } else {
        s
    }
}

/// Whether terms are those that a search honours: in order, each once, the
/// first few of them.
pub open spec fn honoured(r: Seq<Seq<char>>, terms: Seq<Seq<char>>) -> bool {
    exists|o: Seq<usize>|
        #![trigger order::sorted_texts(terms, o)]
        order::sorts(o, terms, terms.len() as int) && r == first_terms(
            deduped(order::sorted_texts(terms, o)),
        )
}

pub fn limit_terms(terms: Vec<String>) -> (r: Vec<String>)
    ensures
        honoured(text::texts(r@), text::texts(terms@)),
        r@.len() <= MAX_TERMS,
{
    let ghost ts = text::texts(terms@);
    let o = order::sorted_order(&terms);
    let ghost sorted = order::sorted_texts(ts, o@);
    let mut out: Vec<String> = Vec::new();
    let mut i: usize = 0;
    assert(sorted.take(0) =~= seq![]);
    assert(text::texts(out@) =~= seq![]);
    while i < o.len()
        invariant
            i <= o.len(),
            ts == text::texts(terms@),
            ts.len() == terms.len(),
            sorted == order::sorted_texts(ts, o@),
            order::sorts(o@, ts, ts.len() as int),
            text::texts(out@) == deduped(sorted.take(i as int)),
        decreases o.len() - i,
    {
        assert(0 <= o@[i as int] < ts.len());
        assert(sorted.take(i + 1).drop_last() =~= sorted.take(i as int));
        assert(sorted.take(i + 1).last() == ts[o@[i as int] as int]);
        let t = terms[o[i]].as_str();
        assert(text::texts(out@).len() == out@.len());
        let n = out.len();
        if n > 0 && text::same(out[n - 1].as_str(), t) {
        } else {
            text::push_text(&mut out, t);
        }
        i += 1;
    }
    assert(sorted.take(i as int) =~= sorted);
    let ghost all = text::texts(out@);
    while out.len() > MAX_TERMS
        invariant
            out@.len() <= all.len(),
            text::texts(out@) == all.take(out@.len() as int),
            all.len() <= MAX_TERMS ==> out@.len() == all.len(),
            all.len() > MAX_TERMS ==> out@.len() >= MAX_TERMS,
        decreases out.len(),
    {
        let ghost n: int = out@.len() as int;
        let ghost before = text::texts(out@);
        let _ = out.pop();
        assert(text::texts(out@) =~= all.take(n - 1));
    }
    assert(all.len() == text::texts(out@).len() || all.len() > MAX_TERMS);
    assert(text::texts(out@) =~= first_terms(all));
    assert(honoured(text::texts(out@), ts));
    out
}

pub open spec fn lowered_all(s: Seq<Seq<char>>) -> Seq<Seq<char>> {
    Seq::new(s.len(), |i: int| text::lowered(s[i]))
}

/// The terms of a query: its words, whatever their case.
pub fn query_terms(q: &str) -> (r: Vec<String>)
    ensures
        honoured(text::texts(r@), lowered_all(text::words_of(q@))),
        r@.len() <= MAX_TERMS,
{
    let words = text::words(q);
    let ghost ws = text::texts(words@);
    let mut lower: Vec<String> = Vec::new();
    let mut i: usize = 0;
    assert(text::texts(lower@) =~= lowered_all(ws).take(0));
    while i < words.len()
        invariant
            i <= words.len(),
            ws == text::texts(words@),
            text::texts(lower@) == lowered_all(ws).take(i as int),
        decreases words.len() - i,
    {
        let t = text::to_lowercase(words[i].as_str());
        text::push_text(&mut lower, t.as_str());
        i += 1;
        assert(text::texts(lower@) =~= lowered_all(ws).take(i as int));
    }
    assert(lowered_all(ws).take(i as int) =~= lowered_all(ws));
    limit_terms(lower)
}

// ----------------------------------------------------------------- criteria

/// The class that a upnp:class operand asks for.
pub open spec fn class_asked(literal: Seq<char>) -> ClassFilter {
    if text::holds(literal, "audioItem"@) {
        ClassFilter::Audio
    } else if text::holds(literal, "videoItem"@) {
        ClassFilter::Video
    } else if text::holds(literal, "imageItem"@) || text::holds(literal, "container"@) {
        ClassFilter::Nothing
    } else {
        ClassFilter::Any
    }
}

fn class_of(literal: &str) -> (r: ClassFilter)
    ensures
        r == class_asked(literal@),
{
    if text::contains(literal, "audioItem") {
        ClassFilter::Audio
    } else if text::contains(literal, "videoItem") {
        ClassFilter::Video
    } else if text::contains(literal, "imageItem") || text::contains(literal, "container") {
        ClassFilter::Nothing
    } else {
        ClassFilter::Any
    }
}

/// The terms and the class read so far.
#[verifier::ext_equal]
pub struct Asked {
    pub terms: Seq<Seq<char>>,
    pub class: ClassFilter,
}

/// What a quoted operand adds, given the text in front of it.
pub open spec fn with_operand(a: Asked, preceding: Seq<char>, literal: Seq<char>) -> Asked {
    if text::holds(preceding, "upnp:class"@) {
        Asked { class: class_asked(literal), ..a }
    } else if literal.len() > 0 && literal != "*"@ {
        Asked { terms: a.terms.push(text::lowered(literal)), ..a }
    } else {
        a
    }
}

/// Reads the operands of an expression in the pieces between its quotation
/// marks: what stands in front of a mark, what it opens, and so on; one that is
/// not closed is none.
pub open spec fn read_operands(pieces: Seq<Seq<char>>) -> Asked
    decreases pieces.len(),
{
    if pieces.len() < 3 {
        Asked { terms: seq![], class: ClassFilter::Any }
    } else if pieces.len() % 2 == 0 {
        read_operands(pieces.drop_last())
    } else {
        let n = pieces.len() as int;
        with_operand(read_operands(pieces.take(n - 2)), pieces[n - 3], pieces[n - 2])
    }
}

/// What a SearchCriteria expression asks for.
pub open spec fn asked(criteria: Seq<char>) -> Asked {
    let t = text::trimmed(criteria);
    if t.len() == 0 || t == "*"@ {
        Asked { terms: seq![], class: ClassFilter::Any }
    } else {
        read_operands(text::pieces(t, '"'))
    }
}

/// Extract terms and a class constraint from a ContentDirectory
/// SearchCriteria expression. The full grammar is a boolean expression
/// language; clients in practice send `dc:title contains "x"` clauses
/// optionally ANDed with an `upnp:class` constraint. Quoted operands
/// become search terms, upnp:class operands become the class filter, and
/// anything else is ignored — widening results rather than failing.
pub fn parse_search_criteria(criteria: &str) -> (r: (Vec<String>, ClassFilter))
    ensures
        honoured(text::texts(r.0@), asked(criteria@).terms),
        r.0@.len() <= MAX_TERMS,
        r.1 == asked(criteria@).class,
{
    let t = text::trim(criteria);
    let mut terms: Vec<String> = Vec::new();
    let mut class = ClassFilter::Any;
    assert(text::texts(terms@) =~= seq![]);
    if t.as_str().is_empty() || text::same(t.as_str(), "*") {
        return (limit_terms(terms), class);
    }
    let pieces = text::split(t.as_str(), '"');
    let ghost ps = text::texts(pieces@);
    assert(ps.len() == pieces@.len());
    let mut i: usize = 1;
    proof {
        assert(text::pieces(t@, '"').len() > 0);
        assert(ps.take(1).len() == 1);
    }
    while i < pieces.len() - 1
        invariant
            1 <= i <= pieces.len(),
            i % 2 == 1,
            ps == text::texts(pieces@),
            ps.len() == pieces.len(),
            read_operands(ps.take(i as int)) == (Asked { terms: text::texts(terms@), class }),
        decreases pieces.len() - i,
    {
        let preceding = pieces[i - 1].as_str();
        let literal = pieces[i].as_str();
        proof {
            let next = ps.take(i + 2);
            assert(next.len() == i + 2);
            assert(next.take(i as int) =~= ps.take(i as int));
            assert(next[i - 1] == pieces@[i - 1]@);
            assert(next[i as int] == pieces@[i as int]@);
        }
        if text::contains(preceding, "upnp:class") {
            class = class_of(literal);
        } else if !literal.is_empty() && !text::same(literal, "*") {
            let t = text::to_lowercase(literal);
            text::push_text(&mut terms, t.as_str());
        }
        i += 2;
    }
    proof {
        if i == pieces@.len() {
            assert(ps.take(i as int) =~= ps);
        } else {
            assert(i + 1 == ps.len());
            assert(ps.drop_last() =~= ps.take(i as int));
            if ps.len() >= 3 {
                assert(ps.len() % 2 == 0);
            } else {
                assert(ps.take(i as int).len() < 3);
            }
        }
        assert(read_operands(ps) =~= (Asked { terms: text::texts(terms@), class }));
    }
    (limit_terms(terms), class)
}

/// An expression asks for no more terms than are honoured, however many it
/// quotes.
pub proof fn searches_are_bounded(terms: Seq<Seq<char>>, r: Seq<Seq<char>>)
    requires
        honoured(r, terms),
    ensures
        r.len() <= MAX_TERMS,
{
}

// ---------------------------------------------------------------- flattening

/// Whether a child is worth walking when flattening its parent.
pub open spec fn covers(parent: Node, child: Node) -> bool {
    match (parent, child) {
        (ObjectId::Movies, ObjectId::MoviesAll) => true,
        (ObjectId::Movies, _) => false,
        (ObjectId::Music, ObjectId::MusicAlbums) => true,
        (ObjectId::Music, _) => false,
        (ObjectId::Tv, ObjectId::TvSeries(_)) => true,
        (ObjectId::Tv, _) => false,
        _ => true,
    }
}

/// Whether a child is worth walking when flattening its parent. A section
/// exposes the same items through many views — All Movies, Recently Added,
/// By Year, By Decade, By Genre, By Director, By Franchise, By Rating,
/// Folders — so walking all of them visits every movie six to nine times
/// and discards all but the first. One exhaustive view per section covers
/// the same items at a fraction of the cost. Every other node's children
/// are already disjoint, so they are walked as-is.
///
/// Note this also drops alternate renditions (a second copy of a movie is
/// merged away in All Movies but listed separately under Folders), which
/// is what you want here: one entry per work, not per file.
pub fn covering_child(parent: &ObjectId, child: &ObjectId) -> (r: bool)
    ensures
        r == covers(parent@, child@),
{
    match (parent, child) {
        (ObjectId::Movies, ObjectId::MoviesAll) => true,
        (ObjectId::Movies, _) => false,
        (ObjectId::Music, ObjectId::MusicAlbums) => true,
        (ObjectId::Music, _) => false,
        (ObjectId::Tv, ObjectId::TvSeries(_)) => true,
        (ObjectId::Tv, _) => false,
        _ => true,
    }
}

/// How deep a walk goes below the node that it starts from.
pub const WALK_DEPTH: usize = 5;

/// The node that a walk goes into next: a child container that is worth it, as
/// long as it is not too deep.
pub fn walks_into(parent: &ObjectId, child_id: &str, depth: usize) -> (r: Option<ObjectId>)
    ensures
        match r {
            Some(c) => depth > 0 && parsed(child_id@) == Some(c@) && covers(parent@, c@),
            None => depth == 0 || (parsed(child_id@) matches Some(c) ==> !covers(parent@, c)),
        },
{
    if depth == 0 {
        return None;
    }
    match ObjectId::parse(child_id) {
        Some(c) => if covering_child(parent, &c) {
            Some(c)
        } else {
            None
        },
        None => None,
    }
}

/// What a walk came upon in a node's listing: items, and what is below the
/// containers that it went into.
#[derive(Debug)]
pub enum Found {
    Item(BrowseItem),
    Below(Vec<Found>),
}

/// The items of a walk, in the order in which it came upon them.
pub open spec fn all_items(found: Seq<Found>) -> Seq<BrowseItem>
    decreases found,
{
    if found.len() == 0 {
        seq![]
    } else {
        all_items(found.drop_last()) + items_in(found.last())
    }
}

pub open spec fn items_in(f: Found) -> Seq<BrowseItem>
    decreases f,
{
    match f {
        Found::Item(item) => seq![item],
        Found::Below(inner) => all_items(inner@),
    }
}

fn gather(found: Vec<Found>, out: &mut Vec<BrowseItem>)
    ensures
        final(out)@ == old(out)@ + all_items(found@),
    decreases found,
{
    let ghost all = found@;
    let ghost start = out@;
    let mut rest = lists::reversed(found);
    assert(all.take(0) =~= seq![]);
    assert(start + all_items(all.take(0)) =~= start);
    while rest.len() > 0
        invariant
            rest@.len() <= all.len(),
            all == found@,
            rest@ == all.reverse().take(rest@.len() as int),
            out@ == start + all_items(all.take(all.len() - rest@.len())),
        decreases rest.len(),
    {
        let ghost n: int = rest@.len() as int;
        let ghost at: int = all.len() - n;
        assert(rest@.last() == all[at]);
        assert(all.take(at + 1).drop_last() =~= all.take(at));
        assert(all.take(at + 1).last() == all[at]);
        let ghost before = out@;
        match rest.pop() {
            Some(f) => {
                assert(rest@ =~= all.reverse().take(n - 1));
                assert(f == all[at]);
                match f {
                    Found::Item(item) => {
                        out.push(item);
                        assert(out@ =~= before + items_in(all[at]));
                    },
                    Found::Below(inner) => {
                        proof {
                            assert(decreases_to!(found => found@));
                            assert(decreases_to!(found@ => found@[at]));
                            assert(decreases_to!(found@[at] => inner));
                        }
                        gather(inner, out);
                        assert(out@ == before + items_in(all[at]));
                    },
                }
                assert(start + all_items(all.take(at)) + items_in(all[at]) =~= start + (all_items(
                    all.take(at),
                ) + items_in(all[at])));
            },
            None => {},
        }
    }
    assert(all.take(all.len() as int) =~= all);
}

pub open spec fn has_id(s: Seq<BrowseItem>, id: i64) -> bool {
    exists|i: int| 0 <= i < s.len() && (#[trigger] s[i]).file_id == id
}

/// Each file once, at its first position.
pub open spec fn once_each(s: Seq<BrowseItem>) -> Seq<BrowseItem>
    decreases s.len(),
{
    if s.len() == 0 {
        seq![]
    } else if has_id(s.drop_last(), s.last().file_id) {
        once_each(s.drop_last())
    } else {
        once_each(s.drop_last()).push(s.last())
    }
}

/// The playable items that a walk came upon, deduplicated by file id (an item
/// reachable through several views appears once, at its first-seen
/// position).
pub fn flatten_items(found: Vec<Found>) -> (r: Vec<BrowseItem>)
    ensures
        r@ == once_each(all_items(found@)),
{
    broadcast use vstd::std_specs::hash::group_hash_axioms;

    let mut items: Vec<BrowseItem> = Vec::new();
    let ghost goal = all_items(found@);
    gather(found, &mut items);
    assert(items@ =~= goal);
    let ghost all = items@;
    let mut rest = lists::reversed(items);
    let mut seen: HashSet<i64> = HashSet::new();
    let mut out: Vec<BrowseItem> = Vec::new();
    assert(all.take(0) =~= seq![]);
    while rest.len() > 0
        invariant
            rest@.len() <= all.len(),
            rest@ == all.reverse().take(rest@.len() as int),
            out@ == once_each(all.take(all.len() - rest@.len())),
            forall|id: i64| #[trigger]
                seen@.contains(id) <==> has_id(all.take(all.len() - rest@.len()), id),
        decreases rest.len(),
    {
        let ghost n: int = rest@.len() as int;
        let ghost at: int = all.len() - n;
        let ghost before = seen@;
        assert(rest@.last() == all[at]);
        proof {
            let next = all.take(at + 1);
            assert(next.drop_last() =~= all.take(at));
            assert(next.last() == all[at]);
            assert forall|id: i64| has_id(next, id) <==> (has_id(all.take(at), id) || id
                == all[at].file_id) by {
                if has_id(all.take(at), id) {
                    let k = choose|k: int|
                        0 <= k < all.take(at).len() && (#[trigger] all.take(at)[k]).file_id == id;
                    assert(next[k].file_id == id);
                }
                if id == all[at].file_id {
                    assert(next[at].file_id == id);
                }
                if has_id(next, id) {
                    let k = choose|k: int|
                        0 <= k < next.len() && (#[trigger] next[k]).file_id == id;
                    if k < at {
                        assert(all.take(at)[k].file_id == id);
                    }
                }
            }
        }
        match rest.pop() {
            Some(item) => {
                assert(rest@ =~= all.reverse().take(n - 1));
                assert(item == all[at]);
                assert(seen@.contains(item.file_id) <==> has_id(all.take(at), item.file_id));
                if seen.insert(item.file_id) {
                    out.push(item);
                }
                assert(seen@ == before.insert(all[at].file_id));
                assert forall|id: i64| #[trigger] seen@.contains(id) <==> has_id(
                    all.take(at + 1),
                    id,
                ) by {
                    assert(before.contains(id) <==> has_id(all.take(at), id));
                }
            },
            None => {},
        }
    }
    assert(all.take(all.len() as int) =~= all);
    out
}

// -------------------------------------------------------------------- titles

/// A title that needs no context.
pub open spec fn full_title(item: BrowseItem) -> Seq<char> {
    match item.kind {
        MediaKind::Tv => match item.series {
            // Items collected from Recently Added arrive already qualified
            // ("Series SxxEyy - Title"); qualifying again would repeat the
            // series. Detect that and leave them alone.
            Some(s) if text::begins(item.title@, s@) => item.title@,
            _ => requalified(item),
        },
        MediaKind::Music => match item.artist {
            Some(a) if text::begins(item.title@, a@) => item.title@,
            _ => tree::qualified_track(item),
        },
        MediaKind::Movies => match item.year {
            Some(y) if !text::ends(item.title@, "("@ + text::decimal(y as int) + ")"@) => page::dated(
                item.title@,
                Some(y),
            ),
            _ => item.title@,
        },
    }
}

/// An episode's title without its number in front: season-view items arrive
/// pre-decorated as "NN - Title"; dropping that keeps the qualified form from
/// numbering twice.
pub open spec fn unnumbered(item: BrowseItem) -> Seq<char> {
    match item.episode {
        Some(n) => {
            let number = text::padded(n as int, 2) + " - "@;
            if text::begins(item.title@, number) {
                item.title@.skip(number.len() as int)
            } else {
                item.title@
            }
        },
        None => item.title@,
    }
}

pub open spec fn requalified(item: BrowseItem) -> Seq<char> {
    match (item.series, item.season, item.episode) {
        (Some(series), Some(season), Some(episode)) => series@ + " S"@ + text::padded(
            season as int,
            2,
        ) + "E"@ + text::padded(episode as int, 2) + " - "@ + unnumbered(item),
        (Some(series), _, _) => series@ + " - "@ + unnumbered(item),
        _ => unnumbered(item),
    }
}

fn bare_title(item: &BrowseItem) -> (r: String)
    ensures
        r@ == unnumbered(*item),
{
    match item.episode {
        Some(n) => {
            let mut number = text::dec_padded(n, 2);
            number.push_str(" - ");
            match text::strip_prefix(item.title.as_str(), number.as_str()) {
                Some(rest) => rest,
                None => item.title.clone(),
            }
        },
        None => item.title.clone(),
    }
}

fn requalify(item: &BrowseItem) -> (r: String)
    ensures
        r@ == requalified(*item),
{
    let bare = bare_title(item);
    match (&item.series, item.season, item.episode) {
        (Some(series), Some(season), Some(episode)) => {
            let mut out = series.clone();
            out.push_str(" S");
            let s = text::dec_padded(season, 2);
            out.push_str(s.as_str());
            out.push_str("E");
            let e = text::dec_padded(episode, 2);
            out.push_str(e.as_str());
            out.push_str(" - ");
            out.push_str(bare.as_str());
            out
        },
        (Some(series), _, _) => {
            let mut out = series.clone();
            out.push_str(" - ");
            out.push_str(bare.as_str());
            out
        },
        _ => bare,
    }
}

/// Fully-qualified playlist titles: flattened lists lose their container
/// context, so TV and music entries carry it themselves.
pub fn playlist_title(item: &BrowseItem) -> (r: String)
    ensures
        r@ == full_title(*item),
{
    match item.kind {
        MediaKind::Tv => {
            if let Some(s) = &item.series {
                if text::starts_with(item.title.as_str(), s.as_str()) {
                    return item.title.clone();
                }
            }
            requalify(item)
        },
        MediaKind::Music => {
            if let Some(a) = &item.artist {
                if text::starts_with(item.title.as_str(), a.as_str()) {
                    return item.title.clone();
                }
            }
            tree::recent_track_title(item)
        },
        MediaKind::Movies => {
            if let Some(y) = item.year {
                let mut tail = "(".to_owned();
                let n = text::dec(y);
                tail.push_str(n.as_str());
                tail.push_str(")");
                if !text::ends_with(item.title.as_str(), tail.as_str()) {
                    return page::with_year(item.title.as_str(), item.year);
                }
            }
            item.title.clone()
        },
    }
}

// -------------------------------------------------------------------- search

/// Whether an item is a hit.
pub open spec fn hit(item: BrowseItem, terms: Seq<Seq<char>>, class: ClassFilter) -> bool {
    allowed(class, item.kind) && matches_all(item, terms)
}

pub open spec fn hits_in(
    items: Seq<BrowseItem>,
    terms: Seq<Seq<char>>,
    class: ClassFilter,
) -> Seq<BrowseItem>
    decreases items.len(),
{
    if items.len() == 0 {
        seq![]
    } else {
        let head = hits_in(items.drop_last(), terms, class);
        if hit(items.last(), terms, class) {
            head.push(items.last())
        } else {
            head
        }
    }
}

pub open spec fn title_keys(s: Seq<BrowseItem>) -> Seq<Seq<char>> {
    Seq::new(s.len(), |i: int| text::lowered(full_title(s[i])))
}

/// A result as it is shown: an item under its full title.
pub open spec fn shown_as(r: BrowseItem, item: BrowseItem) -> bool {
    r.title@ == full_title(item) && tree::untitled(r) == tree::untitled(item)
}

/// Whether results are the hits, by title whatever the case, the first few
/// hundred of them.
pub open spec fn results_of(r: Seq<BrowseItem>, hits: Seq<BrowseItem>) -> bool {
    exists|o: Seq<usize>|
        #![trigger lists::picked(hits, o)]
        order::sorts(o, title_keys(hits), hits.len() as int) && r.len() == (if hits.len()
            > SEARCH_LIMIT {
            SEARCH_LIMIT as int
        } else {
            hits.len() as int
        }) && forall|i: int|
            0 <= i < r.len() ==> shown_as(#[trigger] r[i], lists::picked(hits, o)[i])
}

fn find_hits(items: Vec<BrowseItem>, terms: &Vec<String>, class: ClassFilter) -> (r: Vec<BrowseItem>)
    ensures
        r@ == hits_in(items@, text::texts(terms@), class),
{
    let ghost all = items@;
    let ghost ts = text::texts(terms@);
    let mut rest = lists::reversed(items);
    let mut out: Vec<BrowseItem> = Vec::new();
    assert(all.take(0) =~= seq![]);
    while rest.len() > 0
        invariant
            rest@.len() <= all.len(),
            ts == text::texts(terms@),
            rest@ == all.reverse().take(rest@.len() as int),
            out@ == hits_in(all.take(all.len() - rest@.len()), ts, class),
        decreases rest.len(),
    {
        let ghost n: int = rest@.len() as int;
        let ghost at: int = all.len() - n;
        assert(rest@.last() == all[at]);
        assert(all.take(at + 1).drop_last() =~= all.take(at));
        assert(all.take(at + 1).last() == all[at]);
        match rest.pop() {
            Some(item) => {
                assert(rest@ =~= all.reverse().take(n - 1));
                if class_allows(class, item.kind) && matches_terms(&item, terms) {
                    out.push(item);
                }
            },
            None => {},
        }
    }
    assert(all.take(all.len() as int) =~= all);
    out
}

/// Items matching every term (AND, case-insensitive substrings), out of those
/// below a node: any node of the virtual tree — a genre, a series, a decade,
/// the root — can be a search scope.
pub fn search_scope(items: Vec<BrowseItem>, terms: &Vec<String>, class: ClassFilter) -> (r: Vec<
    BrowseItem,
>)
    ensures
        results_of(r@, hits_in(items@, text::texts(terms@), class)),
        r@.len() <= SEARCH_LIMIT,
{
    let hits = find_hits(items, terms, class);
    let ghost hs = hits@;
    let mut keys: Vec<String> = Vec::new();
    let mut i: usize = 0;
    assert(text::texts(keys@) =~= title_keys(hs).take(0));
    while i < hits.len()
        invariant
            i <= hits.len(),
            hs == hits@,
            text::texts(keys@) == title_keys(hs).take(i as int),
        decreases hits.len() - i,
    {
        let t = playlist_title(&hits[i]);
        let t = text::to_lowercase(t.as_str());
        text::push_text(&mut keys, t.as_str());
        i += 1;
        assert(text::texts(keys@) =~= title_keys(hs).take(i as int));
    }
    assert(text::texts(keys@) =~= title_keys(hs));
    assert(text::texts(keys@).len() == keys@.len());
    let o = order::sorted_order(&keys);
    proof {
        assert forall|i: int, j: int| 0 <= i < j < o@.len() implies #[trigger] o@[i]
            != #[trigger] o@[j] by {
            assert(order::goes_first(title_keys(hs), o@[i] as int, o@[j] as int));
            if o@[i] == o@[j] {
                order::lemma_before_irreflexive(title_keys(hs)[o@[i] as int]);
            }
        }
    }
    let sorted = lists::permuted(hits, &o);
    let ghost ss = lists::picked(hs, o@);
    let mut rest = lists::reversed(sorted);
    let mut out: Vec<BrowseItem> = Vec::new();
    while rest.len() > 0 && out.len() < SEARCH_LIMIT
        invariant
            rest@.len() <= ss.len(),
            rest@ == ss.reverse().take(rest@.len() as int),
            out@.len() == ss.len() - rest@.len(),
            out@.len() <= SEARCH_LIMIT,
            forall|k: int| 0 <= k < out@.len() ==> shown_as(#[trigger] out@[k], ss[k]),
        decreases rest.len(),
    {
        let ghost n: int = rest@.len() as int;
        let ghost at: int = ss.len() - n;
        assert(rest@.last() == ss[at]);
        match rest.pop() {
            Some(item) => {
                assert(rest@ =~= ss.reverse().take(n - 1));
                let mut item = item;
                item.title = playlist_title(&item);
                assert(shown_as(item, ss[at]));
                out.push(item);
            },
            None => {},
        }
    }
    assert(order::sorts(o@, title_keys(hs), hs.len() as int));
    assert(results_of(out@, hs));
    out
}

// ------------------------------------------------------------------ playlist

/// A title in one line.
pub open spec fn one_line(s: Seq<char>) -> Seq<char> {
    text::replaced(text::replaced(s, '\n', " "@), '\r', " "@)
}

/// An entry of a playlist.
pub open spec fn m3u_line(base_url: Seq<char>, secs: i64, title: Seq<char>, file_id: i64) -> Seq<char> {
    "#EXTINF:"@ + text::decimal(secs as int) + ","@ + title + "\n"@ + base_url + "/media/"@
        + text::decimal(file_id as int) + "\n"@
}

/// An entry of a playlist.
fn m3u_entry(base_url: &str, secs: i64, title: &str, file_id: i64) -> (r: String)
    ensures
        r@ == m3u_line(base_url@, secs, title@, file_id),
{
    let mut out = "#EXTINF:".to_owned();
    let part1 = text::dec(secs);
    out.push_str(part1.as_str());
    out.push_str(",");
    out.push_str(title);
    out.push_str("\n");
    out.push_str(base_url);
    out.push_str("/media/");
    let part2 = text::dec(file_id);
    out.push_str(part2.as_str());
    out.push_str("\n");
    out
}

/// The running time in whole seconds, -1 where it is not known.
pub open spec fn m3u_secs(ms: Option<i64>) -> i64 {
    match ms {
        Some(ms) => numbers::quotient(ms as int, 1000) as i64,
        None => -1i64,
    }
}

pub open spec fn m3u_entries(base_url: Seq<char>, items: Seq<BrowseItem>) -> Seq<char>
    decreases items.len(),
{
    if items.len() == 0 {
        "#EXTM3U\n"@
    } else {
        let item = items.last();
        m3u_entries(base_url, items.drop_last()) + m3u_line(
            base_url,
            m3u_secs(item.duration_ms),
            one_line(full_title(item)),
            item.file_id,
        )
    }
}

/// Items as an M3U playlist, playable by anything that can open a URL.
pub fn render_m3u(base_url: &str, items: &Vec<BrowseItem>) -> (r: String)
    ensures
        r@ == m3u_entries(base_url@, items@),
{
    let mut out = "#EXTM3U\n".to_owned();
    let mut i: usize = 0;
    assert(items@.take(0) =~= seq![]);
    while i < items.len()
        invariant
            i <= items.len(),
            out@ == m3u_entries(base_url@, items@.take(i as int)),
        decreases items.len() - i,
    {
        assert(items@.take(i + 1).drop_last() =~= items@.take(i as int));
        assert(items@.take(i + 1).last() == items@[i as int]);
        let item = &items[i];
        let secs: i64 = match item.duration_ms {
            Some(ms) => numbers::quot(ms, 1000),
            None => -1,
        };
        let title = playlist_title(item);
        let title = text::replace_char(title.as_str(), '\n', " ");
        let title = text::replace_char(title.as_str(), '\r', " ");
        let line = m3u_entry(base_url, secs, title.as_str(), item.file_id);
        out.push_str(line.as_str());
        i += 1;
    }
    assert(items@.take(i as int) =~= items@);
    out
}

/// The section that a playlist's name stands for.
pub fn playlist_section(section: &str) -> (r: Option<ObjectId>)
    ensures
        ({
            let name = without_m3u(section@);
            match r {
                Some(o) => (name == "all"@ && o@ == ObjectId::<Seq<char>>::Root) || (name
                    == "movies"@ && o@ == ObjectId::<Seq<char>>::Movies) || (name == "tv"@ && o@
                    == ObjectId::<Seq<char>>::Tv) || (name == "music"@ && o@ == ObjectId::<
                    Seq<char>,
                >::Music),
                None => name != "all"@ && name != "movies"@ && name != "tv"@ && name != "music"@,
            }
        }),
{
    let name = trim_m3u(section);
    let name = name.as_str();
    if text::same(name, "all") {
        Some(ObjectId::Root)
    } else if text::same(name, "movies") {
        Some(ObjectId::Movies)
    } else if text::same(name, "tv") {
        Some(ObjectId::Tv)
    } else if text::same(name, "music") {
        Some(ObjectId::Music)
    } else {
        None
    }
}

/// A name without the endings of a playlist.
pub open spec fn without_m3u(s: Seq<char>) -> Seq<char> {
    crate::scanner::watch::without_ends(s, ".m3u"@)
}

/// A name without the endings of a playlist.
pub fn trim_m3u(s: &str) -> (r: String)
    ensures
        r@ == without_m3u(s@),
{
    proof {
        reveal_strlit(".m3u");
    }
    crate::scanner::watch::trim_ends(s, ".m3u")
}

// --------------------------------------------------------------------- laws

/// Flattening keeps every file that a walk came upon, and none twice.
pub proof fn each_file_is_listed_once(s: Seq<BrowseItem>)
    ensures
        forall|id: i64| has_id(once_each(s), id) <==> has_id(s, id),
        forall|i: int, j: int|
            0 <= i < j < once_each(s).len() ==> (#[trigger] once_each(s)[i]).file_id != (
            #[trigger] once_each(s)[j]).file_id,
    decreases s.len(),
{
    if s.len() > 0 {
        let head = s.drop_last();
        each_file_is_listed_once(head);
        let r = once_each(s);
        let h = once_each(head);
        assert forall|id: i64| has_id(r, id) <==> has_id(s, id) by {
            assert(has_id(h, id) <==> has_id(head, id));
            if has_id(head, id) {
                let k = choose|k: int| 0 <= k < head.len() && (#[trigger] head[k]).file_id == id;
                assert(s[k].file_id == id);
                let m = choose|m: int| 0 <= m < h.len() && (#[trigger] h[m]).file_id == id;
                assert(r[m].file_id == id);
            }
            if has_id(s, id) {
                let k = choose|k: int| 0 <= k < s.len() && (#[trigger] s[k]).file_id == id;
                if k < head.len() {
                    assert(head[k].file_id == id);
                } else {
                    if !has_id(head, id) {
                        assert(r[r.len() - 1].file_id == id);
                    }
                }
            }
            if has_id(r, id) {
                let k = choose|k: int| 0 <= k < r.len() && (#[trigger] r[k]).file_id == id;
                if k < h.len() {
                    assert(h[k].file_id == id);
                    let m = choose|m: int| 0 <= m < head.len() && (#[trigger] head[m]).file_id == id;
                    assert(s[m].file_id == id);
                } else {
                    assert(s[s.len() - 1].file_id == id);
                }
            }
        }
        assert forall|i: int, j: int| 0 <= i < j < r.len() implies (#[trigger] r[i]).file_id != (
        #[trigger] r[j]).file_id by {
            if j < h.len() {
                assert(h[i].file_id != h[j].file_id);
            } else {
                if r[i].file_id == r[j].file_id {
                    assert(h[i].file_id == s.last().file_id);
                    assert(has_id(h, s.last().file_id));
                }
            }
        }
    }
}

/// A title that was qualified stays as it is, so listing a listing repeats
/// nothing: a series' or an artist's name is put in front once.
pub proof fn qualifying_twice_changes_nothing(item: BrowseItem, again: BrowseItem)
    requires
        item.kind == MediaKind::Tv && item.series is Some || item.kind == MediaKind::Music
            && item.artist is Some,
        shown_as(again, item),
    ensures
        full_title(again) == full_title(item),
{
    let u = tree::untitled(again);
    assert(u.kind == item.kind && u.series == item.series && u.artist == item.artist);
    let t = full_title(item);
    if item.kind == MediaKind::Tv {
        let s = item.series->Some_0@;
        if !text::begins(item.title@, s) {
            assert(t.subrange(0, s.len() as int) =~= s);
        }
        assert(text::begins(again.title@, s));
    } else {
        let a = item.artist->Some_0@;
        if !text::begins(item.title@, a) {
            assert(t.subrange(0, a.len() as int) =~= a);
        }
        assert(text::begins(again.title@, a));
    }
}

/// A search is bounded by 500 results and twelve terms.
pub proof fn search_limits()
    ensures
        SEARCH_LIMIT == 500,
        MAX_TERMS == 12,
{
}

/// An item is a hit where its kind is of the class and every term stands in
/// it; hits keep the order of the items, and no other item is one.
pub proof fn hits_match_every_term(
    items: Seq<BrowseItem>,
    item: BrowseItem,
    terms: Seq<Seq<char>>,
    class: ClassFilter,
)
    ensures
        ({
            let admitted = class == ClassFilter::Any || (class == ClassFilter::Audio && item.kind
                == MediaKind::Music) || (class == ClassFilter::Video && (item.kind
                == MediaKind::Movies || item.kind == MediaKind::Tv));
            let found = forall|i: int|
                0 <= i < terms.len() ==> text::holds(haystack(item), #[trigger] terms[i]);
            &&& admitted && found ==> hits_in(items.push(item), terms, class) == hits_in(
                items,
                terms,
                class,
            ).push(item)
            &&& !admitted || !found ==> hits_in(items.push(item), terms, class) == hits_in(
                items,
                terms,
                class,
            )
        }),
        hits_in(seq![], terms, class).len() == 0,
{
    assert(items.push(item).drop_last() =~= items);
}

proof fn lemma_holds_left(a: Seq<char>, b: Seq<char>, t: Seq<char>)
    ensures
        text::holds(a, t) ==> text::holds(a + b, t),
{
    if text::holds(a, t) {
        let i = choose|i: int| text::occurs_at(a, t, i);
        assert((a + b).subrange(i, i + t.len()) =~= a.subrange(i, i + t.len()));
        assert(text::occurs_at(a + b, t, i));
    }
}

proof fn lemma_holds_right(a: Seq<char>, b: Seq<char>, t: Seq<char>)
    ensures
        text::holds(b, t) ==> text::holds(a + b, t),
{
    if text::holds(b, t) {
        let i = choose|i: int| text::occurs_at(b, t, i);
        assert((a + b).subrange(a.len() + i, a.len() + i + t.len()) =~= b.subrange(i, i + t.len()));
        assert(text::occurs_at(a + b, t, a.len() + i));
    }
}

/// A term is found in an item's title, its series, its artist, its album, its
/// genre, its director and its year, whatever the case.
pub proof fn terms_are_looked_for_everywhere(item: BrowseItem, t: Seq<char>)
    ensures
        text::holds(text::lowered(item.title@), t) ==> text::holds(haystack(item), t),
        item.series is Some && text::holds(text::lowered(item.series->Some_0@), t) ==> text::holds(
            haystack(item),
            t,
        ),
        item.artist is Some && text::holds(text::lowered(item.artist->Some_0@), t) ==> text::holds(
            haystack(item),
            t,
        ),
        item.album is Some && text::holds(text::lowered(item.album->Some_0@), t) ==> text::holds(
            haystack(item),
            t,
        ),
        item.genre is Some && text::holds(text::lowered(item.genre->Some_0@), t) ==> text::holds(
            haystack(item),
            t,
        ),
        item.director is Some && text::holds(text::lowered(item.director->Some_0@), t)
            ==> text::holds(haystack(item), t),
        item.year is Some && text::holds(text::decimal(item.year->Some_0 as int), t)
            ==> text::holds(haystack(item), t),
{
    let p0 = text::lowered(item.title@);
    let p1 = spaced(text::opt_text(item.series));
    let p2 = spaced(text::opt_text(item.artist));
    let p3 = spaced(text::opt_text(item.album));
    let p4 = spaced(text::opt_text(item.genre));
    let p5 = spaced(text::opt_text(item.director));
    let p6 = match item.year {
        Some(y) => " "@ + text::decimal(y as int),
        None => ""@,
    };
    lemma_holds_left(p0, p1, t);
    lemma_holds_right(p0, p1, t);
    lemma_holds_left(p0 + p1, p2, t);
    lemma_holds_right(p0 + p1, p2, t);
    lemma_holds_left(p0 + p1 + p2, p3, t);
    lemma_holds_right(p0 + p1 + p2, p3, t);
    lemma_holds_left(p0 + p1 + p2 + p3, p4, t);
    lemma_holds_right(p0 + p1 + p2 + p3, p4, t);
    lemma_holds_left(p0 + p1 + p2 + p3 + p4, p5, t);
    lemma_holds_right(p0 + p1 + p2 + p3 + p4, p5, t);
    lemma_holds_left(p0 + p1 + p2 + p3 + p4 + p5, p6, t);
    lemma_holds_right(p0 + p1 + p2 + p3 + p4 + p5, p6, t);
    if item.series is Some {
        lemma_holds_right(" "@, text::lowered(item.series->Some_0@), t);
    }
    if item.artist is Some {
        lemma_holds_right(" "@, text::lowered(item.artist->Some_0@), t);
    }
    if item.album is Some {
        lemma_holds_right(" "@, text::lowered(item.album->Some_0@), t);
    }
    if item.genre is Some {
        lemma_holds_right(" "@, text::lowered(item.genre->Some_0@), t);
    }
    if item.director is Some {
        lemma_holds_right(" "@, text::lowered(item.director->Some_0@), t);
    }
    if item.year is Some {
        lemma_holds_right(" "@, text::decimal(item.year->Some_0 as int), t);
    }
}

/// A quoted operand is a term, in lower case; behind `upnp:class` it is the
/// class instead: audio, video, or one that nothing is of. An empty operand
/// and a star ask for nothing, and one that is not closed does not count.
pub proof fn operands_are_terms_or_classes(
    pieces: Seq<Seq<char>>,
    literal: Seq<char>,
    tail: Seq<char>,
)
    requires
        pieces.len() % 2 == 1,
    ensures
        ({
            let before = read_operands(pieces);
            let after = read_operands(pieces.push(literal).push(tail));
            let classed = text::holds(pieces.last(), "upnp:class"@);
            &&& !classed && literal.len() > 0 && literal != "*"@ ==> after.terms
                == before.terms.push(text::lowered(literal)) && after.class == before.class
            &&& !classed && (literal.len() == 0 || literal == "*"@) ==> after == before
            &&& classed ==> after.terms == before.terms
            &&& classed && text::holds(literal, "audioItem"@) ==> after.class == ClassFilter::Audio
            &&& classed && !text::holds(literal, "audioItem"@) && text::holds(
                literal,
                "videoItem"@,
            ) ==> after.class == ClassFilter::Video
            &&& classed && !text::holds(literal, "audioItem"@) && !text::holds(literal, "videoItem"@)
                && (text::holds(literal, "imageItem"@) || text::holds(literal, "container"@))
                ==> after.class == ClassFilter::Nothing
            &&& classed && !text::holds(literal, "audioItem"@) && !text::holds(literal, "videoItem"@)
                && !text::holds(literal, "imageItem"@) && !text::holds(literal, "container"@)
                ==> after.class == ClassFilter::Any
            &&& read_operands(pieces.push(literal)) == before
        }),
{
    let more = pieces.push(literal).push(tail);
    let n = more.len() as int;
    assert(more.take(n - 2) =~= pieces);
    assert(more[n - 3] == pieces.last());
    assert(more[n - 2] == literal);
    assert(pieces.push(literal).drop_last() =~= pieces);
}

/// Nothing, white space or a star asks for everything.
pub proof fn a_star_asks_for_everything(criteria: Seq<char>)
    requires
        text::trimmed(criteria).len() == 0 || text::trimmed(criteria) == "*"@,
    ensures
        asked(criteria).terms.len() == 0,
        asked(criteria).class == ClassFilter::Any,
{
}

/// Repeated terms count once: what is left holds the same terms, none twice in
/// a row.
pub proof fn repeated_terms_count_once(s: Seq<Seq<char>>)
    ensures
        forall|t: Seq<char>| deduped(s).contains(t) <==> s.contains(t),
        forall|i: int| 0 <= i < deduped(s).len() - 1 ==> #[trigger] deduped(s)[i] != deduped(s)[i + 1],
        s.len() > 0 ==> deduped(s).len() > 0 && deduped(s).last() == s.last(),
    decreases s.len(),
{
    if s.len() > 0 {
        let head = s.drop_last();
        let d = deduped(head);
        let now = deduped(s);
        repeated_terms_count_once(head);
        assert forall|t: Seq<char>| now.contains(t) <==> s.contains(t) by {
            if now.contains(t) {
                let k = choose|k: int| 0 <= k < now.len() && now[k] == t;
                if k < d.len() {
                    assert(d[k] == t);
                    assert(head.contains(t));
                    let j = choose|j: int| 0 <= j < head.len() && head[j] == t;
                    assert(s[j] == t);
                } else {
                    assert(s[s.len() - 1] == t);
                }
            }
            if s.contains(t) {
                let k = choose|k: int| 0 <= k < s.len() && s[k] == t;
                if k < head.len() {
                    assert(head[k] == t);
                    assert(head.contains(t));
                    assert(deduped(head).contains(t));
                    let j = choose|j: int| 0 <= j < d.len() && d[j] == t;
                    assert(now[j] == t);
                } else {
                    assert(now[now.len() - 1] == t);
                }
            }
        }
        assert forall|i: int| 0 <= i < now.len() - 1 implies #[trigger] now[i] != now[i + 1] by {
            if i + 1 < d.len() {
                assert(d[i] != d[i + 1]);
            }
        }
    }
}

/// Of the views of a section one is walked that holds everything, so nothing
/// is come upon once for each view: all movies, all albums, each series.
/// Anywhere else every child is walked.
pub proof fn sections_are_walked_once(child: Node, series: Seq<char>, year: i64)
    ensures
        covers(ObjectId::Movies, child) <==> child == ObjectId::<Seq<char>>::MoviesAll,
        covers(ObjectId::Music, child) <==> child == ObjectId::<Seq<char>>::MusicAlbums,
        covers(ObjectId::Tv, ObjectId::TvSeries(series)),
        !covers(ObjectId::Tv, ObjectId::TvFolders),
        !covers(ObjectId::Tv, ObjectId::TvRecent),
        !covers(ObjectId::Tv, ObjectId::TvUhd),
        covers(ObjectId::Root, child),
        covers(ObjectId::TvSeries(series), child),
        covers(ObjectId::MoviesYear(year), child),
        WALK_DEPTH == 5,
{
}

/// A result is titled so that it needs no context: an episode with its series
/// and number, a track with its artist, a film with its year; a title that
/// has it already does not get it twice.
pub proof fn results_need_no_context(item: BrowseItem)
    ensures
        item.kind == MediaKind::Tv && item.series is Some && item.season is Some
            && item.episode is Some && !text::begins(item.title@, item.series->Some_0@)
            && !text::begins(
            item.title@,
            text::padded(item.episode->Some_0 as int, 2) + " - "@,
        ) ==> full_title(item) == item.series->Some_0@ + " S"@ + text::padded(
            item.season->Some_0 as int,
            2,
        ) + "E"@ + text::padded(item.episode->Some_0 as int, 2) + " - "@ + item.title@,
        item.kind == MediaKind::Tv && item.series is Some && text::begins(
            item.title@,
            item.series->Some_0@,
        ) ==> full_title(item) == item.title@,
        item.kind == MediaKind::Music && item.artist is Some && !text::begins(
            item.title@,
            item.artist->Some_0@,
        ) ==> full_title(item) == item.artist->Some_0@ + " - "@ + item.title@,
        item.kind == MediaKind::Music && item.artist is None ==> full_title(item) == item.title@,
        item.kind == MediaKind::Movies && item.year is Some && !text::ends(
            item.title@,
            "("@ + text::decimal(item.year->Some_0 as int) + ")"@,
        ) ==> full_title(item) == item.title@ + " ("@ + text::decimal(item.year->Some_0 as int)
            + ")"@,
        item.kind == MediaKind::Movies && item.year is None ==> full_title(item) == item.title@,
{
}

/// The number that a season's listing puts before an episode's title goes
/// when the title is qualified.
pub proof fn numbers_are_not_repeated(item: BrowseItem, n: i64, name: Seq<char>)
    requires
        item.episode == Some(n),
        item.title@ == text::padded(n as int, 2) + " - "@ + name,
    ensures
        unnumbered(item) == name,
{
    let number = text::padded(n as int, 2) + " - "@;
    assert(item.title@.subrange(0, number.len() as int) =~= number);
    assert(item.title@.skip(number.len() as int) =~= name);
}

/// A playlist gives the running time in whole seconds, and -1 where it is not
/// known; each entry is its title and then where the file is.
pub proof fn playlists_list_every_item(base: Seq<char>, items: Seq<BrowseItem>, item: BrowseItem)
    ensures
        m3u_entries(base, seq![]) == "#EXTM3U\n"@,
        m3u_entries(base, items.push(item)) == m3u_entries(base, items) + m3u_line(
            base,
            m3u_secs(item.duration_ms),
            one_line(full_title(item)),
            item.file_id,
        ),
        item.duration_ms is None ==> m3u_secs(item.duration_ms) == -1,
        item.duration_ms is Some && item.duration_ms->Some_0 >= 0 ==> 1000 * m3u_secs(
            item.duration_ms,
        ) <= item.duration_ms->Some_0 < 1000 * (m3u_secs(item.duration_ms) + 1),
{
    assert(items.push(item).drop_last() =~= items);
}

} // verus!
