//! Slash-separated paths and the names in them.
use vstd::prelude::*;
use crate::text;

verus! {

/// A path below another one; an absolute path stands for itself.
pub open spec fn join_of(base: Seq<char>, rel: Seq<char>) -> Seq<char> {
    if base.len() == 0 || text::begins(rel, "/"@) {
        rel
    } else if text::ends(base, "/"@) {
        base + rel
    } else {
        base + "/"@ + rel
    }
}

pub fn join(base: &str, rel: &str) -> (r: String)
    ensures
        r@ == join_of(base@, rel@),
{
    if base.is_empty() || text::starts_with(rel, "/") {
        return rel.to_owned();
    }
    let mut out = base.to_owned();
    if !text::ends_with(base, "/") {
        out.push_str("/");
    }
    out.push_str(rel);
    out
}

/// The part of a file's name before its extension: all of it where it has
/// none. A leading dot starts no extension.
pub open spec fn stem_of(name: Seq<char>) -> Seq<char> {
    match text::rcut_once(name, "."@) {
        Some((stem, ext)) => if stem.len() > 0 && name != ".."@ {
            stem
        } else {
            name
        },
        None => name,
    }
}

/// The extension of a file's name.
pub open spec fn extension_of(name: Seq<char>) -> Option<Seq<char>> {
    match text::rcut_once(name, "."@) {
        Some((stem, ext)) => if stem.len() > 0 && name != ".."@ {
            Some(ext)
        } else {
            None
        },
        None => None,
    }
}

pub fn stem(name: &str) -> (r: String)
    ensures
        r@ == stem_of(name@),
{
    match text::rsplit_once(name, ".") {
        Some((stem, _)) => if !stem.as_str().is_empty() && !text::same(name, "..") {
            stem
        } else {
            name.to_owned()
        },
        None => name.to_owned(),
    }
}

pub fn extension(name: &str) -> (r: Option<String>)
    ensures
        text::opt_text(r) == extension_of(name@),
{
    match text::rsplit_once(name, ".") {
        Some((stem, ext)) => if !stem.as_str().is_empty() && !text::same(name, "..") {
            Some(ext)
        } else {
            None
        },
        None => None,
    }
}

/// Whether the extension is one of these, in ASCII letters of either case.
pub open spec fn has_extension(name: Seq<char>, any: Seq<&'static str>) -> bool {
    match extension_of(name) {
        Some(e) => text::listed(text::ascii_lower(e), any),
        None => false,
    }
}

/// `any` is in lower case.
pub fn extension_is(name: &str, any: &[&'static str]) -> (r: bool)
    ensures
        r == has_extension(name@, any@),
{
    match extension(name) {
        Some(e) => {
            let e = text::to_ascii_lowercase(e.as_str());
            text::is_one_of(e.as_str(), any)
        },
        None => false,
    }
}

/// The components of a path: a leading slash, the names between slashes, and
/// a leading dot. Repeated slashes and dots further on say nothing.
pub open spec fn components_of(pieces: Seq<Seq<char>>) -> Seq<Seq<char>>
    decreases pieces.len(),
{
    if pieces.len() == 0 {
        seq![]
    } else {
        let head = components_of(pieces.drop_last());
        let last = pieces.last();
        let first = pieces.len() == 1;
        if last.len() == 0 || (last == "."@ && !first) {
            head
        } else {
            head.push(last)
        }
    }
}

pub open spec fn rooted(path: Seq<char>) -> bool {
    text::begins(path, "/"@)
}

/// Whether a path is another one or stands below it, component by component.
pub open spec fn below(path: Seq<char>, dir: Seq<char>) -> bool {
    let p = components_of(text::pieces(path, '/'));
    let d = components_of(text::pieces(dir, '/'));
    if d.len() == 0 && !rooted(dir) {
        true
    } else {
        rooted(path) == rooted(dir) && d.len() <= p.len() && p.take(d.len() as int) == d
    }
}

fn components(path: &str) -> (r: Vec<String>)
    ensures
        text::texts(r@) == components_of(text::pieces(path@, '/')),
{
    let pieces = text::split(path, '/');
    let ghost ps = text::texts(pieces@);
    let mut out: Vec<String> = Vec::new();
    let mut i: usize = 0;
    assert(ps.take(0) =~= seq![]);
    assert(text::texts(out@) =~= seq![]);
    while i < pieces.len()
        invariant
            i <= pieces.len(),
            ps == text::texts(pieces@),
            text::texts(out@) == components_of(ps.take(i as int)),
        decreases pieces.len() - i,
    {
        proof {
            assert(ps.take(i + 1).drop_last() =~= ps.take(i as int));
            assert(ps.take(i + 1).last() == pieces@[i as int]@);
        }
        let piece = pieces[i].as_str();
        if piece.is_empty() || (text::same(piece, ".") && i > 0) {
        } else {
            let p = pieces[i].clone();
            proof {
                text::lemma_texts_push(out@, p);
            }
            out.push(p);
        }
        i += 1;
    }
    assert(ps.take(i as int) =~= ps);
    out
}

pub fn is_below(path: &str, dir: &str) -> (r: bool)
    ensures
        r == below(path@, dir@),
{
    let p = components(path);
    let d = components(dir);
    let ghost ps = text::texts(p@);
    let ghost ds = text::texts(d@);
    assert(ps.len() == p@.len() && ds.len() == d@.len());
    let dir_rooted = text::starts_with(dir, "/");
    if d.len() == 0 && !dir_rooted {
        return true;
    }
    if text::starts_with(path, "/") != dir_rooted || d.len() > p.len() {
        return false;
    }
    let mut i: usize = 0;
    while i < d.len()
        invariant
            i <= d.len() <= p.len(),
            d.len() > 0 || dir_rooted,
            dir_rooted == rooted(dir@),
            ps == components_of(text::pieces(path@, '/')),
            ds == components_of(text::pieces(dir@, '/')),
            ps == text::texts(p@),
            ds == text::texts(d@),
            forall|k: int| 0 <= k < i ==> ps[k] == ds[k],
        decreases d.len() - i,
    {
        if !text::same(p[i].as_str(), d[i].as_str()) {
            assert(ps[i as int] != ds[i as int]);
            assert(ps.take(ds.len() as int)[i as int] != ds[i as int]);
            return false;
        }
        assert(ps[i as int] == ds[i as int]);
        i += 1;
    }
    assert(ps.take(ds.len() as int) =~= ds);
    true
}

/// A path as seen from a directory above it: the components that follow.
pub open spec fn rest_of(path: Seq<char>, dir: Seq<char>) -> Seq<char> {
    let p = components_of(text::pieces(path, '/'));
    let d = components_of(text::pieces(dir, '/'));
    text::joined(p.skip(d.len() as int), "/"@)
}

pub fn rest_below(path: &str, dir: &str) -> (r: String)
    requires
        below(path@, dir@),
    ensures
        r@ == rest_of(path@, dir@),
{
    let p = components(path);
    let d = components(dir);
    let ghost ps = text::texts(p@);
    let ghost ds = text::texts(d@);
    assert(ps.len() == p@.len() && ds.len() == d@.len());
    let mut rest: Vec<String> = Vec::new();
    let mut i: usize = d.len();
    assert(text::texts(rest@) =~= seq![]);
    assert(ps.subrange(d@.len() as int, i as int) =~= seq![]);
    while i < p.len()
        invariant
            d@.len() <= i <= p@.len(),
            ps == text::texts(p@),
            ps.len() == p.len(),
            text::texts(rest@) == ps.subrange(d@.len() as int, i as int),
        decreases p.len() - i,
    {
        text::push_text(&mut rest, p[i].as_str());
        i += 1;
        assert(text::texts(rest@) =~= ps.subrange(d@.len() as int, i as int));
    }
    assert(text::texts(rest@) =~= ps.skip(ds.len() as int));
    text::join(&rest, "/")
}

/// Every path stands below itself.
pub proof fn below_itself(path: Seq<char>)
    ensures
        below(path, path),
{
    let p = components_of(text::pieces(path, '/'));
    assert(p.take(p.len() as int) =~= p);
}

proof fn lemma_last_point(stem: Seq<char>, ext: Seq<char>)
    requires
        !ext.contains('.'),
    ensures
        text::rcut_once(stem + "."@ + ext, "."@) == Some((stem, ext)),
        text::rcut_once(ext, "."@) is None,
{
    reveal_strlit(".");
    assert("."@ =~= seq!['.']);
    let s = stem + "."@ + ext;
    let i = stem.len() as int;
    assert(s.subrange(i, i + 1) =~= "."@);
    assert forall|k: int| k > i implies !#[trigger] text::occurs_at(s, "."@, k) by {
        if text::occurs_at(s, "."@, k) {
            assert(s.subrange(k, k + 1)[0] == '.');
            assert(ext[k - i - 1] == '.');
        }
    }
    assert(text::last_at(s, "."@, i));
    text::lemma_rcut_once(s, "."@, i);
    assert(s.take(i) =~= stem);
    assert(s.skip(i + 1) =~= ext);
    if text::holds(ext, "."@) {
        let k = choose|k: int| text::occurs_at(ext, "."@, k);
        assert(ext.subrange(k, k + 1)[0] == '.');
        assert(ext[k] == '.');
    }
}

/// A name is its stem, a point and its extension, cut at the last point; a
/// name without a point, or with none but its first character, is all stem.
pub proof fn names_are_cut_at_their_last_point(stem: Seq<char>, ext: Seq<char>)
    requires
        !ext.contains('.'),
    ensures
        stem.len() > 0 && (ext.len() > 0 || stem.len() > 1) ==> {
            &&& stem_of(stem + "."@ + ext) == stem
            &&& extension_of(stem + "."@ + ext) == Some(ext)
        },
        stem_of(ext) == ext,
        extension_of(ext) is None,
        stem_of("."@ + ext) == "."@ + ext,
        extension_of("."@ + ext) is None,
{
    reveal_strlit(".");
    reveal_strlit("..");
    lemma_last_point(stem, ext);
    lemma_last_point(seq![], ext);
    assert(Seq::<char>::empty() + "."@ + ext =~= "."@ + ext);
    if stem.len() > 0 && (ext.len() > 0 || stem.len() > 1) {
        let s = stem + "."@ + ext;
        if ext.len() > 0 {
            assert(s.last() == ext.last());
            assert(ext[ext.len() - 1] != '.');
        }
        assert(s != ".."@);
    }
}

/// A path is put below a directory with one slash between them; an absolute
/// path stays as it is.
pub proof fn paths_are_joined_by_one_slash(base: Seq<char>, rel: Seq<char>)
    requires
        base.len() > 0,
    ensures
        rel.len() > 0 && rel[0] == '/' ==> join_of(base, rel) == rel,
        rel.len() > 0 && rel[0] != '/' && base.last() != '/' ==> join_of(base, rel) == base
            + "/"@ + rel,
        rel.len() > 0 && rel[0] != '/' && base.last() == '/' ==> join_of(base, rel) == base + rel,
        join_of(seq![], rel) == rel,
{
    reveal_strlit("/");
    assert("/"@ =~= seq!['/']);
    if rel.len() > 0 {
        assert(rel.subrange(0, 1) =~= seq![rel[0]]);
        assert(rel.subrange(0, 1)[0] == rel[0]);
    }
    let n = base.len() as int;
    assert(base.subrange(n - 1, n) =~= seq![base.last()]);
    assert(base.subrange(n - 1, n)[0] == base.last());
}

/// Empty components say nothing, and neither does a dot that is not the
/// first; every other component counts.
pub proof fn components_are_the_names(pieces: Seq<Seq<char>>, p: Seq<char>)
    ensures
        p.len() == 0 ==> components_of(pieces.push(p)) == components_of(pieces),
        p == "."@ && pieces.len() > 0 ==> components_of(pieces.push(p)) == components_of(pieces),
        p.len() > 0 && (p != "."@ || pieces.len() == 0) ==> components_of(pieces.push(p))
            == components_of(pieces).push(p),
{
    assert(pieces.push(p).drop_last() =~= pieces);
}

/// A path stands below a directory where its components begin with the
/// directory's, and what follows is the rest.
pub proof fn paths_below_begin_with_the_directory(path: Seq<char>, dir: Seq<char>)
    requires
        rooted(path) && rooted(dir),
    ensures
        ({
            let p = components_of(text::pieces(path, '/'));
            let d = components_of(text::pieces(dir, '/'));
            &&& below(path, dir) <==> d.len() <= p.len() && forall|i: int|
                0 <= i < d.len() ==> #[trigger] p[i] == d[i]
            &&& below(path, dir) ==> rest_of(path, dir) == text::joined(
                p.skip(d.len() as int),
                "/"@,
            )
        }),
{
    let p = components_of(text::pieces(path, '/'));
    let d = components_of(text::pieces(dir, '/'));
    if d.len() <= p.len() && forall|i: int| 0 <= i < d.len() ==> #[trigger] p[i] == d[i] {
        assert(p.take(d.len() as int) =~= d);
    }
    if below(path, dir) {
        assert forall|i: int| 0 <= i < d.len() implies #[trigger] p[i] == d[i] by {
            assert(p.take(d.len() as int)[i] == p[i]);
        }
    }
}

} // verus!
