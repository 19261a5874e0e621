//! Embedded container titles in MP4 and Matroska files: inspect, and
//! neutralize in place.
//!
//! Release files often carry the scene filename as the container title
//! (MP4: moov/udta/meta/ilst/©nam; MKV/WebM: Segment Info Title), which
//! players prefer over the title a server supplies once playback starts.
//! Removing the element would mean rewriting the file (sizes are baked into
//! both formats), but each has a sanctioned "skip this" form of identical
//! length: MP4 title atoms are renamed to `free`, Matroska title elements
//! are rewritten as Void. Formats are told apart by magic bytes.
use vstd::prelude::*;
use crate::text;

verus! {

/// A file's bytes, read where they are needed.
pub trait Bytes {
    spec fn content(&self) -> Seq<u8>;

    fn size(&self) -> (n: u64)
        ensures
            n == self.content().len(),
    ;

    fn at(&self, i: u64) -> (b: u8)
        requires
            i < self.content().len(),
        ensures
            b == self.content()[i as int],
    ;
}

impl Bytes for Vec<u8> {
    open spec fn content(&self) -> Seq<u8> {
        self@
    }

    fn size(&self) -> (n: u64) {
        self.len() as u64
    }

    fn at(&self, i: u64) -> (b: u8) {
        assert(i < self.len());
        self[i as usize]
    }
}

/// A function reads these bytes: whatever it gives for a place among them is
/// the byte there.
pub open spec fn reads<F: Fn(u64) -> u8>(read: F, c: Seq<u8>) -> bool {
    forall|i: u64|
        i < c.len() ==> #[trigger] call_requires(read, (i,)) && forall|b: u8| #[trigger]
            call_ensures(read, (i,), b) ==> b == c[i as int]
}

/// A function reads some bytes, and so many.
pub open spec fn reads_some<F: Fn(u64) -> u8>(size: u64, read: F) -> bool {
    exists|c: Seq<u8>| c.len() == size && #[trigger] reads(read, c)
}

/// Bytes that a function reads one by one: a file need not be held in memory
/// to be walked.
pub struct ByteReader<F: Fn(u64) -> u8> {
    size: u64,
    read: F,
}

impl<F: Fn(u64) -> u8> ByteReader<F> {
    #[verifier::type_invariant]
    spec fn inv(&self) -> bool {
        reads_some(self.size, self.read)
    }

    pub fn new(size: u64, read: F) -> (r: Self)
        requires
            reads_some(size, read),
        ensures
            r.content().len() == size,
            reads(read, r.content()),
    {
        ByteReader { size, read }
    }
}

impl<F: Fn(u64) -> u8> Bytes for ByteReader<F> {
    closed spec fn content(&self) -> Seq<u8> {
        choose|c: Seq<u8>| c.len() == self.size && #[trigger] reads(self.read, c)
    }

    fn size(&self) -> (n: u64) {
        proof {
            use_type_invariant(self);
        }
        self.size
    }

    fn at(&self, i: u64) -> (b: u8) {
        proof {
            use_type_invariant(self);
        }
        assert(reads(self.read, self.content()));
        let b: u8 = (self.read)(i);
        assert(call_requires(self.read, (i,)));
        assert(call_ensures(self.read, (i,), b));
        b
    }
}

/// Why a file could not be walked.
#[derive(Debug, Clone, Copy, PartialEq, Eq, Structural)]
pub enum ContainerError {
    /// The file ends inside a structure.
    UnexpectedEnd,
    MalformedAtom(u64),
    InvalidId(u64),
    InvalidSize(u64),
    NotMatroska,
    NoSegment,
    UnknownSize(u64),
    /// A size that no size field of the wanted length can hold.
    DoesNotFit,
}

/// What a file's container says about titles.
#[derive(Debug, PartialEq)]
pub enum TitleStatus {
    /// Not an MP4 or Matroska file (or no metadata structure at all).
    Unsupported,
    NoTitle,
    /// One or more embedded titles, as text.
    Titles(Vec<String>),
}

/// Files are at most this long, so that no offset overflows.
pub open spec fn file_sized(c: Seq<u8>) -> bool {
    c.len() <= i64::MAX
}

/// Bytes as a big-endian number.
pub open spec fn big_endian(b: Seq<u8>) -> int
    decreases b.len(),
{
    if b.len() == 0 {
        0
    } else {
        big_endian(b.drop_last()) * 256 + b.last()
    }
}

/// The number that the `n` bytes at `at` hold.
pub open spec fn number_at(c: Seq<u8>, at: int, n: int) -> int {
    big_endian(c.subrange(at, at + n))
}

proof fn lemma_number_step(c: Seq<u8>, at: int, n: int)
    requires
        0 <= at,
        0 <= n,
        at + n + 1 <= c.len(),
    ensures
        number_at(c, at, n + 1) == number_at(c, at, n) * 256 + c[at + n],
{
    assert(c.subrange(at, at + n + 1).drop_last() =~= c.subrange(at, at + n));
}

pub open spec fn pow256(n: int) -> int
    decreases n,
{
    if n <= 0 {
        1
    } else {
        256 * pow256(n - 1)
    }
}

proof fn lemma_pow256()
    ensures
        pow256(0) == 1,
        pow256(1) == 0x100,
        pow256(2) == 0x1_0000,
        pow256(3) == 0x100_0000,
        pow256(4) == 0x1_0000_0000,
        pow256(5) == 0x100_0000_0000,
        pow256(6) == 0x1_0000_0000_0000,
        pow256(7) == 0x100_0000_0000_0000,
        pow256(8) == 0x1_0000_0000_0000_0000,
{
    reveal_with_fuel(pow256, 9);
}

proof fn lemma_big_endian_bound(b: Seq<u8>)
    ensures
        0 <= big_endian(b) < pow256(b.len() as int),
    decreases b.len(),
{
    if b.len() > 0 {
        lemma_big_endian_bound(b.drop_last());
        assert(b.drop_last().len() == b.len() - 1);
    }
}

/// The big-endian number in the `n` bytes at `at`.
fn read_number<B: Bytes>(src: &B, at: u64, n: u64) -> (r: u64)
    requires
        n <= 8,
        at + n <= src.content().len(),
        file_sized(src.content()),
    ensures
        r == number_at(src.content(), at as int, n as int),
{
    let mut value: u64 = 0;
    let mut k: u64 = 0;
    assert(src.content().subrange(at as int, at as int) =~= Seq::<u8>::empty());
    while k < n
        invariant
            k <= n <= 8,
            at + n <= src.content().len(),
            file_sized(src.content()),
            value == number_at(src.content(), at as int, k as int),
        decreases n - k,
    {
        let b = src.at(at + k);
        proof {
            lemma_number_step(src.content(), at as int, k as int);
            lemma_big_endian_bound(src.content().subrange(at as int, at + k + 1));
            lemma_pow256();
            assert(pow256(k + 1) <= pow256(8));
        }
        value = value * 256 + b as u64;
        k += 1;
    }
    value
}

// --------------------------------------------------------------------- MP4

/// Atom types, as big-endian numbers.
pub const MOOV: u32 = 0x6d6f_6f76;

pub const UDTA: u32 = 0x7564_7461;

pub const META: u32 = 0x6d65_7461;

pub const ILST: u32 = 0x696c_7374;

pub const DATA: u32 = 0x6461_7461;

pub const FREE: u32 = 0x6672_6565;

/// `©nam`.
pub const TITLE_KIND: u32 = 0xa96e_616d;

#[derive(Debug, Clone, Copy, PartialEq, Eq, Structural)]
pub struct Atom {
    /// File offset of the atom's first byte (the size field).
    pub offset: u64,
    pub size: u64,
    pub header_len: u64,
    pub kind: u32,
}

impl Atom {
    pub open spec fn lo(self) -> int {
        self.offset + self.header_len
    }

    pub open spec fn hi(self) -> int {
        self.offset + self.size
    }

    /// The range of the atom's payload.
    pub fn body(&self) -> (r: (u64, u64))
        requires
            self.lo() <= self.hi() <= u64::MAX,
        ensures
            r.0 == self.lo(),
            r.1 == self.hi(),
    {
        (self.offset + self.header_len, self.offset + self.size)
    }
}

/// The atom at `pos` of a walk that ends at `end`: a size of 0 reaches to
/// the end, a size of 1 says that a 64-bit size follows the type.
pub open spec fn atom_at(c: Seq<u8>, pos: int, end: int) -> Result<Atom, ContainerError> {
    let size32 = number_at(c, pos, 4);
    let kind = number_at(c, pos + 4, 4);
    if size32 == 1 && pos + 16 > c.len() {
        Err(ContainerError::UnexpectedEnd)
    } else {
        let (size, header_len) = if size32 == 0 {
            (end - pos, 8int)
        } else if size32 == 1 {
            (number_at(c, pos + 8, 8), 16int)
        } else {
            (size32, 8int)
        };
        if size < header_len || pos + size > end {
            Err(ContainerError::MalformedAtom(pos as u64))
        } else {
            Ok(
                Atom {
                    offset: pos as u64,
                    size: size as u64,
                    header_len: header_len as u64,
                    kind: kind as u32,
                },
            )
        }
    }
}

/// A walk's result, with what was found before it in front.
pub open spec fn after<T>(head: Seq<T>, rest: Result<Seq<T>, ContainerError>) -> Result<
    Seq<T>,
    ContainerError,
> {
    match rest {
        Ok(found) => Ok(head + found),
        Err(e) => Err(e),
    }
}

/// The atoms in `[start, end)`, one after another; fewer than eight bytes at
/// the end hold none.
pub open spec fn atoms(c: Seq<u8>, start: int, end: int) -> Result<Seq<Atom>, ContainerError>
    decreases end - start,
{
    if start + 8 <= end {
        match atom_at(c, start, end) {
            Ok(a) => if a.size >= 8 && a.offset == start {
                after(seq![a], atoms(c, start + a.size, end))
            } else {
                Ok(seq![])
            },
            Err(e) => Err(e),
        }
    } else {
        Ok(seq![])
    }
}

pub open spec fn same_walk<T>(r: Result<Vec<T>, ContainerError>) -> Result<Seq<T>, ContainerError> {
    match r {
        Ok(v) => Ok(v@),
        Err(e) => Err(e),
    }
}

proof fn lemma_after_empty<T>(r: Result<Seq<T>, ContainerError>)
    ensures
        after(seq![], r) == r,
{
    match r {
        Ok(found) => {
            assert(Seq::<T>::empty() + found =~= found);
        },
        Err(e) => {},
    }
}

proof fn lemma_after_push<T>(head: Seq<T>, x: T, r: Result<Seq<T>, ContainerError>)
    ensures
        after(head, after(seq![x], r)) == after(head.push(x), r),
{
    match r {
        Ok(found) => {
            assert(head + (seq![x] + found) =~= head.push(x) + found);
        },
        Err(e) => {},
    }
}

fn atoms_in<B: Bytes>(src: &B, start: u64, end: u64) -> (r: Result<Vec<Atom>, ContainerError>)
    requires
        end <= src.content().len(),
        start <= i64::MAX,
        file_sized(src.content()),
    ensures
        same_walk(r) == atoms(src.content(), start as int, end as int),
{
    let mut out: Vec<Atom> = Vec::new();
    let mut pos: u64 = start;
    let ghost c = src.content();
    proof {
        lemma_after_empty(atoms(c, start as int, end as int));
    }
    while pos + 8 <= end
        invariant
            c == src.content(),
            file_sized(c),
            end <= c.len(),
            pos <= i64::MAX,
            after(out@, atoms(c, pos as int, end as int)) == atoms(c, start as int, end as int),
        decreases end - pos,
    {
        let size32 = read_number(src, pos, 4);
        let kind = read_number(src, pos + 4, 4);
        proof {
            lemma_big_endian_bound(c.subrange(pos as int, pos + 4));
            lemma_big_endian_bound(c.subrange(pos + 4, pos + 8));
            lemma_pow256();
        }
        let (size, header_len): (u64, u64) = if size32 == 0 {
            (end - pos, 8)
        } else if size32 == 1 {
            if pos + 16 > src.size() {
                return Err(ContainerError::UnexpectedEnd);
            }
            (read_number(src, pos + 8, 8), 16)
        } else {
            (size32, 8)
        };
        if size < header_len || size > end - pos {
            return Err(ContainerError::MalformedAtom(pos));
        }
        let atom = Atom { offset: pos, size, header_len, kind: kind as u32 };
        proof {
            lemma_after_push(out@, atom, atoms(c, pos + size, end as int));
        }
        out.push(atom);
        pos = pos + size;
    }
    proof {
        assert(after(out@, Ok(Seq::<Atom>::empty())) == Ok::<Seq<Atom>, ContainerError>(out@)) by {
            assert(out@ + Seq::<Atom>::empty() =~= out@);
        }
    }
    Ok(out)
}

/// The first atom of a kind.
pub open spec fn first_of(s: Seq<Atom>, kind: u32) -> Option<Atom>
    decreases s.len(),
{
    if s.len() == 0 {
        None
    } else if s[0].kind == kind {
        Some(s[0])
    } else {
        first_of(s.drop_first(), kind)
    }
}

fn find_kind(v: &Vec<Atom>, kind: u32) -> (r: Option<Atom>)
    ensures
        r == first_of(v@, kind),
{
    let mut i: usize = 0;
    assert(v@.skip(0) =~= v@);
    while i < v.len()
        invariant
            i <= v.len(),
            first_of(v@, kind) == first_of(v@.skip(i as int), kind),
        decreases v.len() - i,
    {
        if v[i].kind == kind {
            return Some(v[i]);
        }
        assert(v@.skip(i as int).drop_first() =~= v@.skip(i + 1));
        i += 1;
    }
    None
}

/// The range in which the children of the last atom of `path` stand, walking
/// down from `[lo, hi)`. `meta` has four bytes before its children.
pub open spec fn descended(c: Seq<u8>, path: Seq<u32>, lo: int, hi: int) -> Result<
    Option<(int, int)>,
    ContainerError,
>
    decreases path.len(),
{
    if path.len() == 0 {
        Ok(Some((lo, hi)))
    } else {
        match atoms(c, lo, hi) {
            Err(e) => Err(e),
            Ok(found) => match first_of(found, path[0]) {
                None => Ok(None),
                Some(a) => descended(
                    c,
                    path.drop_first(),
                    if a.kind == META {
                        a.lo() + 4
                    } else {
                        a.lo()
                    },
                    a.hi(),
                ),
            },
        }
    }
}

/// What holds of each atom that a walk of `[start, end)` finds.
pub open spec fn inside(a: Atom, start: int, end: int) -> bool {
    &&& start <= a.offset
    &&& 8 <= a.header_len <= a.size
    &&& a.hi() <= end
}

proof fn lemma_atoms_inside(c: Seq<u8>, start: int, end: int)
    requires
        file_sized(c),
        0 <= start,
        end <= c.len(),
    ensures
        match atoms(c, start, end) {
            Ok(found) => forall|i: int|
                0 <= i < found.len() ==> inside(#[trigger] found[i], start, end),
            Err(e) => true,
        },
    decreases end - start,
{
    if start + 8 <= end {
        match atom_at(c, start, end) {
            Ok(a) => {
                lemma_number_bounds(c, start);
                if a.size >= 8 && a.offset == start {
                    lemma_atoms_inside(c, start + a.size, end);
                    match atoms(c, start + a.size, end) {
                        Ok(rest) => {
                            let found = seq![a] + rest;
                            assert forall|i: int| 0 <= i < found.len() implies inside(
                                #[trigger] found[i],
                                start,
                                end,
                            ) by {
                                if i > 0 {
                                    assert(found[i] == rest[i - 1]);
                                    assert(inside(rest[i - 1], start + a.size, end));
                                }
                            }
                        },
                        Err(e) => {},
                    }
                }
            },
            Err(e) => {},
        }
    }
}

proof fn lemma_number_bounds(c: Seq<u8>, at: int)
    requires
        0 <= at,
        at + 8 <= c.len(),
    ensures
        0 <= number_at(c, at, 4) < 0x1_0000_0000,
        0 <= number_at(c, at + 4, 4) < 0x1_0000_0000,
        at + 16 <= c.len() ==> 0 <= number_at(c, at + 8, 8) < 0x1_0000_0000_0000_0000,
{
    lemma_big_endian_bound(c.subrange(at, at + 4));
    lemma_big_endian_bound(c.subrange(at + 4, at + 8));
    if at + 16 <= c.len() {
        lemma_big_endian_bound(c.subrange(at + 8, at + 16));
    }
    lemma_pow256();
}

proof fn lemma_first_of(s: Seq<Atom>, kind: u32)
    ensures
        match first_of(s, kind) {
            Some(a) => s.contains(a) && a.kind == kind,
            None => true,
        },
    decreases s.len(),
{
    if s.len() > 0 {
        if s[0].kind == kind {
            assert(s.contains(s[0]));
        } else {
            lemma_first_of(s.drop_first(), kind);
            match first_of(s.drop_first(), kind) {
                Some(a) => {
                    let i = choose|i: int| 0 <= i < s.drop_first().len() && s.drop_first()[i] == a;
                    assert(s[i + 1] == a);
                },
                None => {},
            }
        }
    }
}

fn descend<B: Bytes>(src: &B, path: &Vec<u32>, start: u64, end: u64) -> (r: Result<
    Option<(u64, u64)>,
    ContainerError,
>)
    requires
        start <= end <= src.content().len(),
        file_sized(src.content()),
    ensures
        (match r {
            Ok(Some((lo, hi))) => Ok(Some((lo as int, hi as int))),
            Ok(None) => Ok(None),
            Err(e) => Err(e),
        }) == descended(src.content(), path@, start as int, end as int),
        r matches Ok(Some((lo, hi))) ==> hi <= src.content().len() && lo <= hi + 4,
{
    let ghost c = src.content();
    let mut lo: u64 = start;
    let mut hi: u64 = end;
    let mut i: usize = 0;
    assert(path@.skip(0) =~= path@);
    while i < path.len()
        invariant
            i <= path.len(),
            c == src.content(),
            file_sized(c),
            hi <= c.len(),
            lo <= hi + 4,
            descended(c, path@, start as int, end as int) == descended(
                c,
                path@.skip(i as int),
                lo as int,
                hi as int,
            ),
        decreases path.len() - i,
    {
        assert(path@.skip(i as int).drop_first() =~= path@.skip(i + 1));
        if lo > i64::MAX as u64 {
            return Ok(None);
        }
        match atoms_in(src, lo, hi) {
            Err(e) => {
                return Err(e);
            },
            Ok(found) => {
                match find_kind(&found, path[i]) {
                    None => {
                        return Ok(None);
                    },
                    Some(a) => {
                        proof {
                            lemma_atoms_inside(c, lo as int, hi as int);
                            lemma_first_of(found@, path@[i as int]);
                            let k = choose|k: int| 0 <= k < found@.len() && found@[k] == a;
                            assert(inside(found@[k], lo as int, hi as int));
                        }
                        let (body_lo, body_hi) = a.body();
                        lo = if a.kind == META {
                            body_lo + 4
                        } else {
                            body_lo
                        };
                        hi = body_hi;
                    },
                }
            },
        }
        i += 1;
    }
    Ok(Some((lo, hi)))
}

/// The payload of a title atom's first `data` atom: what follows its eight
/// bytes of type and locale.
pub open spec fn title_payload(c: Seq<u8>, title: Atom) -> Result<Option<Seq<u8>>, ContainerError> {
    match atoms(c, title.lo(), title.hi()) {
        Err(e) => Err(e),
        Ok(found) => match first_of(found, DATA) {
            None => Ok(None),
            Some(data) => if data.hi() <= data.lo() + 8 {
                Ok(None)
            } else {
                Ok(Some(c.subrange(data.lo() + 8, data.hi())))
            },
        },
    }
}

/// The text of a title atom; empty where it has none.
pub open spec fn title_text_of(c: Seq<u8>, title: Atom) -> Result<Seq<char>, ContainerError> {
    match title_payload(c, title) {
        Err(e) => Err(e),
        Ok(None) => Ok(seq![]),
        Ok(Some(b)) => Ok(text::lossy(b)),
    }
}

pub open spec fn text_result(r: Result<String, ContainerError>) -> Result<
    Seq<char>,
    ContainerError,
> {
    match r {
        Ok(s) => Ok(s@),
        Err(e) => Err(e),
    }
}

/// The bytes in `[lo, hi)`.
fn read_bytes<B: Bytes>(src: &B, lo: u64, hi: u64) -> (r: Vec<u8>)
    requires
        lo <= hi <= src.content().len(),
    ensures
        r@ == src.content().subrange(lo as int, hi as int),
{
    let mut out: Vec<u8> = Vec::new();
    let mut i: u64 = lo;
    while i < hi
        invariant
            lo <= i <= hi <= src.content().len(),
            out@ == src.content().subrange(lo as int, i as int),
        decreases hi - i,
    {
        out.push(src.at(i));
        i += 1;
        assert(out@ =~= src.content().subrange(lo as int, i as int));
    }
    out
}

/// The current title text inside a `©nam` atom, empty if it has none.
pub fn title_text<B: Bytes>(src: &B, title: &Atom) -> (r: Result<String, ContainerError>)
    requires
        file_sized(src.content()),
        title.lo() <= title.hi() <= src.content().len(),
    ensures
        text_result(r) == title_text_of(src.content(), *title),
{
    let (lo, hi) = title.body();
    match atoms_in(src, lo, hi) {
        Err(e) => Err(e),
        Ok(found) => match find_kind(&found, DATA) {
            None => Ok(String::new()),
            Some(data) => {
                proof {
                    lemma_atoms_inside(src.content(), lo as int, hi as int);
                    lemma_first_of(found@, DATA);
                    let k = choose|k: int| 0 <= k < found@.len() && found@[k] == data;
                    assert(inside(found@[k], lo as int, hi as int));
                }
                let (data_lo, data_hi) = data.body();
                if data_hi <= data_lo + 8 {
                    return Ok(String::new());
                }
                let payload = read_bytes(src, data_lo + 8, data_hi);
                Ok(text::from_utf8_lossy(&payload))
            },
        },
    }
}

pub open spec fn title_path() -> Seq<u32> {
    seq![MOOV, UDTA, META, ILST]
}

/// The title atoms among the metadata items of an MP4 file; `None` without
/// an item list.
pub open spec fn mp4_titles(c: Seq<u8>) -> Result<Option<Seq<Atom>>, ContainerError> {
    match descended(c, title_path(), 0, c.len() as int) {
        Err(e) => Err(e),
        Ok(None) => Ok(None),
        Ok(Some((lo, hi))) => match atoms(c, lo, hi) {
            Err(e) => Err(e),
            Ok(found) => Ok(Some(found.filter(|a: Atom| a.kind == TITLE_KIND))),
        },
    }
}

pub fn mp4_title_atoms<B: Bytes>(src: &B) -> (r: Result<Option<Vec<Atom>>, ContainerError>)
    requires
        file_sized(src.content()),
    ensures
        (match r {
            Ok(Some(v)) => Ok(Some(v@)),
            Ok(None) => Ok(None),
            Err(e) => Err(e),
        }) == mp4_titles(src.content()),
        r matches Ok(Some(v)) ==> forall|i: int|
            0 <= i < v@.len() ==> inside(#[trigger] v@[i], 0, src.content().len() as int),
{
    let mut path: Vec<u32> = Vec::new();
    path.push(MOOV);
    path.push(UDTA);
    path.push(META);
    path.push(ILST);
    assert(path@ =~= title_path());
    match descend(src, &path, 0, src.size()) {
        Err(e) => Err(e),
        Ok(None) => Ok(None),
        Ok(Some((lo, hi))) => {
            if lo > i64::MAX as u64 {
                proof {
                    assert(Seq::<Atom>::empty().filter(|a: Atom| a.kind == TITLE_KIND) =~= Seq::<
                        Atom,
                    >::empty()) by {
                        reveal(Seq::filter);
                    }
                }
                return Ok(Some(Vec::new()));
            }
            match atoms_in(src, lo, hi) {
                Err(e) => Err(e),
                Ok(found) => {
                    proof {
                        lemma_atoms_inside(src.content(), lo as int, hi as int);
                    }
                    let mut out: Vec<Atom> = Vec::new();
                    let mut i: usize = 0;
                    let ghost keep = |a: Atom| a.kind == TITLE_KIND;
                    proof {
                        reveal(Seq::filter);
                        assert(found@.take(0) =~= Seq::<Atom>::empty());
                    }
                    while i < found.len()
                        invariant
                            i <= found.len(),
                            keep == (|a: Atom| a.kind == TITLE_KIND),
                            out@ == found@.take(i as int).filter(keep),
                            forall|k: int|
                                0 <= k < found@.len() ==> inside(
                                    #[trigger] found@[k],
                                    lo as int,
                                    hi as int,
                                ),
                            forall|k: int|
                                0 <= k < out@.len() ==> inside(
                                    #[trigger] out@[k],
                                    lo as int,
                                    hi as int,
                                ),
                        decreases found.len() - i,
                    {
                        let a = found[i];
                        proof {
                            reveal(Seq::filter);
                            assert(found@.take(i + 1).drop_last() =~= found@.take(i as int));
                            assert(inside(found@[i as int], lo as int, hi as int));
                        }
                        if a.kind == TITLE_KIND {
                            out.push(a);
                        }
                        i += 1;
                    }
                    assert(found@.take(i as int) =~= found@);
                    Ok(Some(out))
                },
            }
        },
    }
}

// ---------------------------------------------------------------- Matroska

/// EBML element IDs, as read (marker bits included).
pub const EBML_HEADER: u32 = 0x1A45_DFA3;

pub const SEGMENT: u32 = 0x1853_8067;

pub const INFO: u32 = 0x1549_A966;

pub const CLUSTER: u32 = 0x1F43_B675;

pub const TITLE: u32 = 0x7BA9;

pub const VOID: u32 = 0xEC;

#[derive(Debug, Clone, Copy, PartialEq, Eq, Structural)]
pub struct EbmlElement {
    /// File offset of the element's first ID byte.
    pub offset: u64,
    pub id: u32,
    pub id_len: u8,
    pub size_len: u8,
    pub data_len: u64,
}

impl EbmlElement {
    pub open spec fn data_at(self) -> int {
        self.offset + self.id_len + self.size_len
    }

    pub open spec fn end_at(self) -> int {
        self.data_at() + self.data_len
    }

    pub fn data_offset(&self) -> (r: u64)
        requires
            self.data_at() <= u64::MAX,
        ensures
            r == self.data_at(),
    {
        self.offset + self.id_len as u64 + self.size_len as u64
    }

    pub fn end(&self) -> (r: u64)
        requires
            self.end_at() <= u64::MAX,
        ensures
            r == self.end_at(),
    {
        self.data_offset() + self.data_len
    }
}

/// The length of the variable-length number that starts with byte `b`: one
/// more than its leading zero bits.
pub open spec fn vint_len(b: u8) -> int {
    if b >= 0x80 {
        1
    } else if b >= 0x40 {
        2
    } else if b >= 0x20 {
        3
    } else if b >= 0x10 {
        4
    } else if b >= 0x08 {
        5
    } else if b >= 0x04 {
        6
    } else if b >= 0x02 {
        7
    } else if b >= 0x01 {
        8
    } else {
        9
    }
}

/// The marker bit of a variable-length number of `len` bytes.
pub open spec fn vint_marker(len: int) -> int {
    if len == 1 {
        0x80
    } else if len == 2 {
        0x40
    } else if len == 3 {
        0x20
    } else if len == 4 {
        0x10
    } else if len == 5 {
        0x08
    } else if len == 6 {
        0x04
    } else if len == 7 {
        0x02
    } else {
        0x01
    }
}

fn leading_len(b: u8) -> (n: u8)
    ensures
        n == vint_len(b),
        1 <= n <= 9,
{
    if b >= 0x80 {
        1
    } else if b >= 0x40 {
        2
    } else if b >= 0x20 {
        3
    } else if b >= 0x10 {
        4
    } else if b >= 0x08 {
        5
    } else if b >= 0x04 {
        6
    } else if b >= 0x02 {
        7
    } else if b >= 0x01 {
        8
    } else {
        9
    }
}

fn marker(n: u8) -> (m: u64)
    ensures
        m == vint_marker(n as int),
{
    if n == 1 {
        0x80
    } else if n == 2 {
        0x40
    } else if n == 3 {
        0x20
    } else if n == 4 {
        0x10
    } else if n == 5 {
        0x08
    } else if n == 6 {
        0x04
    } else if n == 7 {
        0x02
    } else {
        0x01
    }
}

/// The value of the `n`-byte number at `at`, its marker bit not counted.
pub open spec fn vint_value(c: Seq<u8>, at: int, n: int) -> int {
    number_at(c, at, n) - vint_marker(n) * pow256(n - 1)
}

/// The largest value that `n` bytes can hold: every value bit set. As a size
/// it says that the size is not known.
pub open spec fn vint_ones(n: int) -> int {
    vint_marker(n) * pow256(n - 1) - 1
}

/// The element at `at`: an ID of at most four bytes, then a size of at most
/// eight.
pub open spec fn element_at(c: Seq<u8>, at: int) -> Result<EbmlElement, ContainerError> {
    if at >= c.len() {
        Err(ContainerError::UnexpectedEnd)
    } else {
        let id_len = vint_len(c[at]);
        let size_at = at + id_len;
        if id_len > 4 {
            Err(ContainerError::InvalidId(at as u64))
        } else if size_at >= c.len() {
            Err(ContainerError::UnexpectedEnd)
        } else {
            let size_len = vint_len(c[size_at]);
            if size_len > 8 {
                Err(ContainerError::InvalidSize(at as u64))
            } else if size_at + size_len > c.len() {
                Err(ContainerError::UnexpectedEnd)
            } else {
                let value = vint_value(c, size_at, size_len);
                Ok(
                    EbmlElement {
                        offset: at as u64,
                        id: number_at(c, at, id_len) as u32,
                        id_len: id_len as u8,
                        size_len: size_len as u8,
                        data_len: if value == vint_ones(size_len) {
                            u64::MAX
                        } else {
                            value as u64
                        },
                    },
                )
            }
        }
    }
}

/// The first byte of a number of `n` bytes, and what the others hold.
proof fn lemma_first_byte(c: Seq<u8>, at: int, n: int)
    requires
        0 <= at,
        1 <= n,
        at + n <= c.len(),
    ensures
        number_at(c, at, n) == c[at] * pow256(n - 1) + number_at(c, at + 1, n - 1),
        0 <= number_at(c, at + 1, n - 1) < pow256(n - 1),
    decreases n,
{
    lemma_big_endian_bound(c.subrange(at + 1, at + n));
    if n == 1 {
        assert(c.subrange(at, at) =~= Seq::<u8>::empty());
        assert(c.subrange(at + 1, at + 1) =~= Seq::<u8>::empty());
        lemma_number_step(c, at, 0);
        assert(pow256(n - 1) == 1);
        assert(c[at] * pow256(n - 1) == c[at]) by (nonlinear_arith)
            requires
                pow256(n - 1) == 1,
        ;
    } else {
        lemma_first_byte(c, at, n - 1);
        lemma_number_step(c, at, n - 1);
        lemma_number_step(c, at + 1, n - 2);
        let p = pow256(n - 2);
        let b = c[at] as int;
        let m = number_at(c, at + 1, n - 2);
        assert((b * p + m) * 256 == b * (256 * p) + m * 256) by (nonlinear_arith);
    }
}

/// The bounds of the value of a number that starts as one of `n` bytes does.
proof fn lemma_vint_bounds(c: Seq<u8>, at: int, n: int)
    requires
        0 <= at,
        1 <= n <= 8,
        at + n <= c.len(),
        vint_len(c[at]) == n,
    ensures
        0 <= vint_value(c, at, n) <= vint_ones(n),
        vint_ones(n) < 0x100_0000_0000_0000,
        0 <= number_at(c, at, n),
        n <= 4 ==> number_at(c, at, n) < 0x1_0000_0000,
{
    lemma_first_byte(c, at, n);
    lemma_pow256();
    lemma_big_endian_bound(c.subrange(at, at + n));
    let p = pow256(n - 1);
    let b = c[at] as int;
    let m = vint_marker(n);
    assert(m <= b < 2 * m);
    assert(m * p <= b * p && (b + 1) * p <= 2 * m * p) by (nonlinear_arith)
        requires
            m <= b < 2 * m,
            0 <= p,
    ;
    assert((b + 1) * p == b * p + p) by (nonlinear_arith);
    assert(2 * m * p == m * p + m * p) by (nonlinear_arith);
}

fn read_ebml_element<B: Bytes>(src: &B, offset: u64) -> (r: Result<EbmlElement, ContainerError>)
    requires
        file_sized(src.content()),
    ensures
        r == element_at(src.content(), offset as int),
{
    let ghost c = src.content();
    if offset >= src.size() {
        return Err(ContainerError::UnexpectedEnd);
    }
    let id_len = leading_len(src.at(offset));
    if id_len > 4 {
        return Err(ContainerError::InvalidId(offset));
    }
    let size_at = offset + id_len as u64;
    if size_at >= src.size() {
        return Err(ContainerError::UnexpectedEnd);
    }
    let size_len = leading_len(src.at(size_at));
    if size_len > 8 {
        return Err(ContainerError::InvalidSize(offset));
    }
    if size_at + size_len as u64 > src.size() {
        return Err(ContainerError::UnexpectedEnd);
    }
    proof {
        lemma_vint_bounds(c, offset as int, id_len as int);
        lemma_vint_bounds(c, size_at as int, size_len as int);
        lemma_first_byte(c, size_at as int, size_len as int);
        lemma_pow256();
    }
    let id = read_number(src, offset, id_len as u64) as u32;
    let number = read_number(src, size_at, size_len as u64);
    let mut top: u64 = marker(size_len);
    let mut k: u8 = 1;
    while k < size_len
        invariant
            1 <= k <= size_len <= 8,
            top == vint_marker(size_len as int) * pow256(k - 1),
        decreases size_len - k,
    {
        proof {
            lemma_pow256();
            let m = vint_marker(size_len as int);
            assert(pow256(k as int) == 256 * pow256(k - 1));
            assert(m * (256 * pow256(k - 1)) == 256 * (m * pow256(k - 1))) by (nonlinear_arith);
            lemma_marker_bound(size_len as int, k as int);
        }
        top = top * 256;
        k += 1;
    }
    let value = number - top;
    let data_len = if value == top - 1 {
        u64::MAX
    } else {
        value
    };
    Ok(EbmlElement { offset, id, id_len, size_len, data_len })
}

proof fn lemma_marker_bound(n: int, k: int)
    requires
        1 <= n <= 8,
        0 <= k < n,
    ensures
        0 < vint_marker(n) * pow256(k) <= 0x100_0000_0000_0000,
{
    lemma_pow256();
}

/// How far it is from `at` to `end`.
pub open spec fn distance(at: int, end: int) -> nat {
    if at <= end {
        (end - at) as nat
    } else {
        0
    }
}

/// The titles among the children of an Info element. A title that claims to
/// reach past the end of the file is passed over.
pub open spec fn info_titles(c: Seq<u8>, at: int, end: int) -> Result<
    Seq<EbmlElement>,
    ContainerError,
>
    decreases distance(at, end),
{
    if at + 2 <= end {
        match element_at(c, at) {
            Err(e) => Err(e),
            Ok(g) => if g.data_len == u64::MAX {
                Err(ContainerError::UnknownSize(at as u64))
            } else if g.end_at() > at {
                after(
                    if is_title(c, g) {
                        seq![g]
                    } else {
                        seq![]
                    },
                    info_titles(c, g.end_at(), end),
                )
            } else {
                Ok(seq![])
            },
        }
    } else {
        Ok(seq![])
    }
}

pub open spec fn is_title(c: Seq<u8>, g: EbmlElement) -> bool {
    g.id == TITLE && g.end_at() <= c.len()
}

/// The titles among the children of the Segment, up to the first Cluster.
pub open spec fn segment_titles(c: Seq<u8>, at: int, end: int) -> Result<
    Seq<EbmlElement>,
    ContainerError,
>
    decreases distance(at, end),
{
    if at + 2 <= end {
        match element_at(c, at) {
            Err(e) => Err(e),
            Ok(child) => if child.data_len == u64::MAX {
                Err(ContainerError::UnknownSize(at as u64))
            } else if child.id == CLUSTER || child.end_at() <= at {
                Ok(seq![])
            } else if child.id == INFO {
                match info_titles(c, child.data_at(), child.end_at()) {
                    Err(e) => Err(e),
                    Ok(found) => after(found, segment_titles(c, child.end_at(), end)),
                }
            } else {
                segment_titles(c, child.end_at(), end)
            },
        }
    } else {
        Ok(seq![])
    }
}

/// Where the Segment's children start and end.
pub open spec fn segment_span(c: Seq<u8>) -> Result<(int, int), ContainerError> {
    match element_at(c, 0) {
        Err(e) => Err(e),
        Ok(header) => if header.id != EBML_HEADER {
            Err(ContainerError::NotMatroska)
        } else if header.data_len == u64::MAX {
            Err(ContainerError::UnknownSize(0))
        } else {
            match element_at(c, header.end_at()) {
                Err(e) => Err(e),
                Ok(segment) => if segment.id != SEGMENT {
                    Err(ContainerError::NoSegment)
                } else if segment.data_len == u64::MAX || segment.end_at() > c.len() {
                    Ok((segment.data_at(), c.len() as int))
                } else {
                    Ok((segment.data_at(), segment.end_at()))
                },
            }
        },
    }
}

/// The title elements of a Matroska file.
pub open spec fn matroska_titles_of(c: Seq<u8>) -> Result<Seq<EbmlElement>, ContainerError> {
    match segment_span(c) {
        Err(e) => Err(e),
        Ok((lo, hi)) => segment_titles(c, lo, hi),
    }
}

proof fn lemma_element_bounds(c: Seq<u8>, at: int)
    requires
        file_sized(c),
        0 <= at,
    ensures
        match element_at(c, at) {
            Ok(g) => {
                &&& g.offset == at
                &&& 1 <= g.id_len <= 4
                &&& 1 <= g.size_len <= 8
                &&& g.data_at() <= c.len()
                &&& g.data_len == u64::MAX || g.data_len < 0x100_0000_0000_0000
                &&& g.id_len == vint_len(c[at])
                &&& g.size_len == vint_len(c[at + g.id_len])
                &&& g.id == number_at(c, at, g.id_len as int)
            },
            Err(e) => true,
        },
{
    match element_at(c, at) {
        Ok(g) => {
            lemma_vint_bounds(c, at, g.id_len as int);
            lemma_vint_bounds(c, at + g.id_len, g.size_len as int);
        },
        Err(e) => {},
    }
}

/// What holds of each title that a walk finds.
pub open spec fn sound_title(c: Seq<u8>, t: EbmlElement) -> bool {
    &&& element_at(c, t.offset as int) == Ok::<EbmlElement, ContainerError>(t)
    &&& t.data_len != u64::MAX
    &&& is_title(c, t)
}

fn info_titles_in<B: Bytes>(src: &B, start: u64, end: u64, out: &mut Vec<EbmlElement>) -> (r: Result<
    (),
    ContainerError,
>)
    requires
        file_sized(src.content()),
        start <= i64::MAX,
        forall|i: int| 0 <= i < old(out)@.len() ==> sound_title(src.content(), #[trigger] old(out)@[i]),
    ensures
        match r {
            Ok(()) => after(old(out)@, info_titles(src.content(), start as int, end as int)) == Ok::<
                Seq<EbmlElement>,
                ContainerError,
            >(final(out)@),
            Err(e) => info_titles(src.content(), start as int, end as int) == Err::<
                Seq<EbmlElement>,
                ContainerError,
            >(e),
        },
        forall|i: int|
            0 <= i < final(out)@.len() ==> sound_title(src.content(), #[trigger] final(out)@[i]),
{
    let ghost c = src.content();
    let ghost goal = info_titles(c, start as int, end as int);
    let ghost head = out@;
    let mut at: u64 = start;
    while at <= u64::MAX - 2 && at + 2 <= end
        invariant
            c == src.content(),
            file_sized(c),
            goal == info_titles(c, start as int, end as int),
            after(head, goal) == after(out@, info_titles(c, at as int, end as int)),
            goal is Err <==> info_titles(c, at as int, end as int) is Err,
            goal is Err ==> goal == info_titles(c, at as int, end as int),
            forall|i: int| 0 <= i < out@.len() ==> sound_title(c, #[trigger] out@[i]),
        decreases distance(at as int, end as int),
    {
        let grand = match read_ebml_element(src, at) {
            Err(e) => {
                return Err(e);
            },
            Ok(g) => g,
        };
        if grand.data_len == u64::MAX {
            return Err(ContainerError::UnknownSize(at));
        }
        proof {
            lemma_element_bounds(c, at as int);
        }
        if grand.id == TITLE && grand.end() <= src.size() {
            proof {
                lemma_after_push(out@, grand, info_titles(c, grand.end_at(), end as int));
            }
            out.push(grand);
        } else {
            proof {
                lemma_after_empty(info_titles(c, grand.end_at(), end as int));
            }
        }
        at = grand.end();
    }
    proof {
        assert(out@ + Seq::<EbmlElement>::empty() =~= out@);
    }
    Ok(())
}

proof fn lemma_after_after<T>(a: Seq<T>, b: Seq<T>, r: Result<Seq<T>, ContainerError>)
    ensures
        after(a, after(b, r)) == after(a + b, r),
{
    match r {
        Ok(found) => {
            assert(a + (b + found) =~= (a + b) + found);
        },
        Err(e) => {},
    }
}

/// Title elements in a Matroska file: walk Segment children up to the first
/// Cluster (Info always precedes media data in practice).
fn matroska_titles<B: Bytes>(src: &B) -> (r: Result<Vec<EbmlElement>, ContainerError>)
    requires
        file_sized(src.content()),
    ensures
        same_walk(r) == matroska_titles_of(src.content()),
        r matches Ok(v) ==> forall|i: int|
            0 <= i < v@.len() ==> sound_title(src.content(), #[trigger] v@[i]),
{
    let ghost c = src.content();
    let header = match read_ebml_element(src, 0) {
        Err(e) => {
            return Err(e);
        },
        Ok(g) => g,
    };
    if header.id != EBML_HEADER {
        return Err(ContainerError::NotMatroska);
    }
    if header.data_len == u64::MAX {
        return Err(ContainerError::UnknownSize(0));
    }
    proof {
        lemma_element_bounds(c, 0);
    }
    let segment = match read_ebml_element(src, header.end()) {
        Err(e) => {
            return Err(e);
        },
        Ok(g) => g,
    };
    if segment.id != SEGMENT {
        return Err(ContainerError::NoSegment);
    }
    proof {
        lemma_element_bounds(c, header.end_at());
    }
    let file_len = src.size();
    let end = if segment.data_len == u64::MAX || segment.end() > file_len {
        file_len
    } else {
        segment.end()
    };
    let start = segment.data_offset();
    let ghost goal = segment_titles(c, start as int, end as int);
    let mut out: Vec<EbmlElement> = Vec::new();
    let mut at: u64 = start;
    proof {
        lemma_after_empty(goal);
    }
    while at + 2 <= end
        invariant
            c == src.content(),
            file_sized(c),
            end <= c.len(),
            at <= i64::MAX + 0x200_0000_0000_0000,
            goal == matroska_titles_of(c),
            goal == after(out@, segment_titles(c, at as int, end as int)),
            forall|i: int| 0 <= i < out@.len() ==> sound_title(c, #[trigger] out@[i]),
        decreases distance(at as int, end as int),
    {
        let child = match read_ebml_element(src, at) {
            Err(e) => {
                return Err(e);
            },
            Ok(g) => g,
        };
        if child.data_len == u64::MAX {
            return Err(ContainerError::UnknownSize(at));
        }
        proof {
            lemma_element_bounds(c, at as int);
        }
        if child.id == CLUSTER {
            assert(out@ + Seq::<EbmlElement>::empty() =~= out@);
            return Ok(out);
        }
        if child.id == INFO {
            let ghost before = out@;
            match info_titles_in(src, child.data_offset(), child.end(), &mut out) {
                Err(e) => {
                    return Err(e);
                },
                Ok(()) => {
                    proof {
                        let found = info_titles(c, child.data_at(), child.end_at())->Ok_0;
                        lemma_after_after(
                            before,
                            found,
                            segment_titles(c, child.end_at(), end as int),
                        );
                    }
                },
            }
        }
        at = child.end();
    }
    assert(out@ + Seq::<EbmlElement>::empty() =~= out@);
    Ok(out)
}

/// `v` in `n` bytes, big-endian.
pub open spec fn be_bytes(v: int, n: int) -> Seq<u8>
    decreases n,
{
    if n <= 0 {
        seq![]
    } else {
        be_bytes(v / 256, n - 1).push((v % 256) as u8)
    }
}

/// A value as a variable-length number of `len` bytes.
pub open spec fn vint_bytes(value: int, len: int) -> Seq<u8> {
    be_bytes(vint_marker(len) * pow256(len - 1) + value, len)
}

fn push_be(out: &mut Vec<u8>, v: u64, n: u8)
    ensures
        final(out)@ == old(out)@ + be_bytes(v as int, n as int),
    decreases n,
{
    if n > 0 {
        push_be(out, v / 256, n - 1);
        out.push((v % 256) as u8);
    }
    assert(out@ =~= old(out)@ + be_bytes(v as int, n as int));
}

/// Big-endian EBML VINT of exactly `len` bytes encoding `value`.
pub fn encode_vint(value: u64, len: u8) -> (r: Result<Vec<u8>, ContainerError>)
    requires
        1 <= len <= 8,
    ensures
        match r {
            Ok(b) => value < vint_ones(len as int) && b@ == vint_bytes(value as int, len as int),
            Err(e) => value >= vint_ones(len as int) && e == ContainerError::DoesNotFit,
        },
{
    let mut top: u64 = marker(len);
    let mut k: u8 = 1;
    proof {
        lemma_pow256();
    }
    while k < len
        invariant
            1 <= k <= len <= 8,
            top == vint_marker(len as int) * pow256(k - 1),
        decreases len - k,
    {
        proof {
            let m = vint_marker(len as int);
            assert(pow256(k as int) == 256 * pow256(k - 1));
            assert(m * (256 * pow256(k - 1)) == 256 * (m * pow256(k - 1))) by (nonlinear_arith);
            lemma_marker_bound(len as int, k as int);
        }
        top = top * 256;
        k += 1;
    }
    proof {
        lemma_marker_bound(len as int, len - 1);
    }
    if value >= top - 1 {
        return Err(ContainerError::DoesNotFit);
    }
    let mut out: Vec<u8> = Vec::new();
    push_be(&mut out, top + value, len);
    assert(out@ =~= vint_bytes(value as int, len as int));
    Ok(out)
}

pub open spec fn zeros(n: int) -> Seq<u8> {
    Seq::new(if n < 0 { 0nat } else { n as nat }, |i: int| 0u8)
}

/// Bytes to write over a file's: `bytes`, then `zeros` zero bytes. Never
/// more is held than the header, whatever length an element claims.
#[derive(Debug)]
pub struct Patch {
    pub offset: u64,
    pub bytes: Vec<u8>,
    pub zeros: u64,
}

impl Patch {
    /// What the patch writes.
    pub open spec fn written(self) -> Seq<u8> {
        self.bytes@ + zeros(self.zeros as int)
    }
}

/// `c` with `b` written over it at `at`.
pub open spec fn overwritten(c: Seq<u8>, at: int, b: Seq<u8>) -> Seq<u8> {
    Seq::new(
        c.len(),
        |i: int|
            if at <= i < at + b.len() {
                b[i - at]
            } else {
                c[i]
            },
    )
}

/// A patch as the offset and the bytes that it writes there.
pub open spec fn edits(patches: Seq<Patch>) -> Seq<(int, Seq<u8>)> {
    Seq::new(patches.len(), |i: int| (patches[i].offset as int, patches[i].written()))
}

/// `c` with each edit written over it in turn.
pub open spec fn edited(c: Seq<u8>, e: Seq<(int, Seq<u8>)>) -> Seq<u8>
    decreases e.len(),
{
    if e.len() == 0 {
        c
    } else {
        overwritten(edited(c, e.drop_last()), e.last().0, e.last().1)
    }
}

/// The size field of the Void that a title element is rewritten as: it takes
/// up the header bytes that the one-byte ID frees, as far as a size field may
/// have them.
pub open spec fn void_size_len(t: EbmlElement) -> int {
    if t.id_len + t.size_len <= 9 {
        t.id_len + t.size_len - 1
    } else {
        8
    }
}

/// The data of the Void: that of the title, and the header bytes left over.
pub open spec fn void_data_len(t: EbmlElement) -> int {
    t.data_len + (t.id_len + t.size_len - 1 - void_size_len(t))
}

/// What a title element is rewritten as: a Void of the same span, its data
/// zeroed.
pub open spec fn void_bytes(t: EbmlElement) -> Seq<u8> {
    seq![0xECu8] + vint_bytes(void_data_len(t), void_size_len(t)) + zeros(void_data_len(t))
}

/// A Void of the element's whole span.
fn void_element(t: &EbmlElement) -> (r: Result<Patch, ContainerError>)
    requires
        1 <= t.id_len <= 4,
        1 <= t.size_len <= 8,
        t.data_len <= i64::MAX,
    ensures
        match r {
            Ok(p) => {
                &&& can_void(*t)
                &&& p.offset == t.offset
                &&& p.written() == void_bytes(*t)
            },
            Err(e) => e == ContainerError::DoesNotFit && !can_void(*t),
        },
{
    let freed: u8 = t.id_len + t.size_len - 1;
    let len: u8 = if freed <= 8 {
        freed
    } else {
        8
    };
    let data_len: u64 = t.data_len + (freed - len) as u64;
    match encode_vint(data_len, len) {
        Err(e) => Err(e),
        Ok(size) => {
            let mut header: Vec<u8> = Vec::new();
            header.push(0xEC);
            let mut i: usize = 0;
            while i < size.len()
                invariant
                    i <= size.len(),
                    header@ == seq![0xECu8] + size@.take(i as int),
                decreases size.len() - i,
            {
                header.push(size[i]);
                i += 1;
                assert(header@ =~= seq![0xECu8] + size@.take(i as int));
            }
            assert(size@.take(i as int) =~= size@);
            Ok(Patch { offset: t.offset, bytes: header, zeros: data_len })
        },
    }
}

/// An MP4 or a Matroska file, by its first bytes.
pub open spec fn is_matroska(c: Seq<u8>) -> bool {
    c.len() >= 4 && number_at(c, 0, 4) == EBML_HEADER
}

fn detect_matroska<B: Bytes>(src: &B) -> (r: bool)
    requires
        file_sized(src.content()),
    ensures
        r == is_matroska(src.content()),
{
    src.size() >= 4 && read_number(src, 0, 4) == EBML_HEADER as u64
}

/// A text without the zero characters at its end.
pub open spec fn without_nuls(s: Seq<char>) -> Seq<char>
    decreases s.len(),
{
    if s.len() > 0 && s.last() == '\0' {
        without_nuls(s.drop_last())
    } else {
        s
    }
}

/// The text of a title element: at most its first 512 bytes.
pub open spec fn matroska_text(c: Seq<u8>, t: EbmlElement) -> Seq<char> {
    let n = if t.data_len < 512 {
        t.data_len as int
    } else {
        512
    };
    without_nuls(text::lossy(c.subrange(t.data_at(), t.data_at() + n)))
}

fn matroska_title_text<B: Bytes>(src: &B, t: &EbmlElement) -> (r: String)
    requires
        file_sized(src.content()),
        t.end_at() <= src.content().len(),
    ensures
        r@ == matroska_text(src.content(), *t),
{
    let n: u64 = if t.data_len < 512 {
        t.data_len
    } else {
        512
    };
    let bytes = read_bytes(src, t.data_offset(), t.data_offset() + n);
    let text = text::from_utf8_lossy(&bytes);
    let v = text::chars_of(text.as_str());
    let mut hi: usize = v.len();
    assert(v@.take(hi as int) =~= v@);
    while hi > 0 && v[hi - 1] == '\0'
        invariant
            hi <= v.len(),
            without_nuls(v@.take(hi as int)) == without_nuls(v@),
        decreases hi,
    {
        assert(v@.take(hi as int).drop_last() =~= v@.take(hi - 1));
        hi -= 1;
    }
    let r = text::string_of(&v, 0, hi);
    assert(r@ =~= v@.take(hi as int));
    r
}

/// The texts of the title atoms, up to the first that cannot be read.
pub open spec fn mp4_texts(c: Seq<u8>, found: Seq<Atom>) -> Result<Seq<Seq<char>>, ContainerError>
    decreases found.len(),
{
    if found.len() == 0 {
        Ok(seq![])
    } else {
        match mp4_texts(c, found.drop_last()) {
            Err(e) => Err(e),
            Ok(before) => match title_text_of(c, found.last()) {
                Err(e) => Err(e),
                Ok(t) => Ok(before.push(t)),
            },
        }
    }
}

proof fn lemma_mp4_texts_err(c: Seq<u8>, found: Seq<Atom>, k: int)
    requires
        0 <= k <= found.len(),
        mp4_texts(c, found.take(k)) is Err,
    ensures
        mp4_texts(c, found) == mp4_texts(c, found.take(k)),
    decreases found.len() - k,
{
    if k == found.len() {
        assert(found.take(k) =~= found);
    } else {
        assert(found.take(k + 1).drop_last() =~= found.take(k));
        lemma_mp4_texts_err(c, found, k + 1);
    }
}

pub open spec fn matroska_texts(c: Seq<u8>, found: Seq<EbmlElement>) -> Seq<Seq<char>> {
    found.map_values(|t: EbmlElement| matroska_text(c, t))
}

/// The embedded titles of a file, in file order; `None` for a file that is
/// neither MP4 nor Matroska, or that has no metadata structure. A Matroska
/// file that cannot be walked is an error, an MP4 file that cannot be is of
/// another format.
pub open spec fn titles_of(c: Seq<u8>) -> Result<Option<Seq<Seq<char>>>, ContainerError> {
    if is_matroska(c) {
        match matroska_titles_of(c) {
            Err(e) => Err(e),
            Ok(found) => Ok(Some(matroska_texts(c, found))),
        }
    } else {
        match mp4_titles(c) {
            Ok(Some(found)) => match mp4_texts(c, found) {
                Err(e) => Err(e),
                Ok(out) => Ok(Some(out)),
            },
            _ => Ok(None),
        }
    }
}

impl TitleStatus {
    /// The titles that a status reports.
    pub open spec fn reports(self) -> Option<Seq<Seq<char>>> {
        match self {
            TitleStatus::Unsupported => None,
            TitleStatus::NoTitle => Some(seq![]),
            TitleStatus::Titles(v) => Some(text::texts(v@)),
        }
    }
}

fn matroska_list<B: Bytes>(src: &B, found: &Vec<EbmlElement>) -> (r: Vec<String>)
    requires
        file_sized(src.content()),
        forall|i: int| 0 <= i < found@.len() ==> sound_title(src.content(), #[trigger] found@[i]),
    ensures
        text::texts(r@) == matroska_texts(src.content(), found@),
{
    let mut out: Vec<String> = Vec::new();
    let mut i: usize = 0;
    while i < found.len()
        invariant
            i <= found.len(),
            file_sized(src.content()),
            text::texts(out@) == matroska_texts(src.content(), found@.take(i as int)),
            forall|k: int|
                0 <= k < found@.len() ==> sound_title(src.content(), #[trigger] found@[k]),
        decreases found.len() - i,
    {
        assert(sound_title(src.content(), found@[i as int]));
        let t = matroska_title_text(src, &found[i]);
        proof {
            let c = src.content();
            text::lemma_texts_push(out@, t);
            assert(found@.take(i + 1) =~= found@.take(i as int).push(found@[i as int]));
            assert(matroska_texts(c, found@.take(i + 1)) =~= matroska_texts(
                c,
                found@.take(i as int),
            ).push(t@));
        }
        out.push(t);
        i += 1;
    }
    assert(found@.take(i as int) =~= found@);
    out
}

/// Report the embedded title(s) of a file without modifying it.
pub fn inspect<B: Bytes>(src: &B) -> (r: Result<TitleStatus, ContainerError>)
    requires
        file_sized(src.content()),
    ensures
        match r {
            Ok(status) => titles_of(src.content()) == Ok::<_, ContainerError>(status.reports()),
            Err(e) => titles_of(src.content()) == Err::<Option<Seq<Seq<char>>>, _>(e),
        },
        r matches Ok(TitleStatus::Titles(v)) ==> v@.len() > 0,
{
    let ghost c = src.content();
    if detect_matroska(src) {
        match matroska_titles(src) {
            Err(e) => Err(e),
            Ok(found) => {
                let out = matroska_list(src, &found);
                assert(text::texts(out@).len() == out@.len());
                if out.len() == 0 {
                    assert(text::texts(out@) =~= seq![]);
                    return Ok(TitleStatus::NoTitle);
                }
                Ok(TitleStatus::Titles(out))
            },
        }
    } else {
        match mp4_title_atoms(src) {
            Err(_) => Ok(TitleStatus::Unsupported),
            Ok(None) => Ok(TitleStatus::Unsupported),
            Ok(Some(found)) => {
                let mut out: Vec<String> = Vec::new();
                let mut i: usize = 0;
                assert(text::texts(out@) =~= seq![]);
                while i < found.len()
                    invariant
                        i <= found.len(),
                        c == src.content(),
                        file_sized(c),
                        !is_matroska(c),
                        mp4_titles(c) == Ok::<_, ContainerError>(Some(found@)),
                        mp4_texts(c, found@.take(i as int)) == Ok::<_, ContainerError>(
                            text::texts(out@),
                        ),
                        out@.len() == i,
                        forall|k: int|
                            0 <= k < found@.len() ==> inside(
                                #[trigger] found@[k],
                                0,
                                c.len() as int,
                            ),
                    decreases found.len() - i,
                {
                    assert(inside(found@[i as int], 0, c.len() as int));
                    assert(found@.take(i + 1).drop_last() =~= found@.take(i as int));
                    match title_text(src, &found[i]) {
                        Err(e) => {
                            proof {
                                lemma_mp4_texts_err(c, found@, i + 1);
                            }
                            return Err(e);
                        },
                        Ok(t) => {
                            let ghost before = text::texts(out@);
                            out.push(t);
                            assert(text::texts(out@) =~= before.push(t@));
                        },
                    }
                    i += 1;
                }
                assert(found@.take(i as int) =~= found@);
                if out.len() == 0 {
                    return Ok(TitleStatus::NoTitle);
                }
                Ok(TitleStatus::Titles(out))
            },
        }
    }
}

/// How many of the leading flags are set.
pub open spec fn leading(flags: Seq<bool>) -> int
    decreases flags.len(),
{
    if flags.len() == 0 || !flags[0] {
        0
    } else {
        1 + leading(flags.drop_first())
    }
}

proof fn lemma_leading(flags: Seq<bool>, n: int)
    requires
        0 <= n <= flags.len(),
        forall|i: int| 0 <= i < n ==> flags[i],
        n < flags.len() ==> !flags[n],
    ensures
        leading(flags) == n,
    decreases n,
{
    if n > 0 {
        let rest = flags.drop_first();
        assert forall|i: int| 0 <= i < n - 1 implies rest[i] by {
            assert(rest[i] == flags[i + 1]);
        }
        lemma_leading(rest, n - 1);
    }
}

/// Whether a Void of the element's span exists: its data is of a size that a
/// size field can hold. Of titles that is all but one of the largest size.
pub open spec fn can_void(t: EbmlElement) -> bool {
    void_data_len(t) < vint_ones(void_size_len(t))
}

pub open spec fn void_edits(found: Seq<EbmlElement>) -> Seq<(int, Seq<u8>)> {
    Seq::new(found.len(), |i: int| (found[i].offset as int, void_bytes(found[i])))
}

pub open spec fn free_bytes() -> Seq<u8> {
    seq![0x66u8, 0x72u8, 0x65u8, 0x65u8]
}

/// Renaming the atoms: the type field sits four bytes into an atom, after
/// the 32-bit size, also where a 64-bit size follows.
pub open spec fn free_edits(found: Seq<Atom>) -> Seq<(int, Seq<u8>)> {
    Seq::new(found.len(), |i: int| (found[i].offset + 4, free_bytes()))
}

pub open spec fn voidable(found: Seq<EbmlElement>) -> int {
    leading(found.map_values(|t: EbmlElement| can_void(t)))
}

pub open spec fn readable(c: Seq<u8>, found: Seq<Atom>) -> int {
    leading(found.map_values(|a: Atom| title_text_of(c, a) is Ok))
}

/// What stripping a file writes, and the titles that it removes or why it
/// stopped. Each title in turn is read and then neutralized; one that cannot
/// be stops it there.
pub open spec fn stripping(c: Seq<u8>) -> (
    Seq<(int, Seq<u8>)>,
    Result<Seq<Seq<char>>, ContainerError>,
) {
    if is_matroska(c) {
        match matroska_titles_of(c) {
            Err(e) => (seq![], Err(e)),
            Ok(found) => (
                void_edits(found.take(voidable(found))),
                if voidable(found) == found.len() {
                    Ok(matroska_texts(c, found))
                } else {
                    Err(ContainerError::DoesNotFit)
                },
            ),
        }
    } else {
        match mp4_titles(c) {
            Ok(Some(found)) => (free_edits(found.take(readable(c, found))), mp4_texts(c, found)),
            _ => (seq![], Ok(seq![])),
        }
    }
}

/// What stripping a file comes to: the titles, the patches that neutralize
/// them, and what stopped it, if anything did.
#[derive(Debug)]
pub struct Stripped {
    pub removed: Vec<String>,
    pub patches: Vec<Patch>,
    pub error: Option<ContainerError>,
}

impl Stripped {
    pub open spec fn outcome(self) -> Result<Seq<Seq<char>>, ContainerError> {
        match self.error {
            Some(e) => Err(e),
            None => Ok(text::texts(self.removed@)),
        }
    }
}

/// The patches that neutralize a file's titles. Files of other formats get
/// none.
pub fn strip_patches<B: Bytes>(src: &B) -> (r: Stripped)
    requires
        file_sized(src.content()),
    ensures
        edits(r.patches@) == stripping(src.content()).0,
        r.outcome() == stripping(src.content()).1,
{
    let ghost c = src.content();
    let mut patches: Vec<Patch> = Vec::new();
    let mut removed: Vec<String> = Vec::new();
    assert(edits(patches@) =~= seq![]);
    assert(text::texts(removed@) =~= seq![]);
    if detect_matroska(src) {
        let found = match matroska_titles(src) {
            Err(e) => {
                return Stripped { removed, patches, error: Some(e) };
            },
            Ok(found) => found,
        };
        let ghost flags = found@.map_values(|t: EbmlElement| can_void(t));
        let mut i: usize = 0;
        assert(void_edits(found@.take(0)) =~= seq![]);
        while i < found.len()
            invariant
                i <= found.len(),
                c == src.content(),
                file_sized(c),
                is_matroska(c),
                matroska_titles_of(c) == Ok::<_, ContainerError>(found@),
                flags == found@.map_values(|t: EbmlElement| can_void(t)),
                edits(patches@) == void_edits(found@.take(i as int)),
                forall|k: int| 0 <= k < i ==> #[trigger] can_void(found@[k]),
                forall|k: int| 0 <= k < found@.len() ==> sound_title(c, #[trigger] found@[k]),
            decreases found.len() - i,
        {
            let t = found[i];
            proof {
                assert(sound_title(c, found@[i as int]));
                lemma_element_bounds(c, t.offset as int);
                lemma_title_fits(c, t);
            }
            match void_element(&t) {
                Err(e) => {
                    proof {
                        assert forall|k: int| 0 <= k < i implies flags[k] by {
                            assert(can_void(found@[k]));
                        }
                        lemma_leading(flags, i as int);
                    }
                    return Stripped { removed, patches, error: Some(e) };
                },
                Ok(p) => {
                    proof {
                        assert(edits(patches@.push(p)) =~= edits(patches@).push(
                            (t.offset as int, void_bytes(t)),
                        ));
                        assert(void_edits(found@.take(i + 1)) =~= void_edits(
                            found@.take(i as int),
                        ).push((t.offset as int, void_bytes(t))));
                        assert(can_void(found@[i as int]));
                    }
                    patches.push(p);
                },
            }
            i += 1;
        }
        proof {
            assert forall|k: int| 0 <= k < i implies flags[k] by {
                assert(can_void(found@[k]));
            }
            lemma_leading(flags, i as int);
        }
        removed = matroska_list(src, &found);
        Stripped { removed, patches, error: None }
    } else {
        let found = match mp4_title_atoms(src) {
            Err(_) => {
                return Stripped { removed, patches, error: None };
            },
            Ok(None) => {
                return Stripped { removed, patches, error: None };
            },
            Ok(Some(found)) => found,
        };
        let ghost flags = found@.map_values(|a: Atom| title_text_of(c, a) is Ok);
        let mut i: usize = 0;
        assert(free_edits(found@.take(0)) =~= seq![]);
        while i < found.len()
            invariant
                i <= found.len(),
                c == src.content(),
                file_sized(c),
                !is_matroska(c),
                mp4_titles(c) == Ok::<_, ContainerError>(Some(found@)),
                flags == found@.map_values(|a: Atom| title_text_of(c, a) is Ok),
                edits(patches@) == free_edits(found@.take(i as int)),
                mp4_texts(c, found@.take(i as int)) == Ok::<_, ContainerError>(
                    text::texts(removed@),
                ),
                forall|k: int| 0 <= k < i ==> flags[k],
                forall|k: int|
                    0 <= k < found@.len() ==> inside(#[trigger] found@[k], 0, c.len() as int),
            decreases found.len() - i,
        {
            let a = found[i];
            assert(inside(found@[i as int], 0, c.len() as int));
            assert(found@.take(i + 1).drop_last() =~= found@.take(i as int));
            match title_text(src, &a) {
                Err(e) => {
                    proof {
                        lemma_mp4_texts_err(c, found@, i + 1);
                        lemma_leading(flags, i as int);
                    }
                    return Stripped { removed, patches, error: Some(e) };
                },
                Ok(t) => {
                    proof {
                        text::lemma_texts_push(removed@, t);
                    }
                    removed.push(t);
                },
            }
            let mut bytes: Vec<u8> = Vec::new();
            bytes.push(0x66);
            bytes.push(0x72);
            bytes.push(0x65);
            bytes.push(0x65);
            let p = Patch { offset: a.offset + 4, bytes, zeros: 0 };
            proof {
                assert(p.written() =~= free_bytes());
                assert(edits(patches@.push(p)) =~= edits(patches@).push(
                    (a.offset + 4, free_bytes()),
                ));
                assert(free_edits(found@.take(i + 1)) =~= free_edits(found@.take(i as int)).push(
                    (a.offset + 4, free_bytes()),
                ));
            }
            patches.push(p);
            i += 1;
        }
        proof {
            lemma_leading(flags, i as int);
            assert(found@.take(i as int) =~= found@);
        }
        Stripped { removed, patches, error: None }
    }
}

/// The size of a title fits the size field of its Void, but for the largest
/// size that eight bytes can hold.
proof fn lemma_title_fits(c: Seq<u8>, t: EbmlElement)
    requires
        file_sized(c),
        sound_title(c, t),
    ensures
        t.id_len == 2,
        t.data_len < 0xff_ffff_ffff_fffe ==> can_void(t),
{
    let at = t.offset as int;
    lemma_element_bounds(c, at);
    lemma_vint_bounds(c, at, t.id_len as int);
    lemma_vint_bounds(c, at + t.id_len, t.size_len as int);
    lemma_first_byte(c, at, t.id_len as int);
    lemma_pow256();
    let b = c[at] as int;
    if t.id_len == 1 {
    } else if t.id_len == 3 {
        assert(b * 0x1_0000 <= 0x7BA9);
    } else if t.id_len == 4 {
        assert(b * 0x100_0000 <= 0x7BA9);
    }
}

proof fn lemma_edited_len(c: Seq<u8>, e: Seq<(int, Seq<u8>)>)
    ensures
        edited(c, e).len() == c.len(),
    decreases e.len(),
{
    if e.len() > 0 {
        lemma_edited_len(c, e.drop_last());
    }
}

fn write_patch(file: &mut Vec<u8>, p: &Patch)
    ensures
        final(file)@ == overwritten(old(file)@, p.offset as int, p.written()),
{
    let ghost c = file@;
    let n = file.len();
    let mut i: usize = 0;
    while i < n
        invariant
            n == file.len(),
            n == c.len(),
            i <= n,
            forall|k: int|
                0 <= k < n ==> #[trigger] file@[k] == (if k < i {
                    overwritten(c, p.offset as int, p.written())[k]
                } else {
                    c[k]
                }),
        decreases n - i,
    {
        let at = i as u64;
        if at >= p.offset {
            let k = at - p.offset;
            if k < p.bytes.len() as u64 {
                file.set(i, p.bytes[k as usize]);
            } else if k - (p.bytes.len() as u64) < p.zeros {
                file.set(i, 0);
            }
        }
        i += 1;
    }
    assert(file@ =~= overwritten(c, p.offset as int, p.written()));
}

/// Neutralize embedded titles in place. Returns the titles that were
/// removed (none if there were none); files of other formats are left
/// untouched.
pub fn strip(file: &mut Vec<u8>) -> (r: Result<Vec<String>, ContainerError>)
    requires
        file_sized(old(file)@),
    ensures
        final(file)@ == edited(old(file)@, stripping(old(file)@).0),
        (match r {
            Ok(v) => Ok(text::texts(v@)),
            Err(e) => Err(e),
        }) == stripping(old(file)@).1,
{
    let ghost c = file@;
    let plan = strip_patches(file);
    let mut i: usize = 0;
    assert(edits(plan.patches@).take(0) =~= seq![]);
    while i < plan.patches.len()
        invariant
            i <= plan.patches.len(),
            file@ == edited(c, edits(plan.patches@).take(i as int)),
        decreases plan.patches.len() - i,
    {
        proof {
            let e = edits(plan.patches@);
            assert(e.take(i + 1).drop_last() =~= e.take(i as int));
        }
        write_patch(file, &plan.patches[i]);
        i += 1;
    }
    assert(edits(plan.patches@).take(i as int) =~= edits(plan.patches@));
    match plan.error {
        Some(e) => Err(e),
        None => Ok(plan.removed),
    }
}

// -------------------------------------------------------------------- laws

/// Stripping a file never changes its length.
pub proof fn strip_keeps_length(c: Seq<u8>)
    ensures
        edited(c, stripping(c).0).len() == c.len(),
{
    lemma_edited_len(c, stripping(c).0);
}

/// Where stripping succeeds it removes exactly the titles that inspection
/// reports.
pub proof fn strip_removes_what_inspect_reports(c: Seq<u8>)
    requires
        titles_of(c) matches Ok(Some(_)),
        stripping(c).1 is Ok,
    ensures
        titles_of(c) == Ok::<_, ContainerError>(Some(stripping(c).1->Ok_0)),
{
}

proof fn lemma_be_bytes(v: int, n: int)
    requires
        0 <= n,
        0 <= v < pow256(n),
    ensures
        be_bytes(v, n).len() == n,
        big_endian(be_bytes(v, n)) == v,
    decreases n,
{
    if n > 0 {
        lemma_be_bytes(v / 256, n - 1);
        assert(be_bytes(v, n).drop_last() =~= be_bytes(v / 256, n - 1));
    }
}

/// A value encoded in `n` bytes reads back: the first byte tells the length
/// and the bytes the value.
pub proof fn vint_round_trip(c: Seq<u8>, at: int, value: int, n: int)
    requires
        1 <= n <= 8,
        0 <= value < vint_ones(n),
        0 <= at,
        at + n <= c.len(),
        c.subrange(at, at + n) == vint_bytes(value, n),
    ensures
        vint_len(c[at]) == n,
        vint_value(c, at, n) == value,
{
    lemma_pow256();
    lemma_marker_bound(n, n - 1);
    let p = pow256(n - 1);
    let m = vint_marker(n);
    assert(m * p + value < pow256(n)) by {
        assert(2 * (m * p) <= pow256(n));
    }
    lemma_be_bytes(m * p + value, n);
    lemma_first_byte(c, at, n);
    let b = c[at] as int;
    let rest = number_at(c, at + 1, n - 1);
    assert(m <= b < 2 * m) by (nonlinear_arith)
        requires
            b * p + rest == m * p + value,
            0 <= rest < p,
            0 <= value < m * p - 1,
            0 < p,
            0 < m,
            0 <= b,
    ;
}

/// A title element overwritten as a Void is an element of the same span: the
/// walk goes on exactly where it did.
pub proof fn void_keeps_the_span(c: Seq<u8>, d: Seq<u8>, t: EbmlElement)
    requires
        file_sized(c),
        sound_title(c, t),
        can_void(t),
        d.len() == c.len(),
        d.subrange(t.offset as int, t.end_at()) == void_bytes(t),
    ensures
        element_at(d, t.offset as int) matches Ok(v) && v.id == VOID && v.data_len
            == void_data_len(t) && v.end_at() == t.end_at(),
{
    let at = t.offset as int;
    let n = void_size_len(t);
    let m = void_data_len(t);
    lemma_element_bounds(c, at);
    lemma_title_fits(c, t);
    lemma_pow256();
    let size = vint_bytes(m, n);
    lemma_marker_bound(n, n - 1);
    lemma_be_bytes(vint_marker(n) * pow256(n - 1) + m, n);
    let span = d.subrange(at, t.end_at());
    assert(d[at] == span[0]);
    assert(d.subrange(at + 1, at + 1 + n) =~= size) by {
        assert forall|i: int| 0 <= i < n implies d[at + 1 + i] == size[i] by {
            assert(d[at + 1 + i] == span[1 + i]);
        }
    }
    vint_round_trip(d, at + 1, m, n);
    lemma_number_step(d, at, 0);
    assert(d.subrange(at, at) =~= Seq::<u8>::empty());
    assert(number_at(d, at, 1) == 0xEC);
}

/// The same bytes hold the same number.
proof fn lemma_number_same(c: Seq<u8>, d: Seq<u8>, at: int, n: int)
    requires
        0 <= at,
        0 <= n,
        at + n <= c.len(),
        at + n <= d.len(),
        forall|i: int| at <= i < at + n ==> c[i] == d[i],
    ensures
        number_at(c, at, n) == number_at(d, at, n),
{
    assert(c.subrange(at, at + n) =~= d.subrange(at, at + n));
}

/// The atoms of a walk stand one after another.
proof fn lemma_atoms_apart(c: Seq<u8>, start: int, end: int)
    requires
        file_sized(c),
        0 <= start,
        end <= c.len(),
        atoms(c, start, end) is Ok,
    ensures
        ({
            let found = atoms(c, start, end)->Ok_0;
            forall|i: int, j: int|
                0 <= i < j < found.len() ==> (#[trigger] found[i]).hi() <= (
                #[trigger] found[j]).offset
        }),
    decreases end - start,
{
    lemma_atoms_inside(c, start, end);
    if start + 8 <= end {
        lemma_number_bounds(c, start);
        let a = atom_at(c, start, end)->Ok_0;
        if a.size >= 8 && a.offset == start {
            lemma_atoms_apart(c, start + a.size, end);
            lemma_atoms_inside(c, start + a.size, end);
            let rest = atoms(c, start + a.size, end)->Ok_0;
            let found = seq![a] + rest;
            assert forall|i: int, j: int| 0 <= i < j < found.len() implies (
            #[trigger] found[i]).hi() <= (#[trigger] found[j]).offset by {
                assert(found[j] == rest[j - 1]);
                if i == 0 {
                    assert(inside(rest[j - 1], start + a.size, end));
                } else {
                    assert(found[i] == rest[i - 1]);
                }
            }
        }
    }
}

/// An atom with another type.
pub open spec fn retyped(a: Atom, kind: u32) -> Atom {
    Atom { offset: a.offset, size: a.size, header_len: a.header_len, kind }
}

/// `d` has the header of the atom `a` of `c`, but for the type where `f`
/// gives another.
pub open spec fn header_kept(c: Seq<u8>, d: Seq<u8>, a: Atom, kind: u32) -> bool {
    &&& forall|i: int| a.offset <= i < a.offset + 4 ==> c[i] == d[i]
    &&& forall|i: int| a.offset + 8 <= i < a.lo() ==> c[i] == d[i]
    &&& number_at(d, a.offset + 4, 4) == kind
}

/// The types that a walk's atoms get.
pub open spec fn retyped_all(found: Seq<Atom>, kinds: Seq<u32>) -> Seq<Atom> {
    Seq::new(found.len(), |i: int| retyped(found[i], kinds[i]))
}

/// A walk over a file whose atoms kept their headers, but for the types,
/// finds the same atoms with those types.
proof fn lemma_atoms_retyped(c: Seq<u8>, d: Seq<u8>, start: int, end: int, kinds: Seq<u32>)
    requires
        file_sized(c),
        d.len() == c.len(),
        0 <= start,
        end <= c.len(),
        atoms(c, start, end) is Ok,
        kinds.len() == atoms(c, start, end)->Ok_0.len(),
        forall|i: int|
            0 <= i < kinds.len() ==> header_kept(
                c,
                d,
                #[trigger] atoms(c, start, end)->Ok_0[i],
                kinds[i],
            ),
    ensures
        atoms(d, start, end) == Ok::<_, ContainerError>(
            retyped_all(atoms(c, start, end)->Ok_0, kinds),
        ),
    decreases end - start,
{
    let found = atoms(c, start, end)->Ok_0;
    lemma_atoms_inside(c, start, end);
    if start + 8 <= end {
        lemma_number_bounds(c, start);
        lemma_number_bounds(d, start);
        let a = atom_at(c, start, end)->Ok_0;
        assert(a.size >= 8 && a.offset == start);
        let rest = atoms(c, start + a.size, end)->Ok_0;
        assert(found =~= seq![a] + rest);
        assert(found[0] == a);
        assert(header_kept(c, d, found[0], kinds[0]));
        lemma_number_same(c, d, start, 4);
        if number_at(c, start, 4) == 1 {
            assert(a.header_len == 16);
            lemma_number_same(c, d, start + 8, 8);
        }
        assert(atom_at(d, start, end) == Ok::<_, ContainerError>(retyped(a, kinds[0])));
        let kinds1 = kinds.drop_first();
        assert forall|i: int| 0 <= i < kinds1.len() implies header_kept(
            c,
            d,
            #[trigger] rest[i],
            kinds1[i],
        ) by {
            assert(found[i + 1] == rest[i]);
            assert(header_kept(c, d, found[i + 1], kinds[i + 1]));
        }
        lemma_atoms_retyped(c, d, start + a.size, end, kinds1);
        assert(seq![retyped(a, kinds[0])] + retyped_all(rest, kinds1) =~= retyped_all(found, kinds));
    } else {
        assert(retyped_all(found, kinds) =~= seq![]);
    }
}

/// A walk over a file whose atoms kept their headers finds the same atoms.
proof fn lemma_atoms_same(c: Seq<u8>, d: Seq<u8>, start: int, end: int)
    requires
        file_sized(c),
        d.len() == c.len(),
        0 <= start,
        end <= c.len(),
        atoms(c, start, end) is Ok,
        forall|k: int, i: int|
            0 <= k < atoms(c, start, end)->Ok_0.len() && (#[trigger] atoms(
                c,
                start,
                end,
            )->Ok_0[k]).offset <= i < atoms(c, start, end)->Ok_0[k].lo() ==> c[i]
                == #[trigger] d[i],
    ensures
        atoms(d, start, end) == atoms(c, start, end),
{
    let found = atoms(c, start, end)->Ok_0;
    let kinds = Seq::new(found.len(), |i: int| found[i].kind);
    lemma_atoms_inside(c, start, end);
    assert forall|k: int| 0 <= k < kinds.len() implies header_kept(
        c,
        d,
        #[trigger] found[k],
        kinds[k],
    ) by {
        let a = found[k];
        assert(inside(a, start, end));
        lemma_walk_atom(c, start, end, k);
        assert forall|i: int| a.offset <= i < a.lo() implies c[i] == d[i] by {}
        lemma_number_same(c, d, a.offset + 4, 4);
    }
    lemma_atoms_retyped(c, d, start, end, kinds);
    assert(retyped_all(found, kinds) =~= found);
}

/// The type of a walk's atom is what its type field holds.
proof fn lemma_walk_atom(c: Seq<u8>, start: int, end: int, k: int)
    requires
        file_sized(c),
        0 <= start,
        end <= c.len(),
        atoms(c, start, end) is Ok,
        0 <= k < atoms(c, start, end)->Ok_0.len(),
    ensures
        ({
            let a = atoms(c, start, end)->Ok_0[k];
            number_at(c, a.offset + 4, 4) == a.kind
        }),
    decreases end - start,
{
    lemma_number_bounds(c, start);
    let a = atom_at(c, start, end)->Ok_0;
    if k > 0 {
        assert(atoms(c, start, end)->Ok_0[k] == atoms(c, start + a.size, end)->Ok_0[k - 1]);
        lemma_walk_atom(c, start + a.size, end, k - 1);
    }
}

/// Walking down a path in a file that is unchanged outside the range where
/// the path leads.
proof fn lemma_descended_same(c: Seq<u8>, d: Seq<u8>, path: Seq<u32>, lo: int, hi: int)
    requires
        file_sized(c),
        d.len() == c.len(),
        0 <= lo,
        hi <= c.len(),
        descended(c, path, lo, hi) matches Ok(Some(_)),
        forall|i: int|
            0 <= i < c.len() && !(descended(c, path, lo, hi)->Ok_0->Some_0.0 <= i < descended(
                c,
                path,
                lo,
                hi,
            )->Ok_0->Some_0.1) ==> c[i] == #[trigger] d[i],
    ensures
        descended(d, path, lo, hi) == descended(c, path, lo, hi),
        path.len() > 0 ==> lo <= descended(c, path, lo, hi)->Ok_0->Some_0.0,
        descended(c, path, lo, hi)->Ok_0->Some_0.1 <= hi,
        path.len() > 0 ==> lo + 8 <= descended(c, path, lo, hi)->Ok_0->Some_0.0,
    decreases path.len(),
{
    if path.len() > 0 {
        let found = atoms(c, lo, hi)->Ok_0;
        let a = first_of(found, path[0])->Some_0;
        lemma_atoms_inside(c, lo, hi);
        lemma_atoms_apart(c, lo, hi);
        lemma_first_of(found, path[0]);
        let p = choose|p: int| 0 <= p < found.len() && found[p] == a;
        assert(inside(found[p], lo, hi));
        let lo1 = if a.kind == META {
            a.lo() + 4
        } else {
            a.lo()
        };
        lemma_descended_same(c, d, path.drop_first(), lo1, a.hi());
        let span = descended(c, path, lo, hi)->Ok_0->Some_0;
        assert(a.lo() <= span.0 && span.1 <= a.hi());
        assert forall|k: int, i: int|
            0 <= k < found.len() && (#[trigger] found[k]).offset <= i < found[k].lo() implies c[i]
            == #[trigger] d[i] by {
            assert(inside(found[k], lo, hi));
            if k < p {
                assert(found[k].hi() <= found[p].offset);
            } else if k > p {
                assert(found[p].hi() <= found[k].offset);
            }
        }
        lemma_atoms_same(c, d, lo, hi);
    }
}

/// Where edits of four bytes stand apart, each is found again afterwards and
/// nothing else has changed.
proof fn lemma_free_edits(c: Seq<u8>, found: Seq<Atom>)
    requires
        forall|i: int, j: int|
            0 <= i < j < found.len() ==> (#[trigger] found[i]).hi() <= (#[trigger] found[j]).offset,
        forall|i: int|
            0 <= i < found.len() ==> (#[trigger] found[i]).size >= 8 && found[i].hi() <= c.len(),
    ensures
        edited(c, free_edits(found)).len() == c.len(),
        forall|k: int, i: int|
            0 <= k < found.len() && 0 <= i < 4 ==> #[trigger] edited(
                c,
                free_edits(found),
            )[(#[trigger] found[k]).offset + 4 + i] == free_bytes()[i],
        forall|i: int|
            0 <= i < c.len() && (forall|k: int|
                0 <= k < found.len() ==> !((#[trigger] found[k]).offset + 4 <= i
                    < found[k].offset + 8)) ==> #[trigger] edited(c, free_edits(found))[i] == c[i],
    decreases found.len(),
{
    let e = free_edits(found);
    lemma_edited_len(c, e);
    if found.len() > 0 {
        let head = found.drop_last();
        let last = found.last();
        assert(e.drop_last() =~= free_edits(head));
        assert forall|i: int, j: int| 0 <= i < j < head.len() implies (
        #[trigger] head[i]).hi() <= (#[trigger] head[j]).offset by {
            assert(found[i].hi() <= found[j].offset);
        }
        assert forall|i: int| 0 <= i < head.len() implies (#[trigger] head[i]).size >= 8
            && head[i].hi() <= c.len() by {
            assert(found[i].size >= 8);
        }
        lemma_free_edits(c, head);
        lemma_edited_len(c, free_edits(head));
        let before = edited(c, free_edits(head));
        let now = edited(c, e);
        assert(now == overwritten(before, last.offset + 4, free_bytes()));
        let n = found.len() - 1;
        assert(found[n].size >= 8 && found[n].hi() <= c.len());
        assert forall|k: int, i: int| 0 <= k < found.len() && 0 <= i < 4 implies #[trigger] now[(
        #[trigger] found[k]).offset + 4 + i] == free_bytes()[i] by {
            assert(found[k].size >= 8 && found[k].hi() <= c.len());
            if k < n {
                assert(found[k].hi() <= found[n].offset);
                assert(head[k] == found[k]);
                assert(before[head[k].offset + 4 + i] == free_bytes()[i]);
            }
        }
        assert forall|i: int|
            0 <= i < c.len() && (forall|k: int|
                0 <= k < found.len() ==> !((#[trigger] found[k]).offset + 4 <= i
                    < found[k].offset + 8)) implies #[trigger] now[i] == c[i] by {
            assert(!(found[n].offset + 4 <= i < found[n].offset + 8));
            assert forall|k: int| 0 <= k < head.len() implies !((#[trigger] head[k]).offset + 4 <= i
                < head[k].offset + 8) by {
                assert(head[k] == found[k]);
            }
            assert(before[i] == c[i]);
        }
    }
}

/// A filter keeps what passes it, in order.
proof fn lemma_filter_order(s: Seq<Atom>, kind: u32)
    ensures
        ({
            let f = s.filter(|a: Atom| a.kind == kind);
            &&& f.len() <= s.len()
            &&& forall|i: int| 0 <= i < f.len() ==> (#[trigger] f[i]).kind == kind && s.contains(f[i])
            &&& forall|i: int| 0 <= i < s.len() && (#[trigger] s[i]).kind == kind ==> f.contains(s[i])
        }),
    decreases s.len(),
{
    reveal(Seq::filter);
    let keep = |a: Atom| a.kind == kind;
    let f = s.filter(keep);
    if s.len() > 0 {
        let head = s.drop_last();
        lemma_filter_order(head, kind);
        let g = head.filter(keep);
        assert forall|i: int| 0 <= i < f.len() implies (#[trigger] f[i]).kind == kind && s.contains(
            f[i],
        ) by {
            if i < g.len() {
                assert(g[i].kind == kind && head.contains(g[i]));
                let k = choose|k: int| 0 <= k < head.len() && head[k] == g[i];
                assert(s[k] == f[i]);
            } else {
                assert(s[s.len() - 1] == f[i]);
            }
        }
        assert forall|i: int| 0 <= i < s.len() && (#[trigger] s[i]).kind == kind implies f.contains(
            s[i],
        ) by {
            if i < head.len() {
                assert(head[i].kind == kind);
                assert(g.contains(head[i]));
                let k = choose|k: int| 0 <= k < g.len() && g[k] == head[i];
                assert(f[k] == s[i]);
            } else {
                assert(f[f.len() - 1] == s[i]);
            }
        }
    }
}

proof fn lemma_filter_apart(s: Seq<Atom>, kind: u32)
    requires
        forall|i: int, j: int|
            0 <= i < j < s.len() ==> (#[trigger] s[i]).hi() <= (#[trigger] s[j]).offset,
    ensures
        ({
            let f = s.filter(|a: Atom| a.kind == kind);
            forall|i: int, j: int|
                0 <= i < j < f.len() ==> (#[trigger] f[i]).hi() <= (#[trigger] f[j]).offset
        }),
    decreases s.len(),
{
    reveal(Seq::filter);
    let keep = |a: Atom| a.kind == kind;
    let f = s.filter(keep);
    if s.len() > 0 {
        let head = s.drop_last();
        assert forall|i: int, j: int| 0 <= i < j < head.len() implies (
        #[trigger] head[i]).hi() <= (#[trigger] head[j]).offset by {
            assert(s[i].hi() <= s[j].offset);
        }
        lemma_filter_apart(head, kind);
        lemma_filter_order(head, kind);
        let g = head.filter(keep);
        assert forall|i: int, j: int| 0 <= i < j < f.len() implies (#[trigger] f[i]).hi() <= (
        #[trigger] f[j]).offset by {
            assert(f[i] == g[i]);
            if j < g.len() {
                assert(f[j] == g[j]);
            } else {
                assert(f[j] == s[s.len() - 1]);
                assert(head.contains(g[i]));
                let k = choose|k: int| 0 <= k < head.len() && head[k] == g[i];
                assert(s[k].hi() <= s[s.len() - 1].offset);
            }
        }
    }
}

/// The type that an atom has once the titles are neutralized.
pub open spec fn kind_after(a: Atom) -> u32 {
    if a.kind == TITLE_KIND {
        FREE
    } else {
        a.kind
    }
}

/// Neutralizing the titles of a walk keeps the headers of its atoms, but for
/// the types of the titles.
proof fn lemma_headers_after(c: Seq<u8>, lo: int, hi: int, k: int)
    requires
        file_sized(c),
        0 <= lo,
        hi <= c.len(),
        atoms(c, lo, hi) is Ok,
        0 <= k < atoms(c, lo, hi)->Ok_0.len(),
    ensures
        ({
            let all = atoms(c, lo, hi)->Ok_0;
            let titles = all.filter(|a: Atom| a.kind == TITLE_KIND);
            header_kept(c, edited(c, free_edits(titles)), all[k], kind_after(all[k]))
        }),
{
    let all = atoms(c, lo, hi)->Ok_0;
    let titles = all.filter(|a: Atom| a.kind == TITLE_KIND);
    let d = edited(c, free_edits(titles));
    lemma_titles_of_walk(c, lo, hi);
    lemma_free_edits(c, titles);
    lemma_atoms_inside(c, lo, hi);
    lemma_atoms_apart(c, lo, hi);
    lemma_filter_order(all, TITLE_KIND);
    let a = all[k];
    assert(inside(a, lo, hi));
    lemma_walk_atom(c, lo, hi, k);
    assert forall|i: int|
        a.offset <= i < a.hi() && !(a.kind == TITLE_KIND && a.offset + 4 <= i < a.offset
            + 8) implies c[i] == #[trigger] d[i] by {
        assert forall|j: int| 0 <= j < titles.len() implies !((#[trigger] titles[j]).offset + 4
            <= i < titles[j].offset + 8) by {
            assert(titles[j].size >= 8);
            assert(all.contains(titles[j]));
            let m = choose|m: int| 0 <= m < all.len() && all[m] == titles[j];
            if m < k {
                assert(all[m].hi() <= all[k].offset);
            } else if k < m {
                assert(all[k].hi() <= all[m].offset);
            }
        }
    }
    if a.kind == TITLE_KIND {
        assert(titles.contains(all[k]));
        let j = choose|j: int| 0 <= j < titles.len() && titles[j] == a;
        assert forall|i: int| 0 <= i < 4 implies d[a.offset + 4 + i] == free_bytes()[i] by {
            assert(d[titles[j].offset + 4 + i] == free_bytes()[i]);
        }
        assert(d.subrange(a.offset + 4, a.offset + 8) =~= free_bytes());
        lemma_free_number();
    } else {
        lemma_number_same(c, d, a.offset + 4, 4);
    }
}

/// Where the titles of a walk stand.
proof fn lemma_titles_of_walk(c: Seq<u8>, lo: int, hi: int)
    requires
        file_sized(c),
        0 <= lo,
        hi <= c.len(),
        atoms(c, lo, hi) is Ok,
    ensures
        ({
            let titles = atoms(c, lo, hi)->Ok_0.filter(|a: Atom| a.kind == TITLE_KIND);
            &&& forall|i: int|
                0 <= i < titles.len() ==> (#[trigger] titles[i]).size >= 8 && titles[i].hi()
                    <= c.len() && lo <= titles[i].offset && titles[i].hi() <= hi
            &&& forall|i: int, j: int|
                0 <= i < j < titles.len() ==> (#[trigger] titles[i]).hi() <= (
                #[trigger] titles[j]).offset
        }),
{
    let all = atoms(c, lo, hi)->Ok_0;
    let titles = all.filter(|a: Atom| a.kind == TITLE_KIND);
    lemma_atoms_inside(c, lo, hi);
    lemma_atoms_apart(c, lo, hi);
    lemma_filter_order(all, TITLE_KIND);
    lemma_filter_apart(all, TITLE_KIND);
    assert forall|i: int| 0 <= i < titles.len() implies (#[trigger] titles[i]).size >= 8
        && titles[i].hi() <= c.len() && lo <= titles[i].offset && titles[i].hi() <= hi by {
        assert(all.contains(titles[i]));
        let k = choose|k: int| 0 <= k < all.len() && all[k] == titles[i];
        assert(inside(all[k], lo, hi));
    }
}

/// No atom of the walk is a title afterwards.
proof fn lemma_no_title_after(c: Seq<u8>, lo: int, hi: int)
    requires
        file_sized(c),
        0 <= lo,
        hi <= c.len(),
        atoms(c, lo, hi) is Ok,
    ensures
        ({
            let titles = atoms(c, lo, hi)->Ok_0.filter(|a: Atom| a.kind == TITLE_KIND);
            let d = edited(c, free_edits(titles));
            &&& atoms(d, lo, hi) is Ok
            &&& atoms(d, lo, hi)->Ok_0.filter(|a: Atom| a.kind == TITLE_KIND).len() == 0
        }),
{
    let all = atoms(c, lo, hi)->Ok_0;
    let titles = all.filter(|a: Atom| a.kind == TITLE_KIND);
    let d = edited(c, free_edits(titles));
    let kinds = Seq::new(all.len(), |i: int| kind_after(all[i]));
    assert forall|k: int| 0 <= k < kinds.len() implies header_kept(
        c,
        d,
        #[trigger] all[k],
        kinds[k],
    ) by {
        lemma_headers_after(c, lo, hi, k);
    }
    lemma_edited_len(c, free_edits(titles));
    lemma_atoms_retyped(c, d, lo, hi, kinds);
    let renamed = retyped_all(all, kinds);
    lemma_filter_order(renamed, TITLE_KIND);
    let left = renamed.filter(|a: Atom| a.kind == TITLE_KIND);
    if left.len() > 0 {
        assert(left[0].kind == TITLE_KIND && renamed.contains(left[0]));
        let k = choose|k: int| 0 <= k < renamed.len() && renamed[k] == left[0];
        assert(renamed[k].kind == kinds[k]);
    }
}

/// An MP4 file has no title once it has been stripped without an error:
/// inspection then reports that there is none.
pub proof fn stripped_mp4_has_no_title(c: Seq<u8>)
    requires
        file_sized(c),
        !is_matroska(c),
        mp4_titles(c) matches Ok(Some(_)),
        stripping(c).1 is Ok,
    ensures
        titles_of(edited(c, stripping(c).0)) == Ok::<_, ContainerError>(
            Some(Seq::<Seq<char>>::empty()),
        ),
{
    let span = descended(c, title_path(), 0, c.len() as int)->Ok_0->Some_0;
    let all = atoms(c, span.0, span.1)->Ok_0;
    let titles = all.filter(|a: Atom| a.kind == TITLE_KIND);
    lemma_descended_same(c, c, title_path(), 0, c.len() as int);
    lemma_readable_all(c, titles);
    assert(titles.take(titles.len() as int) =~= titles);
    assert(stripping(c).0 == free_edits(titles));
    let d = edited(c, free_edits(titles));
    lemma_titles_of_walk(c, span.0, span.1);
    lemma_free_edits(c, titles);
    assert forall|i: int| 0 <= i < c.len() && !(span.0 <= i < span.1) implies c[i]
        == #[trigger] d[i] by {
        assert forall|k: int| 0 <= k < titles.len() implies !((#[trigger] titles[k]).offset + 4 <= i
            < titles[k].offset + 8) by {
            assert(titles[k].size >= 8);
        }
    }
    lemma_descended_same(c, d, title_path(), 0, c.len() as int);
    lemma_number_same(c, d, 0, if c.len() < 4 { 0 } else { 4 });
    lemma_no_title_after(c, span.0, span.1);
}

proof fn lemma_free_number()
    ensures
        big_endian(free_bytes()) == FREE,
{
    let b = free_bytes();
    reveal_with_fuel(big_endian, 5);
    assert(b.drop_last() =~= seq![0x66u8, 0x72u8, 0x65u8]);
    assert(b.drop_last().drop_last() =~= seq![0x66u8, 0x72u8]);
    assert(b.drop_last().drop_last().drop_last() =~= seq![0x66u8]);
    assert(b.drop_last().drop_last().drop_last().drop_last() =~= Seq::<u8>::empty());
}

proof fn lemma_readable_all(c: Seq<u8>, found: Seq<Atom>)
    requires
        mp4_texts(c, found) is Ok,
    ensures
        readable(c, found) == found.len(),
{
    let flags = found.map_values(|a: Atom| title_text_of(c, a) is Ok);
    assert forall|i: int| 0 <= i < found.len() implies flags[i] by {
        lemma_text_read(c, found, i);
    }
    lemma_leading(flags, found.len() as int);
}

proof fn lemma_text_read(c: Seq<u8>, found: Seq<Atom>, i: int)
    requires
        mp4_texts(c, found) is Ok,
        0 <= i < found.len(),
    ensures
        title_text_of(c, found[i]) is Ok,
    decreases found.len(),
{
    if i < found.len() - 1 {
        assert(found.drop_last()[i] == found[i]);
        lemma_text_read(c, found.drop_last(), i);
    }
}

/// The titles among the elements in `[at, end)` end inside it. Of one that is
/// passed over, since it claims to reach past the end of the file, only the
/// header has to.
pub open spec fn titles_inside(c: Seq<u8>, at: int, end: int) -> bool
    decreases distance(at, end),
{
    if at + 2 <= end {
        match element_at(c, at) {
            Ok(g) => {
                &&& is_title(c, g) ==> g.end_at() <= end
                &&& g.id == TITLE ==> g.data_at() <= end
                &&& g.end_at() > at ==> titles_inside(c, g.end_at(), end)
            },
            Err(e) => true,
        }
    } else {
        true
    }
}

/// The titles of each Info that a walk of the Segment goes on behind end
/// inside the Info: no element that the walk reads starts inside a title.
pub open spec fn titles_nested(c: Seq<u8>, at: int, end: int) -> bool
    decreases distance(at, end),
{
    if at + 2 <= end {
        match element_at(c, at) {
            Ok(child) => if child.data_len == u64::MAX || child.id == CLUSTER || child.end_at()
                <= at {
                true
            } else {
                &&& child.id == INFO && child.end_at() + 2 <= end ==> titles_inside(
                    c,
                    child.data_at(),
                    child.end_at(),
                )
                &&& titles_nested(c, child.end_at(), end)
            },
            Err(e) => true,
        }
    } else {
        true
    }
}

/// An element whose header bytes are unchanged is the same element.
proof fn lemma_element_same(c: Seq<u8>, d: Seq<u8>, at: int)
    requires
        file_sized(c),
        d.len() == c.len(),
        0 <= at,
        element_at(c, at) is Ok,
        forall|i: int| at <= i < element_at(c, at)->Ok_0.data_at() ==> c[i] == #[trigger] d[i],
    ensures
        element_at(d, at) == element_at(c, at),
{
    lemma_element_bounds(c, at);
    let g = element_at(c, at)->Ok_0;
    assert(d[at] == c[at]);
    assert(d[at + g.id_len] == c[at + g.id_len]);
    lemma_number_same(c, d, at, g.id_len as int);
    lemma_number_same(c, d, at + g.id_len, g.size_len as int);
}

/// Titles one after another in `[lo, hi)`.
pub open spec fn in_order(c: Seq<u8>, found: Seq<EbmlElement>, lo: int, hi: int) -> bool {
    &&& forall|i: int|
        0 <= i < found.len() ==> sound_title(c, #[trigger] found[i]) && lo <= found[i].offset
            && found[i].end_at() <= hi
    &&& forall|i: int, j: int|
        0 <= i < j < found.len() ==> (#[trigger] found[i]).end_at() <= (#[trigger] found[j]).offset
}

proof fn lemma_in_order_concat(
    c: Seq<u8>,
    a: Seq<EbmlElement>,
    b: Seq<EbmlElement>,
    lo: int,
    mid: int,
    hi: int,
)
    requires
        in_order(c, a, lo, mid),
        in_order(c, b, mid, hi),
        lo <= mid <= hi,
    ensures
        in_order(c, a + b, lo, hi),
{
    let s = a + b;
    assert forall|i: int| 0 <= i < s.len() implies sound_title(c, #[trigger] s[i]) && lo
        <= s[i].offset && s[i].end_at() <= hi by {
        if i < a.len() {
            assert(sound_title(c, a[i]));
        } else {
            assert(sound_title(c, b[i - a.len()]));
        }
    }
    assert forall|i: int, j: int| 0 <= i < j < s.len() implies (#[trigger] s[i]).end_at() <= (
    #[trigger] s[j]).offset by {
        if j < a.len() {
            assert(a[i].end_at() <= a[j].offset);
        } else if i >= a.len() {
            assert(b[i - a.len()].end_at() <= b[j - a.len()].offset);
        } else {
            assert(sound_title(c, a[i]));
            assert(sound_title(c, b[j - a.len()]));
        }
    }
}

proof fn lemma_info_in_order(c: Seq<u8>, at: int, end: int)
    requires
        file_sized(c),
        0 <= at <= u64::MAX,
        info_titles(c, at, end) is Ok,
    ensures
        in_order(c, info_titles(c, at, end)->Ok_0, at, u64::MAX as int),
        titles_inside(c, at, end) && at <= end <= u64::MAX ==> in_order(
            c,
            info_titles(c, at, end)->Ok_0,
            at,
            end,
        ),
    decreases distance(at, end),
{
    if at + 2 <= end {
        lemma_element_bounds(c, at);
        let g = element_at(c, at)->Ok_0;
        lemma_info_in_order(c, g.end_at(), end);
        let rest = info_titles(c, g.end_at(), end)->Ok_0;
        let head: Seq<EbmlElement> = if is_title(c, g) {
            seq![g]
        } else {
            seq![]
        };
        lemma_in_order_concat(c, head, rest, at, g.end_at(), u64::MAX as int);
        if titles_inside(c, at, end) && end <= u64::MAX {
            if g.end_at() <= end {
                lemma_in_order_concat(c, head, rest, at, g.end_at(), end);
            } else {
                assert(head + rest =~= seq![]);
            }
        }
    }
}

/// At or before `i`, and not before `from`, stands a byte that starts a Void.
pub open spec fn struck(d: Seq<u8>, from: int, i: int) -> bool {
    exists|b: int| from <= b <= i && #[trigger] d[b] == 0xEC
}

/// `d` is `c` with each of the titles a Void, and from `lo` on nothing else
/// changed but behind the start of a Void that stands at `from` or later.
pub open spec fn voided_up_to(
    c: Seq<u8>,
    d: Seq<u8>,
    found: Seq<EbmlElement>,
    lo: int,
    from: int,
) -> bool {
    &&& forall|k: int|
        0 <= k < found.len() ==> can_void(#[trigger] found[k]) && d.subrange(
            found[k].offset as int,
            found[k].end_at(),
        ) == void_bytes(found[k])
    &&& forall|i: int|
        lo <= i < c.len() && (forall|k: int|
            0 <= k < found.len() ==> !((#[trigger] found[k]).offset <= i < found[k].end_at()))
            ==> c[i] == #[trigger] d[i] || struck(d, from, i)
}

/// A Void that starts in the size field of an element, behind the field's
/// first byte, leaves it an element with the same ID and the same header.
proof fn lemma_struck_header(c: Seq<u8>, d: Seq<u8>, at: int, b: int)
    requires
        file_sized(c),
        d.len() == c.len(),
        0 <= at,
        element_at(c, at) is Ok,
        at + 4 < b < element_at(c, at)->Ok_0.data_at(),
        forall|i: int| at <= i <= at + 4 && i < c.len() ==> c[i] == #[trigger] d[i],
        d[b] == 0xEC,
    ensures
        element_at(d, at) is Ok,
        element_at(d, at)->Ok_0.id == element_at(c, at)->Ok_0.id,
        element_at(d, at)->Ok_0.data_at() == element_at(c, at)->Ok_0.data_at(),
        element_at(d, at)->Ok_0.data_len != u64::MAX,
{
    lemma_element_bounds(c, at);
    let g = element_at(c, at)->Ok_0;
    let s = at + g.id_len;
    let n = g.size_len as int;
    assert(d[at] == c[at]);
    assert(d[s] == c[s]);
    lemma_number_same(c, d, at, g.id_len as int);
    lemma_element_bounds(d, at);
    lemma_vint_bounds(d, s, n);
    lemma_not_ones(d, s, n, b);
}

/// A size with a byte that lacks a bit is a known one.
proof fn lemma_not_ones(d: Seq<u8>, at: int, n: int, b: int)
    requires
        0 <= at,
        1 <= n <= 8,
        at + n <= d.len(),
        at < b < at + n,
        d[b] < 0xFF,
        vint_len(d[at]) == n,
    ensures
        vint_value(d, at, n) < vint_ones(n),
{
    lemma_first_byte(d, at, n);
    lemma_below_ones(d, at + 1, n - 1, b);
    lemma_pow256();
    let p = pow256(n - 1);
    let m = vint_marker(n);
    let f = d[at] as int;
    assert(f < 2 * m);
    assert(f * p <= 2 * m * p - p) by (nonlinear_arith)
        requires
            f < 2 * m,
            0 <= p,
    ;
    assert(2 * m * p == m * p + m * p) by (nonlinear_arith);
}

/// A number with a byte that lacks a bit is not the largest of its length.
proof fn lemma_below_ones(d: Seq<u8>, at: int, n: int, b: int)
    requires
        0 <= at,
        1 <= n,
        at + n <= d.len(),
        at <= b < at + n,
        d[b] < 0xFF,
    ensures
        number_at(d, at, n) < pow256(n) - 1,
    decreases n,
{
    lemma_first_byte(d, at, n);
    let p = pow256(n - 1);
    let f = d[at] as int;
    assert(pow256(n) == 256 * p);
    if b == at {
        assert(f * p <= 254 * p) by (nonlinear_arith)
            requires
                f <= 254,
                0 <= p,
        ;
    } else {
        lemma_below_ones(d, at + 1, n - 1, b);
        assert(f * p <= 255 * p) by (nonlinear_arith)
            requires
                f <= 255,
                0 <= p,
        ;
    }
}

/// The ID of an Info is four bytes long.
proof fn lemma_info_header(c: Seq<u8>, at: int)
    requires
        file_sized(c),
        0 <= at,
        element_at(c, at) matches Ok(g) && g.id == INFO,
    ensures
        element_at(c, at)->Ok_0.data_at() >= at + 5,
{
    lemma_element_bounds(c, at);
    let n = element_at(c, at)->Ok_0.id_len as int;
    lemma_big_endian_bound(c.subrange(at, at + n));
    lemma_pow256();
}

/// A walk over an Info whose titles have become Voids finds no title. What
/// stands behind the Info may have been struck through too, where the titles
/// end inside it.
proof fn lemma_info_after(c: Seq<u8>, d: Seq<u8>, at: int, end: int, from: int)
    requires
        file_sized(c),
        d.len() == c.len(),
        0 <= at <= u64::MAX,
        info_titles(c, at, end) is Ok,
        from >= c.len() || (from >= end + 5 && titles_inside(c, at, end)),
        voided_up_to(c, d, info_titles(c, at, end)->Ok_0, at, from),
    ensures
        info_titles(d, at, end) == Ok::<_, ContainerError>(Seq::<EbmlElement>::empty()),
    decreases distance(at, end),
{
    if at + 2 <= end {
        lemma_element_bounds(c, at);
        let g = element_at(c, at)->Ok_0;
        let rest = info_titles(c, g.end_at(), end)->Ok_0;
        let found = info_titles(c, at, end)->Ok_0;
        lemma_info_in_order(c, g.end_at(), end);
        if is_title(c, g) {
            assert(found[0] == g);
            void_keeps_the_span(c, d, g);
        } else {
            assert(found =~= rest);
            assert forall|i: int| at <= i < g.data_at() implies c[i] == #[trigger] d[i] || struck(
                d,
                from,
                i,
            ) by {
                assert forall|k: int| 0 <= k < found.len() implies !((#[trigger] found[k]).offset
                    <= i < found[k].end_at()) by {
                    assert(sound_title(c, rest[k]));
                }
            }
            if exists|i: int| at <= i < g.data_at() && c[i] != #[trigger] d[i] {
                let i = choose|i: int| at <= i < g.data_at() && c[i] != #[trigger] d[i];
                assert(struck(d, from, i));
                let b = choose|b: int| from <= b <= i && #[trigger] d[b] == 0xEC;
                assert forall|j: int| at <= j <= at + 4 && j < c.len() implies c[j]
                    == #[trigger] d[j] by {
                    assert(!struck(d, from, j));
                }
                lemma_struck_header(c, d, at, b);
            } else {
                lemma_element_same(c, d, at);
            }
        }
        let now = element_at(d, at)->Ok_0;
        assert(!is_title(d, now));
        if now.end_at() == g.end_at() {
            assert(voided_up_to(c, d, rest, g.end_at(), from)) by {
                let skip: int = if is_title(c, g) {
                    1
                } else {
                    0
                };
                assert forall|k: int| 0 <= k < rest.len() implies can_void(#[trigger] rest[k])
                    && d.subrange(rest[k].offset as int, rest[k].end_at()) == void_bytes(
                    rest[k],
                ) by {
                    assert(found[k + skip] == rest[k]);
                }
                assert forall|i: int|
                    g.end_at() <= i < c.len() && (forall|k: int|
                        0 <= k < rest.len() ==> !((#[trigger] rest[k]).offset <= i
                            < rest[k].end_at())) implies c[i] == #[trigger] d[i] || struck(
                    d,
                    from,
                    i,
                ) by {
                    assert forall|k: int| 0 <= k < found.len() implies !((
                    #[trigger] found[k]).offset <= i < found[k].end_at()) by {
                        if k >= skip {
                            assert(found[k] == rest[k - skip]);
                        }
                    }
                }
            }
            lemma_info_after(c, d, g.end_at(), end, from);
            lemma_after_empty(info_titles(d, g.end_at(), end));
        } else {
            assert(now.end_at() + 2 > end);
            lemma_after_empty(info_titles(d, now.end_at(), end));
        }
    }
}

/// `d` is `c` with each of the titles a Void and nothing else in `[lo, hi)`
/// changed.
pub open spec fn voided(
    c: Seq<u8>,
    d: Seq<u8>,
    found: Seq<EbmlElement>,
    lo: int,
    hi: int,
) -> bool {
    &&& forall|k: int|
        0 <= k < found.len() ==> can_void(#[trigger] found[k]) && d.subrange(
            found[k].offset as int,
            found[k].end_at(),
        ) == void_bytes(found[k])
    &&& forall|i: int|
        lo <= i < hi && i < c.len() && (forall|k: int|
            0 <= k < found.len() ==> !((#[trigger] found[k]).offset <= i < found[k].end_at()))
            ==> c[i] == #[trigger] d[i]
}

proof fn lemma_segment_in_order(c: Seq<u8>, at: int, end: int)
    requires
        file_sized(c),
        0 <= at,
        end <= c.len(),
        segment_titles(c, at, end) is Ok,
        titles_nested(c, at, end),
    ensures
        in_order(c, segment_titles(c, at, end)->Ok_0, at, u64::MAX as int),
        forall|i: int|
            0 <= i < segment_titles(c, at, end)->Ok_0.len() ==> {
                &&& at + 5 <= (#[trigger] segment_titles(c, at, end)->Ok_0[i]).offset
                &&& element_at(c, at)->Ok_0.data_at() <= segment_titles(c, at, end)->Ok_0[i].offset
            },
    decreases distance(at, end),
{
    if at + 2 <= end {
        lemma_element_bounds(c, at);
        let child = element_at(c, at)->Ok_0;
        let found = segment_titles(c, at, end)->Ok_0;
        if child.id != CLUSTER && child.end_at() > at {
            lemma_segment_in_order(c, child.end_at(), end);
            let rest = segment_titles(c, child.end_at(), end)->Ok_0;
            let head: Seq<EbmlElement> = if child.id == INFO {
                info_titles(c, child.data_at(), child.end_at())->Ok_0
            } else {
                seq![]
            };
            assert(found =~= head + rest);
            if child.id == INFO {
                lemma_info_header(c, at);
                lemma_info_in_order(c, child.data_at(), child.end_at());
            }
            if child.id == INFO && child.end_at() + 2 > end {
                assert(found =~= head);
            } else {
                lemma_in_order_concat(
                    c,
                    head,
                    rest,
                    child.data_at(),
                    child.end_at(),
                    u64::MAX as int,
                );
            }
            assert forall|i: int| 0 <= i < found.len() implies at + 5 <= (
            #[trigger] found[i]).offset && child.data_at() <= found[i].offset by {
                if i < head.len() {
                    assert(sound_title(c, head[i]));
                } else {
                    assert(sound_title(c, rest[i - head.len()]));
                }
            }
            assert(in_order(c, found, at, u64::MAX as int)) by {
                assert forall|i: int| 0 <= i < found.len() implies sound_title(
                    c,
                    #[trigger] found[i],
                ) && at <= found[i].offset && found[i].end_at() <= u64::MAX by {
                    assert(at + 5 <= found[i].offset);
                }
            }
        }
    }
}

/// A walk over the Segment of a file whose titles have become Voids finds no
/// title.
proof fn lemma_segment_after(c: Seq<u8>, d: Seq<u8>, at: int, end: int)
    requires
        file_sized(c),
        d.len() == c.len(),
        0 <= at,
        end <= c.len(),
        segment_titles(c, at, end) is Ok,
        titles_nested(c, at, end),
        voided(c, d, segment_titles(c, at, end)->Ok_0, at, c.len() as int),
    ensures
        segment_titles(d, at, end) == Ok::<_, ContainerError>(Seq::<EbmlElement>::empty()),
    decreases distance(at, end),
{
    if at + 2 <= end {
        lemma_element_bounds(c, at);
        lemma_segment_in_order(c, at, end);
        let child = element_at(c, at)->Ok_0;
        let found = segment_titles(c, at, end)->Ok_0;
        assert forall|i: int| at <= i < child.data_at() implies c[i] == #[trigger] d[i] by {
            assert forall|k: int| 0 <= k < found.len() implies !((#[trigger] found[k]).offset <= i
                < found[k].end_at()) by {
                assert(child.data_at() <= found[k].offset);
            }
        }
        lemma_element_same(c, d, at);
        if child.id != CLUSTER && child.end_at() > at {
            lemma_segment_in_order(c, child.end_at(), end);
            let rest = segment_titles(c, child.end_at(), end)->Ok_0;
            let head: Seq<EbmlElement> = if child.id == INFO {
                info_titles(c, child.data_at(), child.end_at())->Ok_0
            } else {
                seq![]
            };
            assert(found =~= head + rest);
            let n = head.len() as int;
            if child.id == INFO {
                lemma_info_in_order(c, child.data_at(), child.end_at());
                let from = if child.end_at() + 2 <= end {
                    child.end_at() + 5
                } else {
                    c.len() as int
                };
                assert(voided_up_to(c, d, head, child.data_at(), from)) by {
                    assert forall|k: int| 0 <= k < head.len() implies can_void(#[trigger] head[k])
                        && d.subrange(head[k].offset as int, head[k].end_at()) == void_bytes(
                        head[k],
                    ) by {
                        assert(found[k] == head[k]);
                    }
                    assert forall|i: int|
                        child.data_at() <= i < c.len() && (forall|k: int|
                            0 <= k < head.len() ==> !((#[trigger] head[k]).offset <= i
                                < head[k].end_at())) implies c[i] == #[trigger] d[i] || struck(
                        d,
                        from,
                        i,
                    ) by {
                        if exists|k: int|
                            0 <= k < rest.len() && (#[trigger] rest[k]).offset <= i
                                < rest[k].end_at() {
                            let k = choose|k: int|
                                0 <= k < rest.len() && (#[trigger] rest[k]).offset <= i
                                    < rest[k].end_at();
                            assert(found[k + n] == rest[k]);
                            let t = rest[k];
                            assert(sound_title(c, t));
                            let span = d.subrange(t.offset as int, t.end_at());
                            assert(span == void_bytes(t));
                            assert(span[0] == d[t.offset as int]);
                            assert(d[t.offset as int] == 0xEC);
                        } else {
                            assert forall|k: int| 0 <= k < found.len() implies !((
                            #[trigger] found[k]).offset <= i < found[k].end_at()) by {
                                if k < n {
                                    assert(found[k] == head[k]);
                                } else {
                                    assert(found[k] == rest[k - n]);
                                }
                            }
                        }
                    }
                }
                lemma_info_after(c, d, child.data_at(), child.end_at(), from);
            }
            if child.end_at() + 2 <= end {
                assert(voided(c, d, rest, child.end_at(), c.len() as int)) by {
                    assert forall|k: int| 0 <= k < rest.len() implies can_void(#[trigger] rest[k])
                        && d.subrange(rest[k].offset as int, rest[k].end_at()) == void_bytes(
                        rest[k],
                    ) by {
                        assert(found[k + n] == rest[k]);
                    }
                    assert forall|i: int|
                        child.end_at() <= i < c.len() && (forall|k: int|
                            0 <= k < rest.len() ==> !((#[trigger] rest[k]).offset <= i
                                < rest[k].end_at())) implies c[i] == #[trigger] d[i] by {
                        assert forall|k: int| 0 <= k < found.len() implies !((
                        #[trigger] found[k]).offset <= i < found[k].end_at()) by {
                            if k < n {
                                assert(found[k] == head[k]);
                                assert(sound_title(c, head[k]));
                            } else {
                                assert(found[k] == rest[k - n]);
                            }
                        }
                    }
                }
                lemma_segment_after(c, d, child.end_at(), end);
            }
            lemma_after_empty(segment_titles(d, child.end_at(), end));
        }
    }
}

/// Writing Voids over titles that stand apart gives each of them and changes
/// nothing else.
proof fn lemma_void_edits(c: Seq<u8>, found: Seq<EbmlElement>, lo: int)
    requires
        file_sized(c),
        in_order(c, found, lo, u64::MAX as int),
        forall|k: int| 0 <= k < found.len() ==> can_void(#[trigger] found[k]),
    ensures
        voided(c, edited(c, void_edits(found)), found, 0, c.len() as int),
    decreases found.len(),
{
    let e = void_edits(found);
    lemma_edited_len(c, e);
    if found.len() > 0 {
        let head = found.drop_last();
        let last = found.last();
        let n = head.len() as int;
        assert(e.drop_last() =~= void_edits(head));
        assert(in_order(c, head, lo, u64::MAX as int)) by {
            assert forall|i: int| 0 <= i < head.len() implies sound_title(c, #[trigger] head[i])
                && lo <= head[i].offset && head[i].end_at() <= u64::MAX by {
                assert(sound_title(c, found[i]));
            }
            assert forall|i: int, j: int| 0 <= i < j < head.len() implies (
            #[trigger] head[i]).end_at() <= (#[trigger] head[j]).offset by {
                assert(found[i].end_at() <= found[j].offset);
            }
        }
        assert forall|k: int| 0 <= k < head.len() implies can_void(#[trigger] head[k]) by {
            assert(can_void(found[k]));
        }
        lemma_void_edits(c, head, lo);
        lemma_edited_len(c, void_edits(head));
        let before = edited(c, void_edits(head));
        let now = edited(c, e);
        assert(now == overwritten(before, last.offset as int, void_bytes(last)));
        assert(sound_title(c, found[n]) && can_void(found[n]));
        lemma_void_len(c, last);
        assert forall|k: int| 0 <= k < found.len() implies can_void(#[trigger] found[k])
            && now.subrange(found[k].offset as int, found[k].end_at()) == void_bytes(found[k]) by {
            assert(sound_title(c, found[k]));
            if k < n {
                assert(found[k].end_at() <= found[n].offset);
                assert(head[k] == found[k]);
                assert(now.subrange(found[k].offset as int, found[k].end_at())
                    =~= before.subrange(head[k].offset as int, head[k].end_at()));
            } else {
                assert(now.subrange(last.offset as int, last.end_at()) =~= void_bytes(last));
            }
        }
        assert forall|i: int|
            0 <= i < c.len() && (forall|k: int|
                0 <= k < found.len() ==> !((#[trigger] found[k]).offset <= i
                    < found[k].end_at())) implies c[i] == #[trigger] now[i] by {
            assert(!(found[n].offset <= i < found[n].end_at()));
            assert forall|k: int| 0 <= k < head.len() implies !((#[trigger] head[k]).offset <= i
                < head[k].end_at()) by {
                assert(head[k] == found[k]);
            }
            assert(before[i] == c[i]);
        }
    }
}

proof fn lemma_void_len(c: Seq<u8>, t: EbmlElement)
    requires
        file_sized(c),
        sound_title(c, t),
        can_void(t),
    ensures
        void_bytes(t).len() == t.end_at() - t.offset,
{
    let n = void_size_len(t);
    lemma_element_bounds(c, t.offset as int);
    lemma_title_fits(c, t);
    lemma_pow256();
    lemma_marker_bound(n, n - 1);
    lemma_be_bytes(vint_marker(n) * pow256(n - 1) + void_data_len(t), n);
}

/// What a walk over an Info finds are titles of the file.
proof fn lemma_info_sound(c: Seq<u8>, at: int, end: int)
    requires
        file_sized(c),
        0 <= at,
        info_titles(c, at, end) is Ok,
    ensures
        forall|i: int|
            0 <= i < info_titles(c, at, end)->Ok_0.len() ==> sound_title(
                c,
                #[trigger] info_titles(c, at, end)->Ok_0[i],
            ),
    decreases distance(at, end),
{
    if at + 2 <= end {
        lemma_element_bounds(c, at);
        let g = element_at(c, at)->Ok_0;
        if g.end_at() > at {
            lemma_info_sound(c, g.end_at(), end);
            let rest = info_titles(c, g.end_at(), end)->Ok_0;
            let found = info_titles(c, at, end)->Ok_0;
            let n = found.len() - rest.len();
            assert forall|i: int| 0 <= i < found.len() implies sound_title(c, #[trigger] found[i]) by {
                if i >= n {
                    assert(sound_title(c, rest[i - n]));
                }
            }
        }
    }
}

/// What a walk over the Segment finds are titles of the file.
proof fn lemma_segment_sound(c: Seq<u8>, at: int, end: int)
    requires
        file_sized(c),
        0 <= at,
        segment_titles(c, at, end) is Ok,
    ensures
        forall|i: int|
            0 <= i < segment_titles(c, at, end)->Ok_0.len() ==> sound_title(
                c,
                #[trigger] segment_titles(c, at, end)->Ok_0[i],
            ),
    decreases distance(at, end),
{
    if at + 2 <= end {
        lemma_element_bounds(c, at);
        let child = element_at(c, at)->Ok_0;
        if child.id != CLUSTER && child.end_at() > at {
            lemma_segment_sound(c, child.end_at(), end);
            let rest = segment_titles(c, child.end_at(), end)->Ok_0;
            let found = segment_titles(c, at, end)->Ok_0;
            let n = found.len() - rest.len();
            if child.id == INFO {
                lemma_info_sound(c, child.data_at(), child.end_at());
            }
            assert forall|i: int| 0 <= i < found.len() implies sound_title(c, #[trigger] found[i]) by {
                if i >= n {
                    assert(sound_title(c, rest[i - n]));
                } else {
                    let head = info_titles(c, child.data_at(), child.end_at())->Ok_0;
                    assert(sound_title(c, head[i]));
                }
            }
        }
    }
}

/// Every title of a Matroska file that can be walked is removed, whatever the
/// length of its size field. The file must be shorter than the largest size
/// that an element can have.
pub proof fn walked_titles_are_removed(c: Seq<u8>)
    requires
        c.len() < 0xff_ffff_ffff_ffff,
        is_matroska(c),
        matroska_titles_of(c) is Ok,
    ensures
        stripping(c).1 == Ok::<_, ContainerError>(matroska_texts(c, matroska_titles_of(c)->Ok_0)),
        stripping(c).0 == void_edits(matroska_titles_of(c)->Ok_0),
{
    let found = matroska_titles_of(c)->Ok_0;
    let (lo, hi) = segment_span(c)->Ok_0;
    lemma_element_bounds(c, 0);
    lemma_element_bounds(c, element_at(c, 0)->Ok_0.end_at());
    lemma_segment_sound(c, lo, hi);
    let flags = found.map_values(|t: EbmlElement| can_void(t));
    assert forall|k: int| 0 <= k < flags.len() implies flags[k] by {
        assert(sound_title(c, found[k]));
        lemma_element_bounds(c, found[k].offset as int);
        lemma_title_fits(c, found[k]);
    }
    lemma_leading(flags, flags.len() as int);
    assert(found.take(found.len() as int) =~= found);
}

/// A Matroska file has no title once it has been stripped without an error:
/// inspection then reports that there is none. A title must not reach over an
/// element that the walk reads behind its Info: the Void would efface it.
pub proof fn stripped_matroska_has_no_title(c: Seq<u8>)
    requires
        file_sized(c),
        is_matroska(c),
        stripping(c).1 is Ok,
        titles_nested(c, segment_span(c)->Ok_0.0, segment_span(c)->Ok_0.1),
    ensures
        titles_of(edited(c, stripping(c).0)) == Ok::<_, ContainerError>(
            Some(Seq::<Seq<char>>::empty()),
        ),
{
    let found = matroska_titles_of(c)->Ok_0;
    let (lo, hi) = segment_span(c)->Ok_0;
    lemma_element_bounds(c, 0);
    let header = element_at(c, 0)->Ok_0;
    lemma_element_bounds(c, header.end_at());
    let segment = element_at(c, header.end_at())->Ok_0;
    lemma_segment_in_order(c, lo, hi);
    let flags = found.map_values(|t: EbmlElement| can_void(t));
    assert(leading(flags) == found.len());
    lemma_leading_all(flags);
    assert forall|k: int| 0 <= k < found.len() implies can_void(#[trigger] found[k]) by {
        assert(flags[k]);
    }
    assert(found.take(found.len() as int) =~= found);
    let d = edited(c, void_edits(found));
    lemma_void_edits(c, found, lo);
    lemma_edited_len(c, void_edits(found));
    assert forall|i: int| 0 <= i < lo implies c[i] == #[trigger] d[i] by {
        assert forall|k: int| 0 <= k < found.len() implies !((#[trigger] found[k]).offset <= i
            < found[k].end_at()) by {
            assert(sound_title(c, found[k]));
        }
    }
    lemma_element_same(c, d, 0);
    lemma_element_same(c, d, header.end_at());
    lemma_number_same(c, d, 0, 4);
    lemma_segment_after(c, d, lo, hi);
    assert(matroska_texts(d, seq![]) =~= Seq::<Seq<char>>::empty());
}

proof fn lemma_leading_all(flags: Seq<bool>)
    requires
        leading(flags) == flags.len(),
    ensures
        forall|i: int| 0 <= i < flags.len() ==> flags[i],
    decreases flags.len(),
{
    if flags.len() > 0 {
        let rest = flags.drop_first();
        lemma_leading_bound(rest);
        lemma_leading_all(rest);
        assert forall|i: int| 0 <= i < flags.len() implies flags[i] by {
            if i > 0 {
                assert(rest[i - 1] == flags[i]);
            }
        }
    }
}

proof fn lemma_leading_bound(flags: Seq<bool>)
    ensures
        0 <= leading(flags) <= flags.len(),
    decreases flags.len(),
{
    if flags.len() > 0 {
        lemma_leading_bound(flags.drop_first());
    }
}

/// Numbers are written with the most significant byte first.
pub proof fn numbers_are_big_endian(c: Seq<u8>, at: int, n: int)
    requires
        0 <= at,
        0 <= n,
        at + n < c.len(),
    ensures
        number_at(c, at, 0) == 0,
        number_at(c, at, n + 1) == 256 * number_at(c, at, n) + c[at + n],
{
    assert(c.subrange(at, at + n + 1).drop_last() =~= c.subrange(at, at + n));
    assert(c.subrange(at, at + 0).len() == 0);
}

/// An atom is what its header says: its size and its type, four bytes each; a
/// size of nought reaches to the end, and a size of one is followed, behind
/// the type, by one of eight bytes.
pub proof fn atoms_are_what_their_header_says(c: Seq<u8>, pos: int, end: int)
    requires
        0 <= pos,
        pos + 8 <= end <= c.len(),
        file_sized(c),
    ensures
        ({
            let r = atom_at(c, pos, end);
            let n = number_at(c, pos, 4);
            let kind = number_at(c, pos + 4, 4);
            let long = number_at(c, pos + 8, 8);
            &&& n >= 8 && pos + n <= end ==> {
                &&& r is Ok
                &&& r->Ok_0.offset == pos
                &&& r->Ok_0.size == n
                &&& r->Ok_0.lo() == pos + 8
                &&& r->Ok_0.kind == kind
            }
            &&& n == 0 ==> {
                &&& r is Ok
                &&& r->Ok_0.offset == pos
                &&& r->Ok_0.hi() == end
                &&& r->Ok_0.lo() == pos + 8
                &&& r->Ok_0.kind == kind
            }
            &&& n == 1 && pos + 16 <= end && long >= 16 && pos + long <= end ==> {
                &&& r is Ok
                &&& r->Ok_0.offset == pos
                &&& r->Ok_0.size == long
                &&& r->Ok_0.lo() == pos + 16
                &&& r->Ok_0.kind == kind
            }
            &&& 2 <= n < 8 || pos + n > end ==> r is Err
            &&& n == 1 && pos + 16 <= c.len() && (long < 16 || pos + long > end) ==> r is Err
        }),
{
    lemma_number_bounds(c, pos);
}

/// A walk finds the atoms one behind another, from the start of the range on
/// and until less than a header is left.
pub proof fn atoms_follow_each_other(c: Seq<u8>, start: int, end: int)
    requires
        file_sized(c),
        0 <= start,
        end <= c.len(),
        atoms(c, start, end) is Ok,
    ensures
        ({
            let found = atoms(c, start, end)->Ok_0;
            &&& found.len() == 0 <==> start + 8 > end
            &&& forall|i: int|
                0 <= i < found.len() ==> {
                    &&& (#[trigger] found[i]).offset == (if i == 0 {
                        start
                    } else {
                        found[i - 1].hi()
                    })
                    &&& atom_at(c, found[i].offset as int, end) == Ok::<Atom, ContainerError>(found[i])
                }
            &&& found.len() > 0 ==> found.last().hi() + 8 > end
        }),
    decreases end - start,
{
    if start + 8 <= end {
        atoms_are_what_their_header_says(c, start, end);
        lemma_number_bounds(c, start);
        let a = atom_at(c, start, end)->Ok_0;
        assert(a.size >= 8 && a.offset == start);
        atoms_follow_each_other(c, start + a.size, end);
        let rest = atoms(c, start + a.size, end)->Ok_0;
        let found = seq![a] + rest;
        assert forall|i: int| 0 <= i < found.len() implies (#[trigger] found[i]).offset == (if i
            == 0 {
            start
        } else {
            found[i - 1].hi()
        }) && atom_at(c, found[i].offset as int, end) == Ok::<Atom, ContainerError>(found[i]) by {
            if i > 0 {
                assert(found[i] == rest[i - 1]);
                if i > 1 {
                    assert(found[i - 1] == rest[i - 2]);
                }
            }
        }
        if rest.len() > 0 {
            assert(found.last() == rest.last());
        }
    }
}

/// The atom found for a kind is of the kind, and none before it is.
pub proof fn the_first_of_a_kind_is_found(s: Seq<Atom>, kind: u32, i: int)
    requires
        0 <= i < s.len(),
        s[i].kind == kind,
        forall|j: int| 0 <= j < i ==> (#[trigger] s[j]).kind != kind,
    ensures
        first_of(s, kind) == Some(s[i]),
    decreases s.len(),
{
    if i > 0 {
        assert(s[0].kind != kind);
        let rest = s.drop_first();
        assert forall|j: int| 0 <= j < i - 1 implies (#[trigger] rest[j]).kind != kind by {
            assert(rest[j] == s[j + 1]);
        }
        the_first_of_a_kind_is_found(rest, kind, i - 1);
    }
}

/// Without an atom of the kind none is found.
pub proof fn no_other_kind_is_found(s: Seq<Atom>, kind: u32)
    requires
        forall|j: int| 0 <= j < s.len() ==> (#[trigger] s[j]).kind != kind,
    ensures
        first_of(s, kind) is None,
    decreases s.len(),
{
    if s.len() > 0 {
        assert(s[0].kind != kind);
        assert forall|j: int| 0 <= j < s.drop_first().len() implies (
        #[trigger] s.drop_first()[j]).kind != kind by {
            assert(s.drop_first()[j] == s[j + 1]);
        }
        no_other_kind_is_found(s.drop_first(), kind);
    }
}

/// An atom is the first of its kind in a range.
pub open spec fn leads(c: Seq<u8>, lo: int, hi: int, kind: u32, a: Atom) -> bool {
    &&& atoms(c, lo, hi) is Ok
    &&& exists|i: int|
        {
            &&& 0 <= i < atoms(c, lo, hi)->Ok_0.len()
            &&& #[trigger] atoms(c, lo, hi)->Ok_0[i] == a
            &&& a.kind == kind
            &&& forall|j: int| 0 <= j < i ==> (#[trigger] atoms(c, lo, hi)->Ok_0[j]).kind != kind
        }
}

proof fn lemma_leads(c: Seq<u8>, lo: int, hi: int, kind: u32, a: Atom)
    requires
        leads(c, lo, hi, kind, a),
    ensures
        atoms(c, lo, hi) is Ok,
        first_of(atoms(c, lo, hi)->Ok_0, kind) == Some(a),
        a.kind == kind,
{
    let found = atoms(c, lo, hi)->Ok_0;
    let i = choose|i: int|
        {
            &&& 0 <= i < found.len()
            &&& #[trigger] found[i] == a
            &&& a.kind == kind
            &&& forall|j: int| 0 <= j < i ==> (#[trigger] found[j]).kind != kind
        };
    the_first_of_a_kind_is_found(found, kind, i);
}

/// The titles of an MP4 file are the atoms `©nam` in the item list `ilst`,
/// which stands in `meta`, behind four bytes, in `udta` in `moov`, each the
/// first of its kind; an MP4 file without one of them has no item list.
pub proof fn mp4_titles_are_items(c: Seq<u8>, moov: Atom, udta: Atom, meta: Atom, ilst: Atom)
    requires
        leads(c, 0, c.len() as int, 0x6d6f_6f76, moov),
        leads(c, moov.lo(), moov.hi(), 0x7564_7461, udta),
        leads(c, udta.lo(), udta.hi(), 0x6d65_7461, meta),
        leads(c, meta.lo() + 4, meta.hi(), 0x696c_7374, ilst),
        atoms(c, ilst.lo(), ilst.hi()) is Ok,
    ensures
        mp4_titles(c) == Ok::<_, ContainerError>(
            Some(
                atoms(c, ilst.lo(), ilst.hi())->Ok_0.filter(|a: Atom| a.kind == 0xa96e_616du32),
            ),
        ),
{
    lemma_leads(c, 0, c.len() as int, 0x6d6f_6f76, moov);
    lemma_leads(c, moov.lo(), moov.hi(), 0x7564_7461, udta);
    lemma_leads(c, udta.lo(), udta.hi(), 0x6d65_7461, meta);
    lemma_leads(c, meta.lo() + 4, meta.hi(), 0x696c_7374, ilst);
    let p = title_path();
    assert(p.drop_first() =~= seq![UDTA, META, ILST]);
    assert(seq![UDTA, META, ILST].drop_first() =~= seq![META, ILST]);
    assert(seq![META, ILST].drop_first() =~= seq![ILST]);
    assert(seq![ILST].drop_first() =~= Seq::<u32>::empty());
    reveal_with_fuel(descended, 5);
    assert(descended(c, p, 0, c.len() as int) == Ok::<_, ContainerError>(
        Some((ilst.lo(), ilst.hi())),
    ));
    assert((|a: Atom| a.kind == TITLE_KIND) =~= (|a: Atom| a.kind == 0xa96e_616du32));
}

/// The text of a title atom is what stands in its first `data` atom behind
/// eight bytes; there is none where nothing stands there.
pub proof fn titles_are_read_from_their_data(c: Seq<u8>, title: Atom, data: Atom)
    requires
        leads(c, title.lo(), title.hi(), 0x6461_7461, data),
    ensures
        data.hi() > data.lo() + 8 ==> title_text_of(c, title) == Ok::<_, ContainerError>(
            text::lossy(c.subrange(data.lo() + 8, data.hi())),
        ),
        data.hi() <= data.lo() + 8 ==> title_text_of(c, title) == Ok::<_, ContainerError>(
            Seq::<char>::empty(),
        ),
{
    lemma_leads(c, title.lo(), title.hi(), 0x6461_7461, data);
}

/// The first byte of a variable-length number tells its length: a set bit
/// behind one zero bit less than it has bytes.
pub proof fn first_bytes_tell_the_length(b: u8)
    ensures
        vint_len(b) == 1 <==> b / 128 == 1,
        vint_len(b) == 2 <==> b / 64 == 1,
        vint_len(b) == 3 <==> b / 32 == 1,
        vint_len(b) == 4 <==> b / 16 == 1,
        vint_len(b) == 5 <==> b / 8 == 1,
        vint_len(b) == 6 <==> b / 4 == 1,
        vint_len(b) == 7 <==> b / 2 == 1,
        vint_len(b) == 8 <==> b == 1,
        vint_len(b) == 9 <==> b == 0,
{
}

/// An element is an ID of up to four bytes, a size of up to eight, and the
/// data; the value of a size does not count the bit that tells its length.
pub proof fn elements_are_what_their_header_says(c: Seq<u8>, at: int)
    requires
        file_sized(c),
        0 <= at < c.len(),
    ensures
        ({
            let n = vint_len(c[at]);
            let m = vint_len(c[at + n]);
            let r = element_at(c, at);
            &&& n > 4 ==> r is Err
            &&& n <= 4 && at + n < c.len() && m <= 8 && at + n + m <= c.len() ==> {
                &&& r is Ok
                &&& r->Ok_0.offset == at
                &&& r->Ok_0.data_at() == at + n + m
                &&& r->Ok_0.id_len == n
                &&& m == 1 && c[at + n] < 255 ==> r->Ok_0.data_len == c[at + n] - 128
                &&& m == 1 && c[at + n] == 255 ==> r->Ok_0.data_len == u64::MAX
                &&& n == 1 ==> r->Ok_0.id == c[at]
                &&& n == 2 ==> r->Ok_0.id == 256 * c[at] + c[at + 1]
            }
            &&& n <= 4 && at + n < c.len() && m <= 8 && at + n + m > c.len() ==> r is Err
            &&& n <= 4 && at + n < c.len() && m > 8 ==> r is Err
        }),
{
    let n = vint_len(c[at]);
    let m = vint_len(c[at + n]);
    if n <= 4 && at + n < c.len() && m <= 8 && at + n + m <= c.len() {
        if m == 1 {
            numbers_are_big_endian(c, at + n, 0);
            assert(pow256(0) == 1);
        }
        if n == 1 {
            numbers_are_big_endian(c, at, 0);
        }
        if n == 2 {
            numbers_are_big_endian(c, at, 0);
            numbers_are_big_endian(c, at, 1);
        }
    }
}

/// The Segment is walked up to the first Cluster: each Info gives its titles,
/// and every other element is passed over. An element of unknown size stops
/// the walk.
pub proof fn titles_stand_before_the_media(c: Seq<u8>, at: int, end: int, child: EbmlElement)
    requires
        at + 2 <= end,
        element_at(c, at) == Ok::<_, ContainerError>(child),
        child.end_at() > at,
    ensures
        child.data_len == u64::MAX ==> segment_titles(c, at, end) is Err,
        child.data_len != u64::MAX ==> {
            &&& child.id == 0x1F43_B675 ==> segment_titles(c, at, end) == Ok::<_, ContainerError>(
                Seq::<EbmlElement>::empty(),
            )
            &&& child.id != 0x1F43_B675 && child.id != 0x1549_A966 ==> segment_titles(c, at, end)
                == segment_titles(c, child.end_at(), end)
            &&& child.id == 0x1549_A966 && info_titles(c, child.data_at(), child.end_at()) is Ok
                && segment_titles(c, child.end_at(), end) is Ok ==> segment_titles(c, at, end)
                == Ok::<_, ContainerError>(
                info_titles(c, child.data_at(), child.end_at())->Ok_0 + segment_titles(
                    c,
                    child.end_at(),
                    end,
                )->Ok_0,
            )
        },
{
}

/// Of an Info the elements with a title's ID count that end inside the file.
pub proof fn titles_of_an_info_are_its_children(c: Seq<u8>, at: int, end: int, g: EbmlElement)
    requires
        at + 2 <= end,
        element_at(c, at) == Ok::<_, ContainerError>(g),
        g.end_at() > at,
        g.data_len != u64::MAX,
        info_titles(c, g.end_at(), end) is Ok,
    ensures
        info_titles(c, at, end) == Ok::<_, ContainerError>(
            if g.id == 0x7BA9 && g.end_at() <= c.len() {
                seq![g] + info_titles(c, g.end_at(), end)->Ok_0
            } else {
                info_titles(c, g.end_at(), end)->Ok_0
            },
        ),
{
    assert(Seq::<EbmlElement>::empty() + info_titles(c, g.end_at(), end)->Ok_0 =~= info_titles(
        c,
        g.end_at(),
        end,
    )->Ok_0);
}

/// The Segment follows the EBML header, and reaches to the end of the file
/// where its size is not known or too large.
pub proof fn the_segment_follows_the_header(c: Seq<u8>, header: EbmlElement, segment: EbmlElement)
    requires
        element_at(c, 0) == Ok::<_, ContainerError>(header),
        header.data_len != u64::MAX,
        element_at(c, header.end_at()) == Ok::<_, ContainerError>(segment),
    ensures
        header.id == 0x1A45_DFA3 && segment.id == 0x1853_8067 ==> segment_span(c) == Ok::<
            _,
            ContainerError,
        >(
            (
                segment.data_at(),
                if segment.data_len == u64::MAX || segment.end_at() > c.len() {
                    c.len() as int
                } else {
                    segment.end_at()
                },
            ),
        ),
        header.id != 0x1A45_DFA3 || segment.id != 0x1853_8067 ==> segment_span(c) is Err,
{
}

proof fn lemma_nuls(s: Seq<char>)
    ensures
        ({
            let kept = without_nuls(s);
            &&& kept.len() <= s.len()
            &&& kept == s.take(kept.len() as int)
            &&& forall|i: int| kept.len() <= i < s.len() ==> s[i] == '\0'
            &&& kept.len() == 0 || kept.last() != '\0'
        }),
    decreases s.len(),
{
    if s.len() > 0 && s.last() == '\0' {
        let head = s.drop_last();
        lemma_nuls(head);
        let kept = without_nuls(s);
        assert(kept =~= s.take(kept.len() as int));
        assert forall|i: int| kept.len() <= i < s.len() implies s[i] == '\0' by {
            if i < head.len() {
                assert(head[i] == s[i]);
            }
        }
    } else {
        assert(s.take(s.len() as int) =~= s);
    }
}

/// A Matroska title is the text of its first 512 bytes, without the zero
/// characters at its end, and with any others.
pub proof fn titles_end_before_their_padding(c: Seq<u8>, t: EbmlElement)
    ensures
        ({
            let all = text::lossy(
                c.subrange(
                    t.data_at(),
                    t.data_at() + (if t.data_len <= 512 {
                        t.data_len as int
                    } else {
                        512
                    }),
                ),
            );
            let kept = matroska_text(c, t);
            &&& kept.len() <= all.len()
            &&& kept == all.take(kept.len() as int)
            &&& forall|i: int| kept.len() <= i < all.len() ==> all[i] == '\0'
            &&& kept.len() == 0 || kept.last() != '\0'
        }),
{
    let all = text::lossy(
        c.subrange(
            t.data_at(),
            t.data_at() + (if t.data_len <= 512 {
                t.data_len as int
            } else {
                512
            }),
        ),
    );
    lemma_nuls(all);
}

/// A Matroska file that cannot be walked is an error; any other file that
/// cannot be is of a format without titles.
pub proof fn only_matroska_files_are_refused(c: Seq<u8>)
    requires
        c.len() >= 4,
    ensures
        number_at(c, 0, 4) == 0x1A45_DFA3 && matroska_titles_of(c) is Err ==> {
            &&& titles_of(c) is Err
            &&& stripping(c).1 is Err
            &&& stripping(c).0.len() == 0
        },
        number_at(c, 0, 4) != 0x1A45_DFA3 && mp4_titles(c) is Err ==> {
            &&& titles_of(c) == Ok::<_, ContainerError>(None::<Seq<Seq<char>>>)
            &&& stripping(c).1 == Ok::<_, ContainerError>(Seq::<Seq<char>>::empty())
            &&& stripping(c).0.len() == 0
        },
        number_at(c, 0, 4) == 0x1A45_DFA3 && matroska_titles_of(c) is Ok ==> titles_of(c) == Ok::<
            _,
            ContainerError,
        >(Some(matroska_titles_of(c)->Ok_0.map_values(|t: EbmlElement| matroska_text(c, t)))),
{
}

/// Of a Void everything but its header is zero.
pub proof fn voids_hold_nothing(t: EbmlElement, i: int)
    requires
        1 <= t.id_len <= 4,
        1 <= t.size_len <= 8,
        t.id_len + t.size_len <= i < t.id_len + t.size_len + t.data_len,
        can_void(t),
    ensures
        void_bytes(t).len() == t.id_len + t.size_len + t.data_len,
        void_bytes(t)[0] == 0xEC,
        void_bytes(t)[i] == 0,
{
    lemma_be_len(vint_marker(void_size_len(t)) * pow256(void_size_len(t) - 1) + void_data_len(t), void_size_len(t));
}

proof fn lemma_be_len(v: int, n: int)
    ensures
        be_bytes(v, n).len() == (if n <= 0 {
            0
        } else {
            n
        }),
    decreases n,
{
    if n > 0 {
        lemma_be_len(v / 256, n - 1);
    }
}

proof fn lemma_elsewhere(c: Seq<u8>, e: Seq<(int, Seq<u8>)>, i: int)
    requires
        0 <= i < c.len(),
        forall|k: int| 0 <= k < e.len() ==> !((#[trigger] e[k]).0 <= i < e[k].0 + e[k].1.len()),
    ensures
        edited(c, e).len() == c.len(),
        edited(c, e)[i] == c[i],
    decreases e.len(),
{
    if e.len() > 0 {
        assert(e[e.len() - 1] == e.last());
        assert forall|k: int| 0 <= k < e.drop_last().len() implies !((
        #[trigger] e.drop_last()[k]).0 <= i < e.drop_last()[k].0 + e.drop_last()[k].1.len()) by {
            assert(e.drop_last()[k] == e[k]);
        }
        lemma_elsewhere(c, e.drop_last(), i);
    }
}

/// Stripping an MP4 file changes nothing but the types of its title atoms.
pub proof fn stripping_touches_only_title_types(c: Seq<u8>, i: int)
    requires
        0 <= i < c.len(),
        !is_matroska(c),
        mp4_titles(c) matches Ok(Some(_)),
        forall|k: int|
            0 <= k < mp4_titles(c)->Ok_0->Some_0.len() ==> !((
            #[trigger] mp4_titles(c)->Ok_0->Some_0[k]).offset + 4 <= i < mp4_titles(
                c,
            )->Ok_0->Some_0[k].offset + 8),
    ensures
        edited(c, stripping(c).0)[i] == c[i],
{
    let found = mp4_titles(c)->Ok_0->Some_0;
    let e = stripping(c).0;
    lemma_readable_bounds(c, found);
    assert forall|k: int| 0 <= k < e.len() implies !((#[trigger] e[k]).0 <= i < e[k].0
        + e[k].1.len()) by {
        assert(found.take(readable(c, found))[k] == found[k]);
    }
    lemma_elsewhere(c, e, i);
}

proof fn lemma_leading_bounds(flags: Seq<bool>)
    ensures
        0 <= leading(flags) <= flags.len(),
    decreases flags.len(),
{
    if flags.len() > 0 && flags[0] {
        lemma_leading_bounds(flags.drop_first());
    }
}

proof fn lemma_readable_bounds(c: Seq<u8>, found: Seq<Atom>)
    ensures
        0 <= readable(c, found) <= found.len(),
{
    lemma_leading_bounds(found.map_values(|a: Atom| title_text_of(c, a) is Ok));
}

} // verus!
