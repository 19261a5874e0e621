//! Text as sequences of characters: the string operations that the rest of
//! the library is stated and written with.
use vstd::prelude::*;

verus! {

/// `String::push` appends one character.
pub assume_specification[ String::push ](s: &mut String, c: char)
    ensures
        final(s)@ == old(s)@.push(c),
;

/// `String::push_str` appends a string slice.
pub assume_specification[ String::push_str ](s: &mut String, t: &str)
    ensures
        final(s)@ == old(s)@ + t@,
;

/// Two string slices are equal exactly when they hold the same characters.
pub assume_specification[ <str as PartialEq>::eq ](a: &str, b: &str) -> (r: bool)
    ensures
        r == (a@ == b@),
;

/// Whether a text is made of ASCII characters alone.
pub open spec fn ascii(s: Seq<char>) -> bool {
    forall|i: int| 0 <= i < s.len() ==> (#[trigger] s[i]) as int <= 127
}

/// What `str::to_lowercase` returns: the Unicode lower-case mapping of the
/// whole text.
pub uninterp spec fn lowercase(s: Seq<char>) -> Seq<char>;

/// A text in lower case.
pub open spec fn lowered(s: Seq<char>) -> Seq<char> {
    if ascii(s) {
        ascii_lower(s)
    } else {
        lowercase(s)
    }
}

/// `str::to_lowercase`. Of ASCII text it lowers the letters `A` to `Z`; of
/// other text only that the result is a function of it is claimed, and the
/// Unicode tables are not restated.
#[verifier::external_body]
pub(crate) fn to_lowercase(s: &str) -> (r: String)
    ensures
        ascii(s@) ==> r@ == ascii_lower(s@),
        !ascii(s@) ==> r@ == lowercase(s@),
{
    s.to_lowercase()
}

/// What `str::to_uppercase` returns: the Unicode upper-case mapping of the
/// whole text.
pub uninterp spec fn uppercase(s: Seq<char>) -> Seq<char>;

pub open spec fn ascii_upper_char(c: char) -> char {
    if 'a' as int <= c as int <= 'z' as int {
        (c as int - 32) as char
    } else {
        c
    }
}

pub open spec fn ascii_upper(s: Seq<char>) -> Seq<char> {
    Seq::new(s.len(), |i: int| ascii_upper_char(s[i]))
}

/// A text in upper case.
pub open spec fn uppered(s: Seq<char>) -> Seq<char> {
    if ascii(s) {
        ascii_upper(s)
    } else {
        uppercase(s)
    }
}

/// `str::to_uppercase`. Of ASCII text it raises the letters `a` to `z`; of
/// other text only that the result is a function of it is claimed, and the
/// Unicode tables are not restated.
#[verifier::external_body]
pub(crate) fn to_uppercase(s: &str) -> (r: String)
    ensures
        ascii(s@) ==> r@ == ascii_upper(s@),
        !ascii(s@) ==> r@ == uppercase(s@),
{
    s.to_uppercase()
}

/// What `char::is_alphanumeric` returns.
pub uninterp spec fn alphanumeric(c: char) -> bool;

/// A letter or a digit.
pub open spec fn letter_or_digit(c: char) -> bool {
    if c as int <= 127 {
        ('0' as int <= c as int <= '9' as int) || ('A' as int <= c as int <= 'Z' as int) || ('a' as int
            <= c as int <= 'z' as int)
    } else {
        alphanumeric(c)
    }
}

/// `char::is_alphanumeric`. In ASCII these are the letters and the digits; of
/// other characters only that the result is a function of the character is
/// claimed, and the Unicode tables are not restated.
#[verifier::external_body]
pub(crate) fn is_alphanumeric(c: char) -> (r: bool)
    ensures
        c as int <= 127 ==> r == (('0' as int <= c as int <= '9' as int) || ('A' as int <= c as int
            <= 'Z' as int) || ('a' as int <= c as int <= 'z' as int)),
        c as int > 127 ==> r == alphanumeric(c),
{
    c.is_alphanumeric()
}

/// `String::from_utf8`: the text that valid UTF-8 encodes, and nothing for
/// any other bytes.
#[verifier::external_body]
pub(crate) fn from_utf8(b: &Vec<u8>) -> (r: Option<String>)
    ensures
        r is Some <==> vstd::utf8::valid_utf8(b@),
        r matches Some(s) ==> s@ == vstd::utf8::decode_utf8(b@),
{
    String::from_utf8(b.clone()).ok()
}

/// A unit of UTF-16 that stands for a character only as the first of two.
pub open spec fn leads(u: u16) -> bool {
    0xD800 <= u <= 0xDBFF
}

/// A unit of UTF-16 that stands for a character only as the second of two.
pub open spec fn trails(u: u16) -> bool {
    0xDC00 <= u <= 0xDFFF
}

/// UTF-16 units as text, with the replacement character for each surrogate
/// that is not one of a pair.
pub open spec fn utf16_lossy(units: Seq<u16>) -> Seq<char>
    decreases units.len(),
{
    if units.len() == 0 {
        seq![]
    } else if leads(units[0]) && units.len() > 1 && trails(units[1]) {
        seq![(0x10000 + (units[0] - 0xD800) * 0x400 + (units[1] - 0xDC00)) as char] + utf16_lossy(
            units.skip(2),
        )
    } else if leads(units[0]) || trails(units[0]) {
        seq!['\u{fffd}'] + utf16_lossy(units.drop_first())
    } else {
        seq![units[0] as char] + utf16_lossy(units.drop_first())
    }
}

/// `String::from_utf16_lossy`: each pair of surrogates is the one character
/// that it encodes, a surrogate outside a pair the replacement character, and
/// any other unit the character of its number.
#[verifier::external_body]
pub(crate) fn from_utf16_lossy(units: &Vec<u16>) -> (r: String)
    ensures
        r@ == utf16_lossy(units@),
{
    String::from_utf16_lossy(units)
}

/// What `String::from_utf8_lossy` returns: the bytes as text, with the
/// replacement character for what is not UTF-8.
pub uninterp spec fn utf8_lossy(b: Seq<u8>) -> Seq<char>;

/// Bytes as text, with the replacement character for what is not UTF-8.
pub open spec fn lossy(b: Seq<u8>) -> Seq<char> {
    if vstd::utf8::valid_utf8(b) {
        vstd::utf8::decode_utf8(b)
    } else {
        utf8_lossy(b)
    }
}

/// `String::from_utf8_lossy`. Valid UTF-8 is decoded as it is; how many
/// replacement characters stand for an invalid stretch is left to the name.
#[verifier::external_body]
pub(crate) fn from_utf8_lossy(b: &Vec<u8>) -> (r: String)
    ensures
        vstd::utf8::valid_utf8(b@) ==> r@ == vstd::utf8::decode_utf8(b@),
        !vstd::utf8::valid_utf8(b@) ==> r@ == utf8_lossy(b@),
{
    String::from_utf8_lossy(b).to_string()
}

/// The text of each string.
pub open spec fn texts(v: Seq<String>) -> Seq<Seq<char>> {
    Seq::new(v.len(), |i: int| v[i]@)
}

/// The text of an optional string.
pub open spec fn opt_text(o: Option<String>) -> Option<Seq<char>> {
    match o {
        Some(s) => Some(s@),
        None => None,
    }
}

/// The code point of a character.
pub fn code(c: char) -> (u: u32)
    ensures
        u as int == c as int,
{
    c as u32
}

pub fn same(a: &str, b: &str) -> (r: bool)
    ensures
        r == (a@ == b@),
{
    *a == *b
}

/// Whether a text is among others.
pub fn among(list: &Vec<String>, s: &str) -> (r: bool)
    ensures
        r == texts(list@).contains(s@),
{
    let ghost ts = texts(list@);
    let mut i: usize = 0;
    while i < list.len()
        invariant
            i <= list.len(),
            ts == texts(list@),
            forall|k: int| 0 <= k < i ==> (#[trigger] ts[k]) != s@,
        decreases list.len() - i,
    {
        assert(ts[i as int] == list@[i as int]@);
        if same(list[i].as_str(), s) {
            return true;
        }
        i += 1;
    }
    false
}

/// Whether a text is one of a list.
pub open spec fn listed(s: Seq<char>, list: Seq<&'static str>) -> bool {
    exists|i: int| 0 <= i < list.len() && (#[trigger] list[i])@ == s
}

pub fn is_one_of(s: &str, list: &[&'static str]) -> (r: bool)
    ensures
        r == listed(s@, list@),
{
    let mut i: usize = 0;
    while i < list.len()
        invariant
            i <= list.len(),
            forall|k: int| 0 <= k < i ==> (#[trigger] list@[k])@ != s@,
        decreases list.len() - i,
    {
        if same(list[i], s) {
            assert(list@[i as int]@ == s@);
            return true;
        }
        i += 1;
    }
    false
}

/// The characters of a text.
pub fn chars_of(s: &str) -> (r: Vec<char>)
    ensures
        r@ == s@,
{
    let mut out: Vec<char> = Vec::new();
    for c in it: s.chars()
        invariant
            out@ == s@.take(it.index()),
            it.seq() == s@,
    {
        out.push(c);
    }
    out
}

/// The text of the characters in `[lo, hi)`.
pub fn string_of(v: &Vec<char>, lo: usize, hi: usize) -> (r: String)
    requires
        lo <= hi <= v@.len(),
    ensures
        r@ == v@.subrange(lo as int, hi as int),
{
    let mut out = String::new();
    let mut i: usize = lo;
    while i < hi
        invariant
            lo <= i <= hi <= v@.len(),
            out@ == v@.subrange(lo as int, i as int),
        decreases hi - i,
    {
        out.push(v[i]);
        i += 1;
        assert(out@ =~= v@.subrange(lo as int, i as int));
    }
    out
}

// ------------------------------------------------------------ white space

/// The Unicode White_Space property, which `char::is_whitespace` tests.
pub open spec fn white(c: char) -> bool {
    let u = c as int;
    ||| 0x9 <= u <= 0xd
    ||| u == 0x20
    ||| u == 0x85
    ||| u == 0xa0
    ||| u == 0x1680
    ||| 0x2000 <= u <= 0x200a
    ||| u == 0x2028
    ||| u == 0x2029
    ||| u == 0x202f
    ||| u == 0x205f
    ||| u == 0x3000
}

pub fn is_white(c: char) -> (r: bool)
    ensures
        r == white(c),
{
    let u: u32 = code(c);
    (0x9 <= u && u <= 0xd) || u == 0x20 || u == 0x85 || u == 0xa0 || u == 0x1680 || (0x2000 <= u && u
        <= 0x200a) || u == 0x2028 || u == 0x2029 || u == 0x202f || u == 0x205f || u == 0x3000
}

/// A text without its leading white space.
pub open spec fn trim_start_of(s: Seq<char>) -> Seq<char>
    decreases s.len(),
{
    if s.len() > 0 && white(s[0]) {
        trim_start_of(s.drop_first())
    } else {
        s
    }
}

/// A text without its trailing white space.
pub open spec fn trim_end_of(s: Seq<char>) -> Seq<char>
    decreases s.len(),
{
    if s.len() > 0 && white(s.last()) {
        trim_end_of(s.drop_last())
    } else {
        s
    }
}

pub open spec fn trimmed(s: Seq<char>) -> Seq<char> {
    trim_end_of(trim_start_of(s))
}

/// The index of the first character of `v` in `[lo, hi)` that is not white.
fn start_index(v: &Vec<char>, lo: usize, hi: usize) -> (i: usize)
    requires
        lo <= hi <= v@.len(),
    ensures
        lo <= i <= hi,
        v@.subrange(i as int, hi as int) == trim_start_of(v@.subrange(lo as int, hi as int)),
{
    let mut i: usize = lo;
    while i < hi && is_white(v[i])
        invariant
            lo <= i <= hi <= v@.len(),
            trim_start_of(v@.subrange(i as int, hi as int)) == trim_start_of(
                v@.subrange(lo as int, hi as int),
            ),
        decreases hi - i,
    {
        assert(v@.subrange(i as int, hi as int).drop_first() =~= v@.subrange(i + 1, hi as int));
        i += 1;
    }
    i
}

fn end_index(v: &Vec<char>, lo: usize, hi: usize) -> (i: usize)
    requires
        lo <= hi <= v@.len(),
    ensures
        lo <= i <= hi,
        v@.subrange(lo as int, i as int) == trim_end_of(v@.subrange(lo as int, hi as int)),
{
    let mut i: usize = hi;
    while i > lo && is_white(v[i - 1])
        invariant
            lo <= i <= hi <= v@.len(),
            trim_end_of(v@.subrange(lo as int, i as int)) == trim_end_of(
                v@.subrange(lo as int, hi as int),
            ),
        decreases i,
    {
        assert(v@.subrange(lo as int, i as int).drop_last() =~= v@.subrange(lo as int, i - 1));
        i -= 1;
    }
    i
}

pub fn trim(s: &str) -> (r: String)
    ensures
        r@ == trimmed(s@),
{
    let v = chars_of(s);
    assert(v@.subrange(0, v@.len() as int) =~= s@);
    let lo = start_index(&v, 0, v.len());
    let hi = end_index(&v, lo, v.len());
    string_of(&v, lo, hi)
}

pub fn trim_start(s: &str) -> (r: String)
    ensures
        r@ == trim_start_of(s@),
{
    let v = chars_of(s);
    assert(v@.subrange(0, v@.len() as int) =~= s@);
    let lo = start_index(&v, 0, v.len());
    string_of(&v, lo, v.len())
}

/// Trimming a text with no white space at either end leaves it alone.
pub proof fn lemma_trimmed_same(s: Seq<char>)
    requires
        s.len() > 0 ==> !white(s[0]) && !white(s.last()),
    ensures
        trimmed(s) == s,
{
}

// -------------------------------------------------------- finding a text

/// Whether `p` stands in `s` at `i`.
pub open spec fn occurs_at(s: Seq<char>, p: Seq<char>, i: int) -> bool {
    0 <= i && i + p.len() <= s.len() && s.subrange(i, i + p.len()) == p
}

pub open spec fn begins(s: Seq<char>, p: Seq<char>) -> bool {
    occurs_at(s, p, 0)
}

pub open spec fn ends(s: Seq<char>, p: Seq<char>) -> bool {
    occurs_at(s, p, s.len() - p.len())
}

pub open spec fn holds(s: Seq<char>, p: Seq<char>) -> bool {
    exists|i: int| occurs_at(s, p, i)
}

/// The index of the first occurrence of `p` in `s`, if there is one.
pub open spec fn first_at(s: Seq<char>, p: Seq<char>, i: int) -> bool {
    occurs_at(s, p, i) && forall|j: int| 0 <= j < i ==> !occurs_at(s, p, j)
}

/// The index of the last occurrence of `p` in `s`, if there is one.
pub open spec fn last_at(s: Seq<char>, p: Seq<char>, i: int) -> bool {
    occurs_at(s, p, i) && forall|j: int| i < j ==> !occurs_at(s, p, j)
}

/// A text cut at the first occurrence of `p`.
pub open spec fn cut_once(s: Seq<char>, p: Seq<char>) -> Option<(Seq<char>, Seq<char>)> {
    if holds(s, p) {
        let i = choose|i: int| first_at(s, p, i);
        Some((s.take(i), s.skip(i + p.len())))
    } else {
        None
    }
}

/// A text cut at the last occurrence of `p`.
pub open spec fn rcut_once(s: Seq<char>, p: Seq<char>) -> Option<(Seq<char>, Seq<char>)> {
    if holds(s, p) {
        let i = choose|i: int| last_at(s, p, i);
        Some((s.take(i), s.skip(i + p.len())))
    } else {
        None
    }
}

pub proof fn lemma_cut_once(s: Seq<char>, p: Seq<char>, i: int)
    requires
        first_at(s, p, i),
    ensures
        cut_once(s, p) == Some((s.take(i), s.skip(i + p.len()))),
{
    assert(occurs_at(s, p, i));
    let k = choose|k: int| first_at(s, p, k);
    assert(k == i) by {
        if k < i {
            assert(occurs_at(s, p, k));
        } else if i < k {
            assert(occurs_at(s, p, i));
        }
    }
}

pub proof fn lemma_rcut_once(s: Seq<char>, p: Seq<char>, i: int)
    requires
        last_at(s, p, i),
    ensures
        rcut_once(s, p) == Some((s.take(i), s.skip(i + p.len()))),
{
    assert(occurs_at(s, p, i));
    let k = choose|k: int| last_at(s, p, k);
    assert(k == i) by {
        if k < i {
            assert(occurs_at(s, p, i));
        } else if i < k {
            assert(occurs_at(s, p, k));
        }
    }
}

fn occurs(v: &Vec<char>, p: &Vec<char>, i: usize) -> (r: bool)
    requires
        i <= v@.len(),
    ensures
        r == occurs_at(v@, p@, i as int),
{
    if p.len() > v.len() - i {
        return false;
    }
    let mut k: usize = 0;
    while k < p.len()
        invariant
            k <= p@.len(),
            i + p@.len() <= v.len(),
            forall|m: int| 0 <= m < k ==> v@[i + m] == p@[m],
        decreases p.len() - k,
    {
        if v[i + k] != p[k] {
            assert(v@.subrange(i as int, i + p@.len())[k as int] != p@[k as int]);
            return false;
        }
        k += 1;
    }
    assert(v@.subrange(i as int, i + p@.len()) =~= p@);
    true
}

fn find_in(v: &Vec<char>, p: &Vec<char>) -> (r: Option<usize>)
    ensures
        match r {
            Some(i) => first_at(v@, p@, i as int),
            None => !holds(v@, p@),
        },
{
    let mut i: usize = 0;
    while i < v.len()
        invariant
            i <= v@.len(),
            forall|j: int| 0 <= j < i ==> !occurs_at(v@, p@, j),
        decreases v.len() - i,
    {
        if occurs(v, p, i) {
            return Some(i);
        }
        i += 1;
    }
    if occurs(v, p, i) {
        return Some(i);
    }
    assert(forall|j: int| !occurs_at(v@, p@, j));
    None
}

fn rfind_in(v: &Vec<char>, p: &Vec<char>) -> (r: Option<usize>)
    ensures
        match r {
            Some(i) => last_at(v@, p@, i as int),
            None => !holds(v@, p@),
        },
{
    let mut i: usize = v.len();
    if occurs(v, p, i) {
        return Some(i);
    }
    while i > 0
        invariant
            i <= v@.len(),
            forall|j: int| i <= j ==> !occurs_at(v@, p@, j),
        decreases i,
    {
        i -= 1;
        if occurs(v, p, i) {
            return Some(i);
        }
    }
    assert(forall|j: int| !occurs_at(v@, p@, j));
    None
}

pub fn starts_with(s: &str, p: &str) -> (r: bool)
    ensures
        r == begins(s@, p@),
{
    let v = chars_of(s);
    let q = chars_of(p);
    occurs(&v, &q, 0)
}

pub fn ends_with(s: &str, p: &str) -> (r: bool)
    ensures
        r == ends(s@, p@),
{
    let v = chars_of(s);
    let q = chars_of(p);
    if q.len() > v.len() {
        return false;
    }
    occurs(&v, &q, v.len() - q.len())
}

pub fn contains(s: &str, p: &str) -> (r: bool)
    ensures
        r == holds(s@, p@),
{
    let v = chars_of(s);
    let q = chars_of(p);
    match find_in(&v, &q) {
        Some(i) => {
            assert(occurs_at(s@, p@, i as int));
            true
        },
        None => false,
    }
}

pub fn strip_prefix(s: &str, p: &str) -> (r: Option<String>)
    ensures
        opt_text(r) == (if begins(s@, p@) {
            Some(s@.skip(p@.len() as int))
        } else {
            None
        }),
{
    let v = chars_of(s);
    let q = chars_of(p);
    if occurs(&v, &q, 0) {
        let r = string_of(&v, q.len(), v.len());
        assert(r@ =~= s@.skip(p@.len() as int));
        Some(r)
    } else {
        None
    }
}

pub fn strip_suffix(s: &str, p: &str) -> (r: Option<String>)
    ensures
        opt_text(r) == (if ends(s@, p@) {
            Some(s@.take(s@.len() - p@.len()))
        } else {
            None
        }),
{
    let v = chars_of(s);
    let q = chars_of(p);
    if q.len() <= v.len() && occurs(&v, &q, v.len() - q.len()) {
        let r = string_of(&v, 0, v.len() - q.len());
        assert(r@ =~= s@.take(s@.len() - p@.len()));
        Some(r)
    } else {
        None
    }
}

pub open spec fn opt_pair(o: Option<(String, String)>) -> Option<(Seq<char>, Seq<char>)> {
    match o {
        Some((a, b)) => Some((a@, b@)),
        None => None,
    }
}

pub fn split_once(s: &str, p: &str) -> (r: Option<(String, String)>)
    ensures
        opt_pair(r) == cut_once(s@, p@),
{
    let v = chars_of(s);
    let q = chars_of(p);
    match find_in(&v, &q) {
        Some(i) => {
            proof {
                lemma_cut_once(s@, p@, i as int);
            }
            assert(i + q.len() <= v.len());
            let a = string_of(&v, 0, i);
            let b = string_of(&v, i + q.len(), v.len());
            assert(a@ =~= s@.take(i as int));
            assert(b@ =~= s@.skip(i + p@.len()));
            Some((a, b))
        },
        None => None,
    }
}

pub fn rsplit_once(s: &str, p: &str) -> (r: Option<(String, String)>)
    ensures
        opt_pair(r) == rcut_once(s@, p@),
{
    let v = chars_of(s);
    let q = chars_of(p);
    match rfind_in(&v, &q) {
        Some(i) => {
            proof {
                lemma_rcut_once(s@, p@, i as int);
            }
            assert(i + q.len() <= v.len());
            let a = string_of(&v, 0, i);
            let b = string_of(&v, i + q.len(), v.len());
            assert(a@ =~= s@.take(i as int));
            assert(b@ =~= s@.skip(i + p@.len()));
            Some((a, b))
        },
        None => None,
    }
}

// ---------------------------------------------------------------- pieces

/// The index of the first `c` in `s`, or its length.
pub open spec fn index_of(s: Seq<char>, c: char) -> int
    decreases s.len(),
{
    if s.len() == 0 || s[0] == c {
        0
    } else {
        1 + index_of(s.drop_first(), c)
    }
}

pub proof fn lemma_index_of(s: Seq<char>, c: char)
    ensures
        0 <= index_of(s, c) <= s.len(),
        index_of(s, c) < s.len() ==> s[index_of(s, c)] == c,
        forall|j: int| 0 <= j < index_of(s, c) ==> s[j] != c,
    decreases s.len(),
{
    if s.len() != 0 && s[0] != c {
        let t = s.drop_first();
        lemma_index_of(t, c);
        assert forall|j: int| 0 <= j < index_of(s, c) implies s[j] != c by {
            if j > 0 {
                assert(s[j] == t[j - 1]);
            }
        }
    }
}

/// The first `c` is where nothing before it is one.
pub proof fn lemma_index_of_is(s: Seq<char>, c: char, i: int)
    requires
        0 <= i <= s.len(),
        i < s.len() ==> s[i] == c,
        forall|j: int| 0 <= j < i ==> s[j] != c,
    ensures
        index_of(s, c) == i,
{
    lemma_index_of(s, c);
    let k = index_of(s, c);
    if k < i {
        assert(s[k] != c);
    }
}

/// The pieces of `s` between the separators `c`: one more than there are
/// separators.
pub open spec fn pieces(s: Seq<char>, c: char) -> Seq<Seq<char>>
    decreases s.len(),
    via pieces_decreases
{
    let i = index_of(s, c);
    if i < s.len() {
        seq![s.take(i)] + pieces(s.skip(i + 1), c)
    } else {
        seq![s]
    }
}

#[via_fn]
proof fn pieces_decreases(s: Seq<char>, c: char) {
    lemma_index_of(s, c);
}

/// Whether a character does not occur in a text.
pub open spec fn lacks(s: Seq<char>, c: char) -> bool {
    forall|i: int| 0 <= i < s.len() ==> #[trigger] s[i] != c
}

proof fn lemma_pieces_head(a: Seq<char>, rest: Seq<char>, c: char)
    requires
        lacks(a, c),
    ensures
        pieces(a + seq![c] + rest, c) == seq![a] + pieces(rest, c),
{
    let s = a + seq![c] + rest;
    let i = a.len() as int;
    assert(s[i] == c);
    assert forall|k: int| 0 <= k < i implies s[k] != c by {
        assert(s[k] == a[k]);
    }
    lemma_index_of_is(s, c, i);
    assert(s.take(i) =~= a);
    assert(s.skip(i + 1) =~= rest);
}

proof fn lemma_pieces_tail(s: Seq<char>, b: Seq<char>, c: char)
    requires
        lacks(b, c),
    ensures
        pieces(s + seq![c] + b, c) == pieces(s, c).push(b),
    decreases s.len(),
{
    lemma_index_of(s, c);
    let i = index_of(s, c);
    if i < s.len() {
        let rest = s.skip(i + 1);
        lemma_pieces_tail(rest, b, c);
        assert(lacks(s.take(i), c)) by {
            assert forall|k: int| 0 <= k < i implies #[trigger] s.take(i)[k] != c by {
                assert(s[k] != c);
            }
        }
        lemma_pieces_head(s.take(i), rest + seq![c] + b, c);
        assert(s.take(i) + seq![c] + (rest + seq![c] + b) =~= s + seq![c] + b);
        assert(seq![s.take(i)] + pieces(rest, c).push(b) =~= (seq![s.take(i)] + pieces(
            rest,
            c,
        )).push(b));
    } else {
        lemma_pieces_head(s, b, c);
        lemma_pieces_one(b, c);
        assert(seq![s] + seq![b] =~= seq![s].push(b));
    }
}

proof fn lemma_pieces_one(s: Seq<char>, c: char)
    requires
        lacks(s, c),
    ensures
        pieces(s, c) == seq![s],
{
    lemma_index_of(s, c);
}

/// Joining parts that hold no separator and splitting again gives the parts.
pub proof fn splitting_undoes_joining(parts: Seq<Seq<char>>, c: char, sep: Seq<char>)
    requires
        parts.len() > 0,
        sep == seq![c],
        forall|i: int| 0 <= i < parts.len() ==> lacks(#[trigger] parts[i], c),
    ensures
        pieces(joined(parts, sep), c) == parts,
    decreases parts.len(),
{
    if parts.len() == 1 {
        lemma_pieces_one(parts[0], c);
        assert(parts =~= seq![parts[0]]);
    } else {
        let head = parts.drop_last();
        assert forall|i: int| 0 <= i < head.len() implies lacks(#[trigger] head[i], c) by {
            assert(head[i] == parts[i]);
        }
        splitting_undoes_joining(head, c, sep);
        assert(lacks(parts[parts.len() - 1], c));
        lemma_pieces_tail(joined(head, sep), parts.last(), c);
        assert(head.push(parts.last()) =~= parts);
    }
}

/// A number in decimal is made of digits and a sign.
pub proof fn decimals_are_plain(n: int, c: char)
    requires
        !is_digit(c),
        c != '-',
    ensures
        lacks(decimal(n), c),
{
    let m = if n < 0 {
        -n
    } else {
        n
    };
    lemma_nat_digits(m);
    assert forall|i: int| 0 <= i < decimal(n).len() implies #[trigger] decimal(n)[i] != c by {
        if n < 0 && i > 0 {
            assert(decimal(n)[i] == nat_digits(m)[i - 1]);
        }
    }
}

/// The index of the first `c` in `v` at or after `from`, or the length.
fn next_index(v: &Vec<char>, c: char, from: usize) -> (i: usize)
    requires
        from <= v@.len(),
    ensures
        from <= i <= v@.len(),
        i - from == index_of(v@.skip(from as int), c),
{
    let mut i: usize = from;
    while i < v.len() && v[i] != c
        invariant
            from <= i <= v.len(),
            forall|j: int| from <= j < i ==> v@[j] != c,
        decreases v.len() - i,
    {
        i += 1;
    }
    proof {
        let s = v@.skip(from as int);
        assert forall|j: int| 0 <= j < i - from implies s[j] != c by {
            assert(s[j] == v@[from + j]);
        }
        lemma_index_of_is(s, c, i - from);
    }
    i
}

pub proof fn lemma_texts_push(v: Seq<String>, s: String)
    ensures
        texts(v.push(s)) == texts(v).push(s@),
{
    assert(texts(v.push(s)) =~= texts(v).push(s@));
}

pub fn split(s: &str, c: char) -> (r: Vec<String>)
    ensures
        texts(r@) == pieces(s@, c),
{
    let v = chars_of(s);
    let mut out: Vec<String> = Vec::new();
    let mut at: usize = 0;
    proof {
        assert(v@.skip(0) =~= s@);
        assert(texts(out@) + pieces(s@, c) =~= pieces(s@, c));
    }
    loop
        invariant_except_break
            texts(out@) + pieces(v@.skip(at as int), c) == pieces(s@, c),
        invariant
            v@ == s@,
            at <= v.len(),
        ensures
            texts(out@) == pieces(s@, c),
        decreases v.len() - at,
    {
        let i = next_index(&v, c, at);
        let piece = string_of(&v, at, i);
        let ghost rest = v@.skip(at as int);
        assert(piece@ =~= rest.take(i - at));
        proof {
            lemma_texts_push(out@, piece);
        }
        let ghost before = texts(out@);
        out.push(piece);
        if i == v.len() {
            assert(rest.take(i - at) =~= rest);
            assert(before + seq![rest] =~= before.push(rest));
            break;
        }
        at = i + 1;
        proof {
            assert(rest.skip(index_of(rest, c) + 1) =~= v@.skip(at as int));
            assert(before + (seq![rest.take(index_of(rest, c))] + pieces(v@.skip(at as int), c))
                =~= texts(out@) + pieces(v@.skip(at as int), c));
        }
    }
    out
}

/// The lines of a text: each ends at a line feed, which with a carriage
/// return before it is not part of the line. What follows the last line
/// feed is a line too, unless it is empty.
pub open spec fn lines_of(s: Seq<char>) -> Seq<Seq<char>>
    decreases s.len(),
    via lines_decreases
{
    let i = index_of(s, '\n');
    if i < s.len() {
        seq![without_return(s.take(i))] + lines_of(s.skip(i + 1))
    } else if s.len() == 0 {
        seq![]
    } else {
        seq![s]
    }
}

#[via_fn]
proof fn lines_decreases(s: Seq<char>) {
    lemma_index_of(s, '\n');
}

pub open spec fn without_return(s: Seq<char>) -> Seq<char> {
    if s.len() > 0 && s.last() == '\r' {
        s.drop_last()
    } else {
        s
    }
}

pub fn lines(s: &str) -> (r: Vec<String>)
    ensures
        texts(r@) == lines_of(s@),
{
    let v = chars_of(s);
    let mut out: Vec<String> = Vec::new();
    let mut at: usize = 0;
    proof {
        assert(v@.skip(0) =~= s@);
        assert(texts(out@) + lines_of(s@) =~= lines_of(s@));
    }
    while at < v.len()
        invariant
            v@ == s@,
            at <= v.len(),
            texts(out@) + lines_of(v@.skip(at as int)) == lines_of(s@),
        decreases v.len() - at,
    {
        let i = next_index(&v, '\n', at);
        let ghost rest = v@.skip(at as int);
        let mut hi: usize = i;
        if i < v.len() && i > at && v[i - 1] == '\r' {
            hi = i - 1;
        }
        let piece = string_of(&v, at, hi);
        let ghost before = texts(out@);
        proof {
            lemma_texts_push(out@, piece);
            let t = rest.take(i - at);
            if i < v@.len() {
                assert(piece@ =~= without_return(t));
            } else {
                assert(piece@ =~= rest);
            }
        }
        out.push(piece);
        if i == v.len() {
            proof {
                assert(before + seq![rest] =~= before.push(rest));
                assert(v@.skip(i as int) =~= Seq::<char>::empty());
                assert(texts(out@) + lines_of(v@.skip(i as int)) =~= texts(out@));
            }
            at = i;
        } else {
            at = i + 1;
            proof {
                let tail = v@.skip(at as int);
                assert(rest.skip(index_of(rest, '\n') + 1) =~= tail);
                assert(before + (seq![out@.last()@] + lines_of(tail)) =~= texts(out@) + lines_of(
                    tail,
                ));
            }
        }
    }
    proof {
        assert(v@.skip(at as int) =~= Seq::<char>::empty());
        assert(texts(out@) + lines_of(v@.skip(at as int)) =~= texts(out@));
    }
    out
}

/// What each line of a text ends in: a line feed, one with a carriage return
/// before it, or nothing.
pub open spec fn endings_of(s: Seq<char>) -> Seq<Seq<char>>
    decreases s.len(),
    via endings_decreases
{
    let i = index_of(s, '\n');
    if i < s.len() {
        seq![ending(s.take(i))] + endings_of(s.skip(i + 1))
    } else if s.len() == 0 {
        seq![]
    } else {
        seq![seq![]]
    }
}

#[via_fn]
proof fn endings_decreases(s: Seq<char>) {
    lemma_index_of(s, '\n');
}

/// The ending of a line that a line feed follows.
pub open spec fn ending(s: Seq<char>) -> Seq<char> {
    if s.len() > 0 && s.last() == '\r' {
        seq!['\r', '\n']
    } else {
        seq!['\n']
    }
}

/// What the lines of a text end in.
pub fn endings(s: &str) -> (r: Vec<&'static str>)
    ensures
        slices(r@) == endings_of(s@),
{
    let v = chars_of(s);
    let mut out: Vec<&'static str> = Vec::new();
    let mut at: usize = 0;
    proof {
        reveal_strlit("\n");
        reveal_strlit("\r\n");
        reveal_strlit("");
        assert(v@.skip(0) =~= s@);
        assert(slices(out@) + endings_of(s@) =~= endings_of(s@));
    }
    while at < v.len()
        invariant
            v@ == s@,
            at <= v.len(),
            "\n"@ == seq!['\n'],
            "\r\n"@ == seq!['\r', '\n'],
            ""@ == Seq::<char>::empty(),
            slices(out@) + endings_of(v@.skip(at as int)) == endings_of(s@),
        decreases v.len() - at,
    {
        let i = next_index(&v, '\n', at);
        let ghost rest = v@.skip(at as int);
        let ghost before = slices(out@);
        let end: &'static str = if i >= v.len() {
            ""
        } else if i > at && v[i - 1] == '\r' {
            "\r\n"
        } else {
            "\n"
        };
        out.push(end);
        assert(slices(out@) =~= before.push(end@));
        if i >= v.len() {
            proof {
                assert(rest.len() > 0);
                assert(endings_of(rest) =~= seq![end@]);
                assert(v@.skip(v@.len() as int) =~= seq![]);
                assert(slices(out@) + endings_of(v@.skip(v@.len() as int)) =~= slices(out@));
                assert(before + endings_of(rest) =~= slices(out@));
            }
            at = v.len();
        } else {
            proof {
                let t = rest.take(i - at);
                if i > at {
                    assert(t.last() == v@[i - 1]);
                }
                assert(end@ == ending(t));
                assert(rest.skip(i - at + 1) =~= v@.skip(i + 1));
                assert(before + (seq![end@] + endings_of(v@.skip(i + 1))) =~= slices(out@)
                    + endings_of(v@.skip(i + 1)));
            }
            at = i + 1;
        }
    }
    proof {
        assert(v@.skip(at as int) =~= seq![]);
        assert(slices(out@) + endings_of(v@.skip(at as int)) =~= slices(out@));
    }
    out
}

/// The characters of each slice.
pub open spec fn slices(v: Seq<&'static str>) -> Seq<Seq<char>> {
    Seq::new(v.len(), |i: int| v[i]@)
}

/// The length of the longest prefix without white space.
pub open spec fn word_len(s: Seq<char>) -> int
    decreases s.len(),
{
    if s.len() == 0 || white(s[0]) {
        0
    } else {
        1 + word_len(s.drop_first())
    }
}

/// The words of a text: its longest runs without white space.
pub open spec fn words_of(s: Seq<char>) -> Seq<Seq<char>>
    decreases s.len(),
    via words_decreases
{
    let t = trim_start_of(s);
    if t.len() == 0 {
        seq![]
    } else {
        seq![t.take(word_len(t))] + words_of(t.skip(word_len(t)))
    }
}

pub proof fn lemma_word_len(s: Seq<char>)
    ensures
        0 <= word_len(s) <= s.len(),
        s.len() > 0 && !white(s[0]) ==> word_len(s) > 0,
    decreases s.len(),
{
    if s.len() > 0 && !white(s[0]) {
        lemma_word_len(s.drop_first());
    }
}

pub proof fn lemma_trim_start(s: Seq<char>)
    ensures
        trim_start_of(s).len() <= s.len(),
        trim_start_of(s).len() > 0 ==> !white(trim_start_of(s)[0]),
    decreases s.len(),
{
    if s.len() > 0 && white(s[0]) {
        lemma_trim_start(s.drop_first());
    }
}

#[via_fn]
proof fn words_decreases(s: Seq<char>) {
    lemma_trim_start(s);
    lemma_word_len(trim_start_of(s));
}

pub fn words(s: &str) -> (r: Vec<String>)
    ensures
        texts(r@) == words_of(s@),
{
    let v = chars_of(s);
    let mut out: Vec<String> = Vec::new();
    let mut at: usize = 0;
    proof {
        assert(v@.skip(0) =~= s@);
        assert(texts(out@) + words_of(s@) =~= words_of(s@));
    }
    loop
        invariant
            v@ == s@,
            at <= v.len(),
            texts(out@) + words_of(v@.skip(at as int)) == words_of(s@),
        ensures
            texts(out@) == words_of(s@),
        decreases v.len() - at,
    {
        let lo = start_index(&v, at, v.len());
        let ghost rest = v@.skip(at as int);
        let ghost t = v@.skip(lo as int);
        proof {
            assert(v@.subrange(at as int, v@.len() as int) =~= rest);
            assert(v@.subrange(lo as int, v@.len() as int) =~= t);
            lemma_trim_start(rest);
            lemma_word_len(t);
        }
        if lo == v.len() {
            assert(texts(out@) + words_of(rest) =~= texts(out@));
            break;
        }
        let mut hi: usize = lo;
        while hi < v.len() && !is_white(v[hi])
            invariant
                lo <= hi <= v.len(),
                t == v@.skip(lo as int),
                word_len(t) == (hi - lo) + word_len(v@.skip(hi as int)),
            decreases v.len() - hi,
        {
            assert(v@.skip(hi as int).drop_first() =~= v@.skip(hi + 1));
            hi += 1;
        }
        let piece = string_of(&v, lo, hi);
        let ghost before = texts(out@);
        proof {
            lemma_texts_push(out@, piece);
            assert(piece@ =~= t.take(word_len(t)));
            assert(t.skip(word_len(t)) =~= v@.skip(hi as int));
            assert(before + (seq![piece@] + words_of(v@.skip(hi as int))) =~= before.push(piece@)
                + words_of(v@.skip(hi as int)));
        }
        out.push(piece);
        at = hi;
    }
    out
}

/// The parts, with `sep` between neighbours.
pub open spec fn joined(parts: Seq<Seq<char>>, sep: Seq<char>) -> Seq<char>
    decreases parts.len(),
{
    if parts.len() == 0 {
        seq![]
    } else if parts.len() == 1 {
        parts[0]
    } else {
        joined(parts.drop_last(), sep) + sep + parts.last()
    }
}

pub fn join(parts: &Vec<String>, sep: &str) -> (r: String)
    ensures
        r@ == joined(texts(parts@), sep@),
{
    let mut out = String::new();
    let mut i: usize = 0;
    while i < parts.len()
        invariant
            i <= parts.len(),
            out@ == joined(texts(parts@).take(i as int), sep@),
        decreases parts.len() - i,
    {
        if i > 0 {
            out.push_str(sep);
        }
        out.push_str(parts[i].as_str());
        proof {
            let now = texts(parts@).take(i + 1);
            assert(now.drop_last() =~= texts(parts@).take(i as int));
            assert(now.last() == parts@[i as int]@);
            if i == 0 {
                assert(out@ =~= parts@[0]@);
            }
        }
        i += 1;
    }
    assert(texts(parts@).take(i as int) =~= texts(parts@));
    out
}

/// A text with `w` in place of each `c`.
pub open spec fn replaced(s: Seq<char>, c: char, w: Seq<char>) -> Seq<char>
    decreases s.len(),
{
    if s.len() == 0 {
        seq![]
    } else if s.last() == c {
        replaced(s.drop_last(), c, w) + w
    } else {
        replaced(s.drop_last(), c, w).push(s.last())
    }
}

pub fn replace_char(s: &str, c: char, w: &str) -> (r: String)
    ensures
        r@ == replaced(s@, c, w@),
{
    let v = chars_of(s);
    let mut out = String::new();
    let mut i: usize = 0;
    while i < v.len()
        invariant
            i <= v.len(),
            v@ == s@,
            out@ == replaced(s@.take(i as int), c, w@),
        decreases v.len() - i,
    {
        assert(s@.take(i + 1).drop_last() =~= s@.take(i as int));
        assert(s@.take(i + 1).last() == s@[i as int]);
        if v[i] == c {
            out.push_str(w);
        } else {
            out.push(v[i]);
        }
        i += 1;
    }
    assert(s@.take(i as int) =~= s@);
    out
}

/// The ASCII lower-case form of a character.
pub open spec fn ascii_lower_char(c: char) -> char {
    if 'A' as int <= c as int <= 'Z' as int {
        (c as int + 32) as char
    } else {
        c
    }
}

/// A text with its ASCII letters in lower case.
pub open spec fn ascii_lower(s: Seq<char>) -> Seq<char> {
    Seq::new(s.len(), |i: int| ascii_lower_char(s[i]))
}

pub fn lower_char(c: char) -> (r: char)
    ensures
        r == ascii_lower_char(c),
{
    let u: u32 = code(c);
    if 65 <= u && u <= 90 {
        (u as u8 + 32u8) as char
    } else {
        c
    }
}

pub fn to_ascii_lowercase(s: &str) -> (r: String)
    ensures
        r@ == ascii_lower(s@),
{
    let v = chars_of(s);
    let mut out = String::new();
    let mut i: usize = 0;
    while i < v.len()
        invariant
            i <= v.len(),
            v@ == s@,
            out@ == ascii_lower(s@.take(i as int)),
        decreases v.len() - i,
    {
        out.push(lower_char(v[i]));
        i += 1;
        assert(out@ =~= ascii_lower(s@.take(i as int)));
    }
    assert(s@.take(i as int) =~= s@);
    out
}

/// The length of the longest prefix of letters and digits.
pub open spec fn run_len(s: Seq<char>) -> int
    decreases s.len(),
{
    if s.len() == 0 || !letter_or_digit(s[0]) {
        0
    } else {
        1 + run_len(s.drop_first())
    }
}

/// A text without what stands before its first letter or digit.
pub open spec fn from_run(s: Seq<char>) -> Seq<char>
    decreases s.len(),
{
    if s.len() == 0 || letter_or_digit(s[0]) {
        s
    } else {
        from_run(s.drop_first())
    }
}

/// The longest runs of letters and digits in a text.
pub open spec fn runs_of(s: Seq<char>) -> Seq<Seq<char>>
    decreases s.len(),
    via runs_decreases
{
    let t = from_run(s);
    if t.len() == 0 {
        seq![]
    } else {
        seq![t.take(run_len(t))] + runs_of(t.skip(run_len(t)))
    }
}

proof fn lemma_run_len(s: Seq<char>)
    ensures
        0 <= run_len(s) <= s.len(),
        s.len() > 0 && letter_or_digit(s[0]) ==> run_len(s) > 0,
    decreases s.len(),
{
    if s.len() > 0 && letter_or_digit(s[0]) {
        lemma_run_len(s.drop_first());
    }
}

proof fn lemma_from_run(s: Seq<char>)
    ensures
        from_run(s).len() <= s.len(),
        from_run(s).len() > 0 ==> letter_or_digit(from_run(s)[0]),
    decreases s.len(),
{
    if s.len() > 0 && !letter_or_digit(s[0]) {
        lemma_from_run(s.drop_first());
    }
}

#[via_fn]
proof fn runs_decreases(s: Seq<char>) {
    lemma_from_run(s);
    lemma_run_len(from_run(s));
}

/// The index of the first letter or digit at or after `from`.
pub fn run_start(v: &Vec<char>, from: usize) -> (i: usize)
    requires
        from <= v@.len(),
    ensures
        from <= i <= v@.len(),
        v@.skip(i as int) == from_run(v@.skip(from as int)),
{
    let mut i: usize = from;
    while i < v.len() && !is_alphanumeric(v[i])
        invariant
            from <= i <= v.len(),
            from_run(v@.skip(from as int)) == from_run(v@.skip(i as int)),
        decreases v.len() - i,
    {
        assert(v@.skip(i as int).drop_first() =~= v@.skip(i + 1));
        i += 1;
    }
    i
}

pub fn runs(s: &str) -> (r: Vec<String>)
    ensures
        texts(r@) == runs_of(s@),
{
    let v = chars_of(s);
    let mut out: Vec<String> = Vec::new();
    let mut at: usize = 0;
    proof {
        assert(v@.skip(0) =~= s@);
        assert(texts(out@) + runs_of(s@) =~= runs_of(s@));
    }
    loop
        invariant
            v@ == s@,
            at <= v.len(),
            texts(out@) + runs_of(v@.skip(at as int)) == runs_of(s@),
        ensures
            texts(out@) == runs_of(s@),
        decreases v.len() - at,
    {
        let lo = run_start(&v, at);
        let ghost rest = v@.skip(at as int);
        let ghost t = v@.skip(lo as int);
        proof {
            lemma_from_run(rest);
            lemma_run_len(t);
        }
        if lo == v.len() {
            assert(texts(out@) + runs_of(rest) =~= texts(out@));
            break;
        }
        let mut hi: usize = lo;
        while hi < v.len() && is_alphanumeric(v[hi])
            invariant
                lo <= hi <= v.len(),
                t == v@.skip(lo as int),
                run_len(t) == (hi - lo) + run_len(v@.skip(hi as int)),
            decreases v.len() - hi,
        {
            assert(v@.skip(hi as int).drop_first() =~= v@.skip(hi + 1));
            hi += 1;
        }
        let piece = string_of(&v, lo, hi);
        let ghost before = texts(out@);
        proof {
            lemma_texts_push(out@, piece);
            assert(piece@ =~= t.take(run_len(t)));
            assert(t.skip(run_len(t)) =~= v@.skip(hi as int));
            assert(before + (seq![piece@] + runs_of(v@.skip(hi as int))) =~= before.push(piece@)
                + runs_of(v@.skip(hi as int)));
        }
        out.push(piece);
        at = hi;
    }
    out
}

// --------------------------------------------------------------- numbers

pub open spec fn digit_char(d: int) -> char {
    (48 + d) as char
}

pub open spec fn is_digit(c: char) -> bool {
    '0' as int <= c as int <= '9' as int
}

pub open spec fn digit_value(c: char) -> int {
    c as int - 48
}

/// The decimal digits of a number.
pub open spec fn nat_digits(n: int) -> Seq<char>
    decreases n,
{
    if n < 10 {
        seq![digit_char(n)]
    } else {
        nat_digits(n / 10).push(digit_char(n % 10))
    }
}

/// A number as it is written in decimal.
pub open spec fn decimal(n: int) -> Seq<char> {
    if n < 0 {
        seq!['-'] + nat_digits(-n)
    } else {
        nat_digits(n)
    }
}

pub open spec fn repeated(c: char, n: int) -> Seq<char> {
    Seq::new(if n < 0 { 0nat } else { n as nat }, |i: int| c)
}

/// A number in decimal, with zeros between the sign and the digits up to
/// `width` characters.
pub open spec fn padded(n: int, width: int) -> Seq<char> {
    if n < 0 {
        seq!['-'] + repeated('0', width - 1 - nat_digits(-n).len()) + nat_digits(-n)
    } else {
        repeated('0', width - nat_digits(n).len()) + nat_digits(n)
    }
}

/// The value of a run of decimal digits.
pub open spec fn digits_value(s: Seq<char>) -> int
    decreases s.len(),
{
    if s.len() == 0 {
        0
    } else {
        digits_value(s.drop_last()) * 10 + digit_value(s.last())
    }
}

pub open spec fn all_digits(s: Seq<char>) -> bool {
    forall|i: int| 0 <= i < s.len() ==> is_digit(#[trigger] s[i])
}

/// The number that a text of at least one decimal digit stands for.
pub open spec fn natural(s: Seq<char>) -> Option<int> {
    if s.len() > 0 && all_digits(s) {
        Some(digits_value(s))
    } else {
        None
    }
}

/// The number that a text of decimal digits stands for, which may follow a
/// sign.
pub open spec fn integer(s: Seq<char>) -> Option<int> {
    if s.len() > 0 && s[0] == '-' {
        match natural(s.skip(1)) {
            Some(n) => Some(-n),
            None => None,
        }
    } else if s.len() > 0 && s[0] == '+' {
        natural(s.skip(1))
    } else {
        natural(s)
    }
}

/// The `i64` that a text is the decimal form of.
pub open spec fn integer_i64(s: Seq<char>) -> Option<int> {
    match integer(s) {
        Some(n) => if i64::MIN <= n <= i64::MAX {
            Some(n)
        } else {
            None
        },
        None => None,
    }
}

/// The `u64` that a text is the decimal form of; a plus sign may stand
/// before the digits.
pub open spec fn integer_u64(s: Seq<char>) -> Option<int> {
    let n = if s.len() > 0 && s[0] == '+' {
        natural(s.skip(1))
    } else {
        natural(s)
    };
    match n {
        Some(n) => if n <= u64::MAX {
            Some(n)
        } else {
            None
        },
        None => None,
    }
}

fn push_nat(out: &mut String, n: u64)
    ensures
        final(out)@ == old(out)@ + nat_digits(n as int),
    decreases n,
{
    if n >= 10 {
        push_nat(out, n / 10);
    }
    out.push((48u8 + (n % 10) as u8) as char);
    assert(out@ =~= old(out)@ + nat_digits(n as int));
}

fn magnitude(n: i64) -> (r: u64)
    ensures
        r == (if n < 0 { -(n as int) } else { n as int }),
{
    if n < 0 {
        (-(n + 1)) as u64 + 1
    } else {
        n as u64
    }
}

pub fn dec(n: i64) -> (r: String)
    ensures
        r@ == decimal(n as int),
{
    let mut out = String::new();
    if n < 0 {
        out.push('-');
    }
    push_nat(&mut out, magnitude(n));
    assert(out@ =~= decimal(n as int));
    out
}

pub fn dec_u64(n: u64) -> (r: String)
    ensures
        r@ == decimal(n as int),
{
    let mut out = String::new();
    push_nat(&mut out, n);
    assert(out@ =~= decimal(n as int));
    out
}

pub fn dec_usize(n: usize) -> (r: String)
    ensures
        r@ == decimal(n as int),
{
    dec_u64(n as u64)
}

/// `n` in decimal, padded with zeros to `width` characters.
pub fn dec_padded(n: i64, width: usize) -> (r: String)
    ensures
        r@ == padded(n as int, width as int),
{
    let mut digits = String::new();
    push_nat(&mut digits, magnitude(n));
    let digits = chars_of(digits.as_str());
    let ghost m: int = if n < 0 { -(n as int) } else { n as int };
    assert(digits@ =~= nat_digits(m));
    let mut out = String::new();
    let mut width: usize = width;
    let ghost asked: int = width as int;
    if n < 0 {
        out.push('-');
        if width > 0 {
            width -= 1;
        }
    }
    let ghost sign = out@;
    let mut filled: usize = digits.len();
    while filled < width
        invariant
            digits.len() <= filled,
            filled <= width || filled == digits.len(),
            out@ == sign + repeated('0', filled - digits.len()),
        decreases width - filled,
    {
        out.push('0');
        filled += 1;
        assert(out@ =~= sign + repeated('0', filled - digits.len()));
    }
    proof {
        assert(repeated('0', width - digits.len()) =~= repeated('0', filled - digits.len()));
        if n < 0 && asked == 0 {
            assert(repeated('0', -1 - digits.len()) =~= repeated('0', 0 - digits.len()));
        }
    }
    out.push_str(string_of(&digits, 0, digits.len()).as_str());
    assert(out@ =~= padded(n as int, asked));
    out
}

proof fn lemma_digits_grow(s: Seq<char>, k: int)
    requires
        0 <= k <= s.len(),
        all_digits(s),
    ensures
        0 <= digits_value(s.take(k)) <= digits_value(s),
    decreases s.len() - k,
{
    if k == s.len() {
        assert(s.take(k) =~= s);
        lemma_digits_nonneg(s);
    } else {
        lemma_digits_grow(s, k + 1);
        let t = s.take(k + 1);
        assert(t.drop_last() =~= s.take(k));
        assert(is_digit(s[k]));
        lemma_digits_nonneg(s.take(k));
    }
}

proof fn lemma_digits_nonneg(s: Seq<char>)
    requires
        all_digits(s),
    ensures
        0 <= digits_value(s),
    decreases s.len(),
{
    if s.len() > 0 {
        assert(is_digit(s.last()));
        assert forall|i: int| 0 <= i < s.drop_last().len() implies is_digit(
            #[trigger] s.drop_last()[i],
        ) by {
            assert(s.drop_last()[i] == s[i]);
        }
        lemma_digits_nonneg(s.drop_last());
    }
}

/// The number that the characters from `from` on stand for.
fn parse_digits(v: &Vec<char>, from: usize) -> (r: Option<u64>)
    requires
        from <= v@.len(),
    ensures
        match r {
            Some(n) => natural(v@.skip(from as int)) == Some(n as int),
            None => match natural(v@.skip(from as int)) {
                Some(n) => n > u64::MAX,
                None => true,
            },
        },
{
    let ghost s = v@.skip(from as int);
    if from == v.len() {
        return None;
    }
    let mut n: u64 = 0;
    let mut i: usize = from;
    while i < v.len()
        invariant
            from <= i <= v.len(),
            s == v@.skip(from as int),
            n == digits_value(s.take(i - from)),
            forall|j: int| 0 <= j < i - from ==> is_digit(#[trigger] s[j]),
        decreases v.len() - i,
    {
        let c = v[i];
        assert(c == s[i - from]);
        let u: u32 = code(c);
        if u < 48 || u > 57 {
            assert(!is_digit(s[i - from]));
            return None;
        }
        let d: u64 = (u - 48) as u64;
        assert(s.take(i - from + 1).drop_last() =~= s.take(i - from));
        if n > (u64::MAX - d) / 10 {
            proof {
                if all_digits(s) {
                    lemma_digits_grow(s, i - from + 1);
                    assert(digits_value(s.take(i - from + 1)) == n * 10 + d);
                }
            }
            return None;
        }
        n = n * 10 + d;
        i += 1;
    }
    assert(s.take(i - from) =~= s);
    Some(n)
}

pub open spec fn opt_int(o: Option<i64>) -> Option<int> {
    match o {
        Some(n) => Some(n as int),
        None => None,
    }
}

pub fn parse_i64(s: &str) -> (r: Option<i64>)
    ensures
        opt_int(r) == integer_i64(s@),
{
    let v = chars_of(s);
    if v.len() == 0 {
        return None;
    }
    assert(v@.skip(0) =~= s@);
    let negative = v[0] == '-';
    let from: usize = if negative || v[0] == '+' { 1 } else { 0 };
    match parse_digits(&v, from) {
        Some(n) => {
            if negative {
                if n <= 0x8000_0000_0000_0000 {
                    if n == 0 {
                        Some(0)
                    } else {
                        Some(-((n - 1) as i64) - 1)
                    }
                } else {
                    None
                }
            } else if n <= 0x7fff_ffff_ffff_ffff {
                Some(n as i64)
            } else {
                None
            }
        },
        None => None,
    }
}

pub fn parse_u64(s: &str) -> (r: Option<u64>)
    ensures
        (match r {
            Some(n) => Some(n as int),
            None => None,
        }) == integer_u64(s@),
{
    let v = chars_of(s);
    if v.len() == 0 {
        return None;
    }
    assert(v@.skip(0) =~= s@);
    let from: usize = if v[0] == '+' { 1 } else { 0 };
    parse_digits(&v, from)
}

/// The `usize` that a text is the decimal form of.
pub open spec fn integer_usize(s: Seq<char>) -> Option<int> {
    match integer_u64(s) {
        Some(n) => if n <= usize::MAX {
            Some(n)
        } else {
            None
        },
        None => None,
    }
}

pub fn parse_usize(s: &str) -> (r: Option<usize>)
    ensures
        (match r {
            Some(n) => Some(n as int),
            None => None,
        }) == integer_usize(s@),
{
    match parse_u64(s) {
        Some(n) => if n <= usize::MAX as u64 {
            Some(n as usize)
        } else {
            None
        },
        None => None,
    }
}

/// The texts of a list of literals.
pub open spec fn words_in(list: Seq<&'static str>) -> Seq<Seq<char>> {
    Seq::new(list.len(), |i: int| list[i]@)
}

pub fn push_text(v: &mut Vec<String>, s: &str)
    ensures
        texts(final(v)@) == texts(old(v)@).push(s@),
{
    let s = s.to_owned();
    proof {
        lemma_texts_push(v@, s);
    }
    v.push(s);
}

pub fn push_words(v: &mut Vec<String>, list: &[&'static str])
    ensures
        texts(final(v)@) == texts(old(v)@) + words_in(list@),
{
    let mut i: usize = 0;
    assert(texts(v@) =~= texts(old(v)@) + words_in(list@).take(0));
    while i < list.len()
        invariant
            i <= list.len(),
            texts(v@) == texts(old(v)@) + words_in(list@).take(i as int),
        decreases list.len() - i,
    {
        push_text(v, list[i]);
        i += 1;
        assert(texts(v@) =~= texts(old(v)@) + words_in(list@).take(i as int));
    }
    assert(words_in(list@).take(i as int) =~= words_in(list@));
}

/// Digits written out read back as the number.
pub proof fn lemma_nat_digits(n: int)
    requires
        0 <= n,
    ensures
        nat_digits(n).len() > 0,
        all_digits(nat_digits(n)),
        digits_value(nat_digits(n)) == n,
    decreases n,
{
    if n < 10 {
        let s = nat_digits(n);
        assert(s.drop_last() =~= Seq::<char>::empty());
        assert(digits_value(s.drop_last()) == 0);
        assert(s.last() == digit_char(n));
    } else {
        lemma_nat_digits(n / 10);
        let s = nat_digits(n);
        assert(s.drop_last() =~= nat_digits(n / 10));
        assert(s.last() == digit_char(n % 10));
        assert forall|i: int| 0 <= i < s.len() implies is_digit(#[trigger] s[i]) by {
            if i < s.len() - 1 {
                assert(s[i] == nat_digits(n / 10)[i]);
                assert(is_digit(nat_digits(n / 10)[i]));
            }
        }
    }
}

/// A number written in decimal reads back as itself.
pub proof fn decimal_round_trip(n: int)
    ensures
        integer(decimal(n)) == Some(n),
{
    let m = if n < 0 { -n } else { n };
    lemma_nat_digits(m);
    if n < 0 {
        assert(decimal(n).skip(1) =~= nat_digits(m));
    } else {
        assert(is_digit(decimal(n)[0]));
    }
}

// -------------------------------------------------------------------- laws

proof fn lemma_trim_end(s: Seq<char>)
    ensures
        trim_end_of(s).len() <= s.len(),
        trim_end_of(s) == s.take(trim_end_of(s).len() as int),
        forall|i: int| trim_end_of(s).len() <= i < s.len() ==> white(#[trigger] s[i]),
        trim_end_of(s).len() > 0 ==> !white(trim_end_of(s).last()),
    decreases s.len(),
{
    if s.len() > 0 && white(s.last()) {
        let head = s.drop_last();
        lemma_trim_end(head);
        let n = trim_end_of(s).len() as int;
        assert(s.take(n) =~= head.take(n));
        assert forall|i: int| n <= i < s.len() implies white(#[trigger] s[i]) by {
            if i < head.len() {
                assert(head[i] == s[i]);
            }
        }
    } else {
        assert(s.take(s.len() as int) =~= s);
    }
}

proof fn lemma_trim_front(s: Seq<char>)
    ensures
        ({
            let n = s.len() - trim_start_of(s).len();
            &&& 0 <= n <= s.len()
            &&& trim_start_of(s) == s.skip(n)
            &&& forall|i: int| 0 <= i < n ==> white(#[trigger] s[i])
            &&& n < s.len() ==> !white(s[n])
        }),
    decreases s.len(),
{
    if s.len() > 0 && white(s[0]) {
        let rest = s.drop_first();
        lemma_trim_front(rest);
        let n = s.len() - trim_start_of(s).len();
        assert(s.skip(n) =~= rest.skip(n - 1));
        assert forall|i: int| 0 <= i < n implies white(#[trigger] s[i]) by {
            if i > 0 {
                assert(rest[i - 1] == s[i]);
            }
        }
        if n < s.len() {
            assert(rest[n - 1] == s[n]);
        }
    } else {
        assert(s.skip(0) =~= s);
    }
}

/// Trimming takes the white space off both ends of a text, all of it, and
/// nothing else.
pub proof fn trimming_takes_white_space_off(s: Seq<char>)
    ensures
        exists|a: int, b: int|
            {
                &&& 0 <= a <= b <= s.len()
                &&& trimmed(s) == #[trigger] s.subrange(a, b)
                &&& forall|i: int| 0 <= i < a || b <= i < s.len() ==> white(#[trigger] s[i])
            },
        trimmed(s).len() > 0 ==> !white(trimmed(s)[0]) && !white(trimmed(s).last()),
{
    let t = trim_start_of(s);
    lemma_trim_front(s);
    lemma_trim_end(t);
    let a = s.len() - t.len();
    let b = a + trimmed(s).len();
    assert(trimmed(s) =~= s.subrange(a, b));
    assert forall|i: int| 0 <= i < a || b <= i < s.len() implies white(#[trigger] s[i]) by {
        if i >= a {
            assert(t[i - a] == s[i]);
        }
    }
    if trimmed(s).len() > 0 {
        assert(trimmed(s)[0] == t[0]);
    }
}

proof fn lemma_word_len_is(w: Seq<char>, rest: Seq<char>)
    requires
        forall|i: int| 0 <= i < w.len() ==> !white(#[trigger] w[i]),
        rest.len() > 0 ==> white(rest[0]),
    ensures
        word_len(w + rest) == w.len(),
    decreases w.len(),
{
    if w.len() > 0 {
        let more = w.drop_first();
        assert((w + rest)[0] == w[0]);
        assert((w + rest).drop_first() =~= more + rest);
        assert forall|i: int| 0 <= i < more.len() implies !white(#[trigger] more[i]) by {
            assert(more[i] == w[i + 1]);
        }
        lemma_word_len_is(more, rest);
    } else {
        assert(w + rest =~= rest);
    }
}

/// The words of a text are what white space sets apart: white space before a
/// word does not count, and what stands before the next white space is the
/// word.
pub proof fn words_are_set_apart_by_white_space(w: Seq<char>, c: char, rest: Seq<char>)
    requires
        white(c),
    ensures
        words_of(seq![]).len() == 0,
        words_of(seq![c] + rest) == words_of(rest),
        w.len() > 0 && (forall|i: int| 0 <= i < w.len() ==> !white(#[trigger] w[i])) ==> {
            &&& words_of(w + seq![c] + rest) == seq![w] + words_of(rest)
            &&& words_of(w) == seq![w]
        },
{
    let spaced = seq![c] + rest;
    assert(spaced.drop_first() =~= rest);
    assert(trim_start_of(spaced) == trim_start_of(rest));
    if w.len() > 0 && (forall|i: int| 0 <= i < w.len() ==> !white(#[trigger] w[i])) {
        let s = w + seq![c] + rest;
        assert(!white(w[0]));
        assert(s =~= w + spaced);
        lemma_word_len_is(w, spaced);
        assert(s[0] == w[0]);
        assert(s.take(w.len() as int) =~= w);
        assert(s.skip(w.len() as int) =~= spaced);
        assert(w + Seq::<char>::empty() =~= w);
        lemma_word_len_is(w, Seq::<char>::empty());
        assert(w.take(w.len() as int) =~= w);
        assert(w.skip(w.len() as int) =~= Seq::<char>::empty());
        assert(words_of(w) =~= seq![w] + words_of(Seq::<char>::empty()));
    }
}

/// A line ends at a line feed, and a carriage return before that is part of
/// the ending; the last line needs none.
pub proof fn lines_end_at_line_feeds(l: Seq<char>, rest: Seq<char>)
    requires
        lacks(l, '\n'),
    ensures
        lines_of(seq![]).len() == 0,
        l.len() > 0 ==> lines_of(l) == seq![l],
        l.len() == 0 || l.last() != '\r' ==> {
            &&& lines_of(l + seq!['\n'] + rest) == seq![l] + lines_of(rest)
            &&& lines_of(l + seq!['\r', '\n'] + rest) == seq![l] + lines_of(rest)
        },
{
    lemma_index_of_is(l, '\n', l.len() as int);
    let a = l + seq!['\n'] + rest;
    lemma_index_of_is(a, '\n', l.len() as int);
    assert(a.take(l.len() as int) =~= l);
    assert(a.skip(l.len() as int + 1) =~= rest);
    let b = l + seq!['\r', '\n'] + rest;
    let m = l.len() as int + 1;
    assert forall|j: int| 0 <= j < m implies b[j] != '\n' by {
        if j < l.len() {
            assert(b[j] == l[j]);
        }
    }
    lemma_index_of_is(b, '\n', m);
    assert(b.take(m) =~= l.push('\r'));
    assert(l.push('\r').drop_last() =~= l);
    assert(b.skip(m + 1) =~= rest);
}

/// A text is cut at each separator, and nowhere else.
pub proof fn pieces_are_cut_at_separators(p: Seq<char>, c: char, rest: Seq<char>)
    requires
        lacks(p, c),
    ensures
        pieces(p, c) == seq![p],
        pieces(p + seq![c] + rest, c) == seq![p] + pieces(rest, c),
{
    lemma_index_of_is(p, c, p.len() as int);
    let s = p + seq![c] + rest;
    let n = p.len() as int;
    assert forall|j: int| 0 <= j < n implies s[j] != c by {
        assert(s[j] == p[j]);
    }
    lemma_index_of_is(s, c, n);
    assert(s.take(n) =~= p);
    assert(s.skip(n + 1) =~= rest);
}

/// A part is joined to those before it with one separator between.
pub proof fn parts_are_joined_in_order(parts: Seq<Seq<char>>, p: Seq<char>, sep: Seq<char>)
    ensures
        joined(seq![], sep).len() == 0,
        joined(seq![p], sep) == p,
        parts.len() > 0 ==> joined(parts.push(p), sep) == joined(parts, sep) + sep + p,
{
    assert(parts.push(p).drop_last() =~= parts);
}

/// A number that is shorter than the width gets zeros before its digits; a
/// longer one stands as it is.
pub proof fn padding_fills_with_zeros(n: int, width: int)
    requires
        0 <= n,
    ensures
        n <= 9 ==> padded(n, 2) == seq!['0'] + decimal(n),
        10 <= n ==> padded(n, 2) == decimal(n),
        decimal(n).len() >= width ==> padded(n, width) == decimal(n),
        decimal(n).len() <= width ==> padded(n, width).len() == width,
{
    if n <= 9 {
        assert(decimal(n).len() == 1);
        assert(repeated('0', 1) =~= seq!['0']);
    } else {
        lemma_nat_digits(n / 10);
        assert(decimal(n).len() >= 2);
        assert(repeated('0', 2 - decimal(n).len()) =~= Seq::<char>::empty());
        assert(Seq::<char>::empty() + decimal(n) =~= decimal(n));
    }
    if decimal(n).len() >= width {
        assert(repeated('0', width - decimal(n).len()) =~= Seq::<char>::empty());
        assert(Seq::<char>::empty() + decimal(n) =~= decimal(n));
    }
}

/// A digit more makes a number ten times as large, and adds itself; anything
/// that is no digit makes it none.
pub proof fn digits_make_up_a_number(s: Seq<char>, d: int, c: char)
    requires
        s.len() > 0,
        0 <= d <= 9,
    ensures
        natural(s) is Some ==> natural(s.push((48 + d) as char)) == Some(
            10 * natural(s)->Some_0 + d,
        ),
        !('0' as int <= c as int <= '9' as int) ==> natural(s.push(c)) is None,
        natural(seq![]) is None,
        natural(s) is Some ==> integer(seq!['-'] + s) == Some(-natural(s)->Some_0) && integer(
            seq!['+'] + s,
        ) == natural(s),
{
    let more = s.push((48 + d) as char);
    assert(more.drop_last() =~= s);
    if natural(s) is Some {
        assert forall|i: int| 0 <= i < more.len() implies is_digit(#[trigger] more[i]) by {
            if i < s.len() {
                assert(more[i] == s[i]);
            }
        }
        assert((seq!['-'] + s).skip(1) =~= s);
        assert((seq!['+'] + s).skip(1) =~= s);
    }
    assert(s.push(c)[s.len() as int] == c);
}

/// Replacing a character leaves every other one where it stands.
pub proof fn only_the_character_is_replaced(s: Seq<char>, x: char, c: char, w: Seq<char>)
    ensures
        replaced(seq![], c, w).len() == 0,
        x == c ==> replaced(s.push(x), c, w) == replaced(s, c, w) + w,
        x != c ==> replaced(s.push(x), c, w) == replaced(s, c, w).push(x),
{
    assert(s.push(x).drop_last() =~= s);
}

/// The ASCII capitals have small letters; every other character is its own
/// lower case.
pub proof fn capitals_are_lowered(s: Seq<char>, i: int)
    requires
        0 <= i < s.len(),
    ensures
        ascii_lower(s).len() == s.len(),
        'A' <= s[i] && s[i] <= 'Z' ==> ascii_lower(s)[i] as int == s[i] as int + 32,
        s[i] < 'A' || s[i] > 'Z' ==> ascii_lower(s)[i] == s[i],
        ascii(s) ==> lowered(s) == ascii_lower(s),
{
}

} // verus!
