//! Text as sequences of characters: classes of characters, cutting, trimming,
//! searching and joining.
//!
//! The executable functions work on slices of characters, so that a part of a text is
//! a subslice of it; the specification functions beside them say what each part is.

use vstd::prelude::*;
use vstd::slice::slice_subrange;
use vstd::string::*;
use vstd::utf8::{decode_utf8, encode_utf8, valid_utf8};

verus! {

// ---------------------------------------------------------------------------
// Trusted: std
// ---------------------------------------------------------------------------

/// `String::push` appends one character.
pub assume_specification[ String::push ](s: &mut String, c: char)
    ensures
        final(s)@ == old(s)@.push(c),
;

/// `std::str::from_utf8` succeeds exactly on well-formed UTF-8 and then yields the
/// characters that the bytes encode.
#[verifier::external_body]
pub(crate) fn utf8_text(bytes: &[u8]) -> (r: Option<&str>)
    ensures
        r is Some <==> valid_utf8(bytes@),
        r matches Some(s) ==> s@ == decode_utf8(bytes@),
{
    std::str::from_utf8(bytes).ok()
}

/// What `String::from_utf8_lossy` makes of `bytes`.
pub uninterp spec fn lossy_text(bytes: Seq<u8>) -> Seq<char>;

/// `String::from_utf8_lossy`: the text is a function of the bytes, and it is what they
/// encode where they are well-formed.
#[verifier::external_body]
pub(crate) fn utf8_lossy(bytes: &[u8]) -> (r: String)
    ensures
        r@ == lossy_text(bytes@),
        valid_utf8(bytes@) ==> r@ == decode_utf8(bytes@),
{
    String::from_utf8_lossy(bytes).into_owned()
}

/// Whether `char::is_alphabetic` holds of `c` (the Unicode property `Alphabetic`).
pub uninterp spec fn alphabetic(c: char) -> bool;

/// `char::is_alphabetic`: a fixed property of the character, which holds of the ASCII
/// letters and of no other ASCII character.
#[verifier::external_body]
pub(crate) fn is_alphabetic(c: char) -> (r: bool)
    ensures
        r == alphabetic(c),
        c <= '\u{7f}' ==> r == is_ascii_alpha(c),
{
    c.is_alphabetic()
}

/// What `str::to_lowercase` makes of a text.
pub uninterp spec fn lowercase(s: Seq<char>) -> Seq<char>;

/// `str::to_lowercase`: a function of the text alone.
#[verifier::external_body]
pub(crate) fn to_lowercase(s: &str) -> (r: String)
    ensures
        r@ == lowercase(s@),
{
    s.to_lowercase()
}

// ---------------------------------------------------------------------------
// Classes of characters
// ---------------------------------------------------------------------------

/// An ASCII digit.
#[verifier::allow_in_spec]
pub fn is_digit(c: char) -> bool
    returns
        '0' <= c && c <= '9',
{
    '0' <= c && c <= '9'
}

/// An ASCII lower-case letter.
#[verifier::allow_in_spec]
pub fn is_ascii_lower(c: char) -> bool
    returns
        'a' <= c && c <= 'z',
{
    'a' <= c && c <= 'z'
}

/// An ASCII letter.
#[verifier::allow_in_spec]
pub fn is_ascii_alpha(c: char) -> bool
    returns
        ('a' <= c && c <= 'z') || ('A' <= c && c <= 'Z'),
{
    ('a' <= c && c <= 'z') || ('A' <= c && c <= 'Z')
}

/// An ASCII letter or digit.
#[verifier::allow_in_spec]
pub fn is_ascii_alnum(c: char) -> bool
    returns
        is_digit(c) || is_ascii_alpha(c),
{
    is_digit(c) || is_ascii_alpha(c)
}

/// A visible ASCII character (`!` to `~`).
#[verifier::allow_in_spec]
pub fn is_ascii_graphic(c: char) -> bool
    returns
        '!' <= c && c <= '~',
{
    '!' <= c && c <= '~'
}

/// A control character (the Unicode category `Cc`).
#[verifier::allow_in_spec]
pub fn is_control(c: char) -> bool
    returns
        c <= '\u{1f}' || ('\u{7f}' <= c && c <= '\u{9f}'),
{
    c <= '\u{1f}' || ('\u{7f}' <= c && c <= '\u{9f}')
}

/// A white-space character (the Unicode property `White_Space`).
#[verifier::allow_in_spec]
pub fn is_space(c: char) -> bool
    returns
        ('\u{9}' <= c && c <= '\u{d}') || c == ' ' || c == '\u{85}' || c == '\u{a0}' || c
            == '\u{1680}' || ('\u{2000}' <= c && c <= '\u{200a}') || c == '\u{2028}' || c
            == '\u{2029}' || c == '\u{202f}' || c == '\u{205f}' || c == '\u{3000}',
{
    ('\u{9}' <= c && c <= '\u{d}') || c == ' ' || c == '\u{85}' || c == '\u{a0}' || c == '\u{1680}'
        || ('\u{2000}' <= c && c <= '\u{200a}') || c == '\u{2028}' || c == '\u{2029}' || c
        == '\u{202f}' || c == '\u{205f}' || c == '\u{3000}'
}

/// `c` in upper case where it is an ASCII letter, and `c` itself elsewhere.
pub open spec fn ascii_upper(c: char) -> char {
    if 'a' <= c && c <= 'z' {
        (c as int - 32) as char
    } else {
        c
    }
}

/// Upper case of an ASCII letter.
pub fn to_ascii_upper(c: char) -> (r: char)
    ensures
        r == ascii_upper(c),
{
    if 'a' <= c && c <= 'z' {
        ((c as u8) - 32u8) as char
    } else {
        c
    }
}

/// `s` holds ASCII digits alone.
pub open spec fn only_digits(s: Seq<char>) -> bool {
    forall|i: int| 0 <= i < s.len() ==> is_digit(#[trigger] s[i])
}

/// Whether `s` holds ASCII digits alone.
pub fn has_only_digits(s: &[char]) -> (r: bool)
    ensures
        r == only_digits(s@),
{
    let mut i: usize = 0;
    while i < s.len()
        invariant
            i <= s@.len(),
            forall|j: int| 0 <= j < i ==> is_digit(#[trigger] s@[j]),
        decreases s@.len() - i,
    {
        if !is_digit(s[i]) {
            assert(!is_digit(s@[i as int]));
            return false;
        }
        i = i + 1;
    }
    true
}

// ---------------------------------------------------------------------------
// Conversions
// ---------------------------------------------------------------------------

/// The characters of `s`, in order.
pub fn chars_of(s: &str) -> (v: Vec<char>)
    ensures
        v@ == s@,
{
    let mut v: Vec<char> = Vec::new();
    for c in it: s.chars()
        invariant
            v@ == it.seq().take(it.index()),
    {
        v.push(c);
    }
    assert(v@ =~= s@);
    v
}

/// The string made of the characters `v`.
pub fn string_of(v: &[char]) -> (s: String)
    ensures
        s@ == v@,
{
    let mut s = String::new();
    let mut i: usize = 0;
    while i < v.len()
        invariant
            i <= v@.len(),
            s@ == v@.take(i as int),
        decreases v@.len() - i,
    {
        s.push(v[i]);
        i = i + 1;
        assert(v@.take(i as int) =~= v@.take(i - 1).push(v@[i - 1]));
    }
    assert(v@.take(i as int) =~= v@);
    s
}

/// The number of bytes that `s` takes in UTF-8.
pub open spec fn byte_len(s: Seq<char>) -> nat {
    encode_utf8(s).len()
}

/// The length of `s` in bytes.
pub fn byte_count(s: &str) -> (n: usize)
    ensures
        n == byte_len(s@),
{
    s.as_bytes().len()
}

/// The length in bytes of the text `v`.
pub fn byte_count_of(v: &[char]) -> (n: usize)
    ensures
        n == byte_len(v@),
{
    let s = string_of(v);
    byte_count(s.as_str())
}

// ---------------------------------------------------------------------------
// Comparison
// ---------------------------------------------------------------------------

/// Whether the two texts are equal.
pub fn same_chars(a: &[char], b: &[char]) -> (r: bool)
    ensures
        r == (a@ == b@),
{
    if a.len() != b.len() {
        return false;
    }
    let mut i: usize = 0;
    while i < a.len()
        invariant
            a@.len() == b@.len(),
            i <= a@.len(),
            forall|j: int| 0 <= j < i ==> a@[j] == b@[j],
        decreases a@.len() - i,
    {
        if a[i] != b[i] {
            return false;
        }
        i = i + 1;
    }
    assert(a@ =~= b@);
    true
}

/// Whether the characters `a` spell `b`.
pub fn is_str(a: &[char], b: &str) -> (r: bool)
    ensures
        r == (a@ == b@),
{
    let w = chars_of(b);
    same_chars(a, w.as_slice())
}

/// Whether two strings are equal.
pub fn same(a: &str, b: &str) -> (r: bool)
    ensures
        r == (a@ == b@),
{
    let v = chars_of(a);
    is_str(v.as_slice(), b)
}

/// `s` begins with `p`.
pub open spec fn starts_with(s: Seq<char>, p: Seq<char>) -> bool {
    p.len() <= s.len() && s.take(p.len() as int) == p
}

/// `s` ends with `p`.
pub open spec fn ends_with(s: Seq<char>, p: Seq<char>) -> bool {
    p.len() <= s.len() && s.skip(s.len() - p.len()) == p
}

/// Whether `s` begins with `p`.
pub fn has_prefix(s: &[char], p: &str) -> (r: bool)
    ensures
        r == starts_with(s@, p@),
{
    let w = chars_of(p);
    if w.len() > s.len() {
        return false;
    }
    let head = slice_subrange(s, 0, w.len());
    assert(head@ =~= s@.take(p@.len() as int));
    same_chars(head, w.as_slice())
}

/// Whether `s` ends with `p`.
pub fn has_suffix(s: &[char], p: &str) -> (r: bool)
    ensures
        r == ends_with(s@, p@),
{
    let w = chars_of(p);
    if w.len() > s.len() {
        return false;
    }
    let tail = slice_subrange(s, s.len() - w.len(), s.len());
    assert(tail@ =~= s@.skip(s@.len() - p@.len()));
    same_chars(tail, w.as_slice())
}

/// What follows `p` in `s`, where `s` begins with `p`.
pub fn strip_prefix<'a>(s: &'a [char], p: &str) -> (r: Option<&'a [char]>)
    ensures
        r is Some <==> starts_with(s@, p@),
        r matches Some(t) ==> t@ == s@.skip(p@.len() as int),
{
    if has_prefix(s, p) {
        let w = chars_of(p);
        let t = slice_subrange(s, w.len(), s.len());
        assert(t@ =~= s@.skip(p@.len() as int));
        Some(t)
    } else {
        None
    }
}

/// `p` occurs in `s` at the position `i`.
pub open spec fn occurs_at(s: Seq<char>, p: Seq<char>, i: int) -> bool {
    0 <= i && i + p.len() <= s.len() && s.subrange(i, i + p.len()) == p
}

/// `p` occurs somewhere in `s`.
pub open spec fn contains(s: Seq<char>, p: Seq<char>) -> bool {
    exists|i: int| occurs_at(s, p, i)
}

/// Whether `p` occurs somewhere in `s`.
pub fn has_substring(s: &[char], p: &str) -> (r: bool)
    ensures
        r == contains(s@, p@),
{
    let w = chars_of(p);
    let k: usize = w.len();
    let n: usize = s.len();
    if k > n {
        return false;
    }
    let mut i: usize = 0;
    loop
        invariant
            w@ == p@,
            k == w@.len(),
            n == s@.len(),
            i + k <= n,
            forall|j: int| 0 <= j < i ==> !occurs_at(s@, p@, j),
        decreases n - i,
    {
        let part = slice_subrange(s, i, i + k);
        if same_chars(part, w.as_slice()) {
            assert(occurs_at(s@, p@, i as int));
            return true;
        }
        assert(!occurs_at(s@, p@, i as int));
        if i == n - k {
            return false;
        }
        i = i + 1;
    }
}

// ---------------------------------------------------------------------------
// Trimming
// ---------------------------------------------------------------------------

/// `s` without the white space that it begins with.
pub open spec fn trim_start(s: Seq<char>) -> Seq<char>
    decreases s.len(),
{
    if s.len() > 0 && is_space(s[0]) {
        trim_start(s.drop_first())
    } else {
        s
    }
}

/// `s` without the white space that it ends with.
pub open spec fn trim_end(s: Seq<char>) -> Seq<char>
    decreases s.len(),
{
    if s.len() > 0 && is_space(s.last()) {
        trim_end(s.drop_last())
    } else {
        s
    }
}

/// `s` without the white space at its two ends.
pub open spec fn trimmed(s: Seq<char>) -> Seq<char> {
    trim_end(trim_start(s))
}

/// `s` without the characters `c` that it begins with.
pub open spec fn strip_start(s: Seq<char>, c: char) -> Seq<char>
    decreases s.len(),
{
    if s.len() > 0 && s[0] == c {
        strip_start(s.drop_first(), c)
    } else {
        s
    }
}

/// `s` without the characters `c` that it ends with.
pub open spec fn strip_end(s: Seq<char>, c: char) -> Seq<char>
    decreases s.len(),
{
    if s.len() > 0 && s.last() == c {
        strip_end(s.drop_last(), c)
    } else {
        s
    }
}

/// Trims the white space at both ends.
pub fn trim(s: &[char]) -> (r: &[char])
    ensures
        r@ == trimmed(s@),
{
    let n: usize = s.len();
    let mut i: usize = 0;
    assert(s@.skip(0) =~= s@);
    while i < n && is_space(s[i])
        invariant
            n == s@.len(),
            i <= n,
            trim_start(s@) == trim_start(s@.skip(i as int)),
        decreases n - i,
    {
        assert(s@.skip(i as int).drop_first() =~= s@.skip(i + 1));
        i = i + 1;
    }
    assert(trim_start(s@) == s@.skip(i as int));
    let mut j: usize = n;
    assert(s@.subrange(i as int, j as int) =~= s@.skip(i as int));
    while j > i && is_space(s[j - 1])
        invariant
            n == s@.len(),
            i <= j <= n,
            trimmed(s@) == trim_end(s@.subrange(i as int, j as int)),
        decreases j,
    {
        assert(s@.subrange(i as int, j as int).drop_last() =~= s@.subrange(i as int, j - 1));
        j = j - 1;
    }
    slice_subrange(s, i, j)
}

/// Drops every `c` at the end.
pub fn drop_trailing(s: &[char], c: char) -> (r: &[char])
    ensures
        r@ == strip_end(s@, c),
{
    let mut j: usize = s.len();
    assert(s@.subrange(0, j as int) =~= s@);
    while j > 0 && s[j - 1] == c
        invariant
            j <= s@.len(),
            strip_end(s@, c) == strip_end(s@.subrange(0, j as int), c),
        decreases j,
    {
        assert(s@.subrange(0, j as int).drop_last() =~= s@.subrange(0, j - 1));
        j = j - 1;
    }
    slice_subrange(s, 0, j)
}

/// Drops every `c` at the beginning.
pub fn drop_leading(s: &[char], c: char) -> (r: &[char])
    ensures
        r@ == strip_start(s@, c),
{
    let n: usize = s.len();
    let mut i: usize = 0;
    assert(s@.skip(0) =~= s@);
    while i < n && s[i] == c
        invariant
            n == s@.len(),
            i <= n,
            strip_start(s@, c) == strip_start(s@.skip(i as int), c),
        decreases n - i,
    {
        assert(s@.skip(i as int).drop_first() =~= s@.skip(i + 1));
        i = i + 1;
    }
    let r = slice_subrange(s, i, n);
    assert(r@ =~= s@.skip(i as int));
    r
}

// ---------------------------------------------------------------------------
// Searching
// ---------------------------------------------------------------------------

/// The position of the first `c` in `s`, or the length of `s` where there is none.
pub open spec fn first_index(s: Seq<char>, c: char) -> int
    decreases s.len(),
{
    if s.len() == 0 || s[0] == c {
        0
    } else {
        1 + first_index(s.drop_first(), c)
    }
}

/// The position of the last `c` in `s`, or -1 where there is none.
pub open spec fn last_index(s: Seq<char>, c: char) -> int
    decreases s.len(),
{
    if s.len() == 0 {
        -1
    } else if s.last() == c {
        s.len() - 1
    } else {
        last_index(s.drop_last(), c)
    }
}

/// `first_index` is the one position that holds `c` after positions that do not.
pub proof fn lemma_first_index(s: Seq<char>, c: char)
    ensures
        0 <= first_index(s, c) <= s.len(),
        first_index(s, c) < s.len() ==> s[first_index(s, c)] == c,
        forall|j: int| 0 <= j < first_index(s, c) ==> s[j] != c,
    decreases s.len(),
{
    if s.len() > 0 && s[0] != c {
        lemma_first_index(s.drop_first(), c);
        assert forall|j: int| 0 <= j < first_index(s, c) implies s[j] != c by {
            if j > 0 {
                assert(s.drop_first()[j - 1] == s[j]);
            }
        }
    }
}

/// `last_index` is the one position that holds `c` before positions that do not.
pub proof fn lemma_last_index(s: Seq<char>, c: char)
    ensures
        -1 <= last_index(s, c) < s.len(),
        last_index(s, c) >= 0 ==> s[last_index(s, c)] == c,
        forall|j: int| last_index(s, c) < j < s.len() ==> s[j] != c,
    decreases s.len(),
{
    if s.len() > 0 && s.last() != c {
        lemma_last_index(s.drop_last(), c);
        assert forall|j: int| last_index(s, c) < j < s.len() implies s[j] != c by {
            if j < s.len() - 1 {
                assert(s.drop_last()[j] == s[j]);
            }
        }
    }
}

/// The position of the first `c`, if any.
pub fn find(s: &[char], c: char) -> (r: Option<usize>)
    ensures
        r is Some <==> s@.contains(c),
        r is Some <==> first_index(s@, c) < s@.len(),
        r matches Some(i) ==> i == first_index(s@, c) && i < s@.len(),
{
    proof {
        lemma_first_index(s@, c);
    }
    let mut i: usize = 0;
    while i < s.len()
        invariant
            i <= s@.len(),
            forall|j: int| 0 <= j < i ==> s@[j] != c,
            0 <= first_index(s@, c) <= s@.len(),
            first_index(s@, c) < s@.len() ==> s@[first_index(s@, c)] == c,
            forall|j: int| 0 <= j < first_index(s@, c) ==> s@[j] != c,
        decreases s@.len() - i,
    {
        if s[i] == c {
            assert(s@.contains(c));
            return Some(i);
        }
        i = i + 1;
    }
    None
}

/// The position of the last `c`, if any.
pub fn rfind(s: &[char], c: char) -> (r: Option<usize>)
    ensures
        r is Some <==> s@.contains(c),
        r is Some <==> last_index(s@, c) >= 0,
        r matches Some(i) ==> i == last_index(s@, c) && i < s@.len(),
{
    proof {
        lemma_last_index(s@, c);
    }
    let mut i: usize = s.len();
    while i > 0
        invariant
            i <= s@.len(),
            forall|j: int| i <= j < s@.len() ==> s@[j] != c,
            -1 <= last_index(s@, c) < s@.len(),
            last_index(s@, c) >= 0 ==> s@[last_index(s@, c)] == c,
            forall|j: int| last_index(s@, c) < j < s@.len() ==> s@[j] != c,
        decreases i,
    {
        i = i - 1;
        if s[i] == c {
            assert(s@.contains(c));
            return Some(i);
        }
    }
    None
}

/// What stands before the first `c` of `s` (all of `s` where there is none).
pub open spec fn before(s: Seq<char>, c: char) -> Seq<char> {
    s.take(first_index(s, c))
}

/// What stands after the first `c` of `s`.
pub open spec fn after(s: Seq<char>, c: char) -> Seq<char> {
    s.skip(first_index(s, c) + 1)
}

/// What stands before the first `c`.
pub fn take_before(s: &[char], c: char) -> (r: &[char])
    ensures
        r@ == before(s@, c),
{
    proof {
        lemma_first_index(s@, c);
    }
    match find(s, c) {
        Some(i) => slice_subrange(s, 0, i),
        None => slice_subrange(s, 0, s.len()),
    }
}

/// Cuts `s` at its first `c`.
pub fn split_once(s: &[char], c: char) -> (r: Option<(&[char], &[char])>)
    ensures
        r is Some <==> s@.contains(c),
        r matches Some(p) ==> p.0@ == before(s@, c) && p.1@ == after(s@, c),
{
    match find(s, c) {
        Some(i) => {
            let n: usize = s.len();
            let a = slice_subrange(s, 0, i);
            let b = slice_subrange(s, i + 1, n);
            assert(b@ =~= after(s@, c));
            Some((a, b))
        },
        None => None,
    }
}

// ---------------------------------------------------------------------------
// Cutting into parts
// ---------------------------------------------------------------------------

/// A text that may be missing.
pub open spec fn some_text(o: Option<String>) -> Option<Seq<char>> {
    match o {
        Some(s) => Some(s@),
        None => None,
    }
}

/// The views of the items of a sequence.
pub open spec fn views<T: View>(v: Seq<T>) -> Seq<T::V> {
    Seq::new(v.len(), |i: int| v[i]@)
}

/// The parts of `s` between one `c` and the next: one part more than `s` has `c`s.
pub open spec fn pieces(s: Seq<char>, c: char) -> Seq<Seq<char>>
    decreases s.len(),
{
    if s.len() == 0 {
        seq![Seq::<char>::empty()]
    } else {
        let p = pieces(s.drop_last(), c);
        if s.last() == c {
            p.push(Seq::empty())
        } else {
            p.drop_last().push(p.last().push(s.last()))
        }
    }
}

/// There is always at least one part.
pub proof fn lemma_pieces_nonempty(s: Seq<char>, c: char)
    ensures
        pieces(s, c).len() >= 1,
    decreases s.len(),
{
    if s.len() > 0 {
        lemma_pieces_nonempty(s.drop_last(), c);
    }
}

/// The parts, with `c` put back between them.
pub open spec fn joined(p: Seq<Seq<char>>, c: char) -> Seq<char>
    decreases p.len(),
{
    if p.len() == 0 {
        Seq::empty()
    } else if p.len() == 1 {
        p[0]
    } else {
        joined(p.drop_last(), c).push(c) + p.last()
    }
}

/// Cutting loses nothing: no part holds the separator, and the parts joined by it are
/// the text again.
pub proof fn lemma_pieces(s: Seq<char>, c: char)
    ensures
        pieces(s, c).len() >= 1,
        joined(pieces(s, c), c) == s,
        forall|i: int| 0 <= i < pieces(s, c).len() ==> !(#[trigger] pieces(s, c)[i]).contains(c),
    decreases s.len(),
{
    if s.len() > 0 {
        let t = s.drop_last();
        lemma_pieces(t, c);
        let p = pieces(t, c);
        let q = pieces(s, c);
        assert(s =~= t.push(s.last()));
        if s.last() == c {
            assert(q.drop_last() =~= p);
            assert(joined(q, c) =~= joined(p, c).push(c) + Seq::<char>::empty());
            assert(joined(q, c) =~= s);
        } else {
            assert(q.drop_last() =~= p.drop_last());
            if p.len() > 1 {
                assert(joined(q, c) =~= joined(p, c).push(s.last()));
            }
            assert forall|i: int| 0 <= i < q.len() implies !(#[trigger] q[i]).contains(c) by {
                if i < q.len() - 1 {
                    assert(q[i] == p[i]);
                } else {
                    assert(!p.last().contains(c)) by {
                        assert(!p[p.len() - 1].contains(c));
                    }
                    if q[i].contains(c) {
                        let k = choose|k: int| 0 <= k < q[i].len() && q[i][k] == c;
                        if k < p.last().len() {
                            assert(p.last()[k] == c);
                        }
                    }
                }
            }
        }
    }
}

/// Two texts with the separator between them have the parts of the one and then those of the other.
pub proof fn lemma_pieces_of_two(a: Seq<char>, b: Seq<char>, c: char)
    ensures
        pieces(a.push(c) + b, c) == pieces(a, c) + pieces(b, c),
    decreases b.len(),
{
    let s = a.push(c) + b;
    if b.len() == 0 {
        assert(s.drop_last() =~= a);
        assert(pieces(s, c) =~= pieces(a, c) + pieces(b, c));
    } else {
        lemma_pieces_of_two(a, b.drop_last(), c);
        lemma_pieces_nonempty(b.drop_last(), c);
        assert(s.drop_last() =~= a.push(c) + b.drop_last());
        let p = pieces(a, c);
        let q = pieces(b.drop_last(), c);
        assert((p + q).last() == q.last());
        assert((p + q).drop_last() =~= p + q.drop_last());
        assert(pieces(s, c) =~= p + pieces(b, c));
    }
}

/// Cuts `s` at every `c`.
pub fn split(s: &[char], c: char) -> (r: Vec<&[char]>)
    ensures
        views(r@) == pieces(s@, c),
        r@.len() >= 1,
{
    let n: usize = s.len();
    let mut done: Vec<&[char]> = Vec::new();
    let mut start: usize = 0;
    let mut i: usize = 0;
    assert(s@.take(0) =~= Seq::<char>::empty());
    assert(views(done@).push(s@.subrange(0, 0)) =~= pieces(s@.take(0), c));
    while i < n
        invariant
            n == s@.len(),
            start <= i <= n,
            views(done@).push(s@.subrange(start as int, i as int)) == pieces(s@.take(i as int), c),
        decreases n - i,
    {
        let ghost prev = views(done@);
        assert(s@.take(i + 1).drop_last() =~= s@.take(i as int));
        if s[i] == c {
            done.push(slice_subrange(s, start, i));
            assert(views(done@) =~= prev.push(s@.subrange(start as int, i as int)));
            start = i + 1;
            assert(s@.subrange(start as int, i + 1) =~= Seq::<char>::empty());
        } else {
            assert(prev.push(s@.subrange(start as int, i as int)).drop_last() =~= prev);
            assert(s@.subrange(start as int, i as int).push(s@[i as int]) =~= s@.subrange(
                start as int,
                i + 1,
            ));
        }
        i = i + 1;
    }
    let ghost prev = views(done@);
    done.push(slice_subrange(s, start, n));
    assert(s@.take(n as int) =~= s@);
    assert(views(done@) =~= prev.push(s@.subrange(start as int, n as int)));
    done
}

/// The complete words of `s`, and the word that `s` breaks off in.
pub open spec fn word_scan(s: Seq<char>) -> (Seq<Seq<char>>, Seq<char>)
    decreases s.len(),
{
    if s.len() == 0 {
        (Seq::empty(), Seq::empty())
    } else {
        let (done, cur) = word_scan(s.drop_last());
        if is_space(s.last()) {
            (if cur.len() > 0 { done.push(cur) } else { done }, Seq::empty())
        } else {
            (done, cur.push(s.last()))
        }
    }
}

/// The words of `s`: its longest runs of characters other than white space.
pub open spec fn words(s: Seq<char>) -> Seq<Seq<char>> {
    let (done, cur) = word_scan(s);
    if cur.len() > 0 {
        done.push(cur)
    } else {
        done
    }
}

/// `s` without its white space.
pub open spec fn without_space(s: Seq<char>) -> Seq<char>
    decreases s.len(),
{
    if s.len() == 0 {
        s
    } else if is_space(s.last()) {
        without_space(s.drop_last())
    } else {
        without_space(s.drop_last()).push(s.last())
    }
}

/// The texts in `p`, one behind the other.
pub open spec fn concatenated(p: Seq<Seq<char>>) -> Seq<char>
    decreases p.len(),
{
    if p.len() == 0 {
        Seq::empty()
    } else {
        concatenated(p.drop_last()) + p.last()
    }
}

/// What a word is: it is not empty and holds no white space.
pub open spec fn is_word(w: Seq<char>) -> bool {
    w.len() > 0 && forall|j: int| 0 <= j < w.len() ==> !is_space(#[trigger] w[j])
}

proof fn lemma_word_scan(s: Seq<char>)
    ensures
        concatenated(word_scan(s).0) + word_scan(s).1 == without_space(s),
        forall|i: int| 0 <= i < word_scan(s).0.len() ==> is_word(#[trigger] word_scan(s).0[i]),
        word_scan(s).1.len() > 0 ==> is_word(word_scan(s).1),
    decreases s.len(),
{
    if s.len() > 0 {
        lemma_word_scan(s.drop_last());
        let (done, cur) = word_scan(s.drop_last());
        let (d, k) = word_scan(s);
        if is_space(s.last()) {
            if cur.len() > 0 {
                assert(d.drop_last() =~= done);
            }
            assert(concatenated(d) + k =~= concatenated(done) + cur);
        } else {
            assert(concatenated(d) + k =~= (concatenated(done) + cur).push(s.last()));
            assert forall|j: int| 0 <= j < k.len() implies !is_space(#[trigger] k[j]) by {
                if j < cur.len() {
                    assert(k[j] == cur[j]);
                }
            }
        }
    } else {
        assert(concatenated(word_scan(s).0) + word_scan(s).1 =~= without_space(s));
    }
}

/// The words hold every character of the text but its white space, in order.
pub proof fn lemma_words(s: Seq<char>)
    ensures
        concatenated(words(s)) == without_space(s),
        forall|i: int| 0 <= i < words(s).len() ==> is_word(#[trigger] words(s)[i]),
{
    lemma_word_scan(s);
    let (done, cur) = word_scan(s);
    if cur.len() > 0 {
        assert(words(s).drop_last() =~= done);
    } else {
        assert(concatenated(done) + cur =~= concatenated(done));
    }
}

/// Cuts `s` into its words.
pub fn split_words(s: &[char]) -> (r: Vec<&[char]>)
    ensures
        views(r@) == words(s@),
{
    let n: usize = s.len();
    let mut done: Vec<&[char]> = Vec::new();
    let mut start: usize = 0;
    let mut i: usize = 0;
    assert(s@.take(0) =~= Seq::<char>::empty());
    assert(views(done@) =~= word_scan(s@.take(0)).0);
    assert(s@.subrange(0, 0) =~= word_scan(s@.take(0)).1);
    while i < n
        invariant
            n == s@.len(),
            start <= i <= n,
            word_scan(s@.take(i as int)) == (views(done@), s@.subrange(start as int, i as int)),
        decreases n - i,
    {
        let ghost prev = views(done@);
        assert(s@.take(i + 1).drop_last() =~= s@.take(i as int));
        if is_space(s[i]) {
            if start < i {
                done.push(slice_subrange(s, start, i));
                assert(views(done@) =~= prev.push(s@.subrange(start as int, i as int)));
            }
            start = i + 1;
            assert(s@.subrange(start as int, i + 1) =~= Seq::<char>::empty());
        } else {
            assert(s@.subrange(start as int, i as int).push(s@[i as int]) =~= s@.subrange(
                start as int,
                i + 1,
            ));
        }
        i = i + 1;
    }
    let ghost prev = views(done@);
    assert(s@.take(n as int) =~= s@);
    if start < n {
        done.push(slice_subrange(s, start, n));
        assert(views(done@) =~= prev.push(s@.subrange(start as int, n as int)));
    }
    done
}

/// `s` without the carriage return that it may end with.
pub open spec fn without_cr(s: Seq<char>) -> Seq<char> {
    if s.len() > 0 && s.last() == '\r' {
        s.drop_last()
    } else {
        s
    }
}

/// The carriage return at the end of a line belongs to no word.
pub proof fn lemma_words_without_cr(s: Seq<char>)
    ensures
        words(without_cr(s)) == words(s),
{
}

/// The lines of `s`. A line ends with a line feed, which a carriage return may precede;
/// the last line may lack its ending, and what follows the last line feed is a line
/// only where it is not empty.
pub open spec fn lines(s: Seq<char>) -> Seq<Seq<char>> {
    let p = pieces(s, '\n');
    let ended = Seq::new((p.len() - 1) as nat, |i: int| without_cr(p[i]));
    if p.last().len() > 0 {
        ended.push(p.last())
    } else {
        ended
    }
}

/// Cuts `s` into its lines.
pub fn split_lines(s: &[char]) -> (r: Vec<&[char]>)
    ensures
        views(r@) == lines(s@),
{
    let p = split(s, '\n');
    let ghost ps = pieces(s@, '\n');
    let mut out: Vec<&[char]> = Vec::new();
    let last: usize = p.len() - 1;
    let mut i: usize = 0;
    while i < last
        invariant
            views(p@) == ps,
            last + 1 == p@.len(),
            i <= last,
            views(out@) == Seq::new(i as nat, |j: int| without_cr(ps[j])),
        decreases last - i,
    {
        let ghost prev = views(out@);
        let line: &[char] = p[i];
        assert(ps[i as int] == line@);
        let n: usize = line.len();
        if n > 0 && line[n - 1] == '\r' {
            let cut = slice_subrange(line, 0, n - 1);
            assert(cut@ =~= line@.drop_last());
            out.push(cut);
        } else {
            out.push(line);
        }
        assert(views(out@) =~= prev.push(without_cr(ps[i as int])));
        i = i + 1;
        assert(views(out@) =~= Seq::new(i as nat, |j: int| without_cr(ps[j])));
    }
    assert(ps.last() == p@[last as int]@);
    if p[last].len() > 0 {
        let ghost prev = views(out@);
        out.push(p[last]);
        assert(views(out@) =~= prev.push(ps.last()));
    }
    out
}

// ---------------------------------------------------------------------------
// Building
// ---------------------------------------------------------------------------

/// `a` followed by `b`.
pub fn concat2(a: &str, b: &str) -> (r: String)
    ensures
        r@ == a@ + b@,
{
    let mut s = a.to_string();
    s.append(b);
    s
}

/// `a`, `b` and `c`, one behind the other.
pub fn concat3(a: &str, b: &str, c: &str) -> (r: String)
    ensures
        r@ == a@ + b@ + c@,
{
    let mut s = a.to_string();
    s.append(b);
    s.append(c);
    s
}

/// A text without carriage returns and line feeds.
pub open spec fn on_one_line(s: Seq<char>) -> Seq<char>
    decreases s.len(),
{
    if s.len() == 0 {
        s
    } else if s.last() == '\r' || s.last() == '\n' {
        on_one_line(s.drop_last())
    } else {
        on_one_line(s.drop_last()).push(s.last())
    }
}

/// A text without its carriage returns and line feeds.
pub fn without_line_ends(v: &[char]) -> (out: Vec<char>)
    ensures
        out@ == on_one_line(v@),
{
    let mut out: Vec<char> = Vec::new();
    let mut i: usize = 0;
    assert(v@.take(0) =~= Seq::empty());
    while i < v.len()
        invariant
            i <= v@.len(),
            out@ == on_one_line(v@.take(i as int)),
        decreases v@.len() - i,
    {
        assert(v@.take(i + 1).drop_last() =~= v@.take(i as int));
        if v[i] != '\r' && v[i] != '\n' {
            out.push(v[i]);
        }
        i = i + 1;
    }
    assert(v@.take(i as int) =~= v@);
    out
}

/// No carriage return and no line feed is left.
pub proof fn lemma_on_one_line(s: Seq<char>)
    ensures
        forall|i: int|
            0 <= i < on_one_line(s).len() ==> #[trigger] on_one_line(s)[i] != '\r' && on_one_line(
                s,
            )[i] != '\n',
    decreases s.len(),
{
    if s.len() > 0 {
        let o = on_one_line(s.drop_last());
        lemma_on_one_line(s.drop_last());
        assert forall|i: int| 0 <= i < on_one_line(s).len() implies #[trigger] on_one_line(s)[i]
            != '\r' && on_one_line(s)[i] != '\n' by {
            if i < o.len() {
                assert(on_one_line(s)[i] == o[i]);
            }
        }
    }
}

/// A text with every `c` in it twice.
pub open spec fn doubled(s: Seq<char>, c: char) -> Seq<char>
    decreases s.len(),
{
    if s.len() == 0 {
        s
    } else if s.last() == c {
        doubled(s.drop_last(), c) + seq![c, c]
    } else {
        doubled(s.drop_last(), c).push(s.last())
    }
}

/// A text with every pair of `c` in it as one.
pub open spec fn undoubled(s: Seq<char>, c: char) -> Seq<char>
    decreases s.len(),
{
    if s.len() == 0 {
        s
    } else if s.len() >= 2 && s.last() == c && s[s.len() - 2] == c {
        undoubled(s.take(s.len() - 2), c).push(c)
    } else {
        undoubled(s.drop_last(), c).push(s.last())
    }
}

/// A text with every `c` in it twice.
pub fn double_chars(v: &[char], c: char) -> (r: String)
    ensures
        r@ == doubled(v@, c),
{
    let mut out = String::new();
    let mut k: usize = 0;
    assert(v@.take(0) =~= Seq::empty());
    assert(out@ =~= doubled(v@.take(0), c));
    while k < v.len()
        invariant
            k <= v@.len(),
            out@ == doubled(v@.take(k as int), c),
        decreases v@.len() - k,
    {
        assert(v@.take(k + 1).drop_last() =~= v@.take(k as int));
        out.push(v[k]);
        if v[k] == c {
            out.push(c);
        }
        assert(out@ =~= doubled(v@.take(k + 1), c));
        k = k + 1;
    }
    assert(v@.take(k as int) =~= v@);
    out
}

/// Doubling can be undone, and adds no new characters.
pub proof fn lemma_doubled(s: Seq<char>, c: char)
    ensures
        undoubled(doubled(s, c), c) == s,
        forall|i: int|
            0 <= i < doubled(s, c).len() ==> s.contains(#[trigger] doubled(s, c)[i]),
    decreases s.len(),
{
    if s.len() > 0 {
        let d = doubled(s.drop_last(), c);
        let e = doubled(s, c);
        lemma_doubled(s.drop_last(), c);
        if s.last() == c {
            assert(e.take(e.len() - 2) =~= d);
        } else {
            assert(e.drop_last() =~= d);
        }
        assert(s =~= s.drop_last().push(s.last()));
        assert forall|i: int| 0 <= i < e.len() implies s.contains(#[trigger] e[i]) by {
            if i < d.len() {
                assert(e[i] == d[i]);
                let j = choose|j: int| 0 <= j < s.drop_last().len() && s.drop_last()[j] == d[i];
                assert(s[j] == d[i]);
            } else {
                assert(e[i] == s[s.len() - 1]);
            }
        }
    }
}

} // verus!
