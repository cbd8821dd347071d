//! JSON texts.

use crate::common::hex_char;
use crate::text::{some_text, views};
use vstd::prelude::*;
use vstd::string::*;

verus! {

/// How `c` is written between the quotes of a JSON string: a quote, a backslash and the
/// control characters below U+0020 are escaped, everything else stands for itself.
pub open spec fn json_escape(c: char) -> Seq<char> {
    if c == '"' {
        seq!['\\', '"']
    } else if c == '\\' {
        seq!['\\', '\\']
    } else if c == '\u{8}' {
        seq!['\\', 'b']
    } else if c == '\u{c}' {
        seq!['\\', 'f']
    } else if c == '\n' {
        seq!['\\', 'n']
    } else if c == '\r' {
        seq!['\\', 'r']
    } else if c == '\t' {
        seq!['\\', 't']
    } else if c <= '\u{1f}' {
        seq!['\\', 'u', '0', '0', hex_char(c as int / 16), hex_char(c as int % 16)]
    } else {
        seq![c]
    }
}

/// The text `s` as it stands between the quotes of a JSON string.
pub open spec fn json_escaped(s: Seq<char>) -> Seq<char>
    decreases s.len(),
{
    if s.len() == 0 {
        Seq::empty()
    } else {
        json_escape(s[0]) + json_escaped(s.drop_first())
    }
}

/// The text `s` as a JSON string.
pub open spec fn json_quoted(s: Seq<char>) -> Seq<char> {
    seq!['"'] + json_escaped(s) + seq!['"']
}

/// `Value::to_string` on a `serde_json` string value writes the text between quotes, with the
/// escapes that [`json_escape`] lists.
#[verifier::external_body]
pub(crate) fn json_string(s: &str) -> (r: String)
    ensures
        r@ == json_quoted(s@),
{
    serde_json::Value::String(s.to_string()).to_string()
}

proof fn lemma_escape_printable(c: char)
    ensures
        forall|i: int| 0 <= i < json_escape(c).len() ==> #[trigger] json_escape(c)[i] > '\u{1f}',
{
    if c <= '\u{1f}' {
        assert(0 <= c as int / 16 < 2 && 0 <= c as int % 16 < 16);
        assert(hex_char(c as int / 16) > '\u{1f}');
        assert(hex_char(c as int % 16) > '\u{1f}');
    }
}

/// No control character below U+0020 stands in a JSON string.
pub proof fn lemma_json_printable(s: Seq<char>)
    ensures
        forall|i: int| 0 <= i < json_escaped(s).len() ==> #[trigger] json_escaped(s)[i] > '\u{1f}',
    decreases s.len(),
{
    if s.len() > 0 {
        let t = s.drop_first();
        lemma_json_printable(t);
        lemma_escape_printable(s[0]);
        let e = json_escape(s[0]);
        let out = json_escaped(s);
        assert forall|i: int| 0 <= i < out.len() implies #[trigger] out[i] > '\u{1f}' by {
            if i < e.len() {
                assert(out[i] == e[i]);
            } else {
                assert(out[i] == json_escaped(t)[i - e.len()]);
            }
        }
    }
}

proof fn lemma_control_digits(x: char, y: char)
    requires
        x <= '\u{1f}',
        y <= '\u{1f}',
        hex_char(x as int / 16) == hex_char(y as int / 16),
        hex_char(x as int % 16) == hex_char(y as int % 16),
    ensures
        x == y,
{
    let (a, b, c, d) = (x as int / 16, x as int % 16, y as int / 16, y as int % 16);
    assert(x as int == 16 * a + b && y as int == 16 * c + d);
    assert(0 <= a < 2 && 0 <= c < 2 && 0 <= b < 16 && 0 <= d < 16);
}

/// Different texts are written differently, so that a text cannot end its string early.
pub proof fn lemma_json_injective(a: Seq<char>, b: Seq<char>)
    requires
        json_escaped(a) == json_escaped(b),
    ensures
        a == b,
    decreases a.len(),
{
    if a.len() == 0 {
        if b.len() > 0 {
            assert(json_escape(b[0]).len() > 0);
            assert(json_escaped(b).len() > 0);
        }
        assert(a =~= b);
    } else if b.len() == 0 {
        assert(json_escape(a[0]).len() > 0);
        assert(json_escaped(a).len() > 0);
    } else {
        let (x, y) = (a[0], b[0]);
        let (ex, ey) = (json_escape(x), json_escape(y));
        let out = json_escaped(a);
        assert forall|i: int| 0 <= i < ex.len() implies ex[i] == out[i] by {}
        assert forall|i: int| 0 <= i < ey.len() implies ey[i] == json_escaped(b)[i] by {}
        assert(ex[0] == out[0] && ey[0] == out[0]);
        if out[0] == '\\' {
            assert(ex[1] == out[1] && ey[1] == out[1]);
            if out[1] == 'u' {
                assert(ex[4] == out[4] && ey[4] == out[4]);
                assert(ex[5] == out[5] && ey[5] == out[5]);
                lemma_control_digits(x, y);
            }
        }
        assert(x == y);
        assert(json_escaped(a.drop_first()) =~= out.skip(ex.len() as int));
        assert(json_escaped(b.drop_first()) =~= out.skip(ey.len() as int));
        lemma_json_injective(a.drop_first(), b.drop_first());
        assert(a =~= seq![x] + a.drop_first());
        assert(b =~= seq![y] + b.drop_first());
    }
}

/// Texts as JSON strings, with commas between them.
pub open spec fn json_items(v: Seq<Seq<char>>) -> Seq<char>
    decreases v.len(),
{
    if v.len() == 0 {
        Seq::empty()
    } else if v.len() == 1 {
        json_quoted(v[0])
    } else {
        json_items(v.drop_last()) + seq![','] + json_quoted(v.last())
    }
}

/// Texts as a JSON list.
pub open spec fn json_list(v: Seq<Seq<char>>) -> Seq<char> {
    seq!['['] + json_items(v) + seq![']']
}

/// Texts as a JSON list.
pub fn json_strings(v: &[String]) -> (r: String)
    ensures
        r@ == json_list(views(v@)),
{
    let ghost all = views(v@);
    let mut s = String::new();
    s.push('[');
    let mut i: usize = 0;
    assert(all.take(0) =~= Seq::empty());
    while i < v.len()
        invariant
            all == views(v@),
            i <= v@.len(),
            s@ == seq!['['] + json_items(all.take(i as int)),
        decreases v@.len() - i,
    {
        assert(all.take(i + 1).drop_last() =~= all.take(i as int));
        assert(all.take(i + 1).last() == v@[i as int]@);
        let ghost before = s@;
        if i > 0 {
            s.push(',');
        }
        let q = json_string(v[i].as_str());
        s.append(q.as_str());
        assert(s@ =~= seq!['['] + json_items(all.take(i + 1)));
        i = i + 1;
    }
    assert(all.take(i as int) =~= all);
    s.push(']');
    assert(s@ =~= json_list(all));
    s
}

/// The texts that a JSON text lists, where it is a list of strings.
pub uninterp spec fn json_listed(text: Seq<char>) -> Option<Seq<Seq<char>>>;

/// The view of texts that may be missing.
pub open spec fn texts_view(o: Option<Vec<String>>) -> Option<Seq<Seq<char>>> {
    match o {
        Some(v) => Some(views(v@)),
        None => None,
    }
}

/// `serde_json::from_str` into a list of strings: a function of the text; it reads back every list
/// that [`json_list`] writes.
#[verifier::external_body]
pub(crate) fn read_strings(text: &str) -> (r: Option<Vec<String>>)
    ensures
        texts_view(r) == json_listed(text@),
        forall|v: Seq<Seq<char>>| text@ == #[trigger] json_list(v) ==> texts_view(r) == Some(v),
{
    serde_json::from_str::<Vec<String>>(text).ok()
}

/// The string that a JSON text holds under a key, where it is an object with one there.
pub uninterp spec fn json_member(text: Seq<char>, key: Seq<char>) -> Option<Seq<char>>;

/// `serde_json::from_str` into a value, and the string that it holds under a key: a function of the
/// text and the key.
#[verifier::external_body]
pub(crate) fn read_member(text: &str, key: &str) -> (r: Option<String>)
    ensures
        some_text(r) == json_member(text@, key@),
{
    let v: serde_json::Value = serde_json::from_str(text).ok()?;
    v.get(key)?.as_str().map(|s| s.to_string())
}

} // verus!
