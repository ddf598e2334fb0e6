//! Captured output as text: decoding it, and cutting the white space off its end.

use vstd::prelude::*;
use vstd::string::*;

verus! {

/// Whether `c` is white space, as `char::is_whitespace` says.
pub uninterp spec fn is_whitespace(c: char) -> bool;

/// The text that `String::from_utf8_lossy` makes of `bytes`.
pub uninterp spec fn lossy_text(bytes: Seq<u8>) -> Seq<char>;

/// The white space of ASCII: tab, line feed, vertical tab, form feed,
/// carriage return and space.
pub open spec fn is_ascii_space(c: char) -> bool {
    ('\u{9}' <= c && c <= '\u{d}') || c == ' '
}

/// Whether `c` counts as white space: among the ASCII characters the six of
/// `is_ascii_space`, beyond them what `is_whitespace` says.
pub open spec fn is_space(c: char) -> bool {
    if c <= '\u{7f}' {
        is_ascii_space(c)
    } else {
        is_whitespace(c)
    }
}

/// Every byte of `bytes` is ASCII.
pub open spec fn all_ascii(bytes: Seq<u8>) -> bool {
    forall|i: int| 0 <= i < bytes.len() ==> #[trigger] bytes[i] < 0x80
}

/// ASCII bytes as text: each byte is the character of that number.
pub open spec fn ascii_text(bytes: Seq<u8>) -> Seq<char> {
    Seq::new(bytes.len(), |i: int| bytes[i] as char)
}

/// The text that captured bytes are shown as: ASCII bytes as they are,
/// others as `lossy_text` decodes them.
pub open spec fn decoded_text(bytes: Seq<u8>) -> Seq<char> {
    if all_ascii(bytes) {
        ascii_text(bytes)
    } else {
        lossy_text(bytes)
    }
}

/// `s` without the white space at its end.
pub open spec fn trimmed_end(s: Seq<char>) -> Seq<char>
    decreases s.len(),
{
    if s.len() > 0 && is_space(s.last()) {
        trimmed_end(s.drop_last())
    } else {
        s
    }
}

/// Calls `char::is_whitespace`. Trusted: the answer depends on the character
/// alone, so it has a name, `is_whitespace`. Of the ASCII characters it is
/// claimed that the white space among them is tab to carriage return, and
/// space; of the others nothing is claimed.
#[verifier::external_body]
fn char_is_whitespace(c: char) -> (r: bool)
    ensures
        r == is_whitespace(c),
        c <= '\u{7f}' ==> r == is_ascii_space(c),
{
    c.is_whitespace()
}

/// Calls `String::from_utf8_lossy`. Trusted: the text depends on the bytes
/// alone, so it has a name, `lossy_text`. Of ASCII bytes it is claimed that
/// they are kept as they are, being valid UTF-8; of other bytes nothing is
/// claimed.
#[verifier::external_body]
pub(crate) fn decode_lossy(bytes: &[u8]) -> (r: String)
    ensures
        r@ == lossy_text(bytes@),
        all_ascii(bytes@) ==> r@ == ascii_text(bytes@),
{
    String::from_utf8_lossy(bytes).into_owned()
}

/// What trimming leaves is the start of the text, ends in no white space, and
/// all that was cut off is white space.
pub proof fn lemma_trimmed_end_is_longest(s: Seq<char>)
    ensures
        trimmed_end(s).len() <= s.len(),
        trimmed_end(s) == s.subrange(0, trimmed_end(s).len() as int),
        trimmed_end(s).len() > 0 ==> !is_space(trimmed_end(s).last()),
        forall|i: int| trimmed_end(s).len() <= i < s.len() ==> is_space(#[trigger] s[i]),
    decreases s.len(),
{
    if s.len() > 0 && is_space(s.last()) {
        lemma_trimmed_end_is_longest(s.drop_last());
        let t = trimmed_end(s);
        assert(t =~= s.subrange(0, t.len() as int));
        assert forall|i: int| t.len() <= i < s.len() implies is_space(#[trigger] s[i]) by {
            if i < s.len() - 1 {
                assert(s.drop_last()[i] == s[i]);
            }
        }
    } else {
        assert(s =~= s.subrange(0, s.len() as int));
    }
}

/// Cuts the white space off the end of `s`.
pub fn trim_end(s: &str) -> (r: &str)
    ensures
        r@ == trimmed_end(s@),
{
    let mut keep: usize = s.unicode_len();
    let mut more: bool = true;
    assert(s@.subrange(0, keep as int) =~= s@);
    while more && keep > 0
        invariant
            keep <= s@.len(),
            trimmed_end(s@) == trimmed_end(s@.subrange(0, keep as int)),
            !more ==> keep > 0 && !is_space(s@[keep - 1]),
        decreases keep + (if more { 1int } else { 0int }),
    {
        let c = s.get_char(keep - 1);
        if char_is_whitespace(c) {
            proof {
                let kept = s@.subrange(0, keep as int);
                assert(kept.last() == c);
                assert(kept.drop_last() =~= s@.subrange(0, keep - 1));
            }
            keep -= 1;
        } else {
            more = false;
        }
    }
    proof {
        let kept = s@.subrange(0, keep as int);
        if keep > 0 {
            assert(kept.last() == s@[keep - 1]);
        }
        assert(trimmed_end(kept) == kept);
    }
    s.substring_char(0, keep)
}

} // verus!
