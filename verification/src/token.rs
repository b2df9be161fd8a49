//! Cleaning of numeric text fields, and the test for blank fields.

use vstd::prelude::*;

verus! {

/// Whether `c` has Unicode's White_Space property, as
/// `char::is_whitespace` reports it.
pub uninterp spec fn white_space(c: char) -> bool;

/// `char::is_whitespace`: std documents it as the test for the White_Space
/// property of the Unicode character database; the set itself is left to
/// std, under the name [`white_space`].
pub assume_specification[ char::is_whitespace ](c: char) -> (b: bool)
    ensures
        b == white_space(c),
;

/// `String::push`: appends one character to the end of the string.
pub assume_specification[ String::push ](s: &mut String, ch: char)
    ensures
        final(s)@ == old(s)@.push(ch),
;

/// A character that may occur in a decimal number: an ASCII digit, the
/// decimal point or the minus sign.
pub open spec fn is_number_char(c: char) -> bool {
    ('0' <= c && c <= '9') || c == '.' || c == '-'
}

/// `text` without the characters that are not number characters, the others
/// in their order.
pub open spec fn cleaned(text: Seq<char>) -> Seq<char> {
    text.filter(|c: char| is_number_char(c))
}

/// A field with nothing in it but white space; the empty field is blank.
pub open spec fn blank(text: Seq<char>) -> bool {
    forall|i: int| 0 <= i < text.len() ==> white_space(#[trigger] text[i])
}

/// Whether `c` may occur in a decimal number.
pub fn number_char(c: char) -> (b: bool)
    ensures
        b == is_number_char(c),
{
    ('0' <= c && c <= '9') || c == '.' || c == '-'
}

/// Strips from a field whatever is not an ASCII digit, `.` or `-`: letters,
/// quotes, white space, thousands separators, units. What is left keeps its
/// order. Nothing checks that the outcome is a well-formed number.
pub fn clean_number_string(s: &str) -> (out: String)
    ensures
        out@ == cleaned(s@),
        forall|i: int| 0 <= i < out@.len() ==> is_number_char(#[trigger] out@[i]),
{
    let mut out = String::new();
    proof {
        reveal(Seq::filter);
    }
    for c in it: s.chars()
        invariant
            it.seq() == s@,
            out@ == cleaned(s@.take(it.index() as int)),
    {
        proof {
            reveal(Seq::filter);
            assert(s@.take(it.index() + 1).drop_last() == s@.take(it.index() as int));
            assert(s@.take(it.index() + 1).last() == c);
        }
        if number_char(c) {
            out.push(c);
        }
    }
    proof {
        assert(s@.take(s@.len() as int) == s@);
        assert forall|k: int| 0 <= k < out@.len() implies is_number_char(#[trigger] out@[k]) by {
            s@.lemma_filter_pred(|c: char| is_number_char(c), k);
        }
    }
    out
}

/// Whether a field is empty or holds white space only.
pub fn is_blank(s: &str) -> (b: bool)
    ensures
        b == blank(s@),
{
    for c in it: s.chars()
        invariant
            it.seq() == s@,
            blank(s@.take(it.index() as int)),
    {
        if !c.is_whitespace() {
            return false;
        }
        proof {
            assert forall|k: int| 0 <= k < it.index() + 1 implies white_space(
                #[trigger] s@.take(it.index() + 1)[k],
            ) by {
                if k < it.index() {
                    assert(s@.take(it.index() as int)[k] == s@[k]);
                }
            }
        }
    }
    proof {
        assert(s@.take(s@.len() as int) == s@);
    }
    true
}

} // verus!
