//! Character-level helpers on text, stated over `Seq<char>`.
use vstd::prelude::*;

verus! {

/// The code points with the Unicode `White_Space` property.
pub open spec fn is_space(c: char) -> bool {
    ||| ('\u{9}' <= c && c <= '\u{d}')
    ||| c == ' '
    ||| c == '\u{85}'
    ||| c == '\u{a0}'
    ||| c == '\u{1680}'
    ||| ('\u{2000}' <= c && c <= '\u{200a}')
    ||| c == '\u{2028}'
    ||| c == '\u{2029}'
    ||| c == '\u{202f}'
    ||| c == '\u{205f}'
    ||| c == '\u{3000}'
}

/// `s` without its trailing whitespace.
pub open spec fn trim_end_spaces(s: Seq<char>) -> Seq<char>
    decreases s.len(),
{
    if s.len() > 0 && is_space(s.last()) {
        trim_end_spaces(s.drop_last())
    } else {
        s
    }
}

/// Text that does not end in whitespace.
pub open spec fn no_trailing_space(s: Seq<char>) -> bool {
    s.len() == 0 || !is_space(s.last())
}

/// Relies on `char::is_whitespace`: true exactly on the `White_Space` code points.
#[verifier::external_body]
pub(crate) fn char_is_space(c: char) -> (r: bool)
    ensures
        r == is_space(c),
{
    c.is_whitespace()
}

/// Relies on `String::push`: appends one character.
#[verifier::external_body]
pub(crate) fn push_char(s: &mut String, c: char)
    ensures
        final(s)@ == old(s)@.push(c),
{
    s.push(c)
}

/// Relies on `str::trim_end`: removes trailing `White_Space` characters only.
#[verifier::external_body]
pub(crate) fn trim_end(s: &str) -> (r: &str)
    ensures
        r@ == trim_end_spaces(s@),
{
    s.trim_end()
}

/// Trimming leaves no trailing whitespace.
pub proof fn lemma_trim_end_no_trailing_space(s: Seq<char>)
    ensures
        no_trailing_space(trim_end_spaces(s)),
    decreases s.len(),
{
    if s.len() > 0 && is_space(s.last()) {
        lemma_trim_end_no_trailing_space(s.drop_last());
    }
}

} // verus!
